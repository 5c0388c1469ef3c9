use bitdemon_services::auth::base64::decode_b64;
use bitdemon_services::auth::handler::AuthHandler;
use bitdemon_services::auth::message_type::AuthMessageType;
use bitdemon_services::auth::pid::{dwid, recall_pid, remember_pid, username};
use bitdemon_services::auth::ticket::{AuthTicket, BdAuthTicketType, UsernameTooLongError};
use bitdemon_services::auth::token::{find_pid, find_service_token, token_key_from_pid};
use bitdemon_services::auth::wiiu::{WiiUAuthHandler, WiiUAuthResponse};
use bitdemon_services::peer::{AddrMap, IpAddr, Peer};
use bitdemon_services::session::{BdSession, Title, TitleSet};
use bitdemon_services::wire::{
    BdErrorCode, BdMessage, BdReader, BdValue, BdWriter, StreamMode,
};
use tiger::Digest;

const T6_WIIU: u32 = 5710;

fn titles() -> TitleSet {
    TitleSet::new(T6_WIIU, vec![5001, 5002])
}

fn console(last: u8) -> BdSession {
    let peer = Peer {
        ip: IpAddr::V4(u32::from_be_bytes([10, 0, 0, last])),
        text: format!("10.0.0.{last}"),
    };
    BdSession::new(last as u64, Some(peer))
}

/// The base64 text of a principal id and zeros behind it, forty characters long.
fn token_of(pid: u32) -> Vec<u8> {
    const ALPHABET: &[u8; 64] = b"ABCDEFGHIJKLMNOPQRSTUVWXYZabcdefghijklmnopqrstuvwxyz0123456789+/";
    let mut bytes = pid.to_be_bytes().to_vec();
    bytes.resize(30, 0);
    let mut text = Vec::new();
    for group in bytes.chunks(3) {
        let bits = (group[0] as u32) << 16 | (group[1] as u32) << 8 | group[2] as u32;
        for shift in [18, 12, 6, 0] {
            text.push(ALPHABET[(bits >> shift & 63) as usize]);
        }
    }
    text
}

fn payload(pid: u32) -> Vec<u8> {
    let mut raw = vec![0x26, 0, 0, 0x80];
    raw.extend_from_slice(b"short run");
    raw.push(0);
    raw.extend_from_slice(&token_of(pid));
    raw.push(0);
    raw
}

fn request(raw: Vec<u8>, values: Vec<BdValue>) -> BdMessage {
    BdMessage { reader: BdReader::new(raw, values) }
}

fn full_values(seed: u32, title: u32) -> Vec<BdValue> {
    vec![BdValue::TypeChecked(true), BdValue::U32(seed), BdValue::U32(title)]
}

fn respond(raw: Vec<u8>, values: Vec<BdValue>, now: i64, pids: &mut AddrMap<u64>) -> WiiUAuthResponse {
    WiiUAuthHandler::new(titles(), AuthMessageType::WiiUForMmpReply2).respond(
        &console(1),
        request(raw, values),
        0xABCD,
        now,
        pids,
    )
}

#[test]
fn message_codes() {
    assert_eq!(AuthMessageType::CreateAccountRequest.to_u8(), 0);
    assert_eq!(AuthMessageType::SteamForMmpRequest.to_u8(), 0x1C);
    assert_eq!(AuthMessageType::WiiUForMmpRequest2.to_u8(), 0x26);
    for code in 0..=0x29u8 {
        let kind = AuthMessageType::from_u8(code).unwrap();
        assert_eq!(kind.to_u8(), code);
        assert_eq!(kind.is_request_code(), code % 2 == 0);
        assert_eq!(kind.reply_code().to_u8(), code | 1);
    }
    assert_eq!(AuthMessageType::from_u8(0x2A), None);
    assert_eq!(AuthMessageType::from_u8(0xFF), None);
    assert_eq!(
        AuthMessageType::WiiUForMmpRequest2.reply_code(),
        AuthMessageType::WiiUForMmpReply2
    );
}

#[test]
fn base64_is_decoded() {
    assert_eq!(decode_b64(b"SGVsbG8gd29ybGQ="), Some(b"Hello world".to_vec()));
    assert_eq!(decode_b64(b"SGVsbG8gd29ybGQ"), Some(b"Hello world".to_vec()));
    assert_eq!(decode_b64(b"+/+/"), Some(vec![0xfb, 0xff, 0xbf]));
    assert_eq!(decode_b64(b""), Some(vec![]));
    assert_eq!(decode_b64(b"Q"), Some(vec![]));
    assert_eq!(decode_b64(b"QQ"), Some(vec![0x41]));
    // Foreign characters are passed over, and padding ends the text.
    assert_eq!(decode_b64(b"S-G.V s"), Some(b"Hel".to_vec()));
    assert_eq!(decode_b64(b"QQ==QQ"), Some(vec![0x41]));
}

#[test]
fn the_longest_run_is_the_token() {
    let long = [b'A'; 45];
    let longer = [b'b'; 50];
    let mut raw = vec![0u8];
    raw.extend_from_slice(&long);
    raw.push(b'-');
    raw.extend_from_slice(&longer);
    assert_eq!(find_service_token(&raw), Some(&longer[..]));
    // The first one of equally long runs.
    let mut raw = vec![b'!'];
    raw.extend_from_slice(&[b'A'; 40]);
    raw.push(b'!');
    raw.extend_from_slice(&[b'b'; 40]);
    assert_eq!(find_service_token(&raw), Some(&[b'A'; 40][..]));
    // Too short, and nothing at all.
    assert_eq!(find_service_token(&[b'A'; 39]), None);
    assert_eq!(find_service_token(&[b'A'; 40]), Some(&[b'A'; 40][..]));
    assert_eq!(find_service_token(&[0, 1, 2]), None);
    assert_eq!(find_service_token(&[]), None);
}

#[test]
fn the_token_holds_the_principal_id() {
    assert_eq!(find_pid(&payload(0x6963_B0B4)), Some(1_768_140_980));
    assert_eq!(find_pid(&payload(7)), Some(7));
    assert_eq!(find_pid(b"nothing to see"), None);
    // A run that is long enough but decodes to too little.
    assert_eq!(find_pid(&[b'='; 40]), None);
}

#[test]
fn keys_are_digests_of_the_principal_id() {
    let expected: [u8; 24] = tiger::Tiger::digest([0x69, 0x63, 0xB0, 0xB4]).into();
    assert_eq!(token_key_from_pid(0x6963_B0B4), expected);
    assert_ne!(token_key_from_pid(1), token_key_from_pid(2));
}

#[test]
fn identities() {
    assert_eq!(dwid(1_768_140_980), 207_809_465_790_644);
    assert_eq!(username(1_768_140_980), "WiiUUser1768140980");
    assert_eq!(username(0), "WiiUUser0");
    let mut pids: AddrMap<u64> = AddrMap::new();
    let (a, b) = (IpAddr::V4(1), IpAddr::V6(1));
    assert_eq!(recall_pid(&pids, &a), None);
    remember_pid(&mut pids, a, 10);
    remember_pid(&mut pids, b, 20);
    remember_pid(&mut pids, a, 30);
    assert_eq!(recall_pid(&pids, &a), Some(30));
    assert_eq!(recall_pid(&pids, &b), Some(20));
}

fn ticket(name: &str) -> AuthTicket {
    AuthTicket {
        ticket_type: BdAuthTicketType::UserToHost,
        title: Title { id: 0x0403_0201 },
        time_issued: 0x1111_2222,
        time_expires: 0x3333_4444,
        license_id: 0x0102_0304_0506_0708,
        user_id: 9,
        username: name.to_string(),
        session_key: [0xEE; 24],
    }
}

#[test]
fn tickets_are_laid_out() {
    let bytes = ticket("abc").to_bytes().unwrap();
    assert_eq!(bytes.len(), 128);
    assert_eq!(&bytes[..5], &[0xDE, 0xAD, 0xBD, 0xEF, 2]);
    assert_eq!(&bytes[5..9], &[1, 2, 3, 4]);
    assert_eq!(&bytes[9..13], &[0x22, 0x22, 0x11, 0x11]);
    assert_eq!(&bytes[13..17], &[0x44, 0x44, 0x33, 0x33]);
    assert_eq!(&bytes[17..25], &[8, 7, 6, 5, 4, 3, 2, 1]);
    assert_eq!(&bytes[25..33], &[9, 0, 0, 0, 0, 0, 0, 0]);
    assert_eq!(&bytes[33..36], b"abc");
    assert!(bytes[36..97].iter().all(|b| *b == 0));
    assert_eq!(&bytes[97..121], &[0xEE; 24]);
    assert_eq!(&bytes[121..124], &[0x55, 0x33, 0x22]);
    let sum = tiger::Tiger::digest(&bytes[..121]);
    assert_eq!(&bytes[124..], &sum[..4]);
}

#[test]
fn ticket_kinds() {
    assert_eq!(BdAuthTicketType::UserToService.to_u8(), 0);
    assert_eq!(BdAuthTicketType::HostToService.to_u8(), 1);
    assert_eq!(BdAuthTicketType::UserToHost.to_u8(), 2);
}

#[test]
fn names_have_to_fit() {
    assert!(ticket(&"n".repeat(64)).to_bytes().is_ok());
    assert_eq!(
        ticket(&"n".repeat(65)).to_bytes(),
        Err(UsernameTooLongError { name_len: 65 })
    );
    // The length is that of the bytes, not of the characters.
    let name = "\u{e9}".repeat(33);
    let mut writer = BdWriter::new(StreamMode::BitMode, true);
    assert_eq!(
        ticket(&name).serialize(&mut writer),
        Err(UsernameTooLongError { name_len: 66 })
    );
    assert_eq!(writer.into_values().len(), 0);
    let mut writer = BdWriter::new(StreamMode::BitMode, true);
    assert_eq!(ticket("abc").serialize(&mut writer), Ok(()));
    let values = writer.into_values();
    let expected = ticket("abc").to_bytes().unwrap();
    assert!(matches!(&values[0], BdValue::Raw(bytes) if *bytes == expected));
}

#[test]
fn consoles_are_answered() {
    let mut pids: AddrMap<u64> = AddrMap::new();
    let response = respond(payload(77), full_values(5, 5001), 1_700_000_000, &mut pids);
    assert_eq!(response.iv_seed, 5);
    assert_eq!(response.ticket.title.id, 5001);
    assert_eq!(response.ticket.time_issued, 1_700_000_000);
    assert_eq!(response.ticket.time_expires, 1_700_000_300);
    assert_eq!((response.ticket.user_id, response.ticket.license_id), (77, 77));
    assert_eq!(response.ticket.username, "WiiUUser77");
    assert_eq!(response.ticket.ticket_type, BdAuthTicketType::UserToService);
    assert_eq!(&response.ticket.session_key[..4], &[0x01, 0x23, 0x45, 0x67]);
    assert_eq!(&response.ticket.session_key[20..], &[0x33, 0xCC, 0x33, 0xCC]);
    assert_eq!(response.auth_proof.time_expires, 1_700_000_300);
    assert_eq!(response.auth_proof.user_id, 77);
    assert_eq!(response.auth_proof.username, "WiiUUser77");
    assert_eq!(response.auth_proof.session_key, response.ticket.session_key);
    assert_eq!(response.token_encryption_key, token_key_from_pid(77));
    assert_eq!(recall_pid(&pids, &console(1).peer_ip().unwrap()), Some(77));
    assert_eq!(recall_pid(&pids, &console(2).peer_ip().unwrap()), None);
}

#[test]
fn what_a_request_lacks_is_filled_in() {
    let mut pids: AddrMap<u64> = AddrMap::new();
    // No token, no seed, no title.
    let response = respond(vec![0x26], Vec::new(), 0, &mut pids);
    assert_eq!(response.iv_seed, 0xABCD);
    assert_eq!(response.ticket.title.id, T6_WIIU);
    assert_eq!(response.ticket.user_id, 1_768_140_980);
    assert_eq!(response.ticket.username, "WiiUUser1768140980");
    assert_eq!(response.token_encryption_key, token_key_from_pid(1_768_140_980));
    assert_eq!(recall_pid(&pids, &console(1).peer_ip().unwrap()), None);
    // A title that is not served.
    let response = respond(vec![0x26], full_values(1, 9), 0, &mut pids);
    assert_eq!(response.ticket.title.id, T6_WIIU);
    // Times wrap in a ticket, but not in a proof.
    let response = respond(vec![0x26], Vec::new(), u32::MAX as i64, &mut pids);
    assert_eq!((response.ticket.time_issued, response.ticket.time_expires), (0, 300));
    assert_eq!(response.auth_proof.time_expires, u32::MAX as i64 + 300);
}

#[test]
fn answers_are_written() {
    let mut pids: AddrMap<u64> = AddrMap::new();
    let response = respond(payload(77), full_values(5, 5001), 1000, &mut pids);
    assert_eq!(response.message_type(), AuthMessageType::WiiUForMmpReply2);
    assert_eq!(response.error_code(), BdErrorCode::AuthNoError);
    let mut writer = BdWriter::new(StreamMode::BitMode, false);
    let request = response.write_auth_data(&mut writer, 0x55AA).unwrap();
    assert_eq!(request.seed, 0x55AA);
    assert_eq!(request.key, token_key_from_pid(77));
    assert_eq!(request.plaintext.len(), 0x98);
    assert_eq!(&request.plaintext[..128], response.ticket.to_bytes().unwrap().as_slice());
    assert!(request.plaintext[128..].iter().all(|b| *b == 0));
    response.finish_auth_data(&mut writer, &[3; 128], &[4; 0x98]);
    let values = writer.into_values();
    assert_eq!(values.len(), 3);
    assert!(matches!(values[0], BdValue::U32(0x55AA)));
    assert!(matches!(&values[1], BdValue::Raw(bytes) if *bytes == vec![3; 128]));
    assert!(matches!(&values[2], BdValue::Raw(bytes) if *bytes == vec![4; 0x98]));

    let older = WiiUAuthHandler::new(titles(), AuthMessageType::WiiUForMmpReply).respond(
        &console(1),
        request_of(77),
        1,
        1000,
        &mut pids,
    );
    let mut writer = BdWriter::new(StreamMode::BitMode, false);
    let request = older.write_auth_data(&mut writer, 1).unwrap();
    assert_eq!(request.plaintext, older.ticket.to_bytes().unwrap());
    older.finish_auth_data(&mut writer, &[3; 128], &[4; 0x80]);
    let values = writer.into_values();
    assert!(matches!(&values[2], BdValue::Raw(bytes) if bytes.len() == 0x80));
}

fn request_of(pid: u32) -> BdMessage {
    request(payload(pid), full_values(1, T6_WIIU))
}

#[test]
fn unwritable_answers_are_refused() {
    let mut pids: AddrMap<u64> = AddrMap::new();
    let mut response = respond(payload(77), full_values(5, 5001), 1000, &mut pids);
    response.ticket.username = "x".repeat(70);
    let mut writer = BdWriter::new(StreamMode::BitMode, false);
    let r = response.write_auth_data(&mut writer, 1);
    assert!(matches!(r, Err(UsernameTooLongError { name_len: 70 })));
}

#[test]
fn digests_complete_a_ticket() {
    let body = ticket("abc").body_bytes().unwrap();
    assert_eq!(body.len(), 121);
    let mut sum = [0; 24];
    sum[..5].copy_from_slice(&[1, 2, 3, 4, 5]);
    let bytes = AuthTicket::completed(body.clone(), sum);
    assert_eq!(&bytes[..121], body.as_slice());
    assert_eq!(&bytes[121..], &[0x55, 0x33, 0x22, 1, 2, 3, 4]);
    assert!(ticket(&"n".repeat(99)).body_bytes().is_err());
}

#[test]
fn the_longest_name_can_be_written() {
    let mut pids: AddrMap<u64> = AddrMap::new();
    let response = respond(payload(u32::MAX), full_values(5, 5001), 1000, &mut pids);
    assert_eq!(response.ticket.username, "WiiUUser4294967295");
    let mut writer = BdWriter::new(StreamMode::BitMode, false);
    assert!(response.write_auth_data(&mut writer, 1).is_ok());
}

#[test]
fn the_time_of_day_is_used() {
    let mut pids: AddrMap<u64> = AddrMap::new();
    let mut session = console(3);
    let before = chrono::Utc::now().timestamp();
    let response = WiiUAuthHandler::new(titles(), AuthMessageType::WiiUForMmpReply2)
        .handle_message(&mut session, request_of(5), 1, &mut pids)
        .unwrap();
    let after = chrono::Utc::now().timestamp();
    assert!(before + 300 <= response.auth_proof.time_expires);
    assert!(response.auth_proof.time_expires <= after + 300);
    assert!(session.authentication.is_none());
    assert_eq!(recall_pid(&pids, &session.peer_ip().unwrap()), Some(5));
}
