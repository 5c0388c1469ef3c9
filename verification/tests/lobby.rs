use bitdemon_services::auth::auth_proof::ClientOpaqueAuthProof;
use bitdemon_services::auth::message_type::AuthMessageType;
use bitdemon_services::auth::pid::{dwid, remember_pid};
use bitdemon_services::auth::wiiu::WiiUAuthHandler;
use bitdemon_services::lobby::dml::{DmlHandler, DmlResult, DmlTaskId};
use bitdemon_services::lobby::friends::FriendsHandler;
use bitdemon_services::lobby::lsg::{
    ConnectionIdResponse, LobbyServiceError, LsgHandler, LsgRequest, LsgStep,
};
use bitdemon_services::lobby::messaging_service::{
    extract_recipient_xuids, Mailbox, MessagingHandler, RawBlobResult, MESSAGE_TTL,
};
use bitdemon_services::lobby::stats_service::StatsHandler;
use bitdemon_services::peer::{AddrMap, IpAddr, Peer};
use bitdemon_services::session::{BdSession, Title, TitleSet};
use bitdemon_services::wire::{
    BdErrorCode, BdMessage, BdReadError, BdReader, BdValue, BdWriter, StreamMode,
};

const T6_WIIU: u32 = 5710;

fn titles() -> TitleSet {
    TitleSet::new(T6_WIIU, vec![5001])
}

fn addr(last: u8) -> IpAddr {
    IpAddr::V4(u32::from_be_bytes([10, 0, 0, last]))
}

fn client(last: u8) -> BdSession {
    BdSession::new(last as u64, Some(Peer { ip: addr(last), text: format!("10.0.0.{last}") }))
}

fn message(raw: Vec<u8>, values: Vec<BdValue>) -> BdMessage {
    BdMessage { reader: BdReader::new(raw, values) }
}

fn entrance(title: u32, sealed: Vec<u8>) -> BdMessage {
    message(
        Vec::new(),
        vec![
            BdValue::TypeChecked(true),
            BdValue::U32(title),
            BdValue::U32(1),
            BdValue::Raw(sealed),
        ],
    )
}

fn auth_proof(title: u32, time_expires: i64) -> ClientOpaqueAuthProof {
    ClientOpaqueAuthProof {
        title: Title { id: title },
        time_expires,
        license_id: 3,
        user_id: 4,
        session_key: [9; 24],
        username: "someone".to_string(),
    }
}

#[test]
fn blank_proofs_stand_for_the_address() {
    let handler = LsgHandler::new(titles());
    assert!(!handler.requires_authentication());
    let mut pids: AddrMap<u64> = AddrMap::new();
    remember_pid(&mut pids, addr(1), 0x6963_B0B4);
    remember_pid(&mut pids, addr(2), 5);
    let mut session = client(1);
    let step = handler.handle_message(&mut session, entrance(T6_WIIU, vec![0; 128]), &pids);
    assert!(matches!(
        step,
        Ok(LsgStep::Connected { response: ConnectionIdResponse { connection_id: 1 } })
    ));
    let who = session.authentication.unwrap();
    assert_eq!(who.user_id, 207_809_465_790_644);
    assert_eq!(who.username, "WiiUUser1768140980");
    assert_eq!(who.title.id, T6_WIIU);
    assert_eq!(&who.session_key[..4], &[0x01, 0x23, 0x45, 0x67]);

    let mut session = client(2);
    handler.handle_message(&mut session, entrance(T6_WIIU, vec![0; 128]), &pids).unwrap();
    assert_eq!(session.authentication.unwrap().user_id, dwid(5));
    // The proof that stands in for a blank one can expire like any other.
    let mut session = client(2);
    let title = Title { id: T6_WIIU };
    assert_eq!(
        handler.enter_blank(&mut session, title, &pids, 1000, 1301),
        Err(LobbyServiceError::AuthenticationExpired { expires: 1300, now: 1301 })
    );
    assert!(session.authentication.is_none());
    assert!(handler.enter_blank(&mut session, title, &pids, 1000, 1300).is_ok());
    assert_eq!(session.authentication.unwrap().user_id, dwid(5));
    // Nobody authenticated from there.
    let mut session = client(3);
    handler.handle_message(&mut session, entrance(T6_WIIU, vec![0; 128]), &pids).unwrap();
    assert_eq!(session.authentication.unwrap().user_id, dwid(1_768_140_980));
}

#[test]
fn other_proofs_have_to_be_unsealed() {
    let handler = LsgHandler::new(titles());
    let pids: AddrMap<u64> = AddrMap::new();
    let mut sealed = vec![0; 128];
    sealed[127] = 1;
    for (title, proof) in [(T6_WIIU, sealed.clone()), (5001, vec![0; 128])] {
        let mut session = client(1);
        match handler.handle_message(&mut session, entrance(title, proof.clone()), &pids) {
            Ok(LsgStep::Unseal { request }) => {
                assert_eq!(request.title.id, title);
                assert_eq!(request.sealed_proof, proof);
            }
            _ => panic!("the proof has to be unsealed"),
        }
        assert!(session.authentication.is_none());
    }
}

#[test]
fn unsealed_proofs_let_in() {
    let handler = LsgHandler::new(titles());
    let mut session = client(8);
    let answer = handler.enter(&mut session, Title { id: 5001 }, auth_proof(5001, 100), 100);
    assert_eq!(answer, Ok(ConnectionIdResponse { connection_id: 8 }));
    let who = session.authentication.as_ref().unwrap();
    assert_eq!((who.user_id, who.username.as_str()), (4, "someone"));
    assert_eq!(who.session_key, [9; 24]);

    let mut session = client(8);
    let answer = handler.enter(&mut session, Title { id: 5001 }, auth_proof(5001, 99), 100);
    assert_eq!(
        answer,
        Err(LobbyServiceError::AuthenticationExpired { expires: 99, now: 100 })
    );
    let answer = handler.enter(&mut session, Title { id: 5001 }, auth_proof(T6_WIIU, 100), 100);
    assert_eq!(
        answer,
        Err(LobbyServiceError::InvalidTitle {
            specified_title: Title { id: 5001 },
            authenticated_title: Title { id: T6_WIIU },
        })
    );
    // An expired proof for another title counts as expired.
    let answer = handler.enter(&mut session, Title { id: 5001 }, auth_proof(T6_WIIU, 99), 100);
    assert_eq!(
        answer,
        Err(LobbyServiceError::AuthenticationExpired { expires: 99, now: 100 })
    );
    assert!(session.authentication.is_none());

    let request = || LsgRequest { title: Title { id: 5001 }, sealed_proof: vec![1; 128] };
    let answer = handler.resume(&mut session, request(), None);
    assert_eq!(answer, Err(LobbyServiceError::UnsealableProof));
    let now = chrono::Utc::now().timestamp();
    let answer = handler.resume(&mut session, request(), Some(auth_proof(5001, now - 10)));
    assert!(matches!(answer, Err(LobbyServiceError::AuthenticationExpired { .. })));
    let answer = handler.resume(&mut session, request(), Some(auth_proof(5001, now + 100)));
    assert_eq!(answer, Ok(ConnectionIdResponse { connection_id: 8 }));
}

/// A request that carries the base64 text of a principal id and zeros behind it.
fn sign_in(text: &[u8]) -> BdMessage {
    let mut raw = vec![0x26, 0];
    raw.extend_from_slice(text);
    raw.extend_from_slice(&[b'A'; 40]);
    message(
        raw,
        vec![BdValue::TypeChecked(true), BdValue::U32(1), BdValue::U32(T6_WIIU)],
    )
}

#[test]
fn from_authentication_to_the_lobby() {
    let auth = WiiUAuthHandler::new(titles(), AuthMessageType::WiiUForMmpReply2);
    let lsg = LsgHandler::new(titles());
    let mut pids: AddrMap<u64> = AddrMap::new();
    // The first four bytes are 0, 0, 0, 5 and 0, 0, 0, 6.
    let response = auth.respond(&client(1), sign_in(b"AAAABQ"), 0, 1000, &mut pids);
    auth.respond(&client(2), sign_in(b"AAAABg"), 0, 1000, &mut pids);
    assert_eq!(response.ticket.user_id, 5);

    let mut session = client(1);
    lsg.handle_message(&mut session, entrance(T6_WIIU, vec![0; 128]), &pids).unwrap();
    let who = session.authentication.unwrap();
    assert_eq!(who.user_id, dwid(5));
    assert_eq!(who.username, response.ticket.username);
    assert_eq!(who.session_key, response.ticket.session_key);

    // The proof itself is good for five minutes.
    let enter = |auth_proof: ClientOpaqueAuthProof, now: i64| {
        lsg.enter(&mut client(1), Title { id: T6_WIIU }, auth_proof, now)
    };
    assert!(enter(response.auth_proof, 1300).is_ok());
    let response = auth.respond(&client(1), sign_in(b"AAAABQ"), 0, 1000, &mut pids);
    assert_eq!(
        enter(response.auth_proof, 1301),
        Err(LobbyServiceError::AuthenticationExpired { expires: 1300, now: 1301 })
    );
}

#[test]
fn unreadable_entrances() {
    let handler = LsgHandler::new(titles());
    let refuse = |values: Vec<BdValue>| match handler.read_request(message(Vec::new(), values)) {
        Ok(_) => panic!("the request is refused"),
        Err(e) => e,
    };
    let end = LobbyServiceError::Unreadable { reason: BdReadError::EndOfMessage };
    let other = LobbyServiceError::Unreadable { reason: BdReadError::UnexpectedValue };
    let bit = || BdValue::TypeChecked(true);
    assert_eq!(refuse(vec![]), end);
    assert_eq!(refuse(vec![BdValue::U32(1)]), other);
    assert_eq!(refuse(vec![bit()]), end);
    assert_eq!(refuse(vec![bit(), BdValue::Malformed]), other);
    assert_eq!(
        refuse(vec![bit(), BdValue::U32(9)]),
        LobbyServiceError::UnknownTitle { title_id: 9 }
    );
    assert_eq!(refuse(vec![bit(), BdValue::U32(5001)]), end);
    assert_eq!(refuse(vec![bit(), BdValue::U32(5001), BdValue::U32(1)]), end);
    assert_eq!(
        refuse(vec![bit(), BdValue::U32(5001), BdValue::U32(1), BdValue::Raw(vec![0; 127])]),
        other
    );
}

#[test]
fn statistics_are_empty() {
    let handler = StatsHandler::new();
    let reply = handler.handle_message(&client(1), message(vec![], vec![BdValue::U8(3)])).unwrap();
    assert_eq!((reply.task_id, reply.error_code), (3, BdErrorCode::NoError));
    assert_eq!(reply.results.len(), 0);
    let r = handler.handle_message(&client(1), message(vec![], vec![]));
    assert!(matches!(r, Err(BdReadError::EndOfMessage)));
}

#[test]
fn friends_requests_succeed() {
    let handler = FriendsHandler::default();
    let reply = handler.handle_message(&client(1), message(vec![0x1a, 2], vec![]));
    assert_eq!((reply.task_id, reply.error_code), (0x1a, BdErrorCode::NoError));
    assert_eq!(reply.results.len(), 0);
    let reply = FriendsHandler::new().handle_message(&client(1), message(vec![], vec![]));
    assert_eq!(reply.task_id, 0);
}

#[test]
fn places() {
    let handler = DmlHandler::default();
    let ask = |values: Vec<BdValue>| handler.handle_message(&client(1), message(vec![], values));
    let reply = ask(vec![BdValue::U8(1), BdValue::U32(7)]).unwrap();
    assert_eq!((reply.task_id, reply.results.len()), (1, 0));
    assert!(matches!(ask(vec![BdValue::U8(1)]), Err(BdReadError::EndOfMessage)));
    assert!(matches!(ask(vec![]), Err(BdReadError::EndOfMessage)));
    let reply = ask(vec![BdValue::U8(9)]).unwrap();
    assert_eq!((reply.task_id, reply.error_code), (9, BdErrorCode::NoError));
    assert_eq!(reply.results.len(), 0);

    let reply = ask(vec![BdValue::U8(2)]).unwrap();
    assert_eq!(reply.task_id, 2);
    match &reply.results[..] {
        [DmlResult::Info(info)] => {
            assert_eq!(info.country_code, "US");
            assert_eq!(info.country, "United States");
            assert_eq!(info.region, "California");
            assert_eq!(info.city, "Los Angeles");
            assert_eq!(info.latitude_bits, 34.0453f32.to_bits());
            assert_eq!(info.longitude_bits, (-118.2413f32).to_bits());
        }
        _ => panic!("one place"),
    }
    let reply = ask(vec![BdValue::U8(3)]).unwrap();
    assert_eq!(reply.task_id, 3);
    match &reply.results[..] {
        [DmlResult::Hierarchical(info)] => {
            assert_eq!(info.base.city, "Los Angeles");
            assert_eq!([info.tier0, info.tier1, info.tier2, info.tier3], [0; 4]);
        }
        _ => panic!("one place"),
    }
    assert_eq!(DmlTaskId::from_u8(0), None);
    assert_eq!(DmlTaskId::from_u8(2), Some(DmlTaskId::GetUserData));
}

/// A body that names recipients between other bytes.
fn body_for(pids: &[u64]) -> Vec<u8> {
    let mut body = vec![18, 0x0a, 0x13];
    for pid in pids {
        body.push(0x0a);
        body.extend_from_slice(&dwid(*pid).to_le_bytes());
    }
    body.extend_from_slice(&[0; 8]);
    body
}

#[test]
fn recipients_are_found() {
    assert_eq!(extract_recipient_xuids(&body_for(&[])), Vec::<u64>::new());
    assert_eq!(extract_recipient_xuids(&body_for(&[5])), vec![dwid(5)]);
    assert_eq!(extract_recipient_xuids(&body_for(&[5, 6])), vec![dwid(5), dwid(6)]);
    assert_eq!(extract_recipient_xuids(&[0x0a; 8]), Vec::<u64>::new());
    let exact = [0x0a, 0xb4, 0xb0, 0x63, 0x69, 0x00, 0xbd, 0x00, 0x00];
    assert_eq!(extract_recipient_xuids(&exact), vec![0x0000_bd00_6963_b0b4]);
}

struct Post {
    pids: AddrMap<u64>,
    mailbox: Mailbox,
}

impl Post {
    fn new() -> Post {
        let mut pids = AddrMap::new();
        for last in 1..=4u8 {
            remember_pid(&mut pids, addr(last), last as u64);
        }
        Post { pids, mailbox: Mailbox::new() }
    }

    fn operate(&mut self, who: u8, operation: u8, raw: Vec<u8>, now: u64) -> Vec<Vec<u8>> {
        let reply = MessagingHandler::new()
            .handle_message(
                &client(who),
                message(raw, vec![BdValue::U8(operation)]),
                &self.pids,
                now,
                &mut self.mailbox,
            )
            .unwrap();
        assert_eq!((reply.task_id, reply.error_code), (operation, BdErrorCode::NoError));
        reply.results.into_iter().map(|r| r.body).collect()
    }

    fn send(&mut self, from: u8, body: Vec<u8>, now: u64) {
        assert_eq!(self.operate(from, 18, body, now).len(), 0);
    }

    fn poll(&mut self, who: u8, now: u64) -> Vec<Vec<u8>> {
        self.operate(who, 1, vec![1], now)
    }
}

#[test]
fn messages_reach_their_recipient_once() {
    let mut post = Post::new();
    post.send(1, body_for(&[2]), 0);
    post.send(3, body_for(&[2, 4]), 0);
    assert_eq!(post.poll(4, 0), vec![body_for(&[2, 4])]);
    post.send(1, body_for(&[4]), 0);
    assert_eq!(post.poll(2, 1), vec![body_for(&[2])]);
    assert_eq!(post.poll(2, 1).len(), 0);
    assert_eq!(post.poll(1, 1).len(), 0);
    assert_eq!(post.poll(4, 1), vec![body_for(&[4])]);
    // Other operations find nothing and take nothing.
    post.send(1, body_for(&[2]), 1);
    assert_eq!(post.operate(2, 7, vec![7], 1).len(), 0);
    assert_eq!(post.poll(2, 1).len(), 1);
    // Nobody authenticated from there, so nobody is addressed.
    post.send(1, body_for(&[9]), 1);
    assert_eq!(post.poll(9, 1).len(), 0);
}

#[test]
fn messages_wait_only_so_long() {
    let mut post = Post::new();
    post.send(1, body_for(&[2]), 10);
    assert_eq!(post.poll(3, 10 + MESSAGE_TTL - 1).len(), 0);
    assert_eq!(post.poll(2, 10 + MESSAGE_TTL).len(), 0);
    post.send(1, body_for(&[2]), 10);
    assert_eq!(post.poll(2, 10 + MESSAGE_TTL - 1).len(), 1);
}

#[test]
fn unaddressed_messages_go_to_anybody_else() {
    let mut post = Post::new();
    post.send(1, vec![18, 1, 2, 3], 0);
    assert_eq!(post.poll(1, 0).len(), 0);
    assert_eq!(post.poll(9, 0), vec![vec![18, 1, 2, 3]]);
    assert_eq!(post.poll(2, 0).len(), 0);
}

#[test]
fn mailbox_without_operation() {
    let mut post = Post::new();
    post.send(1, body_for(&[2]), 0);
    let r = MessagingHandler::new().handle_message(
        &client(2),
        message(vec![1], vec![]),
        &post.pids,
        0,
        &mut post.mailbox,
    );
    assert!(matches!(r, Err(BdReadError::EndOfMessage)));
    assert_eq!(post.poll(2, 0).len(), 1);
}

#[test]
fn delivered_bodies_are_written_behind_their_length() {
    let mut writer = BdWriter::new(StreamMode::ByteMode, true);
    RawBlobResult { body: vec![1, 2, 3] }.serialize(&mut writer);
    let values = writer.into_values();
    assert!(matches!(&values[..], [BdValue::Blob(bytes)] if *bytes == vec![1, 2, 3]));
}
