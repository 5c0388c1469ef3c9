use bitdemon_services::lobby::matchmaking::common_addr::{
    advertised_public_port, describe_common_addr, redirect_common_addr,
};
use bitdemon_services::lobby::matchmaking::config::{
    create_session_reply_has_id, may_receive_rows, sink_slot, stage1_sink, MatchmakingConfig,
};
use bitdemon_services::lobby::matchmaking::handler::{
    MatchmakingHandler, MatchmakingResult, MatchmakingState, MatchmakingTaskId,
};
use bitdemon_services::lobby::matchmaking::info::{
    id_bytes, parse_session_info, read_session_id, SessionIdResult, SessionRow,
};
use bitdemon_services::lobby::matchmaking::query::parse_query_playlist;
use bitdemon_services::lobby::matchmaking::store::{is_reachable_host, SESSION_TTL};
use bitdemon_services::peer::{IpAddr, Peer};
use bitdemon_services::session::BdSession;
use bitdemon_services::text::split_list;
use bitdemon_services::wire::{
    BdErrorCode, BdMessage, BdReadError, BdReader, BdValue, BdWriter, StreamMode, TaskReply,
};

const TDM_STRICT: &str = "1503050802000000080000000008320000000701000000071f0800000702000000074f0000000701000000070000000007010000000d000000000d0ad7233c07000000000700000000070000000007000000000dcdcc4c3f0d9a99193f0dcdcccc3e0dcdcc4c3e0007070707";
const GW_STRICT: &str = "1503050802000000080000000008320000000701000000071f0800000702000000074f0000000705000000070000000007010000000d000000000d0ad7233c07000000000700000000070000000007000000000dcdcc4c3f0d9a99193f0dcdcccc3e0dcdcc4c3e0019191919";
const RELAXED: &str = "1503050802000000080000000008320000000701000000071f08000014074f0000000728230000070100000007010000000d000000000d0000000007000000000700000000070000000007000000000dcdcc4c3f0d9a99193f0dcdcccc3e0dcdcc4c3e00";

const SECOND: u64 = 1_000_000_000;

fn hex(s: &str) -> Vec<u8> {
    (0..s.len()).step_by(2).map(|i| u8::from_str_radix(&s[i..i + 2], 16).unwrap()).collect()
}

fn console(last: u8) -> BdSession {
    let peer = Peer {
        ip: IpAddr::V4(u32::from_be_bytes([10, 0, 0, last])),
        text: format!("10.0.0.{last}"),
    };
    BdSession::new(last as u64, Some(peer))
}

fn config() -> MatchmakingConfig {
    MatchmakingConfig {
        row_allowlist: Vec::new(),
        reply_with_id: true,
        zero_sec_id: false,
        asymmetric: false,
        sink: None,
        sink_for: None,
    }
}

/// Six slots, the first and the last set, and a flag byte.
fn address_block(public_port: u16) -> Vec<u8> {
    let mut block = vec![192, 168, 1, 2, 0x02, 0x0c];
    for _ in 0..4 {
        block.extend_from_slice(&[0, 0xff, 0, 0xff, 0, 0]);
    }
    block.extend_from_slice(&[8, 9, 10, 11]);
    block.extend_from_slice(&public_port.to_le_bytes());
    block.push(1);
    block
}

fn info_values(public_port: u16, playlist: i32) -> Vec<BdValue> {
    let mut values = vec![
        BdValue::Blob(address_block(public_port)),
        BdValue::U32(0),
        BdValue::U32(18),
        BdValue::U64(0x1122_3344_5566_7788),
        BdValue::Blob(vec![7; 16]),
    ];
    for v in [1000, 1, 2079, 2, 79, playlist, 6, 7] {
        values.push(BdValue::I32(v));
    }
    values.push(BdValue::F32 { bits: 1.5f32.to_bits() });
    for v in [1, 2, 3, 4] {
        values.push(BdValue::I32(v));
    }
    values
}

fn message(raw: Vec<u8>, task: u8, mut values: Vec<BdValue>) -> BdMessage {
    values.insert(0, BdValue::U8(task));
    BdMessage { reader: BdReader::new(raw, values) }
}

fn announce(
    state: &mut MatchmakingState,
    config: &MatchmakingConfig,
    host: u8,
    public_port: u16,
    playlist: i32,
    now: u64,
) -> Vec<MatchmakingResult> {
    let message = message(Vec::new(), 1, info_values(public_port, playlist));
    let reply = MatchmakingHandler::new()
        .handle_message(&console(host), message, config, now, state)
        .unwrap();
    assert_eq!(reply.task_id, 1);
    assert_eq!(reply.error_code, BdErrorCode::NoError);
    reply.results
}

fn search(
    state: &mut MatchmakingState,
    config: &MatchmakingConfig,
    guest: u8,
    query: &str,
    now: u64,
) -> Vec<SessionRow> {
    let message = message(hex(query), 5, Vec::new());
    let reply: TaskReply<MatchmakingResult> = MatchmakingHandler::new()
        .handle_message(&console(guest), message, config, now, state)
        .unwrap();
    assert_eq!(reply.task_id, 5);
    let mut rows = Vec::new();
    for result in reply.results {
        match result {
            MatchmakingResult::Row(row) => rows.push(row),
            MatchmakingResult::SessionId(_) => panic!("a search is answered with rows"),
        }
    }
    rows
}

fn announced_id(results: &[MatchmakingResult]) -> u64 {
    match results {
        [MatchmakingResult::SessionId(SessionIdResult { id })] => *id,
        _ => panic!("an announcement is answered with one id"),
    }
}

#[test]
fn decodes_playlist_number() {
    assert_eq!(parse_query_playlist(&hex(TDM_STRICT)), Some(1));
    assert_eq!(parse_query_playlist(&hex(GW_STRICT)), Some(5));
    // relaxed / parking form: playlist slot is 9000 -> no concrete filter
    assert_eq!(parse_query_playlist(&hex(RELAXED)), None);
    // garbage in -> None, never a panic
    assert_eq!(parse_query_playlist(&[0xff, 0x00, 0x12]), None);
    assert_eq!(parse_query_playlist(&[]), None);
}

#[test]
fn playlist_query_edges() {
    // A number that breaks off.
    assert_eq!(parse_query_playlist(&[0x07, 1, 2]), None);
    // The anchor with too little behind it.
    assert_eq!(parse_query_playlist(&hex("071f08000007020000000703000000")), None);
    // The highest playlist number, and the first grouping number.
    assert_eq!(parse_query_playlist(&hex("071f080000141407e7030000")), Some(999));
    assert_eq!(parse_query_playlist(&hex("071f080000141407e8030000")), None);
    // A floating-point or a 64-bit scalar is no playlist number.
    assert_eq!(parse_query_playlist(&hex("071f08000014140d01000000")), None);
    assert_eq!(parse_query_playlist(&hex("071f08000014140a0100000000000000")), None);
    // A wildcard in its place is none either.
    assert_eq!(parse_query_playlist(&hex("071f080000141414")), None);
    // A search that breaks off inside a value of any kind does not parse.
    let scalars = "071f0800000702000000074f0000000705000000";
    let with = |tail: &str| parse_query_playlist(&hex(&format!("{scalars}{tail}")));
    assert_eq!(with(""), Some(5));
    assert_eq!(with("0d00"), None);
    assert_eq!(with("0d00000000"), Some(5));
    assert_eq!(with("0a00000000000000"), None);
    assert_eq!(with("0a0000000000000000"), Some(5));
    assert_eq!(with("03"), None);
    assert_eq!(with("0300"), Some(5));
    assert_eq!(with("08000000"), None);
    // A negative number is none.
    assert_eq!(parse_query_playlist(&hex("071f080000141407ffffffff")), None);
}

#[test]
fn address_blocks() {
    let block = address_block(3074);
    assert_eq!(block.len(), 37);
    assert_eq!(advertised_public_port(&block), Some(3074));
    assert_eq!(advertised_public_port(&block[..6]), None);
    // Slot 0 is the local one, set or not.
    let unset = [0, 255, 0, 255, 0, 0];
    let public = [203, 0, 113, 5, 0x02, 0x0c];
    assert_eq!(advertised_public_port(&[unset, public].concat()), Some(3074));
    assert_eq!(advertised_public_port(&[public, unset].concat()), None);
    assert_eq!(advertised_public_port(&[]), None);
    assert_eq!(describe_common_addr(&block), "192.168.1.2:3074 8.9.10.11:3074");
    assert_eq!(describe_common_addr(&[]), "none");
    assert_eq!(describe_common_addr(&[0, 0xff, 0, 0xff, 0, 0]), "none");

    let slot = sink_slot([1, 2, 3, 4], 0x1234);
    assert_eq!(slot, [1, 2, 3, 4, 0x34, 0x12]);
    let redirected = redirect_common_addr(&block, slot);
    assert_eq!(redirected.len(), 37);
    assert_eq!(&redirected[..6], &slot);
    assert_eq!(&redirected[6..30], &block[6..30]);
    assert_eq!(&redirected[30..36], &slot);
    assert_eq!(redirected[36], 1);
    assert_eq!(redirect_common_addr(&block[..5], slot), block[..5].to_vec());
}

#[test]
fn reachable_hosts() {
    let info = |port: u16| {
        let mut reader = BdReader::new(Vec::new(), info_values(port, 1));
        parse_session_info(&mut reader).unwrap()
    };
    assert!(is_reachable_host(&info(3074)));
    assert!(is_reachable_host(&info(30000)));
    assert!(!is_reachable_host(&info(40000)));
}

#[test]
fn settings() {
    assert!(create_session_reply_has_id(None));
    assert!(create_session_reply_has_id(Some("id")));
    assert!(!create_session_reply_has_id(Some("none")));
    assert!(!create_session_reply_has_id(Some("NoNe")));
    assert!(create_session_reply_has_id(Some("none ")));

    assert_eq!(split_list(" 10.0.0.1 ,, 10.0.0.2,"), vec!["10.0.0.1", "10.0.0.2"]);
    assert_eq!(split_list("").len(), 0);
    assert_eq!(split_list(" , ").len(), 0);
    assert_eq!(split_list("a b"), vec!["a b"]);

    let mut config = config();
    assert!(may_receive_rows(&config, &None));
    config.row_allowlist = vec!["10.0.0.7".to_string()];
    assert!(!may_receive_rows(&config, &None));
    assert!(may_receive_rows(&config, &console(7).peer));
    assert!(!may_receive_rows(&config, &console(8).peer));

    assert_eq!(stage1_sink(&config, &None), None);
    config.sink = Some([1, 2, 3, 4, 5, 6]);
    assert_eq!(stage1_sink(&config, &None), Some([1, 2, 3, 4, 5, 6]));
    config.sink_for = Some("10.0.0.9".to_string());
    assert_eq!(stage1_sink(&config, &None), None);
    assert_eq!(stage1_sink(&config, &console(9).peer), Some([1, 2, 3, 4, 5, 6]));
    assert_eq!(stage1_sink(&config, &console(8).peer), None);
}

#[test]
fn task_numbers() {
    assert_eq!(MatchmakingTaskId::from_u8(1), Some(MatchmakingTaskId::CreateSession));
    assert_eq!(MatchmakingTaskId::from_u8(13), Some(MatchmakingTaskId::FindSessionsPaged));
    assert_eq!(MatchmakingTaskId::from_u8(15), Some(MatchmakingTaskId::FindSessionsFromIds));
    assert_eq!(MatchmakingTaskId::from_u8(4), None);
    assert_eq!(MatchmakingTaskId::from_u8(0), None);
}

#[test]
fn consoles_find_each_other() {
    let mut state = MatchmakingState::new();
    let config = config();
    let id = announced_id(&announce(&mut state, &config, 1, 3074, 1, 0));
    assert_eq!(id, 1);
    let rows = search(&mut state, &config, 2, TDM_STRICT, SECOND);
    assert_eq!(rows.len(), 1);
    assert_eq!(rows[0].id, id);
    assert_eq!(rows[0].info.max_players, 18);
    assert_eq!(rows[0].info.security_id, 0x1122_3344_5566_7788);
    assert_eq!(rows[0].info.common_addr, address_block(3074));
    assert_eq!(rows[0].sink, None);
    // Another playlist does not match, no particular one does.
    assert_eq!(search(&mut state, &config, 3, GW_STRICT, SECOND).len(), 0);
    assert_eq!(search(&mut state, &config, 4, RELAXED, SECOND).len(), 1);
    // Nor is anybody shown their own lobby.
    assert_eq!(search(&mut state, &config, 1, TDM_STRICT, SECOND).len(), 0);
}

#[test]
fn searches_are_remembered() {
    let mut state = MatchmakingState::new();
    let config = config();
    announce(&mut state, &config, 1, 3074, 5, 0);
    // A strict search for playlist 1, and then a relaxed one: still playlist 1.
    assert_eq!(search(&mut state, &config, 2, TDM_STRICT, 0).len(), 0);
    assert_eq!(search(&mut state, &config, 2, RELAXED, 0).len(), 0);
    // A lobby without a playlist of its own inherits that of its owner's search.
    announce(&mut state, &config, 2, 3074, 0, 0);
    assert_eq!(search(&mut state, &config, 3, TDM_STRICT, 0).len(), 1);
    assert_eq!(search(&mut state, &config, 3, GW_STRICT, 0).len(), 1);
}

#[test]
fn announcing_again_replaces() {
    let mut state = MatchmakingState::new();
    let config = config();
    let first = announced_id(&announce(&mut state, &config, 1, 3074, 1, 0));
    let second = announced_id(&announce(&mut state, &config, 1, 30000, 1, SECOND));
    assert_ne!(first, second);
    let rows = search(&mut state, &config, 2, TDM_STRICT, SECOND);
    assert_eq!(rows.len(), 1);
    assert_eq!(rows[0].id, second);
    assert_eq!(rows[0].info.common_addr, address_block(30000));
}

#[test]
fn lobbies_expire_without_traffic() {
    let mut state = MatchmakingState::new();
    let config = config();
    announce(&mut state, &config, 1, 3074, 1, 0);
    assert_eq!(search(&mut state, &config, 2, TDM_STRICT, SESSION_TTL - 1).len(), 1);
    // The host searches itself, which keeps its lobby alive.
    search(&mut state, &config, 1, TDM_STRICT, SESSION_TTL - 1);
    assert_eq!(search(&mut state, &config, 2, TDM_STRICT, 2 * SESSION_TTL - 2).len(), 1);
    assert_eq!(search(&mut state, &config, 2, TDM_STRICT, 2 * SESSION_TTL - 1).len(), 0);
}

#[test]
fn withdrawn_lobbies_are_gone() {
    let mut state = MatchmakingState::new();
    let config = config();
    let id = announced_id(&announce(&mut state, &config, 1, 3074, 1, 0));
    let other = announced_id(&announce(&mut state, &config, 2, 3074, 1, 0));
    let withdrawal = message(Vec::new(), 3, vec![BdValue::Blob(id_bytes(id))]);
    let reply = MatchmakingHandler::default()
        .handle_message(&console(1), withdrawal, &config, 0, &mut state)
        .unwrap();
    assert_eq!((reply.task_id, reply.results.len()), (3, 0));
    let rows = search(&mut state, &config, 3, TDM_STRICT, 0);
    assert_eq!(rows.len(), 1);
    assert_eq!(rows[0].id, other);
}

#[test]
fn ids_are_not_used_again() {
    let mut state = MatchmakingState::new();
    let mut config = config();
    let first = announced_id(&announce(&mut state, &config, 1, 3074, 1, 0));
    let withdrawal = message(Vec::new(), 3, vec![BdValue::Blob(id_bytes(first))]);
    MatchmakingHandler::new()
        .handle_message(&console(1), withdrawal, &config, 0, &mut state)
        .unwrap();
    assert_eq!(state.store.len(), 0);
    // A lobby that is announced without an answer has its id all the same.
    config.reply_with_id = false;
    assert_eq!(announce(&mut state, &config, 1, 3074, 1, 0).len(), 0);
    assert_eq!(state.store.get(0).id, first + 1);
    config.reply_with_id = true;
    assert_eq!(announced_id(&announce(&mut state, &config, 2, 3074, 1, 0)), first + 2);
}

#[test]
fn silent_lobbies_are_dropped_even_for_their_owner() {
    let mut state = MatchmakingState::new();
    let config = config();
    announce(&mut state, &config, 1, 3074, 1, 0);
    announce(&mut state, &config, 2, 3074, 1, SECOND);
    search(&mut state, &config, 1, TDM_STRICT, SESSION_TTL);
    assert_eq!(state.store.len(), 1);
    assert_eq!(state.store.get(0).owner, console(2).peer_ip());
}

#[test]
fn updates_renew_a_lobby() {
    let mut state = MatchmakingState::new();
    let config = config();
    let id = announced_id(&announce(&mut state, &config, 1, 3074, 1, 0));
    let mut values = vec![BdValue::Blob(id_bytes(id))];
    values.extend(info_values(30000, 5));
    // Anybody may send the update; it is the id that counts.
    MatchmakingHandler::new()
        .handle_message(&console(9), message(Vec::new(), 2, values), &config, SECOND, &mut state)
        .unwrap();
    assert_eq!(search(&mut state, &config, 2, TDM_STRICT, SECOND).len(), 0);
    let rows = search(&mut state, &config, 2, GW_STRICT, SESSION_TTL);
    assert_eq!(rows.len(), 1);
    assert_eq!(rows[0].info.common_addr, address_block(30000));
    // An update of a lobby that is not there changes nothing.
    let unknown = message(Vec::new(), 2, vec![BdValue::Blob(id_bytes(77))]);
    MatchmakingHandler::new()
        .handle_message(&console(9), unknown, &config, SESSION_TTL, &mut state)
        .unwrap();
    assert_eq!(state.store.len(), 1);
}

#[test]
fn one_host_is_elected() {
    let mut state = MatchmakingState::new();
    let mut config = config();
    config.asymmetric = true;
    announce(&mut state, &config, 1, 40000, 1, 0);
    let reachable = announced_id(&announce(&mut state, &config, 2, 3074, 1, 0));
    announce(&mut state, &config, 3, 3074, 1, 0);
    // A reachable host beats one that is not; among those the lower address wins.
    for guest in [1, 3, 4] {
        let rows = search(&mut state, &config, guest, TDM_STRICT, 0);
        assert_eq!(rows.len(), 1);
        assert_eq!(rows[0].id, reachable);
    }
    assert_eq!(search(&mut state, &config, 2, TDM_STRICT, 0).len(), 0);

    // Players beat everything, and survive a new announcement.
    let joined = announced_id(&announce(&mut state, &config, 1, 40000, 1, 0));
    let players = message(Vec::new(), 12, vec![BdValue::Blob(id_bytes(joined))]);
    MatchmakingHandler::new()
        .handle_message(&console(1), players, &config, 0, &mut state)
        .unwrap();
    let again = announced_id(&announce(&mut state, &config, 1, 40000, 1, 0));
    let rows = search(&mut state, &config, 2, TDM_STRICT, 0);
    assert_eq!(rows.len(), 1);
    assert_eq!(rows[0].id, again);
    assert_eq!(search(&mut state, &config, 1, TDM_STRICT, 0).len(), 0);
}

#[test]
fn the_elected_host_stays_elected() {
    let mut state = MatchmakingState::new();
    let mut config = config();
    config.asymmetric = true;
    announce(&mut state, &config, 2, 3074, 1, 0);
    announce(&mut state, &config, 3, 3074, 1, 0);
    let first = search(&mut state, &config, 9, TDM_STRICT, 0);
    // A new announcement gives the lobby a new id, but the same console hosts.
    let id = announced_id(&announce(&mut state, &config, 2, 3074, 1, SECOND));
    let second = search(&mut state, &config, 9, TDM_STRICT, SECOND);
    assert_ne!(first[0].id, id);
    assert_eq!(second[0].id, id);
    assert_eq!(search(&mut state, &config, 3, TDM_STRICT, SECOND)[0].id, id);
}

#[test]
fn switches_narrow_what_is_handed_out() {
    let mut state = MatchmakingState::new();
    let mut config = config();
    config.reply_with_id = false;
    assert_eq!(announce(&mut state, &config, 1, 3074, 1, 0).len(), 0);
    config.row_allowlist = vec!["10.0.0.2".to_string()];
    config.sink = Some([9, 8, 7, 6, 5, 4]);
    assert_eq!(search(&mut state, &config, 3, TDM_STRICT, 0).len(), 0);
    let rows = search(&mut state, &config, 2, TDM_STRICT, 0);
    assert_eq!(rows.len(), 1);
    assert_eq!(rows[0].sink, Some([9, 8, 7, 6, 5, 4]));
    // The store keeps the real address; only the written row is redirected.
    assert_eq!(rows[0].info.common_addr, address_block(3074));
    let mut writer = BdWriter::new(StreamMode::ByteMode, true);
    rows[0].serialize(&mut writer, true);
    let values = writer.into_values();
    let expected = redirect_common_addr(&address_block(3074), [9, 8, 7, 6, 5, 4]);
    assert!(matches!(&values[0], BdValue::Blob(bytes) if *bytes == expected));
    assert!(matches!(values[5], BdValue::U64(0)));
}

#[test]
fn rows_carry_what_was_announced() {
    let mut reader = BdReader::new(Vec::new(), info_values(3074, 5));
    let info = parse_session_info(&mut reader).unwrap();
    let row = SessionRow { id: 0x0102_0304_0506_0708, info, sink: None };
    let mut writer = BdWriter::new(StreamMode::ByteMode, true);
    row.serialize(&mut writer, false);
    let mut values = writer.into_values();
    assert_eq!(values.len(), 20);
    let id = values.remove(1);
    assert!(matches!(&id, BdValue::Blob(bytes) if *bytes == vec![8, 7, 6, 5, 4, 3, 2, 1]));
    assert!(matches!(values.remove(1), BdValue::U32(0)));
    let mut back = BdReader::new(Vec::new(), values);
    let read = parse_session_info(&mut back).unwrap();
    assert_eq!(read.common_addr, address_block(3074));
    assert_eq!((read.field_a, read.max_players), (0, 18));
    assert_eq!(read.security_id, 0x1122_3344_5566_7788);
    assert_eq!(read.security_key, vec![7; 16]);
    assert_eq!(read.ints, vec![1000, 1, 2079, 2, 79, 5, 6, 7]);
    assert_eq!(f32::from_bits(read.skill), 1.5);
    assert_eq!(read.tail, vec![1, 2, 3, 4]);
    let mut reader = BdReader::new(Vec::new(), vec![id]);
    assert_eq!(read_session_id(&mut reader), Some(0x0102_0304_0506_0708));
}

#[test]
fn session_ids_need_eight_bytes() {
    let mut reader = BdReader::new(
        Vec::new(),
        vec![BdValue::Blob(vec![1; 7]), BdValue::U32(1), BdValue::Blob(vec![1, 0, 0, 0, 0, 0, 0, 0, 9])],
    );
    assert_eq!(read_session_id(&mut reader), None);
    assert_eq!(read_session_id(&mut reader), None);
    assert_eq!(read_session_id(&mut reader), Some(1));
    assert_eq!(read_session_id(&mut reader), None);
    let mut writer = BdWriter::new(StreamMode::ByteMode, true);
    SessionIdResult { id: 258 }.serialize(&mut writer);
    let values = writer.into_values();
    assert!(matches!(&values[0], BdValue::Blob(bytes) if *bytes == vec![2, 1, 0, 0, 0, 0, 0, 0]));
}

#[test]
fn requests_that_make_no_sense() {
    let mut state = MatchmakingState::new();
    let config = config();
    let handler = MatchmakingHandler::new();
    let empty = BdMessage { reader: BdReader::new(Vec::new(), Vec::new()) };
    let r = handler.handle_message(&console(1), empty, &config, 0, &mut state);
    assert!(matches!(r, Err(BdReadError::EndOfMessage)));
    let wrong = BdMessage { reader: BdReader::new(Vec::new(), vec![BdValue::U32(1)]) };
    let r = handler.handle_message(&console(1), wrong, &config, 0, &mut state);
    assert!(matches!(r, Err(BdReadError::UnexpectedValue)));
    // An announcement that breaks off, an unknown task and one without meaning.
    for task in [1, 99, 14] {
        let reply = handler
            .handle_message(&console(1), message(Vec::new(), task, Vec::new()), &config, 0, &mut state)
            .unwrap();
        assert_eq!((reply.task_id, reply.results.len()), (task, 0));
        assert_eq!(reply.error_code, BdErrorCode::NoError);
    }
    assert_eq!(state.store.len(), 0);
    assert_eq!(state.next_session_id, 1);
}

#[test]
fn clients_without_an_address() {
    let mut state = MatchmakingState::new();
    let config = config();
    let nobody = BdSession::new(1, None);
    for _ in 0..2 {
        MatchmakingHandler::new()
            .handle_message(&nobody, message(Vec::new(), 1, info_values(3074, 1)), &config, 0, &mut state)
            .unwrap();
    }
    // Nothing tells their lobbies apart, so both stay, and both are shown.
    assert_eq!(state.store.len(), 2);
    let reply = MatchmakingHandler::new()
        .handle_message(&nobody, message(hex(TDM_STRICT), 13, Vec::new()), &config, 0, &mut state)
        .unwrap();
    assert_eq!(reply.results.len(), 2);
}
