//! What a console is told of itself, in terms of the bytes that it sent.

use super::base64::{decoded, first_bytes, is_b64, sextet, sextets};
use super::ticket::{law_ticket_fields, name_field, BdAuthTicketType, TicketView};
use super::token::{
    is_run, is_token, law_long_run_gives_token, lemma_pid_bound, pid_in, service_token, token_key,
};
use super::wiiu::{pids_after, WiiUAuthHandler};
use crate::digest::tiger192;
use crate::octets::{be_bytes, be_value, le_bytes, lemma_le_bytes_len};
use crate::peer::IpAddr;
use crate::session::Title;
use crate::text::decimal;
use crate::wire::{after_first, Val};
use vstd::prelude::*;
use vstd::utf8::encode_utf8;

verus! {

/// The characters of base64 text, in the order of what they stand for.
pub open spec fn alphabet() -> Seq<char> {
    "ABCDEFGHIJKLMNOPQRSTUVWXYZabcdefghijklmnopqrstuvwxyz0123456789+/"@
}

/// Every character stands for its place in the alphabet, and nothing else stands
/// for anything. What may stand in a text is the alphabet and the equals sign.
pub proof fn law_alphabet(b: u8, v: int)
    ensures
        alphabet().len() == 64,
        0 <= v < 64 ==> sextet(alphabet()[v] as u8) == Some(v as u8),
        sextet(b) matches Some(v) ==> v < 64 && alphabet()[v as int] as u8 == b,
        is_b64(b) <==> sextet(b) is Some || b == 0x3D,
        sextet(0x3D) is None,
{
    reveal_strlit(
        "ABCDEFGHIJKLMNOPQRSTUVWXYZabcdefghijklmnopqrstuvwxyz0123456789+/",
    );
    if 0 <= v < 64 {
        assert(v == 0 || v == 1 || v == 2 || v == 3 || v == 4 || v == 5 || v == 6 || v == 7
            || v == 8 || v == 9 || v == 10 || v == 11 || v == 12 || v == 13 || v == 14 || v == 15
            || v == 16 || v == 17 || v == 18 || v == 19 || v == 20 || v == 21 || v == 22 || v == 23
            || v == 24 || v == 25 || v == 26 || v == 27 || v == 28 || v == 29 || v == 30 || v == 31
            || v == 32 || v == 33 || v == 34 || v == 35 || v == 36 || v == 37 || v == 38 || v == 39
            || v == 40 || v == 41 || v == 42 || v == 43 || v == 44 || v == 45 || v == 46 || v == 47
            || v == 48 || v == 49 || v == 50 || v == 51 || v == 52 || v == 53 || v == 54 || v == 55
            || v == 56 || v == 57 || v == 58 || v == 59 || v == 60 || v == 61 || v == 62
            || v == 63);
        assert(alphabet()[0] == 'A');
        assert(alphabet()[1] == 'B');
        assert(alphabet()[2] == 'C');
        assert(alphabet()[3] == 'D');
        assert(alphabet()[4] == 'E');
        assert(alphabet()[5] == 'F');
        assert(alphabet()[6] == 'G');
        assert(alphabet()[7] == 'H');
        assert(alphabet()[8] == 'I');
        assert(alphabet()[9] == 'J');
        assert(alphabet()[10] == 'K');
        assert(alphabet()[11] == 'L');
        assert(alphabet()[12] == 'M');
        assert(alphabet()[13] == 'N');
        assert(alphabet()[14] == 'O');
        assert(alphabet()[15] == 'P');
        assert(alphabet()[16] == 'Q');
        assert(alphabet()[17] == 'R');
        assert(alphabet()[18] == 'S');
        assert(alphabet()[19] == 'T');
        assert(alphabet()[20] == 'U');
        assert(alphabet()[21] == 'V');
        assert(alphabet()[22] == 'W');
        assert(alphabet()[23] == 'X');
        assert(alphabet()[24] == 'Y');
        assert(alphabet()[25] == 'Z');
        assert(alphabet()[26] == 'a');
        assert(alphabet()[27] == 'b');
        assert(alphabet()[28] == 'c');
        assert(alphabet()[29] == 'd');
        assert(alphabet()[30] == 'e');
        assert(alphabet()[31] == 'f');
        assert(alphabet()[32] == 'g');
        assert(alphabet()[33] == 'h');
        assert(alphabet()[34] == 'i');
        assert(alphabet()[35] == 'j');
        assert(alphabet()[36] == 'k');
        assert(alphabet()[37] == 'l');
        assert(alphabet()[38] == 'm');
        assert(alphabet()[39] == 'n');
        assert(alphabet()[40] == 'o');
        assert(alphabet()[41] == 'p');
        assert(alphabet()[42] == 'q');
        assert(alphabet()[43] == 'r');
        assert(alphabet()[44] == 's');
        assert(alphabet()[45] == 't');
        assert(alphabet()[46] == 'u');
        assert(alphabet()[47] == 'v');
        assert(alphabet()[48] == 'w');
        assert(alphabet()[49] == 'x');
        assert(alphabet()[50] == 'y');
        assert(alphabet()[51] == 'z');
        assert(alphabet()[52] == '0');
        assert(alphabet()[53] == '1');
        assert(alphabet()[54] == '2');
        assert(alphabet()[55] == '3');
        assert(alphabet()[56] == '4');
        assert(alphabet()[57] == '5');
        assert(alphabet()[58] == '6');
        assert(alphabet()[59] == '7');
        assert(alphabet()[60] == '8');
        assert(alphabet()[61] == '9');
        assert(alphabet()[62] == '+');
        assert(alphabet()[63] == '/');
    }
    if let Some(w) = sextet(b) {
        assert(w == 0 || w == 1 || w == 2 || w == 3 || w == 4 || w == 5 || w == 6 || w == 7
            || w == 8 || w == 9 || w == 10 || w == 11 || w == 12 || w == 13 || w == 14 || w == 15
            || w == 16 || w == 17 || w == 18 || w == 19 || w == 20 || w == 21 || w == 22 || w == 23
            || w == 24 || w == 25 || w == 26 || w == 27 || w == 28 || w == 29 || w == 30 || w == 31
            || w == 32 || w == 33 || w == 34 || w == 35 || w == 36 || w == 37 || w == 38 || w == 39
            || w == 40 || w == 41 || w == 42 || w == 43 || w == 44 || w == 45 || w == 46 || w == 47
            || w == 48 || w == 49 || w == 50 || w == 51 || w == 52 || w == 53 || w == 54 || w == 55
            || w == 56 || w == 57 || w == 58 || w == 59 || w == 60 || w == 61 || w == 62
            || w == 63);
        assert(alphabet()[0] == 'A');
        assert(alphabet()[1] == 'B');
        assert(alphabet()[2] == 'C');
        assert(alphabet()[3] == 'D');
        assert(alphabet()[4] == 'E');
        assert(alphabet()[5] == 'F');
        assert(alphabet()[6] == 'G');
        assert(alphabet()[7] == 'H');
        assert(alphabet()[8] == 'I');
        assert(alphabet()[9] == 'J');
        assert(alphabet()[10] == 'K');
        assert(alphabet()[11] == 'L');
        assert(alphabet()[12] == 'M');
        assert(alphabet()[13] == 'N');
        assert(alphabet()[14] == 'O');
        assert(alphabet()[15] == 'P');
        assert(alphabet()[16] == 'Q');
        assert(alphabet()[17] == 'R');
        assert(alphabet()[18] == 'S');
        assert(alphabet()[19] == 'T');
        assert(alphabet()[20] == 'U');
        assert(alphabet()[21] == 'V');
        assert(alphabet()[22] == 'W');
        assert(alphabet()[23] == 'X');
        assert(alphabet()[24] == 'Y');
        assert(alphabet()[25] == 'Z');
        assert(alphabet()[26] == 'a');
        assert(alphabet()[27] == 'b');
        assert(alphabet()[28] == 'c');
        assert(alphabet()[29] == 'd');
        assert(alphabet()[30] == 'e');
        assert(alphabet()[31] == 'f');
        assert(alphabet()[32] == 'g');
        assert(alphabet()[33] == 'h');
        assert(alphabet()[34] == 'i');
        assert(alphabet()[35] == 'j');
        assert(alphabet()[36] == 'k');
        assert(alphabet()[37] == 'l');
        assert(alphabet()[38] == 'm');
        assert(alphabet()[39] == 'n');
        assert(alphabet()[40] == 'o');
        assert(alphabet()[41] == 'p');
        assert(alphabet()[42] == 'q');
        assert(alphabet()[43] == 'r');
        assert(alphabet()[44] == 's');
        assert(alphabet()[45] == 't');
        assert(alphabet()[46] == 'u');
        assert(alphabet()[47] == 'v');
        assert(alphabet()[48] == 'w');
        assert(alphabet()[49] == 'x');
        assert(alphabet()[50] == 'y');
        assert(alphabet()[51] == 'z');
        assert(alphabet()[52] == '0');
        assert(alphabet()[53] == '1');
        assert(alphabet()[54] == '2');
        assert(alphabet()[55] == '3');
        assert(alphabet()[56] == '4');
        assert(alphabet()[57] == '5');
        assert(alphabet()[58] == '6');
        assert(alphabet()[59] == '7');
        assert(alphabet()[60] == '8');
        assert(alphabet()[61] == '9');
        assert(alphabet()[62] == '+');
        assert(alphabet()[63] == '/');
    }
}

/// A text that is taken apart at any place.
proof fn lemma_sextets_split(front: Seq<u8>, back: Seq<u8>)
    requires
        forall|i: int| 0 <= i < front.len() ==> front[i] != 0x3D,
    ensures
        sextets(front + back) == sextets(front) + sextets(back),
    decreases front.len(),
{
    let whole = front + back;
    if front.len() == 0 {
        assert(whole =~= back);
        assert(sextets(front) + sextets(back) =~= sextets(back));
    } else {
        assert(whole.drop_first() =~= front.drop_first() + back);
        assert(whole[0] == front[0]);
        lemma_sextets_split(front.drop_first(), back);
        assert(sextets(whole) =~= sextets(front) + sextets(back));
    }
}

/// A foreign character in a base64 text changes nothing, and an equals sign ends
/// it.
pub proof fn law_foreign_characters(front: Seq<u8>, b: u8, back: Seq<u8>)
    requires
        forall|i: int| 0 <= i < front.len() ==> front[i] != 0x3D,
    ensures
        b != 0x3D && sextet(b) is None ==> sextets(front + seq![b] + back) == sextets(front + back),
        sextets(front + seq![0x3Du8] + back) == sextets(front),
{
    lemma_sextets_split(front, back);
    lemma_sextets_split(front, seq![b] + back);
    lemma_sextets_split(front, seq![0x3Du8] + back);
    assert(front + seq![b] + back =~= front + (seq![b] + back));
    assert(front + seq![0x3Du8] + back =~= front + (seq![0x3Du8] + back));
    assert((seq![b] + back).drop_first() =~= back);
    assert(sextets(front) + sextets(seq![0x3Du8] + back) =~= sextets(front));
}

/// A text of the alphabet is one group of six bits for each character.
pub proof fn law_groups_of_text(text: Seq<u8>)
    requires
        forall|i: int| 0 <= i < text.len() ==> sextet(#[trigger] text[i]) is Some,
    ensures
        sextets(text).len() == text.len(),
        forall|i: int|
            0 <= i < text.len() ==> Some(#[trigger] sextets(text)[i]) == sextet(text[i]),
    decreases text.len(),
{
    if text.len() > 0 {
        let rest = text.drop_first();
        assert(sextet(text[0]) is Some);
        assert(forall|i: int| 0 <= i < rest.len() ==> #[trigger] rest[i] == text[i + 1]);
        law_groups_of_text(rest);
        assert forall|i: int| 0 <= i < text.len() implies Some(#[trigger] sextets(text)[i])
            == sextet(text[i]) by {
            if i > 0 {
                assert(sextets(text)[i] == sextets(rest)[i - 1]);
                assert(rest[i - 1] == text[i]);
            }
        }
    }
}

/// Eight bits follow one another where six did: of every four groups, the first
/// byte has all of the first and two bits of the second, the next four and four, the
/// last two and six.
pub proof fn law_bytes_of_groups(s: Seq<u8>, q: int)
    requires
        forall|i: int| 0 <= i < s.len() ==> #[trigger] s[i] < 64,
        0 <= q,
    ensures
        decoded(s).len() == s.len() * 6 / 8,
        4 * q + 1 < s.len() ==> decoded(s)[3 * q] == s[4 * q] * 4 + s[4 * q + 1] / 16,
        4 * q + 2 < s.len()
            ==> decoded(s)[3 * q + 1] == (s[4 * q + 1] % 16) * 16 + s[4 * q + 2] / 4,
        4 * q + 3 < s.len() ==> decoded(s)[3 * q + 2] == (s[4 * q + 2] % 4) * 64 + s[4 * q + 3],
    decreases s.len(),
{
    if s.len() >= 4 {
        let rest = s.skip(4);
        assert forall|i: int| 0 <= i < rest.len() implies #[trigger] rest[i] < 64 by {
            assert(rest[i] == s[i + 4]);
        }
        assert(s[0] < 64 && s[1] < 64 && s[2] < 64 && s[3] < 64);
        if q > 0 {
            law_bytes_of_groups(rest, q - 1);
            assert(forall|i: int| 3 <= i < decoded(s).len() ==> #[trigger] decoded(s)[i] == decoded(
                rest,
            )[i - 3]);
            assert(decoded(s)[3 * q] == decoded(rest)[3 * (q - 1)] || 4 * q + 1 >= s.len());
            if 4 * q + 1 < s.len() {
                assert(rest[4 * (q - 1)] == s[4 * q]);
                assert(rest[4 * (q - 1) + 1] == s[4 * q + 1]);
            }
            if 4 * q + 2 < s.len() {
                assert(decoded(s)[3 * q + 1] == decoded(rest)[3 * (q - 1) + 1]);
                assert(rest[4 * (q - 1) + 2] == s[4 * q + 2]);
            }
            if 4 * q + 3 < s.len() {
                assert(decoded(s)[3 * q + 2] == decoded(rest)[3 * (q - 1) + 2]);
                assert(rest[4 * (q - 1) + 3] == s[4 * q + 3]);
            }
        } else {
            law_bytes_of_groups(rest, 0);
            assert(decoded(s)[0] == first_bytes(s, 3)[0]);
            assert(decoded(s)[1] == first_bytes(s, 3)[1]);
            assert(decoded(s)[2] == first_bytes(s, 3)[2]);
        }
    } else if s.len() >= 2 {
        assert(s[0] < 64 && s[1] < 64);
        if s.len() == 3 {
            assert(s[2] < 64);
        }
    }
}

/// Whether only base64 characters stand in a window of a message: letters, digits,
/// `+`, `/` and `=`.
pub open spec fn all_b64(raw: Seq<u8>, start: int, end: int) -> bool {
    &&& 0 <= start <= end <= raw.len()
    &&& forall|i: int|
        start <= i < end ==> {
            ||| 0x41 <= #[trigger] raw[i] <= 0x5A
            ||| 0x61 <= raw[i] <= 0x7A
            ||| 0x30 <= raw[i] <= 0x39
            ||| raw[i] == 0x2B
            ||| raw[i] == 0x2F
            ||| raw[i] == 0x3D
        }
}

/// Every window of base64 characters lies within a run of them.
proof fn lemma_window_in_run(raw: Seq<u8>, start: int, end: int) -> (run: (int, int))
    requires
        start < end,
        all_b64(raw, start, end),
    ensures
        is_run(raw, run.0, run.1),
        run.0 <= start,
        end <= run.1,
    decreases raw.len() - (end - start),
{
    if start > 0 && is_b64(raw[start - 1]) {
        lemma_window_in_run(raw, start - 1, end)
    } else if end < raw.len() && is_b64(raw[end]) {
        lemma_window_in_run(raw, start, end + 1)
    } else {
        (start, end)
    }
}

/// The service token stands in the message, is at least forty base64 characters
/// long, and no window of them is longer; none that is as long begins earlier. A
/// message has a token exactly if it has a window of forty such characters.
pub proof fn law_token_by_windows(raw: Seq<u8>)
    ensures
        service_token(raw) matches Some(token) ==> token.len() >= 40 && exists|at: int|
            #![trigger raw.subrange(at, at + token.len())]
            {
                &&& all_b64(raw, at, at + token.len())
                &&& token == raw.subrange(at, at + token.len())
                &&& forall|s: int, e: int| #[trigger]
                    all_b64(raw, s, e) ==> e - s < token.len() || e - s == token.len() && s >= at
            },
        service_token(raw) is None ==> forall|s: int, e: int| #[trigger]
            all_b64(raw, s, e) ==> e - s < 40,
{
    if let Some(token) = service_token(raw) {
        let (start, end) = choose|start: int, end: int| is_token(raw, start, end);
        assert(is_token(raw, start, end));
        assert(end == start + token.len());
        assert(token == raw.subrange(start, start + token.len()));
        assert(all_b64(raw, start, end)) by {
            assert forall|i: int| start <= i < end implies is_b64(#[trigger] raw[i]) by {}
        }
        assert forall|s: int, e: int| #[trigger] all_b64(raw, s, e) implies e - s < token.len() || e
            - s == token.len() && s >= start by {
            if s < e {
                let run = lemma_window_in_run(raw, s, e);
                assert(is_run(raw, run.0, run.1));
            }
        }
    } else {
        assert forall|s: int, e: int| #[trigger] all_b64(raw, s, e) implies e - s < 40 by {
            if e - s >= 40 {
                let run = lemma_window_in_run(raw, s, e);
                law_long_run_gives_token(raw, run.0, run.1);
            }
        }
    }
}

/// The principal id of a message is the number that the first four bytes behind its
/// token spell, the most significant first; without a token there is none.
pub proof fn law_pid_by_bytes(raw: Seq<u8>)
    ensures
        service_token(raw) is None ==> pid_in(raw) is None,
        service_token(raw) matches Some(token) ==> {
            let b = decoded(sextets(token));
            &&& b.len() >= 4 ==> pid_in(raw) == Some(
                (0x100_0000 * b[0] + 0x1_0000 * b[1] + 0x100 * b[2] + b[3]) as nat,
            )
            &&& b.len() < 4 ==> pid_in(raw) is None
        },
{
    if let Some(token) = service_token(raw) {
        let b = decoded(sextets(token));
        if b.len() >= 4 {
            lemma_four_bytes(b.take(4));
        }
    }
}

/// The number that four bytes spell.
proof fn lemma_four_bytes(s: Seq<u8>)
    requires
        s.len() == 4,
    ensures
        be_value(s) == 0x100_0000 * s[0] + 0x1_0000 * s[1] + 0x100 * s[2] + s[3],
{
    reveal_with_fuel(be_value, 5);
    let t3 = s.drop_last();
    let t2 = t3.drop_last();
    let t1 = t2.drop_last();
    assert(t1.drop_last() =~= Seq::<u8>::empty());
    assert(t3.last() == s[2] && t2.last() == s[1] && t1.last() == s[0] && s.last() == s[3]);
}

/// The key of a console is the digest of the four bytes of its principal id, the
/// most significant first.
pub proof fn law_key_by_bytes(pid: u32)
    ensures
        token_key(pid as nat) == tiger192(
            seq![
                (pid / 0x100_0000) as u8,
                (pid / 0x1_0000 % 0x100) as u8,
                (pid / 0x100 % 0x100) as u8,
                (pid % 0x100) as u8,
            ],
        ),
{
    reveal_with_fuel(be_bytes, 5);
    let p = pid as nat;
    assert(p / 256 / 256 == p / 0x1_0000);
    assert(p / 256 / 256 / 256 == p / 0x100_0000);
    assert(p / 256 / 256 / 256 / 256 == 0);
    assert(be_bytes(p, 4) =~= seq![
        (pid / 0x100_0000) as u8,
        (pid / 0x1_0000 % 0x100) as u8,
        (pid / 0x100 % 0x100) as u8,
        (pid % 0x100) as u8,
    ]);
}

/// What a ticket holds besides its fields: it begins with DE AD BD EF, behind the
/// fields stand 55 33 22 and the first four bytes of the digest of all that stands
/// before them, and a name is followed by zeros.
pub proof fn law_ticket_by_bytes(t: TicketView, i: int)
    requires
        t.session_key.len() == 24,
        encode_utf8(t.username).len() <= 64,
        tiger192(t.body()).len() == 24,
    ensures
        ({
            let b = t.bytes();
            &&& b.len() == 128
            &&& b[0] == 0xDE && b[1] == 0xAD && b[2] == 0xBD && b[3] == 0xEF
            &&& b[4] == (match t.ticket_type {
                BdAuthTicketType::UserToService => 0u8,
                BdAuthTicketType::HostToService => 1u8,
                BdAuthTicketType::UserToHost => 2u8,
            })
            &&& b[121] == 0x55 && b[122] == 0x33 && b[123] == 0x22
            &&& b.take(121) == t.body()
            &&& 0 <= i < 4 ==> b[124 + i] == tiger192(b.take(121))[i]
            &&& 0 <= i < encode_utf8(t.username).len() ==> b[33 + i] == encode_utf8(t.username)[i]
            &&& encode_utf8(t.username).len() <= i < 64 ==> b[33 + i] == 0
        }),
{
    law_ticket_fields(t);
    let b = t.bytes();
    let body = t.body();
    assert(b.take(121) =~= body);
    reveal_with_fuel(le_bytes, 5);
    lemma_le_bytes_len(0xEFBD_ADDE, 4);
    let magic = le_bytes(0xEFBD_ADDE, 4);
    assert(magic[0] == 0xDE && magic[1] == 0xAD && magic[2] == 0xBD && magic[3] == 0xEF);
    assert(body[0] == magic[0] && body[1] == magic[1] && body[2] == magic[2]
        && body[3] == magic[3]);
    if 0 <= i < 64 {
        assert(body.subrange(33, 97)[i] == name_field(t.username)[i]);
    }
}

/// What a console is answered: the seed is the second value of its request, where
/// that is a number, and else the random one; the title is the third, where that is
/// a number of a title that is served, and else Black Ops II. Its name and numbers
/// come from its principal id, or from 1768140980 where it shows none; the ticket is
/// good for five minutes; and the session key is the one that all consoles share.
pub proof fn law_answer_by_values(
    handler: WiiUAuthHandler,
    raw: Seq<u8>,
    values: Seq<Val>,
    random_seed: u32,
    now: i64,
)
    requires
        0 <= now <= i64::MAX - 300,
    ensures
        ({
            let r = handler.response(raw, values, random_seed, now);
            let pid = r.ticket.user_id;
            let served = handler.served();
            &&& values.len() > 1 && values[1] is U32 ==> r.iv_seed == values[1]->U32_0
            &&& !(values.len() > 1 && values[1] is U32) ==> r.iv_seed == random_seed
            &&& values.len() > 2 && values[2] is U32 && served.knows(values[2]->U32_0)
                ==> r.ticket.title == (Title { id: values[2]->U32_0 })
            &&& !(values.len() > 2 && values[2] is U32 && served.knows(values[2]->U32_0))
                ==> r.ticket.title == (Title { id: served.t6_wiiu_id() })
            &&& pid_in(raw) is Some ==> pid == pid_in(raw)->Some_0
            &&& pid_in(raw) is None ==> pid == 1_768_140_980
            &&& r.reply_type == handler.answers_with()
            &&& r.ticket.ticket_type == BdAuthTicketType::UserToService
            &&& r.ticket.license_id == pid
            &&& r.ticket.username == "WiiUUser"@ + decimal(pid as nat)
            &&& r.ticket.time_issued == now % 0xFFFF_FFFF
            &&& r.ticket.time_expires == (now + 300) % 0xFFFF_FFFF
            &&& r.ticket.session_key == seq![
                0x01u8, 0x23u8, 0x45u8, 0x67u8, 0x89u8, 0xABu8, 0xCDu8, 0xEFu8,
                0xFEu8, 0xDCu8, 0xBAu8, 0x98u8, 0x76u8, 0x54u8, 0x32u8, 0x10u8,
                0x55u8, 0xAAu8, 0x55u8, 0xAAu8, 0x33u8, 0xCCu8, 0x33u8, 0xCCu8,
            ]
            &&& r.token_encryption_key == token_key(pid as nat)
            &&& r.auth_proof.title == r.ticket.title
            &&& r.auth_proof.time_expires == now + 300
            &&& r.auth_proof.license_id == pid
            &&& r.auth_proof.user_id == pid
            &&& r.auth_proof.session_key == r.ticket.session_key
            &&& r.auth_proof.username == r.ticket.username
        }),
{
    lemma_pid_bound(raw);
    let rest = after_first(values);
    if values.len() > 1 {
        assert(rest[0] == values[1]);
    }
    if values.len() > 2 {
        assert(after_first(rest)[0] == values[2]);
    }
}

/// A principal id is remembered exactly if the message shows it and the address is
/// known; nobody else's is touched.
pub proof fn law_pid_is_remembered(
    pids: Map<IpAddr, u64>,
    addr: Option<IpAddr>,
    raw: Seq<u8>,
    other: IpAddr,
)
    ensures
        ({
            let after = pids_after(pids, addr, raw);
            &&& addr is Some && pid_in(raw) is Some ==> after.contains_key(addr->Some_0)
                && after[addr->Some_0] == pid_in(raw)->Some_0
            &&& addr is None || pid_in(raw) is None ==> after == pids
            &&& addr != Some(other) ==> (after.contains_key(other) <==> pids.contains_key(other))
                && after[other] == pids[other]
        }),
{
    lemma_pid_bound(raw);
}

} // verus!
