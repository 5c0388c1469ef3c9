//! Base64 text.

use vstd::prelude::*;

verus! {

/// `A`, with the other capital letters behind it.
pub const UPPER_A: u8 = 0x41;

/// `a`, with the other small letters behind it.
pub const LOWER_A: u8 = 0x61;

/// `0`, with the other digits behind it.
pub const DIGIT_0: u8 = 0x30;

/// `+`
pub const PLUS: u8 = 0x2B;

/// `/`
pub const SLASH: u8 = 0x2F;

/// `=`, which fills up a base64 text.
pub const PAD: u8 = 0x3D;

/// Whether a byte may stand in a base64 text, padding included.
pub open spec fn is_b64(b: u8) -> bool {
    ||| UPPER_A <= b < UPPER_A + 26
    ||| LOWER_A <= b < LOWER_A + 26
    ||| DIGIT_0 <= b < DIGIT_0 + 10
    ||| b == PLUS
    ||| b == SLASH
    ||| b == PAD
}

/// Whether a byte may stand in a base64 text.
pub fn base64_char(b: u8) -> (r: bool)
    ensures
        r == is_b64(b),
{
    (UPPER_A <= b && b < UPPER_A + 26) || (LOWER_A <= b && b < LOWER_A + 26) || (DIGIT_0 <= b && b
        < DIGIT_0 + 10) || b == PLUS || b == SLASH || b == PAD
}

/// The six bits that a character stands for.
pub open spec fn sextet(b: u8) -> Option<u8> {
    if UPPER_A <= b < UPPER_A + 26 {
        Some((b - UPPER_A) as u8)
    } else if LOWER_A <= b < LOWER_A + 26 {
        Some((b - LOWER_A + 26) as u8)
    } else if DIGIT_0 <= b < DIGIT_0 + 10 {
        Some((b - DIGIT_0 + 52) as u8)
    } else if b == PLUS {
        Some(62)
    } else if b == SLASH {
        Some(63)
    } else {
        None
    }
}

/// The six-bit groups of a text, up to the first padding character; characters
/// that stand for nothing are passed over.
pub open spec fn sextets(text: Seq<u8>) -> Seq<u8>
    decreases text.len(),
{
    if text.len() == 0 || text[0] == PAD {
        Seq::empty()
    } else {
        match sextet(text[0]) {
            Some(v) => seq![v] + sextets(text.drop_first()),
            None => sextets(text.drop_first()),
        }
    }
}

/// The bytes that six-bit groups make up, three of every four groups. Bits that
/// do not fill a byte at the end are dropped.
pub open spec fn decoded(s: Seq<u8>) -> Seq<u8>
    decreases s.len(),
{
    if s.len() >= 4 {
        first_bytes(s, 3) + decoded(s.skip(4))
    } else if s.len() == 3 {
        first_bytes(s, 2)
    } else if s.len() == 2 {
        first_bytes(s, 1)
    } else {
        Seq::empty()
    }
}

/// The first `n` of the three bytes that the first four groups make up.
pub open spec fn first_bytes(s: Seq<u8>, n: nat) -> Seq<u8> {
    Seq::new(
        n,
        |k: int|
            if k == 0 {
                (s[0] * 4 + s[1] / 16) as u8
            } else if k == 1 {
                ((s[1] % 16) * 16 + s[2] / 4) as u8
            } else {
                ((s[2] % 4) * 64 + s[3]) as u8
            },
    )
}

/// The byte that one more group completes.
spec fn completed(s: Seq<u8>, v: u8) -> Seq<u8> {
    if s.len() % 4 == 0 {
        Seq::empty()
    } else if s.len() % 4 == 1 {
        seq![(s.last() * 4 + v / 16) as u8]
    } else if s.len() % 4 == 2 {
        seq![((s.last() % 16) * 16 + v / 4) as u8]
    } else {
        seq![((s.last() % 4) * 64 + v) as u8]
    }
}

proof fn lemma_decoded_push(s: Seq<u8>, v: u8)
    ensures
        decoded(s.push(v)) == decoded(s) + completed(s, v),
    decreases s.len(),
{
    if s.len() >= 4 {
        lemma_decoded_push(s.skip(4), v);
        assert(s.push(v).skip(4) =~= s.skip(4).push(v));
        if s.len() > 4 {
            assert(s.skip(4).last() == s.last());
        }
        assert(completed(s.skip(4), v) =~= completed(s, v));
        assert(first_bytes(s.push(v), 3) =~= first_bytes(s, 3));
        assert(decoded(s.push(v)) =~= decoded(s) + completed(s, v));
    } else {
        if s.len() == 3 {
            assert(s.push(v).skip(4) =~= Seq::<u8>::empty());
            assert(decoded(Seq::<u8>::empty()) =~= Seq::<u8>::empty());
        }
        assert(decoded(s.push(v)) =~= decoded(s) + completed(s, v));
    }
}

/// The six bits that a character stands for.
fn sextet_of(b: u8) -> (v: Option<u8>)
    ensures
        v == sextet(b),
        v matches Some(v) ==> v < 64,
{
    if UPPER_A <= b && b < UPPER_A + 26 {
        Some(b - UPPER_A)
    } else if LOWER_A <= b && b < LOWER_A + 26 {
        Some(b - LOWER_A + 26)
    } else if DIGIT_0 <= b && b < DIGIT_0 + 10 {
        Some(b - DIGIT_0 + 52)
    } else if b == PLUS {
        Some(62)
    } else if b == SLASH {
        Some(63)
    } else {
        None
    }
}

/// Decodes a base64 text up to its padding, passing over foreign characters.
pub fn decode_b64(input: &[u8]) -> (bytes: Option<Vec<u8>>)
    ensures
        bytes matches Some(bytes) && bytes@ == decoded(sextets(input@)),
{
    let mut out: Vec<u8> = Vec::new();
    let ghost mut seen: Seq<u8> = Seq::empty();
    // The bits that have not filled a byte yet, and how many groups they go back.
    let mut carry: u8 = 0;
    let mut phase: u8 = 0;
    let mut i: usize = 0;
    proof {
        assert(input@.skip(0) =~= input@);
        assert(seen + sextets(input@) =~= sextets(input@));
    }
    while i < input.len()
        invariant_except_break
            i <= input.len(),
            seen + sextets(input@.skip(i as int)) == sextets(input@),
        invariant
            out@ == decoded(seen),
            phase == seen.len() % 4,
            phase == 0 ==> carry == 0,
            phase == 1 ==> carry == seen.last(),
            phase == 2 ==> carry == seen.last() % 16,
            phase == 3 ==> carry == seen.last() % 4,
            carry < 64,
        ensures
            seen == sextets(input@),
        decreases input.len() - i,
    {
        let b: u8 = input[i];
        let ghost tail = input@.skip(i as int);
        proof {
            assert(tail.drop_first() =~= input@.skip(i + 1));
        }
        if b == PAD {
            proof {
                assert(seen + sextets(tail) =~= seen);
            }
            break;
        }
        if let Some(v) = sextet_of(b) {
            proof {
                lemma_decoded_push(seen, v);
                assert(seen.push(v) + sextets(tail.drop_first()) =~= seen + sextets(tail));
            }
            if phase == 0 {
                carry = v;
                phase = 1;
            } else if phase == 1 {
                out.push(carry * 4 + v / 16);
                carry = v % 16;
                phase = 2;
            } else if phase == 2 {
                out.push(carry * 16 + v / 4);
                carry = v % 4;
                phase = 3;
            } else {
                out.push(carry * 64 + v);
                carry = 0;
                phase = 0;
            }
            proof {
                assert(out@ =~= decoded(seen.push(v)));
                seen = seen.push(v);
            }
        }
        i = i + 1;
        proof {
            if i == input.len() {
                assert(sextets(input@.skip(i as int)) =~= Seq::<u8>::empty());
                assert(seen + Seq::<u8>::empty() =~= seen);
            }
        }
    }
    Some(out)
}

/// The character of six bits.
pub open spec fn character(v: int) -> u8 {
    if v < 26 {
        (UPPER_A + v) as u8
    } else if v < 52 {
        (LOWER_A + v - 26) as u8
    } else if v < 62 {
        (DIGIT_0 + v - 52) as u8
    } else if v == 62 {
        PLUS
    } else {
        SLASH
    }
}

/// The base64 text of a byte string, with its padding.
pub open spec fn encoded(bytes: Seq<u8>) -> Seq<u8>
    decreases bytes.len(),
{
    if bytes.len() == 0 {
        Seq::empty()
    } else if bytes.len() == 1 {
        seq![
            character(bytes[0] as int / 4),
            character((bytes[0] as int % 4) * 16),
            PAD,
            PAD,
        ]
    } else if bytes.len() == 2 {
        seq![
            character(bytes[0] as int / 4),
            character((bytes[0] as int % 4) * 16 + bytes[1] as int / 16),
            character((bytes[1] as int % 16) * 4),
            PAD,
        ]
    } else {
        seq![
            character(bytes[0] as int / 4),
            character((bytes[0] as int % 4) * 16 + bytes[1] as int / 16),
            character((bytes[1] as int % 16) * 4 + bytes[2] as int / 64),
            character(bytes[2] as int % 64),
        ] + encoded(bytes.skip(3))
    }
}

proof fn lemma_character(v: int)
    requires
        0 <= v < 64,
    ensures
        sextet(character(v)) == Some(v as u8),
        character(v) != PAD,
        is_b64(character(v)),
{
}

proof fn lemma_sextets_step(c: u8, v: u8, rest: Seq<u8>)
    requires
        sextet(c) == Some(v),
        c != PAD,
    ensures
        sextets(seq![c] + rest) == seq![v] + sextets(rest),
{
    assert((seq![c] + rest).drop_first() =~= rest);
}

/// Decoding an encoded byte string gives it back.
pub proof fn law_decode_inverts_encode(bytes: Seq<u8>)
    ensures
        decoded(sextets(encoded(bytes))) == bytes,
    decreases bytes.len(),
{
    if bytes.len() == 0 {
        assert(decoded(sextets(encoded(bytes))) =~= bytes);
    } else if bytes.len() == 1 {
        let a = bytes[0] as int / 4;
        let b = (bytes[0] as int % 4) * 16;
        lemma_character(a);
        lemma_character(b);
        let tail = seq![PAD, PAD];
        lemma_sextets_step(character(b), b as u8, tail);
        lemma_sextets_step(character(a), a as u8, seq![character(b)] + tail);
        assert(encoded(bytes) =~= seq![character(a)] + (seq![character(b)] + tail));
        assert(sextets(encoded(bytes)) =~= seq![a as u8, b as u8]);
        assert(decoded(sextets(encoded(bytes))) =~= bytes);
    } else if bytes.len() == 2 {
        let a = bytes[0] as int / 4;
        let b = (bytes[0] as int % 4) * 16 + bytes[1] as int / 16;
        let c = (bytes[1] as int % 16) * 4;
        lemma_character(a);
        lemma_character(b);
        lemma_character(c);
        let tail = seq![PAD];
        lemma_sextets_step(character(c), c as u8, tail);
        lemma_sextets_step(character(b), b as u8, seq![character(c)] + tail);
        lemma_sextets_step(character(a), a as u8, seq![character(b)] + (seq![character(c)] + tail));
        assert(encoded(bytes) =~= seq![character(a)] + (seq![character(b)] + (seq![character(c)]
            + tail)));
        assert(sextets(encoded(bytes)) =~= seq![a as u8, b as u8, c as u8]);
        assert(decoded(sextets(encoded(bytes))) =~= bytes);
    } else {
        let a = bytes[0] as int / 4;
        let b = (bytes[0] as int % 4) * 16 + bytes[1] as int / 16;
        let c = (bytes[1] as int % 16) * 4 + bytes[2] as int / 64;
        let d = bytes[2] as int % 64;
        lemma_character(a);
        lemma_character(b);
        lemma_character(c);
        lemma_character(d);
        let tail = encoded(bytes.skip(3));
        let after_c = seq![character(d)] + tail;
        let after_b = seq![character(c)] + after_c;
        let after_a = seq![character(b)] + after_b;
        lemma_sextets_step(character(d), d as u8, tail);
        lemma_sextets_step(character(c), c as u8, after_c);
        lemma_sextets_step(character(b), b as u8, after_b);
        lemma_sextets_step(character(a), a as u8, after_a);
        assert(encoded(bytes) =~= seq![character(a)] + after_a);
        let groups = sextets(encoded(bytes));
        assert(groups =~= seq![a as u8, b as u8, c as u8, d as u8] + sextets(tail));
        assert(groups.skip(4) =~= sextets(tail));
        law_decode_inverts_encode(bytes.skip(3));
        assert(first_bytes(groups, 3) =~= bytes.take(3));
        assert(bytes.take(3) + bytes.skip(3) =~= bytes);
    }
}

/// A text without the padding at its end.
pub open spec fn unpadded(text: Seq<u8>) -> Seq<u8>
    decreases text.len(),
{
    if text.len() > 0 && text.last() == PAD {
        unpadded(text.drop_last())
    } else {
        text
    }
}

proof fn lemma_pad_adds_nothing(text: Seq<u8>)
    ensures
        sextets(text.push(PAD)) == sextets(text),
    decreases text.len(),
{
    if text.len() > 0 {
        lemma_pad_adds_nothing(text.drop_first());
        assert(text.push(PAD).drop_first() =~= text.drop_first().push(PAD));
    }
}

proof fn lemma_unpadded(text: Seq<u8>)
    ensures
        sextets(unpadded(text)) == sextets(text),
    decreases text.len(),
{
    if text.len() > 0 && text.last() == PAD {
        lemma_unpadded(text.drop_last());
        lemma_pad_adds_nothing(text.drop_last());
        assert(text.drop_last().push(PAD) =~= text);
    }
}

/// Decoding an encoded byte string gives it back without its padding too.
pub proof fn law_padding_is_optional(bytes: Seq<u8>)
    ensures
        decoded(sextets(unpadded(encoded(bytes)))) == bytes,
{
    lemma_unpadded(encoded(bytes));
    law_decode_inverts_encode(bytes);
}

} // verus!
