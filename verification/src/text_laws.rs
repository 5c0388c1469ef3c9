//! What texts hold, character by character.

use crate::text::{
    decimal, is_space, lemma_before_comma, list_entries, trimmed,
    without_leading_space, without_trailing_space,
};
use vstd::prelude::*;

verus! {

/// The number that decimal digits spell.
pub open spec fn spelled(digits: Seq<char>) -> int
    decreases digits.len(),
{
    if digits.len() == 0 {
        0
    } else {
        10 * spelled(digits.drop_last()) + (digits.last() as int - 48)
    }
}

/// A number in decimal spells the number, and begins with no zero but that of zero
/// itself.
pub proof fn law_decimal_spells(n: nat)
    ensures
        spelled(decimal(n)) == n,
        decimal(n).len() > 0,
        decimal(n)[0] == '0' ==> n == 0,
        n == 0 ==> decimal(n).len() == 1,
    decreases n,
{
    if n < 10 {
        assert(decimal(n).drop_last() =~= Seq::<char>::empty());
        reveal_with_fuel(spelled, 2);
    } else {
        law_decimal_spells(n / 10);
        assert(decimal(n).drop_last() =~= decimal(n / 10));
        assert(decimal(n)[0] == decimal(n / 10)[0]);
    }
}

/// Different numbers are different texts.
pub proof fn law_decimal_is_injective(m: nat, n: nat)
    requires
        decimal(m) == decimal(n),
    ensures
        m == n,
{
    law_decimal_spells(m);
    law_decimal_spells(n);
}

/// Which characters are white space.
pub proof fn law_white_space(c: char)
    ensures
        is_space(c) <==> {
            let code = c as u32;
            ||| 9 <= code <= 13
            ||| code == 32
            ||| code == 0x85
            ||| code == 0xA0
            ||| code == 0x1680
            ||| 0x2000 <= code <= 0x200A
            ||| code == 0x2028
            ||| code == 0x2029
            ||| code == 0x202F
            ||| code == 0x205F
            ||| code == 0x3000
        },
{
}

proof fn lemma_front(text: Seq<char>) -> (a: int)
    ensures
        0 <= a <= text.len(),
        without_leading_space(text) == text.skip(a),
        forall|i: int| 0 <= i < a ==> is_space(#[trigger] text[i]),
        a < text.len() ==> !is_space(text[a]),
    decreases text.len(),
{
    if text.len() > 0 && is_space(text[0]) {
        let rest = text.skip(1);
        let a = lemma_front(rest);
        assert(rest.skip(a) =~= text.skip(a + 1));
        assert forall|i: int| 0 <= i < a + 1 implies is_space(#[trigger] text[i]) by {
            if i > 0 {
                assert(rest[i - 1] == text[i]);
            }
        }
        a + 1
    } else {
        assert(text.skip(0) =~= text);
        0
    }
}

proof fn lemma_back(text: Seq<char>) -> (b: int)
    ensures
        0 <= b <= text.len(),
        without_trailing_space(text) == text.take(b),
        forall|i: int| b <= i < text.len() ==> is_space(#[trigger] text[i]),
        b > 0 ==> !is_space(text[b - 1]),
    decreases text.len(),
{
    if text.len() > 0 && is_space(text.last()) {
        let rest = text.drop_last();
        let b = lemma_back(rest);
        assert(rest.take(b) =~= text.take(b));
        assert forall|i: int| b <= i < text.len() implies is_space(#[trigger] text[i]) by {
            if i < rest.len() {
                assert(rest[i] == text[i]);
            }
        }
        b
    } else {
        assert(text.take(text.len() as int) =~= text);
        text.len() as int
    }
}

/// White space around a text is taken off and nothing else: what is left stands in
/// the text with only white space before and behind it, and neither begins nor ends
/// with white space.
pub proof fn law_trim_takes_white_space(before: Seq<char>, inner: Seq<char>, after: Seq<char>)
    requires
        forall|i: int| 0 <= i < before.len() ==> is_space(#[trigger] before[i]),
        forall|i: int| 0 <= i < after.len() ==> is_space(#[trigger] after[i]),
        inner.len() > 0 ==> !is_space(inner[0]) && !is_space(inner.last()),
    ensures
        trimmed(before + inner + after) == inner,
{
    let text = before + inner + after;
    let a = lemma_front(text);
    let rest = text.skip(a);
    let b = lemma_back(rest);
    let n = before.len() as int;
    let m = inner.len() as int;
    if m > 0 {
        assert(text[n] == inner[0]);
        if a < n {
            assert(text[a] == before[a]);
        }
        assert(a == n);
        assert(rest =~= inner + after);
        assert(rest[m - 1] == inner.last());
        if b > m {
            assert(rest[b - 1] == after[b - 1 - m]);
        }
        assert(b == m);
        assert(rest.take(b) =~= inner);
    } else {
        if a < text.len() {
            if a < n {
                assert(text[a] == before[a]);
            } else {
                assert(text[a] == after[a - n]);
            }
        }
        assert(rest =~= Seq::<char>::empty());
        assert(rest.take(b) =~= inner);
    }
}

/// A list is read entry by entry: what stands before a comma is the next entry,
/// without white space around it, unless nothing is left of it; what stands behind
/// the comma is read in the same way, and what holds no comma is one entry.
pub proof fn law_list_by_commas(head: Seq<char>, tail: Seq<char>)
    requires
        forall|i: int| 0 <= i < head.len() ==> head[i] != ',',
    ensures
        list_entries(head + seq![','] + tail) == list_entries(head) + list_entries(tail),
        trimmed(head).len() > 0 ==> list_entries(head) == seq![trimmed(head)],
        trimmed(head).len() == 0 ==> list_entries(head).len() == 0,
{
    let text = head + seq![','] + tail;
    let n = head.len();
    assert(text[n as int] == ',');
    assert forall|k: int| 0 <= k < n implies text[k] != ',' by {
        assert(text[k] == head[k]);
    }
    lemma_before_comma(text, n);
    lemma_before_comma(head, n);
    assert(text.take(n as int) =~= head);
    assert(head.take(n as int) =~= head);
    assert(text.skip(n as int + 1) =~= tail);
}

} // verus!
