//! Numbers and names as text.

use vstd::prelude::*;
use vstd::utf8::is_ascii_chars;

verus! {

/// The character of a decimal digit.
pub open spec fn digit(d: nat) -> char {
    (48 + d) as char
}

/// A number in decimal, without leading zeros.
pub open spec fn decimal(n: nat) -> Seq<char>
    decreases n,
{
    if n < 10 {
        seq![digit(n)]
    } else {
        decimal(n / 10).push(digit(n % 10))
    }
}

/// `10` to the power of `k`.
pub open spec fn power_of_ten(k: nat) -> nat
    decreases k,
{
    if k == 0 {
        1
    } else {
        10 * power_of_ten((k - 1) as nat)
    }
}

/// A number below a power of ten has no more digits than that power has zeros,
/// and all of them are ASCII.
pub proof fn lemma_decimal_shape(n: nat, k: nat)
    requires
        n < power_of_ten(k),
        k > 0,
    ensures
        decimal(n).len() <= k,
        is_ascii_chars(decimal(n)),
    decreases k,
{
    if n >= 10 {
        assert(k > 1) by {
            reveal_with_fuel(power_of_ten, 2);
        }
        lemma_decimal_shape(n / 10, (k - 1) as nat);
    }
}

/// A number consists of digits.
pub proof fn lemma_decimal_digits(n: nat)
    ensures
        forall|i: int| 0 <= i < decimal(n).len() ==> '0' <= #[trigger] decimal(n)[i] <= '9',
    decreases n,
{
    if n >= 10 {
        lemma_decimal_digits(n / 10);
        let init = decimal(n / 10);
        assert forall|i: int| 0 <= i < decimal(n).len() implies '0' <= #[trigger] decimal(n)[i]
            <= '9' by {
            if i < init.len() {
                assert(decimal(n)[i] == init[i]);
            } else {
                assert(decimal(n)[i] == digit(n % 10));
            }
        }
    } else {
        assert(decimal(n)[0] == digit(n));
    }
}

/// The text of one decimal digit.
fn digit_text(d: u64) -> (text: &'static str)
    requires
        d < 10,
    ensures
        text@ == seq![digit(d as nat)],
{
    proof {
        reveal_strlit("0");
        reveal_strlit("1");
        reveal_strlit("2");
        reveal_strlit("3");
        reveal_strlit("4");
        reveal_strlit("5");
        reveal_strlit("6");
        reveal_strlit("7");
        reveal_strlit("8");
        reveal_strlit("9");
    }
    let text: &'static str = match d {
        0 => "0",
        1 => "1",
        2 => "2",
        3 => "3",
        4 => "4",
        5 => "5",
        6 => "6",
        7 => "7",
        8 => "8",
        _ => "9",
    };
    proof {
        assert(text@ =~= seq![digit(d as nat)]);
    }
    text
}

/// Appends a number in decimal.
pub fn append_decimal(out: &mut String, n: u64)
    ensures
        final(out)@ == old(out)@ + decimal(n as nat),
    decreases n,
{
    if n >= 10 {
        append_decimal(out, n / 10);
    }
    let ghost before = out@;
    out.append(digit_text(n % 10));
    proof {
        if n >= 10 {
            assert(before == old(out)@ + decimal((n / 10) as nat));
        }
        assert(out@ =~= old(out)@ + decimal(n as nat));
    }
}

/// Whether a text stands in another at a place.
pub open spec fn stands_at(text: Seq<char>, part: Seq<char>, i: int) -> bool {
    0 <= i <= text.len() - part.len() && text.subrange(i, i + part.len()) == part
}

/// Whether a text stands anywhere in another.
pub open spec fn occurs_in(text: Seq<char>, part: Seq<char>) -> bool {
    exists|i: int| stands_at(text, part, i)
}

/// A text with every occurrence of a part exchanged, from left to right.
pub open spec fn replaced(text: Seq<char>, part: Seq<char>, new: Seq<char>) -> Seq<char>
    decreases text.len(),
{
    if part.len() == 0 || text.len() < part.len() {
        text
    } else if stands_at(text, part, 0) {
        new + replaced(text.skip(part.len() as int), part, new)
    } else {
        seq![text[0]] + replaced(text.skip(1), part, new)
    }
}

/// Whether a text begins with another.
pub open spec fn begins_with(text: Seq<char>, part: Seq<char>) -> bool {
    stands_at(text, part, 0)
}

/// Whether a text stands in another at a place.
pub fn is_at(text: &str, part: &str, i: usize) -> (r: bool)
    ensures
        r == stands_at(text@, part@, i as int),
{
    let len: usize = text.unicode_len();
    let n: usize = part.unicode_len();
    if n > len || i > len - n {
        return false;
    }
    let mut k: usize = 0;
    while k < n
        invariant
            len == text@.len(),
            n == part@.len(),
            n <= len,
            i <= len - n,
            k <= n,
            forall|j: int| 0 <= j < k ==> text@[i + j] == #[trigger] part@[j],
        decreases n - k,
    {
        if text.get_char(i + k) != part.get_char(k) {
            proof {
                if stands_at(text@, part@, i as int) {
                    assert(text@.subrange(i as int, i + n)[k as int] == part@[k as int]);
                }
            }
            return false;
        }
        k = k + 1;
    }
    proof {
        assert(text@.subrange(i as int, i + n) =~= part@);
    }
    true
}

/// Whether a text begins with another.
pub fn is_prefixed(text: &str, part: &str) -> (r: bool)
    ensures
        r == begins_with(text@, part@),
{
    is_at(text, part, 0)
}

/// Whether a text stands anywhere in another.
pub fn contains(text: &str, part: &str) -> (r: bool)
    ensures
        r == occurs_in(text@, part@),
{
    let len: usize = text.unicode_len();
    let mut i: usize = 0;
    while i < len
        invariant
            len == text@.len(),
            i <= len,
            forall|j: int| 0 <= j < i ==> !stands_at(text@, part@, j),
        decreases len - i,
    {
        if is_at(text, part, i) {
            return true;
        }
        i = i + 1;
    }
    is_at(text, part, len)
}

/// A text with every occurrence of a part exchanged, from left to right.
pub fn replace_all(text: &str, part: &str, new: &str) -> (out: String)
    requires
        part@.len() > 0,
    ensures
        out@ == replaced(text@, part@, new@),
{
    let len: usize = text.unicode_len();
    let n: usize = part.unicode_len();
    let mut out: String = String::new();
    let mut i: usize = 0;
    proof {
        assert(text@.skip(0) =~= text@);
        assert(out@ + replaced(text@, part@, new@) =~= replaced(text@, part@, new@));
    }
    while i < len
        invariant
            len == text@.len(),
            n == part@.len(),
            n > 0,
            i <= len,
            out@ + replaced(text@.skip(i as int), part@, new@) == replaced(text@, part@, new@),
        decreases len - i,
    {
        let ghost rest = text@.skip(i as int);
        let ghost before = out@;
        if is_at(text, part, i) {
            proof {
                assert(rest.subrange(0, n as int) =~= text@.subrange(i as int, i + n));
                assert(rest.skip(n as int) =~= text@.skip(i + n));
            }
            out.append(new);
            i = i + n;
            proof {
                assert(out@ + replaced(text@.skip(i as int), part@, new@) =~= before + replaced(
                    rest,
                    part@,
                    new@,
                ));
            }
        } else {
            proof {
                if stands_at(rest, part@, 0) {
                    assert(text@.subrange(i as int, i + n) =~= rest.subrange(0, n as int));
                }
                assert(rest.skip(1) =~= text@.skip(i + 1));
                if rest.len() < n {
                    assert(rest =~= seq![rest[0]] + rest.skip(1));
                    assert(replaced(rest.skip(1), part@, new@) == rest.skip(1));
                }
            }
            out.append(text.substring_char(i, i + 1));
            i = i + 1;
            proof {
                assert(out@ + replaced(text@.skip(i as int), part@, new@) =~= before + replaced(
                    rest,
                    part@,
                    new@,
                ));
            }
        }
    }
    proof {
        assert(text@.skip(i as int) =~= Seq::<char>::empty());
        assert(out@ + replaced(Seq::<char>::empty(), part@, new@) =~= out@);
    }
    out
}

/// A text begins with another exactly if it is that one with something behind it.
pub proof fn law_begins_with(text: Seq<char>, part: Seq<char>)
    ensures
        begins_with(text, part) <==> exists|rest: Seq<char>| text == #[trigger] (part + rest),
        begins_with(text, part) ==> text == part + text.skip(part.len() as int),
{
    if begins_with(text, part) {
        assert(text.subrange(0, part.len() as int) == part);
        assert(text =~= part + text.skip(part.len() as int)) by {
            assert forall|k: int| 0 <= k < part.len() implies text[k] == part[k] by {
                assert(text.subrange(0, part.len() as int)[k] == text[k]);
            }
        }
    }
    if exists|rest: Seq<char>| text == #[trigger] (part + rest) {
        let rest = choose|rest: Seq<char>| text == #[trigger] (part + rest);
        assert(text.subrange(0, part.len() as int) =~= part);
    }
}

/// A text without the part stays as it is.
pub proof fn law_nothing_to_exchange(text: Seq<char>, part: Seq<char>, new: Seq<char>)
    requires
        !occurs_in(text, part),
    ensures
        replaced(text, part, new) == text,
    decreases text.len(),
{
    if part.len() > 0 && text.len() >= part.len() {
        assert(!stands_at(text, part, 0));
        let rest = text.skip(1);
        assert forall|i: int| !stands_at(rest, part, i) by {
            if stands_at(rest, part, i) {
                assert(text.subrange(i + 1, i + 1 + part.len()) =~= rest.subrange(
                    i,
                    i + part.len(),
                ));
                assert(stands_at(text, part, i + 1));
            }
        }
        law_nothing_to_exchange(rest, part, new);
        assert(seq![text[0]] + rest =~= text);
    }
}

/// The first occurrence of the part is exchanged for the new text, and what stands
/// in front of it stays; behind it the same goes on.
pub proof fn law_first_is_exchanged(
    before: Seq<char>,
    part: Seq<char>,
    after: Seq<char>,
    new: Seq<char>,
)
    requires
        part.len() > 0,
        !occurs_in((before + part).drop_last(), part),
    ensures
        replaced(before + part + after, part, new) == before + new + replaced(after, part, new),
    decreases before.len(),
{
    let text = before + part + after;
    let n = part.len() as int;
    if before.len() == 0 {
        assert(text.subrange(0, n) =~= part);
        assert(text.skip(n) =~= after);
        assert(new + replaced(after, part, new) =~= before + new + replaced(after, part, new));
    } else {
        let front = (before + part).drop_last();
        if stands_at(text, part, 0) {
            assert(front.subrange(0, n) =~= text.subrange(0, n));
            assert(stands_at(front, part, 0));
        }
        let rest = before.skip(1);
        let rest_front = (rest + part).drop_last();
        assert forall|i: int| !stands_at(rest_front, part, i) by {
            if stands_at(rest_front, part, i) {
                assert(front.subrange(i + 1, i + 1 + n) =~= rest_front.subrange(i, i + n));
                assert(stands_at(front, part, i + 1));
            }
        }
        law_first_is_exchanged(rest, part, after, new);
        assert(text.skip(1) =~= rest + part + after);
        assert(seq![text[0]] + (rest + new + replaced(after, part, new)) =~= before + new
            + replaced(after, part, new));
    }
}

/// Whether a character is white space.
pub open spec fn is_space(c: char) -> bool {
    ||| '\u{9}' <= c <= '\u{d}'
    ||| c == ' '
    ||| c == '\u{85}'
    ||| c == '\u{a0}'
    ||| c == '\u{1680}'
    ||| '\u{2000}' <= c <= '\u{200a}'
    ||| c == '\u{2028}'
    ||| c == '\u{2029}'
    ||| c == '\u{202f}'
    ||| c == '\u{205f}'
    ||| c == '\u{3000}'
}

/// Whether a character is white space.
fn white(c: char) -> (r: bool)
    ensures
        r == is_space(c),
{
    ('\u{9}' <= c && c <= '\u{d}') || c == ' ' || c == '\u{85}' || c == '\u{a0}' || c == '\u{1680}' || (
    '\u{2000}' <= c && c <= '\u{200a}') || c == '\u{2028}' || c == '\u{2029}' || c == '\u{202f}' || c
        == '\u{205f}' || c == '\u{3000}'
}

/// A text without the white space it begins with.
pub open spec fn without_leading_space(text: Seq<char>) -> Seq<char>
    decreases text.len(),
{
    if text.len() > 0 && is_space(text[0]) {
        without_leading_space(text.skip(1))
    } else {
        text
    }
}

/// A text without the white space it ends with.
pub open spec fn without_trailing_space(text: Seq<char>) -> Seq<char>
    decreases text.len(),
{
    if text.len() > 0 && is_space(text.last()) {
        without_trailing_space(text.drop_last())
    } else {
        text
    }
}

/// A text without white space around it.
pub open spec fn trimmed(text: Seq<char>) -> Seq<char> {
    without_trailing_space(without_leading_space(text))
}

/// A text without white space around it.
pub fn trim(text: &str) -> (inner: &str)
    ensures
        inner@ == trimmed(text@),
{
    let len: usize = text.unicode_len();
    let mut a: usize = 0;
    proof {
        assert(text@.skip(0) =~= text@);
    }
    while a < len && white(text.get_char(a))
        invariant
            len == text@.len(),
            a <= len,
            without_leading_space(text@) == without_leading_space(text@.skip(a as int)),
        decreases len - a,
    {
        proof {
            assert(text@.skip(a as int).skip(1) =~= text@.skip(a + 1));
        }
        a = a + 1;
    }
    let ghost body = text@.skip(a as int);
    let mut b: usize = len;
    proof {
        assert(text@.subrange(a as int, len as int) =~= body);
    }
    while a < b && white(text.get_char(b - 1))
        invariant
            len == text@.len(),
            a <= b <= len,
            without_trailing_space(body) == without_trailing_space(
                text@.subrange(a as int, b as int),
            ),
        decreases b - a,
    {
        proof {
            assert(text@.subrange(a as int, b as int).drop_last() =~= text@.subrange(
                a as int,
                b - 1,
            ));
        }
        b = b - 1;
    }
    text.substring_char(a, b)
}

/// How many characters come before the first comma.
pub open spec fn before_comma(text: Seq<char>) -> nat
    decreases text.len(),
{
    if text.len() == 0 || text[0] == ',' {
        0
    } else {
        1 + before_comma(text.skip(1))
    }
}

/// The entries of a list that are separated by commas, without white space around
/// them; entries that are empty do not count.
pub open spec fn list_entries(text: Seq<char>) -> Seq<Seq<char>>
    decreases text.len(),
{
    let n = before_comma(text);
    let head = trimmed(text.take(n as int));
    let own = if head.len() > 0 {
        seq![head]
    } else {
        Seq::empty()
    };
    if n < text.len() {
        own + list_entries(text.skip(n as int + 1))
    } else {
        own
    }
}

/// A run without commas before a comma, or before the end, is what comes before
/// the first comma.
pub proof fn lemma_before_comma(text: Seq<char>, n: nat)
    requires
        n <= text.len(),
        forall|k: int| 0 <= k < n ==> text[k] != ',',
        n == text.len() || text[n as int] == ',',
    ensures
        before_comma(text) == n,
    decreases n,
{
    if n > 0 {
        lemma_before_comma(text.skip(1), (n - 1) as nat);
    }
}

/// The entries of a list that are separated by commas.
pub fn split_list(text: &str) -> (entries: Vec<String>)
    ensures
        entries@.map_values(|e: String| e@) == list_entries(text@),
{
    let len: usize = text.unicode_len();
    let mut entries: Vec<String> = Vec::new();
    let mut start: usize = 0;
    let mut i: usize = 0;
    proof {
        assert(text@.skip(0) =~= text@);
        assert(entries@.map_values(|e: String| e@) + list_entries(text@) =~= list_entries(text@));
    }
    while i < len
        invariant
            len == text@.len(),
            start <= i <= len,
            forall|k: int| start <= k < i ==> text@[k] != ',',
            entries@.map_values(|e: String| e@) + list_entries(text@.skip(start as int))
                == list_entries(text@),
        decreases len - i,
    {
        if text.get_char(i) == ',' {
            let ghost rest = text@.skip(start as int);
            let ghost before = entries@;
            let entry: &str = trim(text.substring_char(start, i));
            proof {
                lemma_before_comma(rest, (i - start) as nat);
                assert(rest.take(i - start) =~= text@.subrange(start as int, i as int));
                assert(rest.skip(i - start + 1) =~= text@.skip(i + 1));
            }
            if entry.unicode_len() > 0 {
                entries.push(entry.to_string());
            }
            proof {
                assert(entries@.map_values(|e: String| e@) + list_entries(text@.skip(i + 1))
                    =~= before.map_values(|e: String| e@) + list_entries(rest));
            }
            start = i + 1;
        }
        i = i + 1;
    }
    let ghost rest = text@.skip(start as int);
    let ghost before = entries@;
    let entry: &str = trim(text.substring_char(start, len));
    proof {
        lemma_before_comma(rest, rest.len());
        assert(rest.take(rest.len() as int) =~= text@.subrange(start as int, len as int));
    }
    if entry.unicode_len() > 0 {
        entries.push(entry.to_string());
    }
    proof {
        assert(entries@.map_values(|e: String| e@) =~= before.map_values(|e: String| e@)
            + list_entries(rest));
    }
    entries
}

} // verus!
