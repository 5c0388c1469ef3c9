//! Names of publisher files in the language of a console, and in English.

use crate::text::{
    begins_with, contains, is_prefixed, occurs_in, replace_all, replaced, stands_at,
};
use vstd::prelude::*;

verus! {

/// How many languages a name can be marked with.
pub const LANGUAGES: usize = 11;

/// How many languages a name can be abbreviated for.
pub const PREFIXES: usize = 10;

/// The mark of a language in a name.
pub open spec fn language_mark(k: int) -> Seq<char> {
    if k == 0 {
        "_french"@
    } else if k == 1 {
        "_german"@
    } else if k == 2 {
        "_italian"@
    } else if k == 3 {
        "_spanish"@
    } else if k == 4 {
        "_portuguese"@
    } else if k == 5 {
        "_brazilian"@
    } else if k == 6 {
        "_polish"@
    } else if k == 7 {
        "_russian"@
    } else if k == 8 {
        "_japanese"@
    } else if k == 9 {
        "_dutch"@
    } else {
        "_korean"@
    }
}

/// The mark of a language in a name.
fn language(k: usize) -> (mark: &'static str)
    requires
        k < LANGUAGES,
    ensures
        mark@ == language_mark(k as int),
        mark@.len() > 0,
{
    proof {
        lemma_language_marks();
        assert(language_mark(k as int).len() > 0);
    }
    match k {
        0 => "_french",
        1 => "_german",
        2 => "_italian",
        3 => "_spanish",
        4 => "_portuguese",
        5 => "_brazilian",
        6 => "_polish",
        7 => "_russian",
        8 => "_japanese",
        9 => "_dutch",
        _ => "_korean",
    }
}

/// The abbreviation of a language in front of a name.
pub open spec fn language_prefix(k: int) -> Seq<char> {
    if k == 0 {
        "fr_"@
    } else if k == 1 {
        "de_"@
    } else if k == 2 {
        "it_"@
    } else if k == 3 {
        "es_"@
    } else if k == 4 {
        "pt_"@
    } else if k == 5 {
        "nl_"@
    } else if k == 6 {
        "pl_"@
    } else if k == 7 {
        "ru_"@
    } else if k == 8 {
        "ja_"@
    } else {
        "ko_"@
    }
}

/// The abbreviation of a language in front of a name.
fn prefix(k: usize) -> (abbreviation: &'static str)
    requires
        k < PREFIXES,
    ensures
        abbreviation@ == language_prefix(k as int),
{
    match k {
        0 => "fr_",
        1 => "de_",
        2 => "it_",
        3 => "es_",
        4 => "pt_",
        5 => "nl_",
        6 => "pl_",
        7 => "ru_",
        8 => "ja_",
        _ => "ko_",
    }
}

/// Every mark is an underscore and letters.
proof fn lemma_language_marks()
    ensures
        forall|k: int| (#[trigger] language_mark(k)).len() > 0,
{
    reveal_strlit("_french");
    reveal_strlit("_german");
    reveal_strlit("_italian");
    reveal_strlit("_spanish");
    reveal_strlit("_portuguese");
    reveal_strlit("_brazilian");
    reveal_strlit("_polish");
    reveal_strlit("_russian");
    reveal_strlit("_japanese");
    reveal_strlit("_dutch");
    reveal_strlit("_korean");
}

/// Every abbreviation is two letters and an underscore.
proof fn lemma_language_prefixes()
    ensures
        forall|k: int| (#[trigger] language_prefix(k)).len() == 3,
{
    reveal_strlit("fr_");
    reveal_strlit("de_");
    reveal_strlit("it_");
    reveal_strlit("es_");
    reveal_strlit("pt_");
    reveal_strlit("nl_");
    reveal_strlit("pl_");
    reveal_strlit("ru_");
    reveal_strlit("ja_");
    reveal_strlit("ko_");
}

/// The first language, from a given one on, whose mark stands in a name.
pub open spec fn marked_from(name: Seq<char>, k: int) -> Option<int>
    decreases LANGUAGES - k,
{
    if k < 0 || k >= LANGUAGES {
        None
    } else if occurs_in(name, language_mark(k)) {
        Some(k)
    } else {
        marked_from(name, k + 1)
    }
}

/// The first language, from a given one on, whose abbreviation a name begins with.
pub open spec fn prefixed_from(name: Seq<char>, k: int) -> Option<int>
    decreases PREFIXES - k,
{
    if k < 0 || k >= PREFIXES {
        None
    } else if begins_with(name, language_prefix(k)) {
        Some(k)
    } else {
        prefixed_from(name, k + 1)
    }
}

/// The English name of a file that is named for another language.
pub open spec fn english_name(name: Seq<char>) -> Option<Seq<char>> {
    match marked_from(name, 0) {
        Some(k) => Some(replaced(name, language_mark(k), "_english"@)),
        None => match prefixed_from(name, 0) {
            Some(k) => Some("en_"@ + name.skip(language_prefix(k).len() as int)),
            None => None,
        },
    }
}

/// The English name of a file that is named for another language. Files are only
/// there in English, and the English ones serve every language.
pub fn delocalise(filename: &str) -> (name: Option<String>)
    ensures
        match name {
            Some(name) => english_name(filename@) == Some(name@),
            None => english_name(filename@) is None,
        },
{
    let mut k: usize = 0;
    while k < LANGUAGES
        invariant
            k <= LANGUAGES,
            marked_from(filename@, 0) == marked_from(filename@, k as int),
        decreases LANGUAGES - k,
    {
        let mark: &'static str = language(k);
        if contains(filename, mark) {
            return Some(replace_all(filename, mark, "_english"));
        }
        k = k + 1;
    }
    let mut k: usize = 0;
    while k < PREFIXES
        invariant
            k <= PREFIXES,
            marked_from(filename@, 0) is None,
            prefixed_from(filename@, 0) == prefixed_from(filename@, k as int),
        decreases PREFIXES - k,
    {
        let abbreviation: &'static str = prefix(k);
        if is_prefixed(filename, abbreviation) {
            let mut name: String = "en_".to_string();
            let from: usize = abbreviation.unicode_len();
            name.append(filename.substring_char(from, filename.unicode_len()));
            proof {
                assert(filename@.subrange(from as int, filename@.len() as int) =~= filename@.skip(
                    from as int,
                ));
            }
            return Some(name);
        }
        k = k + 1;
    }
    None
}

/// Whether a name that is read as a path has `..` for a component.
pub open spec fn parent_at(path: Seq<char>, i: int) -> bool {
    &&& 0 <= i <= path.len() - 2
    &&& path[i] == '.'
    &&& path[i + 1] == '.'
    &&& i > 0 ==> path[i - 1] == '/'
    &&& i + 2 < path.len() ==> path[i + 2] == '/'
}

/// Whether a path goes up from the directory it starts in, or could.
pub open spec fn climbs(path: Seq<char>) -> bool {
    exists|i: int| parent_at(path, i)
}

/// Whether a path has `..` for a component, its components being separated by
/// slashes.
pub fn has_parent_component(path: &str) -> (r: bool)
    ensures
        r == climbs(path@),
{
    let len: usize = path.unicode_len();
    if len < 2 {
        return false;
    }
    let mut i: usize = 0;
    while i < len - 1
        invariant
            len == path@.len(),
            len >= 2,
            i <= len - 1,
            forall|j: int| 0 <= j < i ==> !parent_at(path@, j),
        decreases len - i,
    {
        if path.get_char(i) == '.' && path.get_char(i + 1) == '.' && (i == 0 || path.get_char(i - 1)
            == '/') && (i + 2 == len || path.get_char(i + 2) == '/') {
            proof {
                assert(parent_at(path@, i as int));
            }
            return true;
        }
        i = i + 1;
    }
    false
}

/// A character that can only have been copied stands where it was.
proof fn lemma_replaced_head(text: Seq<char>, part: Seq<char>, new: Seq<char>)
    requires
        part.len() > 0,
        new.len() > 0,
    ensures
        replaced(text, part, new).len() == 0 ==> text.len() == 0,
        ({
            let out = replaced(text, part, new);
            out.len() > 0 && out[0] != new[0] ==> {
                &&& text.len() > 0
                &&& text[0] == out[0]
                &&& out.skip(1) == replaced(text.skip(1), part, new)
            }
        }),
{
    let out = replaced(text, part, new);
    if text.len() >= part.len() {
        if stands_at(text, part, 0) {
            assert(out[0] == new[0]);
        } else {
            assert(out.skip(1) =~= replaced(text.skip(1), part, new));
        }
    }
}

/// A `..` component of the outcome was one before.
proof fn lemma_replaced_parent(text: Seq<char>, part: Seq<char>, new: Seq<char>, j: int) -> (k: int)
    requires
        part.len() > 0,
        new.len() > 0,
        forall|i: int| 0 <= i < new.len() ==> #[trigger] new[i] != '.' && new[i] != '/',
        ({
            let out = replaced(text, part, new);
            &&& 0 <= j <= out.len() - 2
            &&& out[j] == '.'
            &&& out[j + 1] == '.'
            &&& j + 2 < out.len() ==> out[j + 2] == '/'
        }),
    ensures
        0 <= k <= text.len() - 2,
        text[k] == '.',
        text[k + 1] == '.',
        k + 2 < text.len() ==> text[k + 2] == '/',
        j == 0 ==> k == 0,
        j > 0 && replaced(text, part, new)[j - 1] == '/' ==> k > 0 && text[k - 1] == '/',
    decreases text.len(),
{
    let out = replaced(text, part, new);
    if j == 0 {
        let text1 = text.skip(1);
        let text2 = text1.skip(1);
        lemma_replaced_head(text, part, new);
        lemma_replaced_head(text1, part, new);
        lemma_replaced_head(text2, part, new);
        assert(out.skip(1)[0] == out[1]);
        assert(text1[0] == text[1]);
        if text.len() > 2 {
            let rest = replaced(text2, part, new);
            assert(rest.len() > 0);
            assert(out.skip(1).skip(1)[0] == out[2]);
            assert(text2[0] == text[2]);
        }
        0
    } else if text.len() < part.len() {
        j
    } else if stands_at(text, part, 0) {
        let n = new.len() as int;
        let p = part.len() as int;
        let rest = replaced(text.skip(p), part, new);
        assert(forall|i: int| n <= i < out.len() ==> #[trigger] out[i] == rest[i - n]);
        assert(j >= n) by {
            if j < n {
                assert(out[j] == new[j]);
            }
        }
        assert(out[n - 1] == new[n - 1]);
        lemma_replaced_parent(text.skip(p), part, new, j - n) + p
    } else {
        let rest = replaced(text.skip(1), part, new);
        assert(forall|i: int| 1 <= i < out.len() ==> #[trigger] out[i] == rest[i - 1]);
        assert(out[0] == text[0]);
        lemma_replaced_parent(text.skip(1), part, new, j - 1) + 1
    }
}

/// A name that stays inside its directory does so in English too.
pub proof fn law_english_name_stays_inside(name: Seq<char>)
    requires
        !climbs(name),
    ensures
        english_name(name) matches Some(english) ==> !climbs(english),
{
    if let Some(english) = english_name(name) {
        if climbs(english) {
            let j = choose|j: int| parent_at(english, j);
            match marked_from(name, 0) {
                Some(m) => {
                    reveal_strlit("_english");
                    lemma_language_marks();
                    let k = lemma_replaced_parent(name, language_mark(m), "_english"@, j);
                    assert(parent_at(name, k));
                },
                None => {
                    reveal_strlit("en_");
                    lemma_language_prefixes();
                    let m = prefixed_from(name, 0)->Some_0;
                    lemma_prefixed(name, 0);
                    assert(forall|i: int| 3 <= i < english.len() ==> #[trigger] english[i]
                        == name[i]);
                    assert(parent_at(name, j));
                },
            }
        }
    }
}

/// A name begins with the abbreviation that was found.
proof fn lemma_prefixed(name: Seq<char>, k: int)
    ensures
        prefixed_from(name, k) matches Some(m) ==> begins_with(name, language_prefix(m)),
    decreases PREFIXES - k,
{
    if 0 <= k < PREFIXES && !begins_with(name, language_prefix(k)) {
        lemma_prefixed(name, k + 1);
    }
}

/// The mark that was found stands in the name.
proof fn lemma_marked(name: Seq<char>, k: int)
    ensures
        marked_from(name, k) matches Some(m) ==> occurs_in(name, language_mark(m)),
    decreases LANGUAGES - k,
{
    if 0 <= k < LANGUAGES && !occurs_in(name, language_mark(k)) {
        lemma_marked(name, k + 1);
    }
}

/// Where something was exchanged, the new text stands.
proof fn lemma_replaced_holds_new(text: Seq<char>, part: Seq<char>, new: Seq<char>, i: int)
    requires
        part.len() > 0,
        stands_at(text, part, i),
    ensures
        occurs_in(replaced(text, part, new), new),
    decreases text.len(),
{
    let out = replaced(text, part, new);
    if stands_at(text, part, 0) {
        assert(out.subrange(0, new.len() as int) =~= new);
        assert(stands_at(out, new, 0));
    } else {
        let text1 = text.skip(1);
        assert(text1.subrange(i - 1, i - 1 + part.len()) =~= text.subrange(i, i + part.len()));
        lemma_replaced_holds_new(text1, part, new, i - 1);
        let rest = replaced(text1, part, new);
        let k = choose|k: int| stands_at(rest, new, k);
        assert(out.subrange(k + 1, k + 1 + new.len()) =~= rest.subrange(k, k + new.len()));
        assert(stands_at(out, new, k + 1));
    }
}

/// The English name is marked as such, or begins with the abbreviation.
pub proof fn law_english_name_is_english(name: Seq<char>)
    ensures
        english_name(name) matches Some(english) ==> occurs_in(english, "_english"@)
            || begins_with(english, "en_"@),
{
    if let Some(m) = marked_from(name, 0) {
        lemma_marked(name, 0);
        lemma_language_marks();
        let i = choose|i: int| stands_at(name, language_mark(m), i);
        lemma_replaced_holds_new(name, language_mark(m), "_english"@, i);
    } else if let Some(english) = english_name(name) {
        assert(english.subrange(0, "en_"@.len() as int) =~= "en_"@);
    }
}

} // verus!
