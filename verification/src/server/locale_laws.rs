//! Which names are exchanged for English ones, word by word.

use super::locale::{english_name, marked_from, prefixed_from};
use crate::text::{begins_with, law_begins_with, occurs_in, replaced, stands_at};
use vstd::prelude::*;

verus! {

/// Whether a name is marked with one of the languages.
pub open spec fn is_marked(name: Seq<char>) -> bool {
    ||| holds(name, "_french"@)
    ||| holds(name, "_german"@)
    ||| holds(name, "_italian"@)
    ||| holds(name, "_spanish"@)
    ||| holds(name, "_portuguese"@)
    ||| holds(name, "_brazilian"@)
    ||| holds(name, "_polish"@)
    ||| holds(name, "_russian"@)
    ||| holds(name, "_japanese"@)
    ||| holds(name, "_dutch"@)
    ||| holds(name, "_korean"@)
}

/// Whether a word stands somewhere in a name.
pub open spec fn holds(name: Seq<char>, word: Seq<char>) -> bool {
    exists|before: Seq<char>, after: Seq<char>| name == #[trigger] (before + word + after)
}

/// A word stands somewhere in a name exactly if the name is the word with something
/// in front of it and something behind it.
pub proof fn law_holds(name: Seq<char>, word: Seq<char>)
    ensures
        occurs_in(name, word) <==> holds(name, word),
{
    if occurs_in(name, word) {
        let i = choose|i: int| stands_at(name, word, i);
        let before = name.take(i);
        let after = name.skip(i + word.len());
        assert(name.subrange(i, i + word.len()) == word);
        assert(name =~= before + word + after) by {
            assert forall|k: int| 0 <= k < name.len() implies name[k] == (before + word
                + after)[k] by {
                if i <= k < i + word.len() {
                    assert(name.subrange(i, i + word.len())[k - i] == name[k]);
                }
            }
        }
    }
    if holds(name, word) {
        let (before, after) = choose|before: Seq<char>, after: Seq<char>|
            name == #[trigger] (before + word + after);
        assert(name.subrange(before.len() as int, before.len() as int + word.len()) =~= word);
        assert(stands_at(name, word, before.len() as int));
    }
}

/// A name that is marked with languages has an English name: each mark of the first
/// of them, in this order, is exchanged for the English one. So if it is marked with
/// one language only, that one's marks are exchanged.
pub proof fn law_marked_name_is_exchanged(name: Seq<char>)
    ensures
        holds(name, "_french"@) ==> english_name(name) == Some(
            replaced(name, "_french"@, "_english"@),
        ),
        !holds(name, "_french"@) && holds(name, "_german"@) ==> english_name(name) == Some(
            replaced(name, "_german"@, "_english"@),
        ),
        !holds(name, "_french"@) && !holds(name, "_german"@) && holds(name, "_italian"@)
            ==> english_name(name) == Some(
            replaced(name, "_italian"@, "_english"@),
        ),
        !holds(name, "_french"@) && !holds(name, "_german"@) && !holds(name, "_italian"@)
            && holds(name, "_spanish"@) ==> english_name(name) == Some(
            replaced(name, "_spanish"@, "_english"@),
        ),
        !holds(name, "_french"@) && !holds(name, "_german"@) && !holds(name, "_italian"@)
            && !holds(name, "_spanish"@) && holds(name, "_portuguese"@)
            ==> english_name(name) == Some(
            replaced(name, "_portuguese"@, "_english"@),
        ),
        !holds(name, "_french"@) && !holds(name, "_german"@) && !holds(name, "_italian"@)
            && !holds(name, "_spanish"@) && !holds(name, "_portuguese"@)
            && holds(name, "_brazilian"@) ==> english_name(name) == Some(
            replaced(name, "_brazilian"@, "_english"@),
        ),
        !holds(name, "_french"@) && !holds(name, "_german"@) && !holds(name, "_italian"@)
            && !holds(name, "_spanish"@) && !holds(name, "_portuguese"@)
            && !holds(name, "_brazilian"@) && holds(name, "_polish"@)
            ==> english_name(name) == Some(
            replaced(name, "_polish"@, "_english"@),
        ),
        !holds(name, "_french"@) && !holds(name, "_german"@) && !holds(name, "_italian"@)
            && !holds(name, "_spanish"@) && !holds(name, "_portuguese"@)
            && !holds(name, "_brazilian"@) && !holds(name, "_polish"@) && holds(name, "_russian"@)
            ==> english_name(name) == Some(
            replaced(name, "_russian"@, "_english"@),
        ),
        !holds(name, "_french"@) && !holds(name, "_german"@) && !holds(name, "_italian"@)
            && !holds(name, "_spanish"@) && !holds(name, "_portuguese"@)
            && !holds(name, "_brazilian"@) && !holds(name, "_polish"@) && !holds(name, "_russian"@)
            && holds(name, "_japanese"@) ==> english_name(name) == Some(
            replaced(name, "_japanese"@, "_english"@),
        ),
        !holds(name, "_french"@) && !holds(name, "_german"@) && !holds(name, "_italian"@)
            && !holds(name, "_spanish"@) && !holds(name, "_portuguese"@)
            && !holds(name, "_brazilian"@) && !holds(name, "_polish"@) && !holds(name, "_russian"@)
            && !holds(name, "_japanese"@) && holds(name, "_dutch"@) ==> english_name(name) == Some(
            replaced(name, "_dutch"@, "_english"@),
        ),
        !holds(name, "_french"@) && !holds(name, "_german"@) && !holds(name, "_italian"@)
            && !holds(name, "_spanish"@) && !holds(name, "_portuguese"@)
            && !holds(name, "_brazilian"@) && !holds(name, "_polish"@) && !holds(name, "_russian"@)
            && !holds(name, "_japanese"@) && !holds(name, "_dutch"@) && holds(name, "_korean"@)
            ==> english_name(name) == Some(
            replaced(name, "_korean"@, "_english"@),
        ),
        is_marked(name) ==> english_name(name) is Some,
{
    reveal_with_fuel(marked_from, 12);
    law_holds(name, "_french"@);
    law_holds(name, "_german"@);
    law_holds(name, "_italian"@);
    law_holds(name, "_spanish"@);
    law_holds(name, "_portuguese"@);
    law_holds(name, "_brazilian"@);
    law_holds(name, "_polish"@);
    law_holds(name, "_russian"@);
    law_holds(name, "_japanese"@);
    law_holds(name, "_dutch"@);
    law_holds(name, "_korean"@);
}

/// A name that is marked with no language, and begins with one of the
/// abbreviations, has an English name: `en_` and what stands behind the
/// abbreviation. A name with neither has none.
pub proof fn law_abbreviated_name_is_exchanged(name: Seq<char>)
    requires
        !is_marked(name),
    ensures
        forall|rest: Seq<char>|
            name == #[trigger] ("fr_"@ + rest) ==> english_name(name) == Some("en_"@ + rest),
        forall|rest: Seq<char>|
            name == #[trigger] ("de_"@ + rest) ==> english_name(name) == Some("en_"@ + rest),
        forall|rest: Seq<char>|
            name == #[trigger] ("it_"@ + rest) ==> english_name(name) == Some("en_"@ + rest),
        forall|rest: Seq<char>|
            name == #[trigger] ("es_"@ + rest) ==> english_name(name) == Some("en_"@ + rest),
        forall|rest: Seq<char>|
            name == #[trigger] ("pt_"@ + rest) ==> english_name(name) == Some("en_"@ + rest),
        forall|rest: Seq<char>|
            name == #[trigger] ("nl_"@ + rest) ==> english_name(name) == Some("en_"@ + rest),
        forall|rest: Seq<char>|
            name == #[trigger] ("pl_"@ + rest) ==> english_name(name) == Some("en_"@ + rest),
        forall|rest: Seq<char>|
            name == #[trigger] ("ru_"@ + rest) ==> english_name(name) == Some("en_"@ + rest),
        forall|rest: Seq<char>|
            name == #[trigger] ("ja_"@ + rest) ==> english_name(name) == Some("en_"@ + rest),
        forall|rest: Seq<char>|
            name == #[trigger] ("ko_"@ + rest) ==> english_name(name) == Some("en_"@ + rest),
        ((exists|rest: Seq<char>| name == #[trigger] ("fr_"@ + rest))
            || (exists|rest: Seq<char>| name == #[trigger] ("de_"@ + rest))
            || (exists|rest: Seq<char>| name == #[trigger] ("it_"@ + rest))
            || (exists|rest: Seq<char>| name == #[trigger] ("es_"@ + rest))
            || (exists|rest: Seq<char>| name == #[trigger] ("pt_"@ + rest))
            || (exists|rest: Seq<char>| name == #[trigger] ("nl_"@ + rest))
            || (exists|rest: Seq<char>| name == #[trigger] ("pl_"@ + rest))
            || (exists|rest: Seq<char>| name == #[trigger] ("ru_"@ + rest))
            || (exists|rest: Seq<char>| name == #[trigger] ("ja_"@ + rest))
            || (exists|rest: Seq<char>| name == #[trigger] ("ko_"@ + rest))) <==> english_name(name) is Some,
{
    reveal_with_fuel(marked_from, 12);
    reveal_with_fuel(prefixed_from, 11);
    law_holds(name, "_french"@);
    law_holds(name, "_german"@);
    law_holds(name, "_italian"@);
    law_holds(name, "_spanish"@);
    law_holds(name, "_portuguese"@);
    law_holds(name, "_brazilian"@);
    law_holds(name, "_polish"@);
    law_holds(name, "_russian"@);
    law_holds(name, "_japanese"@);
    law_holds(name, "_dutch"@);
    law_holds(name, "_korean"@);
    reveal_strlit("fr_");
    law_begins_with(name, "fr_"@);
    reveal_strlit("de_");
    law_begins_with(name, "de_"@);
    reveal_strlit("it_");
    law_begins_with(name, "it_"@);
    reveal_strlit("es_");
    law_begins_with(name, "es_"@);
    reveal_strlit("pt_");
    law_begins_with(name, "pt_"@);
    reveal_strlit("nl_");
    law_begins_with(name, "nl_"@);
    reveal_strlit("pl_");
    law_begins_with(name, "pl_"@);
    reveal_strlit("ru_");
    law_begins_with(name, "ru_"@);
    reveal_strlit("ja_");
    law_begins_with(name, "ja_"@);
    reveal_strlit("ko_");
    law_begins_with(name, "ko_"@);
    assert forall|rest: Seq<char>| name == #[trigger] ("fr_"@ + rest) implies english_name(name)
        == Some("en_"@ + rest) by {
        assert(name.skip(3) =~= rest);
    }
    assert forall|rest: Seq<char>| name == #[trigger] ("de_"@ + rest) implies english_name(name)
        == Some("en_"@ + rest) by {
        assert(name.skip(3) =~= rest);
        assert(name[0] == "de_"@[0] && name[1] == "de_"@[1]);
        lemma_other_front(name, "fr_"@);
    }
    assert forall|rest: Seq<char>| name == #[trigger] ("it_"@ + rest) implies english_name(name)
        == Some("en_"@ + rest) by {
        assert(name.skip(3) =~= rest);
        assert(name[0] == "it_"@[0] && name[1] == "it_"@[1]);
        lemma_other_front(name, "fr_"@);
        lemma_other_front(name, "de_"@);
    }
    assert forall|rest: Seq<char>| name == #[trigger] ("es_"@ + rest) implies english_name(name)
        == Some("en_"@ + rest) by {
        assert(name.skip(3) =~= rest);
        assert(name[0] == "es_"@[0] && name[1] == "es_"@[1]);
        lemma_other_front(name, "fr_"@);
        lemma_other_front(name, "de_"@);
        lemma_other_front(name, "it_"@);
    }
    assert forall|rest: Seq<char>| name == #[trigger] ("pt_"@ + rest) implies english_name(name)
        == Some("en_"@ + rest) by {
        assert(name.skip(3) =~= rest);
        assert(name[0] == "pt_"@[0] && name[1] == "pt_"@[1]);
        lemma_other_front(name, "fr_"@);
        lemma_other_front(name, "de_"@);
        lemma_other_front(name, "it_"@);
        lemma_other_front(name, "es_"@);
    }
    assert forall|rest: Seq<char>| name == #[trigger] ("nl_"@ + rest) implies english_name(name)
        == Some("en_"@ + rest) by {
        assert(name.skip(3) =~= rest);
        assert(name[0] == "nl_"@[0] && name[1] == "nl_"@[1]);
        lemma_other_front(name, "fr_"@);
        lemma_other_front(name, "de_"@);
        lemma_other_front(name, "it_"@);
        lemma_other_front(name, "es_"@);
        lemma_other_front(name, "pt_"@);
    }
    assert forall|rest: Seq<char>| name == #[trigger] ("pl_"@ + rest) implies english_name(name)
        == Some("en_"@ + rest) by {
        assert(name.skip(3) =~= rest);
        assert(name[0] == "pl_"@[0] && name[1] == "pl_"@[1]);
        lemma_other_front(name, "fr_"@);
        lemma_other_front(name, "de_"@);
        lemma_other_front(name, "it_"@);
        lemma_other_front(name, "es_"@);
        lemma_other_front(name, "pt_"@);
        lemma_other_front(name, "nl_"@);
    }
    assert forall|rest: Seq<char>| name == #[trigger] ("ru_"@ + rest) implies english_name(name)
        == Some("en_"@ + rest) by {
        assert(name.skip(3) =~= rest);
        assert(name[0] == "ru_"@[0] && name[1] == "ru_"@[1]);
        lemma_other_front(name, "fr_"@);
        lemma_other_front(name, "de_"@);
        lemma_other_front(name, "it_"@);
        lemma_other_front(name, "es_"@);
        lemma_other_front(name, "pt_"@);
        lemma_other_front(name, "nl_"@);
        lemma_other_front(name, "pl_"@);
    }
    assert forall|rest: Seq<char>| name == #[trigger] ("ja_"@ + rest) implies english_name(name)
        == Some("en_"@ + rest) by {
        assert(name.skip(3) =~= rest);
        assert(name[0] == "ja_"@[0] && name[1] == "ja_"@[1]);
        lemma_other_front(name, "fr_"@);
        lemma_other_front(name, "de_"@);
        lemma_other_front(name, "it_"@);
        lemma_other_front(name, "es_"@);
        lemma_other_front(name, "pt_"@);
        lemma_other_front(name, "nl_"@);
        lemma_other_front(name, "pl_"@);
        lemma_other_front(name, "ru_"@);
    }
    assert forall|rest: Seq<char>| name == #[trigger] ("ko_"@ + rest) implies english_name(name)
        == Some("en_"@ + rest) by {
        assert(name.skip(3) =~= rest);
        assert(name[0] == "ko_"@[0] && name[1] == "ko_"@[1]);
        lemma_other_front(name, "fr_"@);
        lemma_other_front(name, "de_"@);
        lemma_other_front(name, "it_"@);
        lemma_other_front(name, "es_"@);
        lemma_other_front(name, "pt_"@);
        lemma_other_front(name, "nl_"@);
        lemma_other_front(name, "pl_"@);
        lemma_other_front(name, "ru_"@);
        lemma_other_front(name, "ja_"@);
    }
}

/// A text does not begin with what differs from it in the first two characters.
proof fn lemma_other_front(name: Seq<char>, part: Seq<char>)
    requires
        name.len() >= 2,
        part.len() >= 2,
        name[0] != part[0] || name[1] != part[1],
    ensures
        !begins_with(name, part),
{
    if begins_with(name, part) {
        assert(name.subrange(0, part.len() as int) == part);
        assert(name.subrange(0, part.len() as int)[0] == name[0]);
        assert(name.subrange(0, part.len() as int)[1] == name[1]);
    }
}

} // verus!
