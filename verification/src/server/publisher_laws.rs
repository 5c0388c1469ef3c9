//! What clients find of publisher files, file by file.

use super::locale::{climbs, english_name, parent_at};
use super::publisher_file::{
    info_of, info_views, infos_of, is_listing, listed, matching, name_matches, path_of, recent_from,
    EntryView, FileVisibility, ResultSlice, StorageFileInfo, StorageServiceError,
};
use crate::sequences::lemma_filter_push;
use crate::session::Title;
use crate::text::{decimal, law_begins_with};
use vstd::prelude::*;

verus! {

/// What a filter makes of a sequence with one more item in front.
proof fn lemma_filter_front(s: Seq<EntryView>, pred: spec_fn(EntryView) -> bool)
    requires
        s.len() > 0,
    ensures
        s.filter(pred) == (if pred(s[0]) {
            seq![s[0]] + s.skip(1).filter(pred)
        } else {
            s.skip(1).filter(pred)
        }),
    decreases s.len(),
{
    if s.len() == 1 {
        reveal(Seq::filter);
        assert(s.skip(1) =~= Seq::<EntryView>::empty());
        assert(s =~= Seq::<EntryView>::empty().push(s[0]));
        lemma_filter_push(Seq::<EntryView>::empty(), s[0], pred);
        assert(Seq::<EntryView>::empty().filter(pred) =~= Seq::<EntryView>::empty());
        assert(seq![s[0]] + s.skip(1).filter(pred) =~= seq![s[0]]);
        assert(Seq::<EntryView>::empty().push(s[0]) =~= seq![s[0]]);
    } else {
        let init = s.drop_last();
        lemma_filter_front(init, pred);
        assert(s =~= init.push(s.last()));
        lemma_filter_push(init, s.last(), pred);
        assert(s.skip(1) =~= init.skip(1).push(s.last()));
        lemma_filter_push(init.skip(1), s.last(), pred);
        assert((seq![s[0]] + init.skip(1).filter(pred)).push(s.last()) =~= seq![s[0]]
            + init.skip(1).filter(pred).push(s.last()));
    }
}

/// How a listing goes on from the first file of a directory: while files are to be
/// skipped, it skips that one, whatever its age; else it shows the file, if that is
/// not older than asked for, and has room for one less; and else it goes on with the
/// next. It ends with the directory, or once there is no room.
pub proof fn law_listing_by_the_first_file(
    entries: Seq<EntryView>,
    min_date_time: i64,
    offset: nat,
    count: nat,
)
    ensures
        entries.len() == 0 || count == 0 ==> listed(entries, min_date_time, offset, count).len()
            == 0,
        entries.len() > 0 && offset > 0 ==> listed(entries, min_date_time, offset, count) == listed(
            entries.skip(1),
            min_date_time,
            (offset - 1) as nat,
            count,
        ),
        entries.len() > 0 && offset == 0 && count > 0 && entries[0].created >= min_date_time
            ==> listed(entries, min_date_time, 0, count) == seq![entries[0]] + listed(
            entries.skip(1),
            min_date_time,
            0,
            (count - 1) as nat,
        ),
        entries.len() > 0 && offset == 0 && entries[0].created < min_date_time ==> listed(
            entries,
            min_date_time,
            0,
            count,
        ) == listed(entries.skip(1), min_date_time, 0, count),
{
    let pred = |e: EntryView| e.created >= min_date_time;
    let recent = recent_from(entries, min_date_time, offset);
    if entries.len() == 0 {
        reveal(Seq::filter);
        assert(entries.skip(0) =~= Seq::<EntryView>::empty());
        assert(recent =~= Seq::<EntryView>::empty());
    } else if offset > 0 {
        let rest = entries.skip(1);
        if offset <= entries.len() {
            assert(rest.skip(offset as int - 1) =~= entries.skip(offset as int));
        }
    } else {
        let rest = entries.skip(1);
        assert(entries.skip(0) =~= entries);
        assert(rest.skip(0) =~= rest);
        lemma_filter_front(entries, pred);
        let after = recent_from(rest, min_date_time, 0);
        if entries[0].created >= min_date_time && count > 0 {
            assert(recent == seq![entries[0]] + after);
            assert(listed(entries, min_date_time, 0, count) =~= seq![entries[0]] + listed(
                rest,
                min_date_time,
                0,
                (count - 1) as nat,
            ));
        }
    }
}

/// Which files a search finds: those whose name is what is looked for, or its
/// English name, with anything behind it.
pub proof fn law_found_by_the_front_of_the_name(name: Seq<char>, wanted: Seq<char>)
    ensures
        name_matches(name, wanted) <==> {
            ||| exists|rest: Seq<char>| name == #[trigger] (wanted + rest)
            ||| english_name(wanted) is Some && exists|rest: Seq<char>|
                name == #[trigger] (english_name(wanted)->Some_0 + rest)
        },
{
    law_begins_with(name, wanted);
    if let Some(english) = english_name(wanted) {
        law_begins_with(name, english);
    }
}

/// A search keeps the order of the directory, finds every file that it is for, and
/// no other.
pub proof fn law_search_by_the_last_file(
    entries: Seq<EntryView>,
    entry: EntryView,
    wanted: Seq<char>,
)
    ensures
        matching(Seq::empty(), wanted).len() == 0,
        matching(entries.push(entry), wanted) == (if name_matches(entry.filename, wanted) {
            matching(entries, wanted).push(entry)
        } else {
            matching(entries, wanted)
        }),
{
    reveal(Seq::filter);
    lemma_filter_push(entries, entry, |e: EntryView| name_matches(e.filename, wanted));
}

/// Where a publisher file is looked for.
pub proof fn law_path_of_a_file(title: Title, filename: Seq<char>)
    ensures
        path_of(title, filename) == "storage/publisher/"@ + decimal(title.id as nat) + "/"@
            + filename,
{
}

/// What a client is told of each file of a listing, and where the listing begins.
pub proof fn law_listing_tells_of_files(
    title: Title,
    entries: Seq<EntryView>,
    offset: usize,
    listing: Result<ResultSlice<StorageFileInfo>, StorageServiceError>,
    i: int,
)
    requires
        is_listing(title, Some(entries), offset, listing),
        0 <= i < entries.len(),
    ensures
        listing is Ok,
        ({
            let slice = listing->Ok_0;
            let info = slice.items@[i];
            &&& slice.offset == offset
            &&& slice.items@.len() == entries.len()
            &&& info.filename@ == entries[i].filename
            &&& info.file_size == entries[i].file_size
            &&& info.created == entries[i].created
            &&& info.modified == entries[i].modified
            &&& info.title == title
            &&& info.visibility == FileVisibility::VisiblePublic
            &&& info.id == 0
            &&& info.owner_id == 0
        }),
{
    let slice = listing->Ok_0;
    assert(info_views(slice.items@).len() == infos_of(title, entries).len());
    assert(info_views(slice.items@)[i] == infos_of(title, entries)[i]);
    assert(infos_of(title, entries)[i] == info_of(title, entries[i]));
    assert(info_views(slice.items@)[i] == slice.items@[i]@);
}

/// A directory that cannot be read gives an empty listing, one that shows nothing an
/// error.
pub proof fn law_listing_of_nothing(
    title: Title,
    offset: usize,
    listing: Result<ResultSlice<StorageFileInfo>, StorageServiceError>,
)
    ensures
        is_listing(title, None, offset, listing) ==> listing is Ok
            && listing->Ok_0.items@.len() == 0 && listing->Ok_0.offset == offset,
        is_listing(title, Some(Seq::empty()), offset, listing) ==> listing is Err
            && listing->Err_0 == StorageServiceError::StorageFileNotFoundError,
{
}

/// A path is refused exactly if one of its components is `..`: it is just that, or
/// has it in front, behind or between slashes.
pub proof fn law_climbing_paths(path: Seq<char>)
    ensures
        climbs(path) <==> {
            ||| path == ".."@
            ||| exists|after: Seq<char>| path == #[trigger] ("../"@ + after)
            ||| exists|before: Seq<char>| path == #[trigger] (before + "/.."@)
            ||| exists|before: Seq<char>, after: Seq<char>|
                path == #[trigger] (before + "/../"@ + after)
        },
{
    reveal_strlit("..");
    reveal_strlit("../");
    reveal_strlit("/..");
    reveal_strlit("/../");
    if climbs(path) {
        let i = choose|i: int| parent_at(path, i);
        if i == 0 {
            if path.len() == 2 {
                assert(path =~= ".."@);
            } else {
                assert(path =~= "../"@ + path.skip(3));
            }
        } else if i + 2 == path.len() {
            assert(path =~= path.take(i - 1) + "/.."@);
        } else {
            assert(path =~= path.take(i - 1) + "/../"@ + path.skip(i + 3));
        }
    }
    if path == ".."@ {
        assert(parent_at(path, 0));
    }
    if exists|after: Seq<char>| path == #[trigger] ("../"@ + after) {
        let after = choose|after: Seq<char>| path == #[trigger] ("../"@ + after);
        assert(path[0] == '.' && path[1] == '.' && path[2] == '/');
        assert(parent_at(path, 0));
    }
    if exists|before: Seq<char>| path == #[trigger] (before + "/.."@) {
        let before = choose|before: Seq<char>| path == #[trigger] (before + "/.."@);
        let n = before.len() as int;
        assert(path[n] == '/' && path[n + 1] == '.' && path[n + 2] == '.');
        assert(parent_at(path, n + 1));
    }
    if exists|before: Seq<char>, after: Seq<char>|
        path == #[trigger] (before + "/../"@ + after) {
        let (before, after) = choose|before: Seq<char>, after: Seq<char>|
            path == #[trigger] (before + "/../"@ + after);
        let n = before.len() as int;
        assert(path[n] == '/' && path[n + 1] == '.' && path[n + 2] == '.' && path[n + 3] == '/');
        assert(parent_at(path, n + 1));
    }
}

} // verus!
