//! Files that the publisher of a title provides to every player of it.

use super::locale::{
    climbs, delocalise, english_name, has_parent_component, law_english_name_stays_inside, parent_at,
};
use crate::sequences::{lemma_filter_members, lemma_filter_push};
use crate::session::{BdSession, Title};
use crate::text::{append_decimal, begins_with, decimal, is_prefixed, lemma_decimal_digits};
use vstd::prelude::*;

verus! {

/// Finds publisher files and lists them.
pub struct DwPublisherStorageService {}

/// Why a storage request fails.
#[derive(Debug, Copy, Clone, PartialEq, Eq, Structural)]
pub enum StorageServiceError {
    /// There is no such file, or none that the client may have.
    StorageFileNotFoundError,
}

/// Who can see a file.
#[derive(Debug, Copy, Clone, PartialEq, Eq, Structural)]
pub enum FileVisibility {
    VisiblePublic,
    VisiblePrivate,
}

/// A file on disk. Times are seconds since 1970.
#[derive(Debug)]
pub struct DirectoryEntry {
    pub filename: String,
    pub file_size: u64,
    pub created: i64,
    pub modified: i64,
}

/// A file on disk, as a mathematical value.
pub ghost struct EntryView {
    pub filename: Seq<char>,
    pub file_size: u64,
    pub created: i64,
    pub modified: i64,
}

impl View for DirectoryEntry {
    type V = EntryView;

    open spec fn view(&self) -> EntryView {
        EntryView {
            filename: self.filename@,
            file_size: self.file_size,
            created: self.created,
            modified: self.modified,
        }
    }
}

/// What a client is told of a file.
#[derive(Debug)]
pub struct StorageFileInfo {
    pub id: u64,
    pub filename: String,
    pub title: Title,
    pub file_size: u64,
    pub created: i64,
    pub modified: i64,
    pub visibility: FileVisibility,
    pub owner_id: u64,
}

/// What a client is told of a file, as a mathematical value.
pub ghost struct FileInfoView {
    pub id: u64,
    pub filename: Seq<char>,
    pub title: Title,
    pub file_size: u64,
    pub created: i64,
    pub modified: i64,
    pub visibility: FileVisibility,
    pub owner_id: u64,
}

impl View for StorageFileInfo {
    type V = FileInfoView;

    open spec fn view(&self) -> FileInfoView {
        FileInfoView {
            id: self.id,
            filename: self.filename@,
            title: self.title,
            file_size: self.file_size,
            created: self.created,
            modified: self.modified,
            visibility: self.visibility,
            owner_id: self.owner_id,
        }
    }
}

/// A part of a list, and where in the list it begins.
#[derive(Debug)]
pub struct ResultSlice<T> {
    pub items: Vec<T>,
    pub offset: usize,
}

/// Where to look for a file: first at `path`, then at `alternative`.
#[derive(Debug)]
pub struct FilePaths {
    pub path: String,
    pub alternative: Option<String>,
}

/// The directory of the publisher files of a title.
pub open spec fn directory_of(title: Title) -> Seq<char> {
    "storage/publisher/"@ + decimal(title.id as nat)
}

/// The path of a publisher file.
pub open spec fn path_of(title: Title, filename: Seq<char>) -> Seq<char> {
    directory_of(title) + "/"@ + filename
}

/// What a client is told of a publisher file: it is nobody's and for everybody.
pub open spec fn info_of(title: Title, entry: EntryView) -> FileInfoView {
    FileInfoView {
        id: 0,
        filename: entry.filename,
        title,
        file_size: entry.file_size,
        created: entry.created,
        modified: entry.modified,
        visibility: FileVisibility::VisiblePublic,
        owner_id: 0,
    }
}

/// The entries from an offset on that are recent enough.
pub open spec fn recent_from(entries: Seq<EntryView>, min_date_time: i64, offset: nat) -> Seq<
    EntryView,
> {
    let tail = if offset <= entries.len() {
        entries.skip(offset as int)
    } else {
        Seq::empty()
    };
    tail.filter(|e: EntryView| e.created >= min_date_time)
}

/// The part of a directory that a listing shows: from an offset on, what is recent
/// enough, and no more than asked for.
pub open spec fn listed(
    entries: Seq<EntryView>,
    min_date_time: i64,
    offset: nat,
    count: nat,
) -> Seq<EntryView> {
    let recent = recent_from(entries, min_date_time, offset);
    if count < recent.len() {
        recent.take(count as int)
    } else {
        recent
    }
}

/// Whether a name begins with what is looked for, as it is or in English.
pub open spec fn name_matches(name: Seq<char>, wanted: Seq<char>) -> bool {
    begins_with(name, wanted) || (english_name(wanted) matches Some(english) && begins_with(
        name,
        english,
    ))
}

/// The entries whose name begins with what is looked for.
pub open spec fn matching(entries: Seq<EntryView>, wanted: Seq<char>) -> Seq<EntryView> {
    entries.filter(|e: EntryView| name_matches(e.filename, wanted))
}

/// Entries as mathematical values.
pub open spec fn entry_views(entries: Seq<DirectoryEntry>) -> Seq<EntryView> {
    entries.map_values(|e: DirectoryEntry| e@)
}

/// File informations as mathematical values.
pub open spec fn info_views(infos: Seq<StorageFileInfo>) -> Seq<FileInfoView> {
    infos.map_values(|i: StorageFileInfo| i@)
}

/// What clients are told of entries.
pub open spec fn infos_of(title: Title, entries: Seq<EntryView>) -> Seq<FileInfoView> {
    entries.map_values(|e: EntryView| info_of(title, e))
}

/// Whether a listing is right: nothing where the directory cannot be read, an
/// error where nothing is to be shown, and else what is to be shown.
pub open spec fn is_listing(
    title: Title,
    shown: Option<Seq<EntryView>>,
    offset: usize,
    listing: Result<ResultSlice<StorageFileInfo>, StorageServiceError>,
) -> bool {
    match shown {
        None => listing matches Ok(slice) && slice.items@.len() == 0 && slice.offset == offset,
        Some(entries) => if entries.len() == 0 {
            listing == Err::<ResultSlice<StorageFileInfo>, StorageServiceError>(
                StorageServiceError::StorageFileNotFoundError,
            )
        } else {
            &&& listing matches Ok(slice)
            &&& info_views(slice.items@) == infos_of(title, entries)
            &&& slice.offset == offset
        },
    }
}

/// Makes a listing of a directory while it is walked, so that nothing has to be
/// found out of files that the listing does not look at.
pub struct ListingCursor {
    title: Title,
    min_date_time: i64,
    to_skip: usize,
    room: usize,
    items: Vec<StorageFileInfo>,
}

/// A listing in the making, as a mathematical value.
pub ghost struct CursorView {
    pub title: Title,
    pub min_date_time: i64,
    pub to_skip: nat,
    pub room: nat,
    pub items: Seq<FileInfoView>,
}

impl View for ListingCursor {
    type V = CursorView;

    closed spec fn view(&self) -> CursorView {
        CursorView {
            title: self.title,
            min_date_time: self.min_date_time,
            to_skip: self.to_skip as nat,
            room: self.room as nat,
            items: info_views(self.items@),
        }
    }
}

impl CursorView {
    /// Whether the listing takes no further file.
    pub open spec fn is_full(self) -> bool {
        self.items.len() >= self.room
    }

    /// The listing after a file that it passes over.
    pub open spec fn passed(self) -> CursorView {
        CursorView { to_skip: (self.to_skip - 1) as nat, ..self }
    }

    /// The listing after a file that it looks at: it takes the file, if that is
    /// recent enough.
    pub open spec fn examined(self, entry: EntryView) -> CursorView {
        if entry.created >= self.min_date_time {
            CursorView { items: self.items.push(info_of(self.title, entry)), ..self }
        } else {
            self
        }
    }

    /// The listing after one more file.
    pub open spec fn stepped(self, entry: EntryView) -> CursorView {
        if self.is_full() {
            self
        } else if self.to_skip > 0 {
            self.passed()
        } else {
            self.examined(entry)
        }
    }

    /// The listing after files, one after the other.
    pub open spec fn walked(self, entries: Seq<EntryView>) -> CursorView
        decreases entries.len(),
    {
        if entries.len() == 0 {
            self
        } else {
            self.walked(entries.drop_last()).stepped(entries.last())
        }
    }
}

/// A listing before any file.
pub open spec fn cursor_at_start(
    title: Title,
    min_date_time: i64,
    offset: nat,
    count: nat,
) -> CursorView {
    CursorView { title, min_date_time, to_skip: offset, room: count, items: Seq::empty() }
}

impl ListingCursor {
    /// A listing before any file.
    pub fn new(title: Title, min_date_time: i64, item_offset: usize, item_count: usize) -> (cursor:
        ListingCursor)
        ensures
            cursor@ == cursor_at_start(
                title,
                min_date_time,
                item_offset as nat,
                item_count as nat,
            ),
    {
        let cursor = ListingCursor {
            title,
            min_date_time,
            to_skip: item_offset,
            room: item_count,
            items: Vec::new(),
        };
        proof {
            assert(cursor@.items =~= Seq::<FileInfoView>::empty());
        }
        cursor
    }

    /// Whether the listing takes no further file.
    pub fn is_full(&self) -> (r: bool)
        ensures
            r == self@.is_full(),
    {
        self.items.len() >= self.room
    }

    /// Whether the listing passes over the next file without looking at it.
    pub fn pass(&mut self) -> (passes: bool)
        ensures
            passes == (old(self)@.to_skip > 0),
            final(self)@ == (if passes {
                old(self)@.passed()
            } else {
                old(self)@
            }),
    {
        if self.to_skip > 0 {
            self.to_skip = self.to_skip - 1;
            true
        } else {
            false
        }
    }

    /// Looks at a file.
    pub fn examine(&mut self, entry: &DirectoryEntry)
        ensures
            final(self)@ == old(self)@.examined(entry@),
    {
        if entry.created >= self.min_date_time {
            self.items.push(DwPublisherStorageService::map_info_info(self.title, entry));
            proof {
                assert(self@.items =~= old(self)@.items.push(info_of(self.title, entry@)));
            }
        }
    }

    /// The listing of the files so far; one without files is an error.
    pub fn finish(self, item_offset: usize) -> (listing: Result<
        ResultSlice<StorageFileInfo>,
        StorageServiceError,
    >)
        ensures
            if self@.items.len() == 0 {
                listing == Err::<ResultSlice<StorageFileInfo>, StorageServiceError>(
                    StorageServiceError::StorageFileNotFoundError,
                )
            } else {
                &&& listing matches Ok(slice)
                &&& info_views(slice.items@) == self@.items
                &&& slice.offset == item_offset
            },
    {
        proof {
            assert(info_views(self.items@).len() == self.items@.len());
        }
        if self.items.len() > 0 {
            Ok(ResultSlice { items: self.items, offset: item_offset })
        } else {
            Err(StorageServiceError::StorageFileNotFoundError)
        }
    }
}

/// Walking a directory makes its listing: what is shown is what stands from the
/// offset on, is recent enough, and finds room.
pub proof fn law_walk_makes_the_listing(
    title: Title,
    entries: Seq<EntryView>,
    min_date_time: i64,
    offset: nat,
    count: nat,
)
    ensures
        cursor_at_start(title, min_date_time, offset, count).walked(entries).items == infos_of(
            title,
            listed(entries, min_date_time, offset, count),
        ),
{
    lemma_walked(title, entries, min_date_time, offset, count);
}

proof fn lemma_walked(
    title: Title,
    entries: Seq<EntryView>,
    min_date_time: i64,
    offset: nat,
    count: nat,
)
    ensures
        ({
            let cursor = cursor_at_start(title, min_date_time, offset, count).walked(entries);
            &&& cursor.title == title
            &&& cursor.min_date_time == min_date_time
            &&& cursor.room == count
            &&& cursor.items == infos_of(title, listed(entries, min_date_time, offset, count))
            &&& !cursor.is_full() ==> cursor.to_skip == if entries.len() < offset {
                offset - entries.len()
            } else {
                0
            }
        }),
    decreases entries.len(),
{
    let pred = |e: EntryView| e.created >= min_date_time;
    let start = cursor_at_start(title, min_date_time, offset, count);
    let now = recent_from(entries, min_date_time, offset);
    if entries.len() == 0 {
        reveal(Seq::filter);
        assert(now =~= Seq::<EntryView>::empty());
        assert(listed(entries, min_date_time, offset, count) =~= Seq::<EntryView>::empty());
        assert(start.walked(entries).items =~= infos_of(
            title,
            listed(entries, min_date_time, offset, count),
        ));
    } else {
        let init = entries.drop_last();
        let last = entries.last();
        let before = recent_from(init, min_date_time, offset);
        let shown = listed(init, min_date_time, offset, count);
        lemma_walked(title, init, min_date_time, offset, count);
        if offset < entries.len() {
            assert(entries.skip(offset as int) =~= init.skip(offset as int).push(last));
            lemma_filter_push(init.skip(offset as int), last, pred);
            if offset == init.len() {
                assert(init.skip(offset as int) =~= Seq::<EntryView>::empty());
            }
        } else {
            reveal(Seq::filter);
            assert(entries.skip(offset as int) =~= Seq::<EntryView>::empty() || offset
                > entries.len());
            assert(now =~= Seq::<EntryView>::empty());
            assert(before =~= Seq::<EntryView>::empty());
        }
        assert(now == before || now == before.push(last));
        let next = listed(entries, min_date_time, offset, count);
        if before.len() >= count {
            assert(next =~= shown);
        } else {
            assert(next =~= now);
            assert(shown =~= before);
            assert(infos_of(title, before.push(last)) =~= infos_of(title, before).push(
                info_of(title, last),
            ));
        }
    }
}

impl DwPublisherStorageService {
    pub fn new() -> (service: DwPublisherStorageService)
        ensures
            service == (DwPublisherStorageService {  }),
    {
        DwPublisherStorageService {  }
    }

    /// The directory of the publisher files of a title.
    pub fn directory(title: Title) -> (path: String)
        ensures
            path@ == directory_of(title),
    {
        let mut path: String = "storage/publisher/".to_string();
        append_decimal(&mut path, title.to_u32() as u64);
        path
    }

    /// The path of a publisher file.
    fn path(title: Title, filename: &str) -> (path: String)
        ensures
            path@ == path_of(title, filename@),
    {
        let mut path: String = Self::directory(title);
        path.append("/");
        path.append(filename);
        path
    }

    /// Says where to look for a file that a client asks for. Names that could lead
    /// out of the directory of the title are refused.
    pub fn get_publisher_file_data(&self, session: &BdSession, filename: &str) -> (r: Result<
        FilePaths,
        StorageServiceError,
    >)
        requires
            !climbs(filename@) ==> session.authentication is Some,
        ensures
            match r {
                Ok(paths) => {
                    &&& !climbs(filename@)
                    &&& session.authentication matches Some(who)
                    &&& paths.path@ == path_of(who.title, filename@)
                    &&& match english_name(filename@) {
                        Some(english) => paths.alternative matches Some(path) && path@ == path_of(
                            who.title,
                            english,
                        ),
                        None => paths.alternative is None,
                    }
                },
                Err(e) => climbs(filename@) && e == StorageServiceError::StorageFileNotFoundError,
            },
    {
        if has_parent_component(filename) {
            return Err(StorageServiceError::StorageFileNotFoundError);
        }
        match &session.authentication {
            Some(who) => {
                let title: Title = who.title;
                let alternative: Option<String> = match delocalise(filename) {
                    Some(english) => Some(Self::path(title, english.as_str())),
                    None => None,
                };
                Ok(FilePaths { path: Self::path(title, filename), alternative })
            },
            None => Err(StorageServiceError::StorageFileNotFoundError),
        }
    }

    /// What a client gets of a file, given what was found at its path and at the
    /// alternative one.
    pub fn choose_file_data(&self, found: Option<Vec<u8>>, alternative: Option<Vec<u8>>) -> (r:
        Result<Vec<u8>, StorageServiceError>)
        ensures
            r == (match (found, alternative) {
                (Some(data), _) => Ok::<Vec<u8>, StorageServiceError>(data),
                (None, Some(data)) => Ok(data),
                (None, None) => Err(StorageServiceError::StorageFileNotFoundError),
            }),
    {
        match found {
            Some(data) => Ok(data),
            None => match alternative {
                Some(data) => Ok(data),
                None => Err(StorageServiceError::StorageFileNotFoundError),
            },
        }
    }

    /// What a client is told of a file.
    pub fn map_info_info(title: Title, entry: &DirectoryEntry) -> (info: StorageFileInfo)
        ensures
            info@ == info_of(title, entry@),
    {
        StorageFileInfo {
            id: 0,
            filename: entry.filename.clone(),
            title,
            file_size: entry.file_size,
            created: entry.created,
            modified: entry.modified,
            visibility: FileVisibility::VisiblePublic,
            owner_id: 0,
        }
    }

    /// Lists the publisher files of the client's title, given what its directory
    /// holds; `None` stands for a directory that cannot be read.
    pub fn list_publisher_files(
        &self,
        session: &BdSession,
        min_date_time: i64,
        item_offset: usize,
        item_count: usize,
        directory: Option<Vec<DirectoryEntry>>,
    ) -> (listing: Result<ResultSlice<StorageFileInfo>, StorageServiceError>)
        requires
            session.authentication is Some,
        ensures
            is_listing(
                session.authentication->Some_0.title,
                match directory {
                    Some(entries) => Some(
                        listed(
                            entry_views(entries@),
                            min_date_time,
                            item_offset as nat,
                            item_count as nat,
                        ),
                    ),
                    None => None,
                },
                item_offset,
                listing,
            ),
    {
        match (&session.authentication, directory) {
            (Some(who), Some(entries)) => {
                let mut cursor = ListingCursor::new(
                    who.title,
                    min_date_time,
                    item_offset,
                    item_count,
                );
                let ghost start = cursor@;
                let ghost all = entry_views(entries@);
                let mut i: usize = 0;
                while i < entries.len()
                    invariant
                        i <= entries@.len(),
                        all == entry_views(entries@),
                        cursor@ == start.walked(all.take(i as int)),
                    decreases entries@.len() - i,
                {
                    proof {
                        assert(all.take(i + 1).drop_last() =~= all.take(i as int));
                        assert(all.take(i + 1).last() == entries@[i as int]@);
                    }
                    if !cursor.is_full() && !cursor.pass() {
                        cursor.examine(&entries[i]);
                    }
                    i = i + 1;
                }
                proof {
                    assert(all.take(i as int) =~= all);
                    law_walk_makes_the_listing(
                        who.title,
                        all,
                        min_date_time,
                        item_offset as nat,
                        item_count as nat,
                    );
                }
                cursor.finish(item_offset)
            },
            _ => Ok(ResultSlice { items: Vec::new(), offset: item_offset }),
        }
    }

    /// Whether a name begins with what is looked for, as it is or in English.
    pub fn is_wanted(name: &str, wanted: &str) -> (r: bool)
        ensures
            r == name_matches(name@, wanted@),
    {
        is_prefixed(name, wanted) || match delocalise(wanted) {
            Some(english) => is_prefixed(name, english.as_str()),
            None => false,
        }
    }

    /// The entries whose name begins with what is looked for.
    fn matching_entries(entries: Vec<DirectoryEntry>, wanted: &str) -> (found: Vec<DirectoryEntry>)
        ensures
            entry_views(found@) == matching(entry_views(entries@), wanted@),
    {
        let mut found: Vec<DirectoryEntry> = Vec::new();
        let ghost all = entry_views(entries@);
        let ghost pred = |e: EntryView| name_matches(e.filename, wanted@);
        let mut i: usize = 0;
        proof {
            reveal(Seq::filter);
            assert(all.take(0).filter(pred) =~= Seq::<EntryView>::empty());
            assert(entry_views(found@) =~= all.take(0).filter(pred));
        }
        while i < entries.len()
            invariant
                i <= entries@.len(),
                all == entry_views(entries@),
                pred == (|e: EntryView| name_matches(e.filename, wanted@)),
                entry_views(found@) == all.take(i as int).filter(pred),
            decreases entries@.len() - i,
        {
            let entry: &DirectoryEntry = &entries[i];
            let fits: bool = Self::is_wanted(entry.filename.as_str(), wanted);
            let ghost before = found@;
            proof {
                assert(all[i as int] == entry@);
                assert(all.take(i as int).push(all[i as int]) =~= all.take(i + 1));
                lemma_filter_push(all.take(i as int), all[i as int], pred);
            }
            if fits {
                found.push(
                    DirectoryEntry {
                        filename: entry.filename.clone(),
                        file_size: entry.file_size,
                        created: entry.created,
                        modified: entry.modified,
                    },
                );
                proof {
                    assert(entry_views(found@) =~= entry_views(before).push(entry@));
                }
            }
            i = i + 1;
        }
        proof {
            assert(all.take(i as int) =~= all);
        }
        found
    }

    /// Lists the publisher files of the client's title whose name begins with what
    /// is looked for, as it is or in English.
    pub fn filter_publisher_files(
        &self,
        session: &BdSession,
        min_date_time: i64,
        item_offset: usize,
        item_count: usize,
        filter: &str,
        directory: Option<Vec<DirectoryEntry>>,
    ) -> (listing: Result<ResultSlice<StorageFileInfo>, StorageServiceError>)
        requires
            session.authentication is Some,
        ensures
            is_listing(
                session.authentication->Some_0.title,
                match directory {
                    Some(entries) => Some(
                        listed(
                            matching(entry_views(entries@), filter@),
                            min_date_time,
                            item_offset as nat,
                            item_count as nat,
                        ),
                    ),
                    None => None,
                },
                item_offset,
                listing,
            ),
    {
        match directory {
            Some(entries) => {
                let found = Self::matching_entries(entries, filter);
                self.list_publisher_files(
                    session,
                    min_date_time,
                    item_offset,
                    item_count,
                    Some(found),
                )
            },
            None => Ok(ResultSlice { items: Vec::new(), offset: item_offset }),
        }
    }
}

/// The paths of a file whose name does not climb do not climb either: they stay in
/// the directory of the title, in English too.
pub proof fn law_paths_stay_inside(title: Title, filename: Seq<char>)
    requires
        !climbs(filename),
    ensures
        !climbs(path_of(title, filename)),
        english_name(filename) matches Some(english) ==> !climbs(path_of(title, english)),
{
    lemma_path_stays_inside(title, filename);
    law_english_name_stays_inside(filename);
    if let Some(english) = english_name(filename) {
        lemma_path_stays_inside(title, english);
    }
}

proof fn lemma_path_stays_inside(title: Title, filename: Seq<char>)
    requires
        !climbs(filename),
    ensures
        !climbs(path_of(title, filename)),
{
    let path = path_of(title, filename);
    let directory = directory_of(title);
    let n = directory.len() as int;
    if climbs(path) {
        let i = choose|i: int| parent_at(path, i);
        reveal_strlit("storage/publisher/");
        reveal_strlit("/");
        lemma_decimal_digits(title.id as nat);
        let digits = decimal(title.id as nat);
        assert forall|k: int| 0 <= k < n implies #[trigger] path[k] != '.' by {
            assert(path[k] == directory[k]);
            if k >= 18 {
                assert(directory[k] == digits[k - 18]);
            }
        }
        assert(path[n] == '/');
        assert(forall|k: int| n < k < path.len() ==> #[trigger] path[k] == filename[k - n - 1]);
        assert(parent_at(filename, i - n - 1));
    }
}

/// A search for a file in any language finds the English one.
pub proof fn law_search_finds_english(entries: Seq<EntryView>, i: int, wanted: Seq<char>)
    requires
        0 <= i < entries.len(),
        english_name(wanted) == Some(entries[i].filename) || wanted == entries[i].filename,
    ensures
        matching(entries, wanted).contains(entries[i]),
{
    let pred = |e: EntryView| name_matches(e.filename, wanted);
    let name = entries[i].filename;
    assert(name.subrange(0, name.len() as int) =~= name);
    assert(begins_with(name, name));
    assert(pred(entries[i]));
    lemma_filter_members(entries, pred);
}

/// A listing shows files of the directory only, all of them recent enough, and no
/// more than asked for.
pub proof fn law_listing_is_bounded(
    entries: Seq<EntryView>,
    min_date_time: i64,
    offset: nat,
    count: nat,
)
    ensures
        listed(entries, min_date_time, offset, count).len() <= count,
        forall|i: int|
            0 <= i < listed(entries, min_date_time, offset, count).len() ==> entries.contains(
                #[trigger] listed(entries, min_date_time, offset, count)[i],
            ) && listed(entries, min_date_time, offset, count)[i].created >= min_date_time,
{
    let tail = if offset <= entries.len() {
        entries.skip(offset as int)
    } else {
        Seq::empty()
    };
    let pred = |e: EntryView| e.created >= min_date_time;
    lemma_filter_members(tail, pred);
    let recent = recent_from(entries, min_date_time, offset);
    let shown = listed(entries, min_date_time, offset, count);
    assert forall|i: int| 0 <= i < shown.len() implies entries.contains(#[trigger] shown[i])
        && shown[i].created >= min_date_time by {
        assert(shown[i] == recent[i]);
        let k = choose|k: int| 0 <= k < tail.len() && tail[k] == recent[i];
        assert(entries[k + offset] == shown[i]);
        assert(pred(recent[i]));
    }
}

} // verus!
