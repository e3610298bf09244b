//! Feeds entries to the container and keeps the index of what was written.

use vstd::prelude::*;
use crate::checksum::{crc32, lemma_crc32_empty, Crc32};
use crate::entry::{acceptable_path, entry_views, Entry, EntryView};
use crate::error::{ArchiveError, ErrorKind, ErrorView};
use crate::path::{ends_with_slash, is_safe_relative_path, path_bytes};
use crate::settings::{
    effective_level,
    supported,
    CompressionMethod,
    EntrySettings,
    OptionsResolver,
};
use crate::sink::{
    archive_image,
    image_entry,
    image_opens,
    reader_bytes,
    reader_entry,
    reader_open,
    sink_add_directory,
    sink_closes,
    sink_entries,
    sink_finish,
    sink_new,
    sink_start_file,
    sink_takes,
    sink_write,
    ArchiveSink,
    IndexEntry,
    IndexEntryView,
    StoredEntry,
};

verus! {

/// What the index says of one entry that was written.
#[derive(Clone, Debug, PartialEq, Eq)]
pub struct ArchiveIndexRecord {
    pub relative_path: String,
    pub is_directory: bool,
    /// Where the entry begins in the container, in bytes from its start.
    pub offset: u64,
    /// The number of bytes that the payload takes in the container.
    pub compressed_size: u64,
    /// The number of bytes of the payload before compression.
    pub uncompressed_size: u64,
    /// The CRC-32 of the payload before compression.
    pub checksum: u32,
    pub method: CompressionMethod,
    /// The level that was used; `None` where the method has none or chose itself.
    pub level: Option<i32>,
}

/// A record as the contracts speak of it.
pub struct RecordView {
    pub path: Seq<u8>,
    pub is_dir: bool,
    pub offset: nat,
    pub compressed: nat,
    pub size: nat,
    pub checksum: u32,
    pub method: CompressionMethod,
    pub level: Option<i32>,
}

impl View for ArchiveIndexRecord {
    type V = RecordView;

    open spec fn view(&self) -> RecordView {
        RecordView {
            path: path_bytes(self.relative_path@),
            is_dir: self.is_directory,
            offset: self.offset as nat,
            compressed: self.compressed_size as nat,
            size: self.uncompressed_size as nat,
            checksum: self.checksum,
            method: self.method,
            level: self.level,
        }
    }
}

/// The views of a list of records, one for one.
pub open spec fn record_views(records: Seq<ArchiveIndexRecord>) -> Seq<RecordView> {
    Seq::new(records.len(), |i: int| records[i]@)
}

/// A finished archive: the bytes of the container, and one record for each
/// entry in the order in which the entries stand in it.
#[derive(Clone, Debug, PartialEq, Eq)]
pub struct Archive {
    pub bytes: Vec<u8>,
    pub index: Vec<ArchiveIndexRecord>,
}

/// The longest name, in bytes, that the container has room for.
pub const MAX_NAME_BYTES: usize = 65535;

/// Why an entry is turned down under the settings that the policy gave, if it
/// is: for its path, for a name too long for the container, or, a file, for a
/// method that cannot be written. The settings of a directory are not looked at.
pub open spec fn rejection(e: EntryView, settings: EntrySettings) -> Option<ErrorKind> {
    if !acceptable_path(e) {
        Some(ErrorKind::PathTraversal)
    } else if e.path.len() > MAX_NAME_BYTES {
        Some(ErrorKind::WriteFailure)
    } else if !e.is_dir && !supported(settings.method) {
        Some(ErrorKind::UnsupportedSettings)
    } else {
        None
    }
}

/// What the container is handed for an entry: a directory without payload and
/// stored, a file with its bytes, the method asked for and the level in range.
pub open spec fn stored_entry(e: EntryView, settings: EntrySettings) -> StoredEntry {
    if e.is_dir {
        StoredEntry {
            name: e.path,
            is_dir: true,
            method: CompressionMethod::Store,
            level: None,
            data: Seq::empty(),
        }
    } else {
        StoredEntry {
            name: e.path,
            is_dir: false,
            method: settings.method,
            level: effective_level(settings),
            data: e.data,
        }
    }
}

/// What the writer knows of an entry before the container is read again:
/// everything but where the entry lies and what room its payload takes, which
/// stand at 0.
pub open spec fn draft_of(e: EntryView, settings: EntrySettings) -> RecordView {
    RecordView {
        path: e.path,
        is_dir: e.is_dir,
        offset: 0,
        compressed: 0,
        size: stored_entry(e, settings).data.len(),
        checksum: crc32(stored_entry(e, settings).data),
        method: stored_entry(e, settings).method,
        level: stored_entry(e, settings).level,
    }
}

/// What the container's index says of an entry is what the writer knows of
/// it: the same name, the same checksum, the same size, and a payload that
/// takes as many bytes as it has where it was stored as it is.
pub open spec fn agrees(draft: RecordView, found: IndexEntryView) -> bool {
    &&& found.name == draft.path
    &&& found.checksum == draft.checksum
    &&& found.size == draft.size
    &&& draft.method is Store ==> found.compressed == draft.size
}

/// The record of an entry: what the writer knows of it, with the place and
/// the room that the container's index gives.
pub open spec fn completed(draft: RecordView, found: IndexEntryView) -> RecordView {
    RecordView { offset: found.offset, compressed: found.compressed, ..draft }
}

/// What the container is handed for a list of entries under a policy.
pub open spec fn planned<R: OptionsResolver>(entries: Seq<EntryView>, resolver: R) -> Seq<
    StoredEntry,
> {
    Seq::new(
        entries.len(),
        |i: int| stored_entry(entries[i], resolver.settings_for(entries[i].path)),
    )
}

/// What the writer knows of each entry of a list under a policy.
pub open spec fn planned_drafts<R: OptionsResolver>(entries: Seq<EntryView>, resolver: R) -> Seq<
    RecordView,
> {
    Seq::new(
        entries.len(),
        |i: int| draft_of(entries[i], resolver.settings_for(entries[i].path)),
    )
}

/// What the index of the container that holds these entries says of entry `i`.
pub open spec fn found_at<R: OptionsResolver>(
    entries: Seq<EntryView>,
    resolver: R,
    i: int,
) -> Option<IndexEntryView> {
    image_entry(archive_image(planned(entries, resolver)), i)
}

/// The index of a list of entries under a policy: for each entry what the
/// writer knows of it, and its place and room as the container's index gives them.
pub open spec fn planned_index<R: OptionsResolver>(entries: Seq<EntryView>, resolver: R) -> Seq<
    RecordView,
> {
    Seq::new(
        entries.len(),
        |i: int|
            completed(
                draft_of(entries[i], resolver.settings_for(entries[i].path)),
                found_at(entries, resolver, i)->Some_0,
            ),
    )
}

/// The container's index has entry `i`, and says of it what the writer knows.
pub open spec fn confirmed_at<R: OptionsResolver>(
    entries: Seq<EntryView>,
    resolver: R,
    i: int,
) -> bool {
    found_at(entries, resolver, i) matches Some(found) && agrees(
        draft_of(entries[i], resolver.settings_for(entries[i].path)),
        found,
    )
}

/// The container that holds these entries can be read again, and its index
/// says of every entry what the writer knows of it.
pub open spec fn confirmed<R: OptionsResolver>(entries: Seq<EntryView>, resolver: R) -> bool {
    &&& image_opens(archive_image(planned(entries, resolver)))
    &&& forall|i: int| 0 <= i < entries.len() ==> #[trigger] confirmed_at(entries, resolver, i)
}

/// None of the first `n` entries is turned down.
pub open spec fn accepted_before<R: OptionsResolver>(
    entries: Seq<EntryView>,
    resolver: R,
    n: int,
) -> bool {
    forall|j: int|
        0 <= j < n && j < entries.len() ==> (#[trigger] rejection(
            entries[j],
            resolver.settings_for(entries[j].path),
        )) is None
}

/// Entry `k` is the first that is turned down.
pub open spec fn first_rejected<R: OptionsResolver>(
    entries: Seq<EntryView>,
    resolver: R,
    k: int,
) -> bool {
    &&& 0 <= k < entries.len()
    &&& accepted_before(entries, resolver, k)
    &&& rejection(entries[k], resolver.settings_for(entries[k].path)) is Some
}

/// The error is that of the first entry that is turned down.
pub open spec fn refused<R: OptionsResolver>(
    entries: Seq<EntryView>,
    resolver: R,
    e: ErrorView,
) -> bool {
    exists|k: int|
        {
            &&& first_rejected(entries, resolver, k)
            &&& Some(e.kind) == rejection(entries[k], resolver.settings_for(entries[k].path))
            &&& e.path == entries[k].path
        }
}

/// The error is a write failure that the container brought about: at an entry
/// that it did not take or of which its index says something else, none being
/// turned down up to that entry; or at the root, where no entry was turned
/// down and the container could not be finished or read again.
pub open spec fn declined<R: OptionsResolver>(
    entries: Seq<EntryView>,
    resolver: R,
    e: ErrorView,
) -> bool {
    &&& e.kind == ErrorKind::WriteFailure
    &&& {
        ||| exists|k: int|
            {
                &&& 0 <= k < entries.len()
                &&& accepted_before(entries, resolver, k + 1)
                &&& e.path == entries[k].path
            }
        ||| {
            &&& accepted_before(entries, resolver, entries.len() as int)
            &&& e.path == Seq::<u8>::empty()
        }
    }
}

/// An entry as it stands in the container before its payload is written.
pub open spec fn started(e: StoredEntry) -> StoredEntry {
    StoredEntry { data: Seq::empty(), ..e }
}

/// The container, holding `before`, takes `next`: its start, and the write of
/// its payload where it has one.
pub open spec fn taken_behind(before: Seq<StoredEntry>, next: StoredEntry) -> bool {
    sink_takes(before.push(started(next))) && (next.data.len() > 0 ==> sink_takes(
        before.push(next),
    ))
}

/// The container takes each of the entries behind those before it, and closes
/// on them all.
pub open spec fn all_taken(stored: Seq<StoredEntry>) -> bool {
    &&& forall|i: int|
        0 <= i < stored.len() ==> #[trigger] taken_behind(stored.take(i), stored[i])
    &&& sink_closes(stored)
}

/// An archive is owed: no entry is turned down, the container takes them all
/// and closes, and read again it says of each what the writer knows.
pub open spec fn owed<R: OptionsResolver>(entries: Seq<EntryView>, resolver: R) -> bool {
    &&& accepted_before(entries, resolver, entries.len() as int)
    &&& all_taken(planned(entries, resolver))
    &&& confirmed(entries, resolver)
}

/// What holds of the result of writing `entries` under a policy.
///
/// An archive comes just when it is owed. Its bytes are the image of what the
/// container was handed, and its index has the record of each entry. An error
/// is that of the first entry that is turned down, or a write failure that the
/// container brought about.
pub open spec fn written<R: OptionsResolver>(
    entries: Seq<EntryView>,
    resolver: R,
    r: Result<Archive, ArchiveError>,
) -> bool {
    &&& (r is Ok) == owed(entries, resolver)
    &&& match r {
        Ok(archive) => {
            &&& archive.bytes@ == archive_image(planned(entries, resolver))
            &&& record_views(archive.index@) == planned_index(entries, resolver)
        },
        Err(e) => refused(entries, resolver, e@) || declined(entries, resolver, e@),
    }
}

/// What a caller is told once the container has answered for an entry: nothing
/// where it took the entry, a write failure at the entry's path where it did not.
pub fn entry_outcome(answer: Result<(), zip::result::ZipError>, path: &String) -> (r: Result<
    (),
    ArchiveError,
>)
    ensures
        answer is Ok ==> r is Ok,
        answer is Err ==> r == Err::<(), ArchiveError>(
            ArchiveError::WriteFailure { path: *path },
        ),
{
    match answer {
        Ok(_) => Ok(()),
        Err(_) => Err(ArchiveError::WriteFailure { path: path.clone() }),
    }
}

/// What a caller is told once the container has been closed: its bytes where
/// that gave them, a write failure at the root where it did not.
pub fn finish_outcome(answer: Result<Vec<u8>, zip::result::ZipError>) -> (r: Result<
    Vec<u8>,
    ArchiveError,
>)
    ensures
        match answer {
            Ok(bytes) => r == Ok::<Vec<u8>, ArchiveError>(bytes),
            Err(_) => r matches Err(e) && e@ == (ErrorView {
                kind: ErrorKind::WriteFailure,
                path: Seq::empty(),
            }),
        },
{
    match answer {
        Ok(bytes) => Ok(bytes),
        Err(_) => Err(ArchiveError::WriteFailure { path: String::new() }),
    }
}

/// Tells whether two runs of bytes are the same.
fn same_bytes(a: &[u8], b: &[u8]) -> (r: bool)
    ensures
        r == (a@ == b@),
{
    let n: usize = a.len();
    if n != b.len() {
        return false;
    }
    let mut i: usize = 0;
    while i < n
        invariant
            n == a@.len(),
            n == b@.len(),
            i <= n,
            forall|k: int| 0 <= k < i ==> a@[k] == b@[k],
        decreases n - i,
    {
        if a[i] != b[i] {
            return false;
        }
        i += 1;
    }
    proof {
        assert(a@ =~= b@);
    }
    true
}

/// What a caller is told once the container's index has answered for an
/// entry: the record of the entry, with its place and the room its payload
/// takes, where the index has the entry and says of it what the writer knows;
/// a write failure at the entry's path where it does not.
pub fn record_outcome(
    answer: Result<IndexEntry, zip::result::ZipError>,
    draft: &ArchiveIndexRecord,
) -> (r: Result<ArchiveIndexRecord, ArchiveError>)
    ensures
        match answer {
            Ok(found) if agrees(draft@, found@) => r matches Ok(record) && record@ == completed(
                draft@,
                found@,
            ),
            _ => r matches Err(e) && e@ == (ErrorView {
                kind: ErrorKind::WriteFailure,
                path: draft@.path,
            }),
        },
{
    match answer {
        Ok(found) => {
            let stored_whole: bool = match draft.method {
                CompressionMethod::Store => found.compressed_size == draft.uncompressed_size,
                _ => true,
            };
            if same_bytes(found.name.as_slice(), draft.relative_path.as_str().as_bytes())
                && found.checksum == draft.checksum && found.size == draft.uncompressed_size
                && stored_whole {
                Ok(
                    ArchiveIndexRecord {
                        relative_path: draft.relative_path.clone(),
                        is_directory: draft.is_directory,
                        offset: found.offset,
                        compressed_size: found.compressed_size,
                        uncompressed_size: draft.uncompressed_size,
                        checksum: draft.checksum,
                        method: draft.method,
                        level: draft.level,
                    },
                )
            } else {
                Err(ArchiveError::WriteFailure { path: draft.relative_path.clone() })
            }
        },
        Err(_) => Err(ArchiveError::WriteFailure { path: draft.relative_path.clone() }),
    }
}

/// Hands one entry to the container and gives what the writer knows of it.
fn write_entry(
    sink: &mut ArchiveSink,
    entry: &Entry,
    settings: &EntrySettings,
    crc: &Crc32,
) -> (r: Result<ArchiveIndexRecord, ArchiveError>)
    requires
        acceptable_path(entry@),
        entry@.path.len() <= MAX_NAME_BYTES,
        supported(settings.method),
        settings.level == effective_level(*settings),
    ensures
        (r is Ok) == taken_behind(sink_entries(*old(sink)), stored_entry(entry@, *settings)),
        match r {
            Ok(draft) => {
                &&& sink_entries(*final(sink)) == sink_entries(*old(sink)).push(
                    stored_entry(entry@, *settings),
                )
                &&& draft@ == draft_of(entry@, *settings)
            },
            Err(e) => e@ == (ErrorView { kind: ErrorKind::WriteFailure, path: entry@.path }),
        },
{
    let path: &String = entry.relative_path();
    let ghost before = sink_entries(*sink);
    let ghost next = stored_entry(entry@, *settings);
    match entry {
        Entry::Directory { .. } => {
            let answer = sink_add_directory(sink, path.as_str());
            match entry_outcome(answer, path) {
                Err(e) => Err(e),
                Ok(_) => {
                    proof {
                        lemma_crc32_empty();
                    }
                    Ok(
                        ArchiveIndexRecord {
                            relative_path: path.clone(),
                            is_directory: true,
                            offset: 0,
                            compressed_size: 0,
                            uncompressed_size: 0,
                            checksum: 0,
                            method: CompressionMethod::Store,
                            level: None,
                        },
                    )
                },
            }
        },
        Entry::File { data, .. } => {
            let answer = sink_start_file(sink, path.as_str(), settings);
            match entry_outcome(answer, path) {
                Err(e) => {
                    return Err(e);
                },
                Ok(_) => {},
            }
            if data.len() > 0 {
                proof {
                    assert(before.push(started(next)).update(before.len() as int, next)
                        =~= before.push(next));
                }
                let answer = sink_write(sink, data.as_slice());
                match entry_outcome(answer, path) {
                    Err(e) => {
                        return Err(e);
                    },
                    Ok(_) => {},
                }
            } else {
                proof {
                    assert(data@ =~= Seq::<u8>::empty());
                }
            }
            Ok(
                ArchiveIndexRecord {
                    relative_path: path.clone(),
                    is_directory: false,
                    offset: 0,
                    compressed_size: 0,
                    uncompressed_size: data.len() as u64,
                    checksum: crc.checksum(data.as_slice()),
                    method: settings.method,
                    level: settings.level,
                },
            )
        },
    }
}

/// Hands the entries to the container one by one and closes it: the bytes of
/// the container, and what the writer knows of each entry.
fn fill_container<R: OptionsResolver>(entries: &Vec<Entry>, resolver: &R) -> (r: Result<
    (Vec<u8>, Vec<ArchiveIndexRecord>),
    ArchiveError,
>)
    ensures
        (r is Ok) == (accepted_before(entry_views(entries@), *resolver, entries@.len() as int)
            && all_taken(planned(entry_views(entries@), *resolver))),
        match r {
            Ok((bytes, drafts)) => {
                &&& bytes@ == archive_image(planned(entry_views(entries@), *resolver))
                &&& drafts@.len() == entries@.len()
                &&& record_views(drafts@) == planned_drafts(entry_views(entries@), *resolver)
            },
            Err(e) => refused(entry_views(entries@), *resolver, e@) || declined(
                entry_views(entries@),
                *resolver,
                e@,
            ),
        },
{
    let ghost views = entry_views(entries@);
    let ghost plan = planned(views, *resolver);
    let n: usize = entries.len();
    let crc = Crc32::new();
    let mut sink = sink_new();
    let mut drafts: Vec<ArchiveIndexRecord> = Vec::new();
    let mut i: usize = 0;
    while i < n
        invariant
            n == entries@.len(),
            views == entry_views(entries@),
            plan == planned(views, *resolver),
            i <= n,
            accepted_before(views, *resolver, i as int),
            forall|j: int| 0 <= j < i ==> #[trigger] taken_behind(plan.take(j), plan[j]),
            sink_entries(sink) == plan.take(i as int),
            drafts@.len() == i,
            record_views(drafts@) == planned_drafts(views, *resolver).take(i as int),
        decreases n - i,
    {
        let entry: &Entry = &entries[i];
        let path: &String = entry.relative_path();
        let is_dir: bool = match entry {
            Entry::Directory { .. } => true,
            Entry::File { .. } => false,
        };
        if !is_safe_relative_path(path.as_str()) || ends_with_slash(path.as_str()) != is_dir {
            proof {
                assert(first_rejected(views, *resolver, i as int));
            }
            return Err(ArchiveError::PathTraversal { path: path.clone() });
        }
        if path.as_str().as_bytes().len() > MAX_NAME_BYTES {
            proof {
                assert(first_rejected(views, *resolver, i as int));
            }
            return Err(ArchiveError::WriteFailure { path: path.clone() });
        }
        let settings: EntrySettings = if is_dir {
            EntrySettings::store()
        } else {
            match resolver.resolve(path.as_str()).normalized() {
                Some(s) => s,
                None => {
                    proof {
                        assert(first_rejected(views, *resolver, i as int));
                    }
                    return Err(ArchiveError::UnsupportedSettings { path: path.clone() });
                },
            }
        };
        match write_entry(&mut sink, entry, &settings, &crc) {
            Err(e) => {
                proof {
                    assert(!taken_behind(plan.take(i as int), plan[i as int]));
                }
                return Err(e);
            },
            Ok(draft) => {
                drafts.push(draft);
            },
        }
        i += 1;
    }
    proof {
        assert(plan.take(n as int) =~= plan);
    }
    match finish_outcome(sink_finish(sink)) {
        Err(e) => Err(e),
        Ok(bytes) => Ok((bytes, drafts)),
    }
}

/// Reads the index of the container again and makes the record of each entry.
fn read_index<R: OptionsResolver>(
    bytes: &Vec<u8>,
    drafts: &Vec<ArchiveIndexRecord>,
    Ghost(entries): Ghost<Seq<EntryView>>,
    resolver: &R,
) -> (r: Result<Vec<ArchiveIndexRecord>, ArchiveError>)
    requires
        bytes@ == archive_image(planned(entries, *resolver)),
        drafts@.len() == entries.len(),
        record_views(drafts@) == planned_drafts(entries, *resolver),
        accepted_before(entries, *resolver, entries.len() as int),
    ensures
        (r is Ok) == confirmed(entries, *resolver),
        match r {
            Ok(index) => record_views(index@) == planned_index(entries, *resolver),
            Err(e) => declined(entries, *resolver, e@),
        },
{
    let n: usize = drafts.len();
    let mut reader = match reader_open(bytes.as_slice()) {
        Ok(reader) => reader,
        Err(_) => {
            return Err(ArchiveError::WriteFailure { path: String::new() });
        },
    };
    let mut index: Vec<ArchiveIndexRecord> = Vec::new();
    let mut i: usize = 0;
    while i < n
        invariant
            n == entries.len(),
            n == drafts@.len(),
            i <= n,
            bytes@ == archive_image(planned(entries, *resolver)),
            reader_bytes(reader) == bytes@,
            record_views(drafts@) == planned_drafts(entries, *resolver),
            accepted_before(entries, *resolver, entries.len() as int),
            forall|j: int| 0 <= j < i ==> #[trigger] confirmed_at(entries, *resolver, j),
            index@.len() == i,
            record_views(index@) == planned_index(entries, *resolver).take(i as int),
        decreases n - i,
    {
        proof {
            assert(record_views(drafts@)[i as int] == drafts@[i as int]@);
        }
        match record_outcome(reader_entry(&mut reader, i), &drafts[i]) {
            Err(e) => {
                proof {
                    assert(!confirmed_at(entries, *resolver, i as int));
                }
                return Err(e);
            },
            Ok(record) => {
                index.push(record);
            },
        }
        i += 1;
    }
    Ok(index)
}

/// Writes the entries, in the order given, into one container.
///
/// Each entry is looked at before it is written: its path must be acceptable
/// and short enough for the container, and the method that the policy gives a
/// file must be one that can be written. The first entry that is turned down
/// ends the work with its error. The level is brought into the range of the
/// method. Once the container is closed its index is read again: the record
/// of each entry has from it where the entry lies and what room its payload
/// takes. Where the container does not take an entry, cannot be finished, or
/// says of an entry something else than was written, the work ends with a
/// write failure, at the path of that entry or at the root.
pub fn write_archive<R: OptionsResolver>(entries: &Vec<Entry>, resolver: &R) -> (r: Result<
    Archive,
    ArchiveError,
>)
    ensures
        written(entry_views(entries@), *resolver, r),
{
    match fill_container(entries, resolver) {
        Err(e) => Err(e),
        Ok((bytes, drafts)) => {
            match read_index(&bytes, &drafts, Ghost(entry_views(entries@)), resolver) {
                Err(e) => Err(e),
                Ok(index) => Ok(Archive { bytes, index }),
            }
        },
    }
}

} // verus!
