//! The zip writer and reader of the `zip` crate, and what this library takes
//! on trust of them.
//!
//! The writer is kept as a list of the entries handed to it, the reader as
//! the bytes it reads. Nothing here is proved: each contract below says what
//! the crate's source shows of one call.

use vstd::prelude::*;
use crate::path::{path_bytes, BACKSLASH, SLASH};
use crate::settings::{CompressionMethod, EntrySettings};

verus! {

/// The error of the `zip` crate. It is handed on unread.
#[verifier::external_type_specification]
#[verifier::external_body]
pub struct ExZipError(zip::result::ZipError);

/// The reader of the `zip` crate. It is held, and never looked into.
#[verifier::external_type_specification]
#[verifier::external_body]
#[verifier::reject_recursive_types(R)]
pub struct ExZipArchive<R>(zip::ZipArchive<R>);

/// The cursor of std, through which the reader reads bytes in memory.
#[verifier::external_type_specification]
#[verifier::external_body]
#[verifier::reject_recursive_types(T)]
pub struct ExCursor<T>(std::io::Cursor<T>);

/// One entry as the container holds it.
pub struct StoredEntry {
    pub name: Seq<u8>,
    pub is_dir: bool,
    pub method: CompressionMethod,
    pub level: Option<i32>,
    pub data: Seq<u8>,
}

/// A `zip::ZipWriter` that writes into memory.
#[verifier::external_body]
pub struct ArchiveSink {
    inner: zip::ZipWriter<std::io::Cursor<Vec<u8>>>,
}

/// The entries that were handed to the writer so far, in that order; the
/// payload of each is what was written behind it.
pub uninterp spec fn sink_entries(sink: ArchiveSink) -> Seq<StoredEntry>;

/// The bytes of the finished container: what `ZipWriter::finish` leaves in the
/// buffer once these entries were written, each payload in one piece and each
/// entry dated 1980-01-01.
pub uninterp spec fn archive_image(entries: Seq<StoredEntry>) -> Seq<u8>;

/// Whether the writer takes the step that leaves it holding `entries`: the
/// start of the last entry, where that entry has no payload yet, or the one
/// write of its payload. The writer writes into memory, so the answer lies in
/// what it was handed: the methods and levels, and the sizes of the payloads
/// as they are and as they come out compressed.
pub uninterp spec fn sink_takes(entries: Seq<StoredEntry>) -> bool;

/// Whether `ZipWriter::finish` succeeds on a writer that holds `entries`.
pub uninterp spec fn sink_closes(entries: Seq<StoredEntry>) -> bool;

/// What the index of a container says of one entry.
#[derive(Clone, Debug, PartialEq, Eq)]
pub struct IndexEntry {
    /// The name, byte for byte.
    pub name: Vec<u8>,
    /// The CRC-32 that is kept for the payload.
    pub checksum: u32,
    /// The number of bytes that the payload takes in the container.
    pub compressed_size: u64,
    /// The number of bytes of the payload before compression.
    pub size: u64,
    /// Where the entry begins in the container, in bytes from its start.
    pub offset: u64,
}

/// What the index says of one entry, as the contracts speak of it.
pub struct IndexEntryView {
    pub name: Seq<u8>,
    pub checksum: u32,
    pub compressed: nat,
    pub size: nat,
    pub offset: nat,
}

impl View for IndexEntry {
    type V = IndexEntryView;

    open spec fn view(&self) -> IndexEntryView {
        IndexEntryView {
            name: self.name@,
            checksum: self.checksum,
            compressed: self.compressed_size as nat,
            size: self.size as nat,
            offset: self.offset as nat,
        }
    }
}

/// The bytes that a reader reads.
pub uninterp spec fn reader_bytes(reader: zip::ZipArchive<std::io::Cursor<&[u8]>>) -> Seq<u8>;

/// Whether `ZipArchive::new` finds an index in these bytes.
pub uninterp spec fn image_opens(bytes: Seq<u8>) -> bool;

/// What `ZipArchive::by_index_raw` finds of entry `i` in the index of these
/// bytes; nothing where it fails.
pub uninterp spec fn image_entry(bytes: Seq<u8>, i: int) -> Option<IndexEntryView>;

/// The bytes are a container that the writer made.
pub open spec fn is_image(bytes: Seq<u8>) -> bool {
    exists|entries: Seq<StoredEntry>| bytes == #[trigger] archive_image(entries)
}

/// The name under which `ZipWriter::add_directory` files a directory: the name
/// given, with a `/` put behind it unless it ends in `/` or `\` already.
pub open spec fn directory_name(name: Seq<u8>) -> Seq<u8> {
    if name.len() > 0 && (name[name.len() - 1] == SLASH || name[name.len() - 1] == BACKSLASH) {
        name
    } else {
        name + seq![SLASH]
    }
}

/// `ZipWriter::new` over an empty buffer: a writer that holds no entry.
#[verifier::external_body]
pub(crate) fn sink_new() -> (sink: ArchiveSink)
    ensures
        sink_entries(sink) == Seq::<StoredEntry>::empty(),
{
    ArchiveSink { inner: zip::ZipWriter::new(std::io::Cursor::new(Vec::new())) }
}

/// `ZipWriter::start_file`: where it returns `Ok`, a file entry of that name
/// and those settings, with no payload yet, stands behind the others. It
/// returns `Ok` just when the writer takes that step.
#[verifier::external_body]
pub(crate) fn sink_start_file(sink: &mut ArchiveSink, name: &str, settings: &EntrySettings) -> (r:
    Result<(), zip::result::ZipError>)
    ensures
        r is Ok ==> sink_entries(*final(sink)) == sink_entries(*old(sink)).push(
            StoredEntry {
                name: path_bytes(name@),
                is_dir: false,
                method: settings.method,
                level: settings.level,
                data: Seq::empty(),
            },
        ),
        (r is Ok) == sink_takes(
            sink_entries(*old(sink)).push(
                StoredEntry {
                    name: path_bytes(name@),
                    is_dir: false,
                    method: settings.method,
                    level: settings.level,
                    data: Seq::empty(),
                },
            ),
        ),
{
    #[allow(deprecated)]
    let method = match settings.method {
        CompressionMethod::Store => zip::CompressionMethod::Stored,
        CompressionMethod::Deflate => zip::CompressionMethod::Deflated,
        CompressionMethod::Unsupported(code) => zip::CompressionMethod::Unsupported(code),
    };
    let options = zip::write::FileOptions::default().compression_method(method).compression_level(
        settings.level,
    ).last_modified_time(zip::DateTime::default());
    sink.inner.start_file(name, options)
}

/// `ZipWriter::add_directory`: where it returns `Ok`, a directory entry stands
/// behind the others, stored and without payload, under [`directory_name`].
/// It returns `Ok` just when the writer takes that step.
#[verifier::external_body]
pub(crate) fn sink_add_directory(sink: &mut ArchiveSink, name: &str) -> (r: Result<
    (),
    zip::result::ZipError,
>)
    ensures
        r is Ok ==> sink_entries(*final(sink)) == sink_entries(*old(sink)).push(
            StoredEntry {
                name: directory_name(path_bytes(name@)),
                is_dir: true,
                method: CompressionMethod::Store,
                level: None,
                data: Seq::empty(),
            },
        ),
        (r is Ok) == sink_takes(
            sink_entries(*old(sink)).push(
                StoredEntry {
                    name: directory_name(path_bytes(name@)),
                    is_dir: true,
                    method: CompressionMethod::Store,
                    level: None,
                    data: Seq::empty(),
                },
            ),
        ),
{
    let options = zip::write::FileOptions::default().last_modified_time(zip::DateTime::default());
    sink.inner.add_directory(name, options)
}

/// `Write::write_all` on the writer: where it returns `Ok`, the bytes are the
/// payload of the last entry, a file. It is called once for a file, on the
/// entry just started. Where there are bytes to write, it returns `Ok` just
/// when the writer takes that step.
#[verifier::external_body]
pub(crate) fn sink_write(sink: &mut ArchiveSink, data: &[u8]) -> (r: Result<
    (),
    zip::result::ZipError,
>)
    requires
        sink_entries(*old(sink)).len() > 0,
        !sink_entries(*old(sink)).last().is_dir,
        sink_entries(*old(sink)).last().data.len() == 0,
    ensures
        r is Ok ==> sink_entries(*final(sink)) == sink_entries(*old(sink)).update(
            sink_entries(*old(sink)).len() - 1,
            StoredEntry { data: data@, ..sink_entries(*old(sink)).last() },
        ),
        data@.len() > 0 ==> ((r is Ok) == sink_takes(
            sink_entries(*old(sink)).update(
                sink_entries(*old(sink)).len() - 1,
                StoredEntry { data: data@, ..sink_entries(*old(sink)).last() },
            ),
        )),
{
    std::io::Write::write_all(&mut sink.inner, data).map_err(zip::result::ZipError::Io)
}

/// `ZipWriter::finish`: where it returns `Ok`, the buffer holds the image of
/// the entries written. It returns `Ok` just when the writer closes on them.
#[verifier::external_body]
pub(crate) fn sink_finish(sink: ArchiveSink) -> (r: Result<Vec<u8>, zip::result::ZipError>)
    ensures
        r matches Ok(bytes) ==> bytes@ == archive_image(sink_entries(sink)),
        (r is Ok) == sink_closes(sink_entries(sink)),
{
    let mut sink = sink;
    sink.inner.finish().map(|buffer| buffer.into_inner())
}

/// `ZipArchive::new` over bytes that the writer made: it returns `Ok` just when
/// it finds an index in them, and the reader then reads those bytes.
#[verifier::external_body]
pub(crate) fn reader_open<'a>(bytes: &'a [u8]) -> (r: Result<
    zip::ZipArchive<std::io::Cursor<&'a [u8]>>,
    zip::result::ZipError,
>)
    requires
        is_image(bytes@),
    ensures
        (r is Ok) == image_opens(bytes@),
        r matches Ok(reader) ==> reader_bytes(reader) == bytes@,
{
    zip::ZipArchive::new(std::io::Cursor::new(bytes))
}

/// `ZipArchive::by_index_raw`, and of the entry it gives the raw name, the
/// CRC-32, the two sizes and the start of its header: what the index of the
/// bytes says of entry `i`, or an error where it says nothing. The reader
/// goes on reading the same bytes.
#[verifier::external_body]
pub(crate) fn reader_entry(reader: &mut zip::ZipArchive<std::io::Cursor<&[u8]>>, i: usize) -> (r:
    Result<IndexEntry, zip::result::ZipError>)
    requires
        is_image(reader_bytes(*old(reader))),
    ensures
        reader_bytes(*final(reader)) == reader_bytes(*old(reader)),
        match image_entry(reader_bytes(*old(reader)), i as int) {
            Some(found) => r matches Ok(entry) && entry@ == found,
            None => r is Err,
        },
{
    let file = reader.by_index_raw(i)?;
    Ok(
        IndexEntry {
            name: file.name_raw().to_vec(),
            checksum: file.crc32(),
            compressed_size: file.compressed_size(),
            size: file.size(),
            offset: file.header_start(),
        },
    )
}

} // verus!
