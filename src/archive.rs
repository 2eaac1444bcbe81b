use std::io::Cursor;
use vstd::prelude::*;
use vstd::string::*;
use zip::result::ZipError;
use zip::ZipArchive;

verus! {

#[verifier::external_type_specification]
#[verifier::external_body]
#[verifier::reject_recursive_types(T)]
pub struct ExCursor<T>(Cursor<T>);

#[verifier::external_type_specification]
#[verifier::external_body]
#[verifier::reject_recursive_types(R)]
pub struct ExZipArchive<R>(ZipArchive<R>);

#[verifier::external_type_specification]
#[verifier::external_body]
pub struct ExZipError(ZipError);

/// An archive read from bytes held in memory.
pub type Archive = ZipArchive<Cursor<Vec<u8>>>;

/// The entries of an archive, in index order: each entry's name and its uncompressed size
/// in bytes. The archive keeps one entry per name: a name that the central directory
/// repeats keeps its first position and takes the data of its last record.
pub uninterp spec fn archive_entries(z: Archive) -> Seq<(Seq<char>, u64)>;

/// For each entry of the archive, in index order, whether its record can be read: its
/// local header parses. This depends on the archive's bytes alone.
pub uninterp spec fn readable_entries(z: Archive) -> Seq<bool>;

/// Whether the bytes open as an archive: its central directory can be read.
pub uninterp spec fn zip_opens(bytes: Seq<u8>) -> bool;

/// Why an archive could not give the size of its rootfs entry.
#[derive(Debug)]
pub enum ArchiveError {
    /// The archive could not be opened, or its directory could not be read.
    Unreadable(ZipError),
    /// No entry of the archive has the requested name.
    EntryNotFound { entry_name: String },
}

/// Relies on `ZipArchive::new`, which reads the central directory of the archive.
#[verifier::external_body]
fn zip_from_bytes(bytes: Vec<u8>) -> (r: Result<Archive, ZipError>)
    ensures
        r is Ok <==> zip_opens(bytes@),
{
    ZipArchive::new(Cursor::new(bytes))
}

/// Opens an archive held in memory; one whose directory cannot be read is `Unreadable`.
pub fn open_archive(bytes: Vec<u8>) -> (r: Result<Archive, ArchiveError>)
    ensures
        r is Ok <==> zip_opens(bytes@),
        r is Err ==> r->Err_0 is Unreadable,
{
    match zip_from_bytes(bytes) {
        Ok(z) => Ok(z),
        Err(e) => Err(ArchiveError::Unreadable(e)),
    }
}

/// Relies on `ZipArchive::len`: the number of entries in the central directory.
#[verifier::external_body]
fn entry_count(z: &Archive) -> (r: usize)
    ensures
        r == archive_entries(*z).len(),
        r == readable_entries(*z).len(),
{
    z.len()
}

/// Relies on `ZipArchive::by_index_raw`, with `ZipFile::name` and `ZipFile::size`: the
/// name and uncompressed size recorded for entry `i`, read without decompressing it.
/// It succeeds exactly when the entry's local header parses; the reader is positioned
/// before each read, and only that position changes, not the directory.
#[verifier::external_body]
fn entry_at(z: &mut Archive, i: usize) -> (r: Result<(String, u64), ZipError>)
    requires
        i < archive_entries(*old(z)).len(),
    ensures
        archive_entries(*final(z)) == archive_entries(*old(z)),
        readable_entries(*final(z)) == readable_entries(*old(z)),
        r is Ok <==> readable_entries(*old(z))[i as int],
        r is Ok ==> r->Ok_0.0@ == archive_entries(*old(z))[i as int].0,
        r is Ok ==> r->Ok_0.1 == archive_entries(*old(z))[i as int].1,
{
    match z.by_index_raw(i) {
        Ok(f) => Ok((f.name().to_string(), f.size())),
        Err(e) => Err(e),
    }
}

/// The index of the first entry at or after `from` named `name`, or the number of entries.
pub open spec fn first_named(entries: Seq<(Seq<char>, u64)>, name: Seq<char>, from: int) -> int
    decreases entries.len() - from,
{
    if from >= entries.len() {
        entries.len() as int
    } else if entries[from].0 == name {
        from
    } else {
        first_named(entries, name, from + 1)
    }
}

/// Every entry up to and including the first one named `name` (every entry, if none is)
/// can be read.
pub open spec fn readable_through(z: Archive, name: Seq<char>) -> bool {
    let k = first_named(archive_entries(z), name, 0);
    forall|i: int|
        0 <= i < readable_entries(z).len() && i <= k ==> #[trigger] readable_entries(z)[i]
}

proof fn lemma_first_named_from(entries: Seq<(Seq<char>, u64)>, name: Seq<char>, from: int)
    requires
        0 <= from <= entries.len(),
    ensures
        from <= first_named(entries, name, from) <= entries.len(),
    decreases entries.len() - from,
{
    if from < entries.len() && entries[from].0 != name {
        lemma_first_named_from(entries, name, from + 1);
    }
}

/// The uncompressed size of the first entry named `name`, if there is one.
pub open spec fn entry_size_of(entries: Seq<(Seq<char>, u64)>, name: Seq<char>) -> Option<u64> {
    let i = first_named(entries, name, 0);
    if i < entries.len() {
        Some(entries[i].1)
    } else {
        None
    }
}

/// Whether two texts are the same, character for character.
pub fn same_text(a: &str, b: &str) -> (r: bool)
    ensures
        r == (a@ == b@),
{
    let n = a.unicode_len();
    if n != b.unicode_len() {
        return false;
    }
    let mut i: usize = 0;
    while i < n
        invariant
            n == a@.len(),
            n == b@.len(),
            i <= n,
            a@.subrange(0, i as int) == b@.subrange(0, i as int),
        decreases n - i,
    {
        if a.get_char(i) != b.get_char(i) {
            assert(a@[i as int] != b@[i as int]);
            return false;
        }
        assert(a@.subrange(0, i + 1) =~= a@.subrange(0, i as int).push(a@[i as int]));
        assert(b@.subrange(0, i + 1) =~= b@.subrange(0, i as int).push(b@[i as int]));
        i = i + 1;
    }
    assert(a@ =~= a@.subrange(0, n as int));
    assert(b@ =~= b@.subrange(0, n as int));
    true
}

/// The uncompressed size of the first entry, in index order, whose name is exactly
/// `entry_name`. Fails with `Unreadable` exactly when the record of that entry, or of one
/// before it, cannot be read (of any entry, when none has the name); otherwise fails with
/// `EntryNotFound` exactly when no entry has that name.
pub fn find_entry_size(z: &mut Archive, entry_name: &str) -> (r: Result<u64, ArchiveError>)
    ensures
        archive_entries(*final(z)) == archive_entries(*old(z)),
        readable_entries(*final(z)) == readable_entries(*old(z)),
        match r {
            Ok(s) => entry_size_of(archive_entries(*old(z)), entry_name@) == Some(s),
            Err(ArchiveError::EntryNotFound { entry_name: n }) => {
                &&& entry_size_of(archive_entries(*old(z)), entry_name@) is None
                &&& n@ == entry_name@
            },
            Err(ArchiveError::Unreadable(_)) => !readable_through(*old(z), entry_name@),
        },
        r is Ok || r->Err_0 is EntryNotFound <==> readable_through(*old(z), entry_name@),
{
    let ghost entries = archive_entries(*z);
    let ghost readable = readable_entries(*z);
    let n = entry_count(z);
    let mut i: usize = 0;
    while i < n
        invariant
            n == entries.len(),
            i <= n,
            archive_entries(*z) == entries,
            entries == archive_entries(*old(z)),
            readable == readable_entries(*z),
            readable == readable_entries(*old(z)),
            readable.len() == n,
            forall|j: int| 0 <= j < i ==> #[trigger] readable[j],
            first_named(entries, entry_name@, 0) == first_named(entries, entry_name@, i as int),
        decreases n - i,
    {
        proof {
            lemma_first_named_from(entries, entry_name@, i as int);
        }
        match entry_at(z, i) {
            Ok((name, size)) => {
                if same_text(name.as_str(), entry_name) {
                    assert(first_named(entries, entry_name@, i as int) == i);
                    assert(readable_through(*old(z), entry_name@));
                    return Ok(size);
                }
            },
            Err(e) => {
                assert(!readable[i as int]);
                return Err(ArchiveError::Unreadable(e));
            },
        }
        i = i + 1;
    }
    assert(readable_through(*old(z), entry_name@));
    Err(ArchiveError::EntryNotFound { entry_name: String::from_str(entry_name) })
}

} // verus!
