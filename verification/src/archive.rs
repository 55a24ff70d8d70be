//! Unpacking the archive of updates sent by the server.
use vstd::prelude::*;
use std::io::Cursor;
use zip::ZipArchive;
use zip::result::ZipError;

verus! {

broadcast use vstd::string::group_string_axioms;

#[verifier::external_type_specification]
#[verifier::external_body]
#[verifier::reject_recursive_types(T)]
pub struct ExCursor<T>(std::io::Cursor<T>);

#[verifier::external_type_specification]
#[verifier::external_body]
#[verifier::reject_recursive_types(R)]
pub struct ExZipArchive<R>(zip::ZipArchive<R>);

#[verifier::external_type_specification]
#[verifier::external_body]
pub struct ExZipError(zip::result::ZipError);

#[verifier::external_type_specification]
#[verifier::external_body]
pub struct ExIoError(std::io::Error);

/// One entry of an archive as it is taken out: its name, the decompressed
/// bytes copied out of it, and whether the copy reached the end of the entry.
pub type EntryOutcome = (Seq<char>, Seq<u8>, bool);

/// What the ZIP archive in `bytes` holds, if `ZipArchive::new` reads it: for
/// each entry, in the order of its index, what copying it out gives, or
/// nothing where the entry cannot be opened.
pub uninterp spec fn zip_listing(bytes: Seq<u8>) -> Option<Seq<Option<EntryOutcome>>>;

/// The entries of an opened archive, in the form of `zip_listing`.
pub uninterp spec fn archive_entries(a: ZipArchive<Cursor<Vec<u8>>>) -> Seq<Option<EntryOutcome>>;

/// `ZipArchive::new` on the bytes in memory: it succeeds exactly when the
/// bytes read as an archive, and the archive then holds the listing.
#[verifier::external_body]
fn zip_open(bytes: Vec<u8>) -> (r: Result<ZipArchive<Cursor<Vec<u8>>>, ZipError>)
    ensures
        r is Ok <==> zip_listing(bytes@) is Some,
        r matches Ok(a) ==> archive_entries(a) == zip_listing(bytes@)->0,
{
    ZipArchive::new(Cursor::new(bytes))
}

/// `ZipArchive::len`: the number of entries.
#[verifier::external_body]
fn zip_len(a: &ZipArchive<Cursor<Vec<u8>>>) -> (n: usize)
    ensures
        n == archive_entries(*a).len(),
{
    a.len()
}

/// `ZipArchive::by_index`, with the entry it hands out turned into its name
/// (`ZipFile::name`) and the bytes that `std::io::copy` takes out of it, with
/// the copy's error if it stopped early. It succeeds exactly when the listing
/// can open the entry, and leaves the entries as they were.
#[verifier::external_body]
fn zip_entry(a: &mut ZipArchive<Cursor<Vec<u8>>>, i: usize) -> (r: Result<
    (String, Vec<u8>, Option<std::io::Error>),
    ZipError,
>)
    requires
        i < archive_entries(*old(a)).len(),
    ensures
        archive_entries(*final(a)) == archive_entries(*old(a)),
        r is Ok <==> archive_entries(*old(a))[i as int] is Some,
        r matches Ok((name, data, stopped)) ==> archive_entries(*old(a))[i as int] == Some(
            (name@, data@, stopped is None),
        ),
{
    let mut file = a.by_index(i)?;
    let name = file.name().to_string();
    let mut data: Vec<u8> = Vec::new();
    let stopped = std::io::copy(&mut file, &mut data).err();
    Ok((name, data, stopped))
}

/// Where an archive entry named `name` is written.
pub open spec fn extraction_path(name: Seq<char>) -> Seq<char> {
    "./watched/"@ + name
}

/// The file to write for the archive entry named `name`.
pub fn extraction_path_of(name: &str) -> (r: String)
    ensures
        r@ == extraction_path(name@),
{
    let mut r = String::from_str("./watched/");
    r.append(name);
    r
}

/// A file taken out of the archive: where it goes and what it holds.
pub struct ExtractedFile {
    pub path: String,
    pub contents: Vec<u8>,
}

/// Why unpacking stopped.
pub enum ArchiveError {
    /// The bytes are not a readable ZIP archive.
    Unreadable(ZipError),
    /// The entry at this index could not be opened.
    Entry(usize, ZipError),
    /// Copying the entry at this index out stopped early; its file holds what
    /// was copied before.
    Copy(usize, std::io::Error),
}

/// The outcome of unpacking: the files taken out, in the order of the
/// entries, up to and with the first entry that failed to copy, and the
/// failure if there was one.
pub struct Unpacked {
    pub files: Vec<ExtractedFile>,
    pub failure: Option<ArchiveError>,
}

/// The entry was opened and copied out to its end.
pub open spec fn entry_complete(e: Option<EntryOutcome>) -> bool {
    e matches Some(o) && o.2
}

/// The index of the first entry that cannot be taken out whole, or the number
/// of entries if there is none.
pub open spec fn first_failure(entries: Seq<Option<EntryOutcome>>) -> int
    decreases entries.len(),
{
    if entries.len() == 0 {
        0
    } else if !entry_complete(entries[0]) {
        0
    } else {
        1 + first_failure(entries.drop_first())
    }
}

proof fn lemma_first_failure(entries: Seq<Option<EntryOutcome>>)
    ensures
        0 <= first_failure(entries) <= entries.len(),
        forall|j: int| 0 <= j < first_failure(entries) ==> entry_complete(#[trigger] entries[j]),
        first_failure(entries) < entries.len() ==> !entry_complete(
            entries[first_failure(entries)],
        ),
    decreases entries.len(),
{
    if entries.len() > 0 && entry_complete(entries[0]) {
        let rest = entries.drop_first();
        lemma_first_failure(rest);
        assert forall|j: int| 0 <= j < first_failure(entries) implies entry_complete(
            #[trigger] entries[j],
        ) by {
            if j > 0 {
                assert(entries[j] == rest[j - 1]);
            }
        }
    }
}

/// The number of files written: the entries copied whole, and the entry
/// whose copy stopped early if it could be opened.
pub open spec fn files_written(entries: Seq<Option<EntryOutcome>>) -> int {
    let k = first_failure(entries);
    if k < entries.len() && entries[k] is Some {
        k + 1
    } else {
        k
    }
}

/// The file `f` is the entry `entry` taken out.
pub open spec fn extracted_as(f: ExtractedFile, entry: Option<EntryOutcome>) -> bool {
    &&& entry is Some
    &&& f.path@ == extraction_path((entry->0).0)
    &&& f.contents@ == (entry->0).1
}

/// A file taken out of an entry goes to `./watched/` followed by the entry's
/// name and holds every byte copied out of the entry, whatever their number.
pub proof fn lemma_extracted_file_is_whole_entry(
    f: ExtractedFile,
    name: Seq<char>,
    data: Seq<u8>,
    complete: bool,
)
    ensures
        extracted_as(f, Some((name, data, complete))) <==> (f.path@ == "./watched/"@ + name
            && f.contents@ == data),
{
}

/// Takes the files out of the ZIP archive in `bytes`, in the order of the
/// entries, each to `./watched/` followed by its name. It stops at the first
/// entry that cannot be opened, or after the first whose copy stops early,
/// whose file then holds what was copied.
pub fn unpack_archive(bytes: Vec<u8>) -> (u: Unpacked)
    ensures
        match zip_listing(bytes@) {
            None => u.files@.len() == 0 && u.failure matches Some(ArchiveError::Unreadable(_)),
            Some(entries) => {
                &&& u.files@.len() == files_written(entries)
                &&& forall|j: int|
                    0 <= j < u.files@.len() ==> extracted_as(#[trigger] u.files@[j], entries[j])
                &&& forall|j: int|
                    0 <= j < u.files@.len() ==> entries[j] is Some && (#[trigger] u.files@[j]).contents@
                        == (entries[j]->0).1 && u.files@[j].path@ == "./watched/"@ + (
                    entries[j]->0).0
                &&& (u.failure is None <==> first_failure(entries) == entries.len())
                &&& (u.failure matches Some(ArchiveError::Entry(k, _)) ==> k == first_failure(
                    entries,
                ) && entries[k as int] is None)
                &&& (u.failure matches Some(ArchiveError::Copy(k, _)) ==> k == first_failure(
                    entries,
                ) && entries[k as int] is Some)
                &&& !(u.failure matches Some(ArchiveError::Unreadable(_)))
            },
        },
{
    let ghost listing = zip_listing(bytes@);
    let mut archive = match zip_open(bytes) {
        Ok(a) => a,
        Err(e) => {
            return Unpacked { files: Vec::new(), failure: Some(ArchiveError::Unreadable(e)) };
        },
    };
    let ghost entries = listing->0;
    assert(listing == Some(entries));
    proof {
        lemma_first_failure(entries);
    }
    let n = zip_len(&archive);
    let mut files: Vec<ExtractedFile> = Vec::new();
    let mut i: usize = 0;
    while i < n
        invariant
            n == entries.len(),
            listing == Some(entries),
            listing == zip_listing(bytes@),
            archive_entries(archive) == entries,
            i <= n,
            files@.len() == i,
            forall|j: int| 0 <= j < i ==> entry_complete(#[trigger] entries[j]),
            forall|j: int| 0 <= j < i ==> extracted_as(#[trigger] files@[j], entries[j]),
            0 <= first_failure(entries) <= entries.len(),
            forall|j: int| 0 <= j < first_failure(entries) ==> entry_complete(#[trigger] entries[j]),
            first_failure(entries) < entries.len() ==> !entry_complete(
                entries[first_failure(entries)],
            ),
        decreases n - i,
    {
        match zip_entry(&mut archive, i) {
            Ok((name, contents, stopped)) => {
                let path = extraction_path_of(name.as_str());
                files.push(ExtractedFile { path, contents });
                match stopped {
                    Some(e) => {
                        proof {
                            assert(first_failure(entries) == i) by {
                                if first_failure(entries) < i {
                                    assert(entry_complete(entries[first_failure(entries)]));
                                }
                                if first_failure(entries) > i {
                                    assert(entry_complete(entries[i as int]));
                                }
                            }
                        }
                        return Unpacked { files, failure: Some(ArchiveError::Copy(i, e)) };
                    },
                    None => {},
                }
            },
            Err(e) => {
                proof {
                    assert(first_failure(entries) == i) by {
                        if first_failure(entries) < i {
                            assert(entry_complete(entries[first_failure(entries)]));
                        }
                        if first_failure(entries) > i {
                            assert(entry_complete(entries[i as int]));
                        }
                    }
                }
                return Unpacked { files, failure: Some(ArchiveError::Entry(i, e)) };
            },
        }
        i = i + 1;
    }
    proof {
        if first_failure(entries) < entries.len() {
            assert(entry_complete(entries[first_failure(entries)]));
        }
    }
    Unpacked { files, failure: None }
}

} // verus!
