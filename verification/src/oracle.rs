//! The cipher oracle: one password-protected entry of a ZIP archive, and
//! what comes of trying a candidate password on it.
//!
//! The archive is read and the legacy stream cipher is run by the `zip`
//! crate. Its cheap check of a password looks at a single byte, so about one
//! wrong password in 256 passes it. That weakness is kept as it is: a
//! password that passes is tentatively accepted, and whatever comes out of
//! the entry under it is handed on, garbage included. Telling garbage from
//! a secret is left to the validator.
//!
//! Reading an entry to its end also checks the entry's checksum. An entry
//! can be told to count a read that fails as a rejection, which leaves far
//! less garbage for the validator. Unless it is told so, the checksum
//! decides nothing.

use std::io::Cursor;
use std::io::Read;
use vstd::prelude::*;
use zip::result::ZipError;
use zip::ZipArchive;

verus! {

/// `std::io::Cursor`, of which nothing is looked into.
#[verifier::external_type_specification]
#[verifier::external_body]
#[verifier::reject_recursive_types(T)]
pub struct ExCursor<T>(Cursor<T>);

/// `zip::ZipArchive`, of which nothing is looked into.
#[verifier::external_type_specification]
#[verifier::external_body]
#[verifier::reject_recursive_types(R)]
pub struct ExZipArchive<R>(ZipArchive<R>);

/// `zip::result::ZipError`, of which nothing is looked into.
#[verifier::external_type_specification]
#[verifier::external_body]
pub struct ExZipError(ZipError);

/// The bytes that an archive reader was opened on.
pub uninterp spec fn source_of(reader: ZipArchive<Cursor<Vec<u8>>>) -> Seq<u8>;

/// Whether `zip` finds a well-formed central directory in `bytes`.
pub uninterp spec fn readable(bytes: Seq<u8>) -> bool;

/// The place in the central directory of `bytes` of the entry called
/// `name`, as `zip` finds it.
pub uninterp spec fn entry_index(bytes: Seq<u8>, name: Seq<char>) -> Option<usize>;

/// Whether `zip` reaches the content of the entry at place `index` of the
/// archive `bytes`: the entry's local header is where the directory says,
/// and is well-formed.
pub uninterp spec fn entry_reachable(bytes: Seq<u8>, index: usize) -> bool;

/// What `zip` reads from the entry called `name` of the archive `bytes`
/// under `password`: nothing where the entry does not open, because it is
/// missing or the check byte turns the password down; else the bytes that
/// come out of it, decrypted and inflated, up to its end or to where reading
/// fails.
pub uninterp spec fn entry_body(bytes: Seq<u8>, name: Seq<char>, password: Seq<u8>) -> Option<
    Seq<u8>,
>;

/// Whether `zip` reads the entry called `name` of the archive `bytes` to
/// its end under `password` without an error: it inflates, has the length
/// that the directory gives, and matches its checksum.
pub uninterp spec fn entry_whole(bytes: Seq<u8>, name: Seq<char>, password: Seq<u8>) -> bool;

/// `zip::ZipArchive::new` on a cursor over `bytes`. It succeeds exactly on
/// the byte strings that `readable` names, and the reader it makes reads
/// from `bytes`.
#[verifier::external_body]
fn open_reader(bytes: Vec<u8>) -> (r: Result<ZipArchive<Cursor<Vec<u8>>>, ZipError>)
    ensures
        r is Ok <==> readable(bytes@),
        r matches Ok(reader) ==> source_of(reader) == bytes@,
{
    ZipArchive::new(Cursor::new(bytes))
}

/// `zip::ZipArchive::index_for_name`: a lookup in the directory that was
/// read when the archive was opened, so a function of the archive's bytes
/// and the name. This holds of readers that `open_reader` made, and no
/// other reader is made here.
#[verifier::external_body]
fn index_for_name(reader: &ZipArchive<Cursor<Vec<u8>>>, name: &str) -> (r: Option<usize>)
    ensures
        r == entry_index(source_of(*reader), name@),
{
    reader.index_for_name(name)
}

/// `zip::ZipArchive::by_index_raw`, which looks for the content of the
/// entry at `index` and so reads its local header. The reader still reads
/// from the same bytes afterwards.
#[verifier::external_body]
fn reaches_entry(reader: &mut ZipArchive<Cursor<Vec<u8>>>, index: usize) -> (r: bool)
    ensures
        source_of(*final(reader)) == source_of(*old(reader)),
        r == entry_reachable(source_of(*old(reader)), index),
{
    reader.by_index_raw(index).is_ok()
}

/// `zip::ZipArchive::by_name_decrypt`, and `std::io::Read::read_to_end` on
/// the entry that it opens. Where the entry does not open, nothing is handed
/// back. Where it opens, the bytes read are handed back, together with
/// whether reading came to the end without an error, such as a checksum that
/// does not match. The reader still reads from the same bytes afterwards.
#[verifier::external_body]
fn read_with_password(
    reader: &mut ZipArchive<Cursor<Vec<u8>>>,
    name: &str,
    password: &[u8],
) -> (r: Option<(Vec<u8>, bool)>)
    ensures
        source_of(*final(reader)) == source_of(*old(reader)),
        r is Some <==> entry_body(source_of(*old(reader)), name@, password@) is Some,
        r matches Some(read) ==> entry_body(source_of(*old(reader)), name@, password@) == Some(
            read.0@,
        ),
        r matches Some(read) ==> read.1 == entry_whole(source_of(*old(reader)), name@, password@),
{
    let mut file = reader.by_name_decrypt(name, password).ok()?;
    let mut body = Vec::new();
    let whole = file.read_to_end(&mut body).is_ok();
    Some((body, whole))
}

/// What trying `candidate` on the entry `name` of `archive` gives: nothing
/// where the entry does not open under it, and nothing either where only
/// whole reads count and the read fails; else the bytes that come out.
pub open spec fn outcome(
    archive: Seq<u8>,
    name: Seq<char>,
    whole_only: bool,
    candidate: Seq<u8>,
) -> Option<Seq<u8>> {
    if whole_only && !entry_whole(archive, name, candidate) {
        None
    } else {
        entry_body(archive, name, candidate)
    }
}

/// Why an archive cannot be searched.
#[derive(Debug, Clone, Copy, PartialEq, Eq, Structural)]
pub enum ArchiveError {
    /// The bytes are not a readable archive.
    Unreadable,
    /// The archive has no entry of the wanted name.
    EntryMissing,
    /// The entry's own header is not where the archive's directory says, or
    /// is malformed.
    EntryCorrupt,
}

/// What trying one candidate on the entry gave.
#[derive(Debug, PartialEq, Eq)]
pub enum DecryptionOutcome {
    /// The candidate was turned down: by the cheap check, or by a read
    /// that failed where only whole reads count.
    Rejected,
    /// The candidate passed the cheap check and these bytes came out.
    /// Whether they are the entry's true content is not yet known.
    Tentative(Vec<u8>),
}

impl View for DecryptionOutcome {
    type V = Option<Seq<u8>>;

    /// `None` for a rejection, the bytes for a tentative acceptance.
    open spec fn view(&self) -> Option<Seq<u8>> {
        match self {
            DecryptionOutcome::Rejected => None,
            DecryptionOutcome::Tentative(bytes) => Some(bytes@),
        }
    }
}

impl Clone for DecryptionOutcome {
    fn clone(&self) -> (r: Self)
        ensures
            r@ == self@,
    {
        match self {
            DecryptionOutcome::Rejected => DecryptionOutcome::Rejected,
            DecryptionOutcome::Tentative(bytes) => {
                let copy = bytes.clone();
                assert(copy@ =~= bytes@);
                DecryptionOutcome::Tentative(copy)
            },
        }
    }
}

/// One named entry of an opened archive.
pub struct Entry {
    reader: ZipArchive<Cursor<Vec<u8>>>,
    name: String,
    whole_only: bool,
}

impl Entry {
    /// The archive's bytes.
    pub closed spec fn archive(&self) -> Seq<u8> {
        source_of(self.reader)
    }

    /// The entry's name.
    pub closed spec fn name(&self) -> Seq<char> {
        self.name@
    }

    /// Whether a read that fails counts as a rejection.
    pub closed spec fn whole_only(&self) -> bool {
        self.whole_only
    }

    /// What `open` answers for an archive and a name.
    pub open spec fn found(archive: Seq<u8>, name: Seq<char>) -> Result<(), ArchiveError> {
        if !readable(archive) {
            Err(ArchiveError::Unreadable)
        } else {
            match entry_index(archive, name) {
                None => Err(ArchiveError::EntryMissing),
                Some(index) => if entry_reachable(archive, index) {
                    Ok(())
                } else {
                    Err(ArchiveError::EntryCorrupt)
                },
            }
        }
    }

    /// Opens `archive`, looks up the entry called `name` and reads its
    /// header. Every read of the entry counts, whole or not.
    pub fn open(archive: Vec<u8>, name: &str) -> (r: Result<Entry, ArchiveError>)
        ensures
            match r {
                Ok(entry) => {
                    &&& Entry::found(archive@, name@) is Ok
                    &&& entry.archive() == archive@
                    &&& entry.name() == name@
                    &&& !entry.whole_only()
                },
                Err(e) => Entry::found(archive@, name@) == Err::<(), ArchiveError>(e),
            },
    {
        let mut reader = match open_reader(archive) {
            Ok(reader) => reader,
            Err(_) => {
                return Err(ArchiveError::Unreadable);
            },
        };
        let index = match index_for_name(&reader, name) {
            None => {
                return Err(ArchiveError::EntryMissing);
            },
            Some(index) => index,
        };
        if !reaches_entry(&mut reader, index) {
            return Err(ArchiveError::EntryCorrupt);
        }
        Ok(Entry { reader, name: name.to_owned(), whole_only: false })
    }

    /// Tells the entry whether a read that fails counts as a rejection.
    pub fn counting_whole_reads_only(self, whole_only: bool) -> (r: Entry)
        ensures
            r.archive() == self.archive(),
            r.name() == self.name(),
            r.whole_only() == whole_only,
    {
        Entry { reader: self.reader, name: self.name, whole_only }
    }

    /// Tries `candidate` as the entry's password.
    ///
    /// The candidate is `Rejected` when the cheap check turns it down.
    /// Otherwise it is tentatively accepted, and the bytes that come out of
    /// the entry under it are handed back, be they the content or garbage.
    /// Where only whole reads count, a candidate under which the read fails
    /// is `Rejected` too.
    pub fn attempt(&mut self, candidate: &[u8]) -> (r: DecryptionOutcome)
        ensures
            final(self).archive() == old(self).archive(),
            final(self).name() == old(self).name(),
            final(self).whole_only() == old(self).whole_only(),
            r@ == outcome(old(self).archive(), old(self).name(), old(self).whole_only(), candidate@),
    {
        match read_with_password(&mut self.reader, self.name.as_str(), candidate) {
            None => DecryptionOutcome::Rejected,
            Some((body, whole)) => {
                if self.whole_only && !whole {
                    DecryptionOutcome::Rejected
                } else {
                    DecryptionOutcome::Tentative(body)
                }
            },
        }
    }
}

} // verus!
