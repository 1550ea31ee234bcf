//! Entries of a zip archive held in memory: listing them and reading one, with or
//! without a password.
//!
//! The archive is read by the `zip` crate. What it finds in given bytes has names
//! here and no definition: [`zip_count`], [`zip_name`], [`zip_plain`] and
//! [`zip_unlocked`]. The functions of [`Archive`] say exactly what they make of it.
//!
//! The archive is kept as its bytes, and every question is put to `zip` on the bytes
//! anew. That keeps each answer a function of plain values, at the price of reading
//! the directory of the archive once for each question.
//!
//! `zip` is built here with the password scheme of the archive format and without
//! its AES ciphers: an entry encrypted with AES is one that `zip` does not support,
//! so it is left out of listings and reading it reports a corrupt container.

use crate::error::{Error, ErrorKind};
use crate::resolver::{LocationView, VaultLocation};
use crate::text::same_text;
use std::io::Cursor;
use std::io::Read;
use vstd::prelude::*;
use zip::result::ZipError;
use zip::ZipArchive;

verus! {

/// Why `zip` could not do what it was asked.
#[derive(Debug, Clone, Copy, PartialEq, Eq)]
pub enum ZipFailure {
    /// The archive has no entry there.
    Missing,
    /// The bytes are no well-formed archive.
    Invalid,
    /// The archive uses what `zip` does not support.
    Unsupported,
    /// The bytes end too early.
    Io,
    /// The entry is encrypted, and was asked for without a password.
    PasswordRequired,
}

/// What came of reading an entry with a password.
pub enum Extraction {
    /// The content of the entry.
    Data(Vec<u8>),
    /// The password was refused.
    WrongPassword,
    /// The entry was opened, but its content could not be read to the end or does
    /// not match its checksum.
    ReadFailed,
    /// The entry could not be opened.
    Failed(ZipFailure),
}

/// What an [`Extraction`] holds.
pub enum ExtractionView {
    Data(Seq<u8>),
    WrongPassword,
    ReadFailed,
    Failed(ZipFailure),
}

impl View for Extraction {
    type V = ExtractionView;

    open spec fn view(&self) -> ExtractionView {
        match self {
            Extraction::Data(data) => ExtractionView::Data(data@),
            Extraction::WrongPassword => ExtractionView::WrongPassword,
            Extraction::ReadFailed => ExtractionView::ReadFailed,
            Extraction::Failed(failure) => ExtractionView::Failed(*failure),
        }
    }
}

/// The number of entries that `zip` finds in the bytes, or why it cannot read them
/// as an archive.
pub uninterp spec fn zip_count(bytes: Seq<u8>) -> Result<usize, ZipFailure>;

/// The name of the entry at `index`, or why `zip` cannot get at the entry.
pub uninterp spec fn zip_name(bytes: Seq<u8>, index: nat) -> Result<Seq<char>, ZipFailure>;

/// Whether `zip` opens the entry at `index` without a password, or why not.
pub uninterp spec fn zip_plain(bytes: Seq<u8>, index: nat) -> Result<(), ZipFailure>;

/// What comes of reading the entry at `index` with `password`. On an entry that is
/// not encrypted the password plays no part.
pub uninterp spec fn zip_unlocked(bytes: Seq<u8>, index: nat, password: Seq<u8>) -> ExtractionView;

/// A name or a failure, the name taken by its view.
pub open spec fn name_view(name: Result<String, ZipFailure>) -> Result<Seq<char>, ZipFailure> {
    match name {
        Ok(text) => Ok(text@),
        Err(e) => Err(e),
    }
}

/// `zip` opened the entry with the password, whatever came of reading it.
pub open spec fn accepted(outcome: ExtractionView) -> bool {
    outcome is Data || outcome is ReadFailed
}

/// Trusted: `ZipArchive::new` on the bytes, then `len`: the number of entries in the
/// central directory, or the error of `new`, which is never the one for an entry
/// that is not there.
#[verifier::external_body]
fn entry_count(bytes: &[u8]) -> (count: Result<usize, ZipFailure>)
    ensures
        count == zip_count(bytes@),
        count matches Err(failure) ==> failure is Invalid || failure is Unsupported
            || failure is Io,
{
    match ZipArchive::new(Cursor::new(bytes)) {
        Ok(archive) => Ok(archive.len()),
        Err(ZipError::FileNotFound) => Err(ZipFailure::Missing),
        Err(ZipError::InvalidArchive(_)) => Err(ZipFailure::Invalid),
        Err(ZipError::UnsupportedArchive(_)) => Err(ZipFailure::Unsupported),
        Err(ZipError::Io(_)) => Err(ZipFailure::Io),
    }
}

/// Trusted: `ZipArchive::by_index_raw` and `ZipFile::name`: the name of the entry as
/// the central directory has it, or the error of opening the archive or the entry.
#[verifier::external_body]
fn entry_name(bytes: &[u8], index: usize) -> (name: Result<String, ZipFailure>)
    ensures
        name_view(name) == zip_name(bytes@, index as nat),
{
    let name = ZipArchive::new(Cursor::new(bytes)).and_then(
        |mut archive| archive.by_index_raw(index).map(|file| file.name().to_string()),
    );
    match name {
        Ok(name) => Ok(name),
        Err(ZipError::FileNotFound) => Err(ZipFailure::Missing),
        Err(ZipError::InvalidArchive(_)) => Err(ZipFailure::Invalid),
        Err(ZipError::UnsupportedArchive(_)) => Err(ZipFailure::Unsupported),
        Err(ZipError::Io(_)) => Err(ZipFailure::Io),
    }
}

/// Trusted: `ZipArchive::by_index_decrypt` without reading the entry: whether `zip`
/// opens it with the password. This is the first half of what [`extract`] does.
#[verifier::external_body]
fn entry_accepts(bytes: &[u8], index: usize, password: &[u8]) -> (opened: Result<
    bool,
    ZipFailure,
>)
    ensures
        opened matches Ok(yes) ==> yes == accepted(
            zip_unlocked(bytes@, index as nat, password@),
        ) && (!yes ==> zip_unlocked(bytes@, index as nat, password@) is WrongPassword),
        opened matches Err(e) ==> zip_unlocked(bytes@, index as nat, password@)
            == ExtractionView::Failed(e),
{
    let opened = ZipArchive::new(Cursor::new(bytes)).and_then(
        |mut archive| archive.by_index_decrypt(index, password).map(|file| file.is_ok()),
    );
    match opened {
        Ok(opened) => Ok(opened),
        Err(ZipError::FileNotFound) => Err(ZipFailure::Missing),
        Err(ZipError::InvalidArchive(_)) => Err(ZipFailure::Invalid),
        Err(ZipError::UnsupportedArchive(_)) => Err(ZipFailure::Unsupported),
        Err(ZipError::Io(_)) => Err(ZipFailure::Io),
    }
}

/// Trusted: `ZipArchive::by_index`: whether `zip` opens the entry without a password.
/// It asks for a password with the error text `ZipError::PASSWORD_REQUIRED` where the
/// entry is encrypted. `by_index` panics where `by_index_decrypt` would refuse the
/// password of an entry that is not marked as encrypted, so it is called only where
/// some password was not refused.
#[verifier::external_body]
fn entry_plain(bytes: &[u8], index: usize) -> (opened: Result<(), ZipFailure>)
    requires
        exists|password: Seq<u8>|
            !(#[trigger] zip_unlocked(bytes@, index as nat, password) is WrongPassword),
    ensures
        opened == zip_plain(bytes@, index as nat),
{
    let opened = ZipArchive::new(Cursor::new(bytes)).and_then(
        |mut archive| archive.by_index(index).map(|_| ()),
    );
    match opened {
        Ok(()) => Ok(()),
        Err(ZipError::FileNotFound) => Err(ZipFailure::Missing),
        Err(ZipError::InvalidArchive(_)) => Err(ZipFailure::Invalid),
        Err(ZipError::UnsupportedArchive(ZipError::PASSWORD_REQUIRED)) => Err(
            ZipFailure::PasswordRequired,
        ),
        Err(ZipError::UnsupportedArchive(_)) => Err(ZipFailure::Unsupported),
        Err(ZipError::Io(_)) => Err(ZipFailure::Io),
    }
}

/// Trusted: `ZipArchive::by_index_decrypt`, then `read_to_end` on the entry: its
/// content, decrypted and decompressed, where `zip` takes the password and the
/// content matches its checksum.
#[verifier::external_body]
fn extract(bytes: &[u8], index: usize, password: &[u8]) -> (outcome: Extraction)
    ensures
        outcome@ == zip_unlocked(bytes@, index as nat, password@),
{
    let mut data = Vec::new();
    let read = ZipArchive::new(Cursor::new(bytes)).and_then(|mut archive| {
        let file = archive.by_index_decrypt(index, password);
        file.map(|file| file.map(|mut file| file.read_to_end(&mut data)))
    });
    match read {
        Ok(Ok(Ok(_))) => Extraction::Data(data),
        Ok(Ok(Err(_))) => Extraction::ReadFailed,
        Ok(Err(_)) => Extraction::WrongPassword,
        Err(ZipError::FileNotFound) => Extraction::Failed(ZipFailure::Missing),
        Err(ZipError::InvalidArchive(_)) => Extraction::Failed(ZipFailure::Invalid),
        Err(ZipError::UnsupportedArchive(_)) => Extraction::Failed(ZipFailure::Unsupported),
        Err(ZipError::Io(_)) => Extraction::Failed(ZipFailure::Io),
    }
}

/// An entry of an archive. The index holds for the archive that listed it.
#[derive(Debug, Clone, PartialEq, Eq)]
pub struct ArchiveEntry {
    pub name: String,
    pub index: usize,
    pub is_encrypted: bool,
}

/// What an [`ArchiveEntry`] holds.
pub struct EntryView {
    pub name: Seq<char>,
    pub index: usize,
    pub is_encrypted: bool,
}

impl View for ArchiveEntry {
    type V = EntryView;

    open spec fn view(&self) -> EntryView {
        EntryView { name: self.name@, index: self.index, is_encrypted: self.is_encrypted }
    }
}

/// The kind of error that a failure of `zip` is reported as.
pub open spec fn failure_kind(failure: ZipFailure) -> ErrorKind {
    match failure {
        ZipFailure::Missing => ErrorKind::NotFound,
        ZipFailure::Invalid => ErrorKind::CorruptContainer,
        ZipFailure::Unsupported => ErrorKind::CorruptContainer,
        ZipFailure::Io => ErrorKind::CorruptContainer,
        ZipFailure::PasswordRequired => ErrorKind::PasswordRequired,
    }
}

/// Whether the entry at `index` is encrypted, or why that cannot be told. It is
/// where `zip` refuses the empty password, and where it takes the empty password but
/// asks for one when given none.
pub open spec fn lock_state(bytes: Seq<u8>, index: nat) -> Result<bool, ZipFailure> {
    match zip_unlocked(bytes, index, Seq::empty()) {
        ExtractionView::WrongPassword => Ok(true),
        ExtractionView::Failed(failure) => Err(failure),
        _ => match zip_plain(bytes, index) {
            Ok(_) => Ok(false),
            Err(ZipFailure::PasswordRequired) => Ok(true),
            Err(failure) => Err(failure),
        },
    }
}

/// The entry at `index` as a listing shows it, or why it cannot be shown: the
/// failure to read its name, else the failure to tell whether it is encrypted.
pub open spec fn listed_outcome(bytes: Seq<u8>, index: usize) -> Result<EntryView, ZipFailure> {
    match zip_name(bytes, index as nat) {
        Err(failure) => Err(failure),
        Ok(name) => match lock_state(bytes, index as nat) {
            Err(failure) => Err(failure),
            Ok(is_encrypted) => Ok(EntryView { name, index, is_encrypted }),
        },
    }
}

/// The entry at `index` as a listing shows it, or `None` where its name or its
/// encryption cannot be read.
pub open spec fn listed(bytes: Seq<u8>, index: usize) -> Option<EntryView> {
    match listed_outcome(bytes, index) {
        Ok(entry) => Some(entry),
        Err(_) => None,
    }
}

/// An entry or a failure, the entry taken by its view.
pub open spec fn outcome_view(outcome: Result<ArchiveEntry, ZipFailure>) -> Result<
    EntryView,
    ZipFailure,
> {
    match outcome {
        Ok(entry) => Ok(entry@),
        Err(failure) => Err(failure),
    }
}

/// The listing of the first `count` entries: those that can be read, in their order.
pub open spec fn listing(bytes: Seq<u8>, count: usize) -> Seq<EntryView>
    decreases count,
{
    if count == 0 {
        Seq::empty()
    } else {
        match listed(bytes, (count - 1) as usize) {
            Some(entry) => listing(bytes, (count - 1) as usize).push(entry),
            None => listing(bytes, (count - 1) as usize),
        }
    }
}

/// The content of the entry at `index`, read with `password` if one is given.
///
/// Without a password an encrypted entry asks for one. With a password, an entry
/// that refuses it reports an invalid password; so does an encrypted entry whose
/// content comes out damaged, since a wrong password can pass the check of the
/// archive format. A password for an entry that is not encrypted is ignored.
pub open spec fn entry_content(bytes: Seq<u8>, index: nat, password: Option<Seq<u8>>) -> Result<
    Seq<u8>,
    ErrorKind,
> {
    match password {
        None => match lock_state(bytes, index) {
            Err(failure) => Err(failure_kind(failure)),
            Ok(true) => Err(ErrorKind::PasswordRequired),
            Ok(false) => match zip_unlocked(bytes, index, Seq::empty()) {
                ExtractionView::Data(data) => Ok(data),
                _ => Err(ErrorKind::CorruptContainer),
            },
        },
        Some(password) => match zip_unlocked(bytes, index, password) {
            ExtractionView::Data(data) => Ok(data),
            ExtractionView::WrongPassword => Err(ErrorKind::InvalidPassword),
            ExtractionView::Failed(failure) => Err(failure_kind(failure)),
            ExtractionView::ReadFailed => match lock_state(bytes, index) {
                Ok(true) => Err(ErrorKind::InvalidPassword),
                _ => Err(ErrorKind::CorruptContainer),
            },
        },
    }
}

/// The index of the last of the first `count` entries that has the name `name`. An
/// entry whose name cannot be read has none.
pub open spec fn entry_named(bytes: Seq<u8>, count: usize, name: Seq<char>) -> Option<usize>
    decreases count,
{
    if count == 0 {
        None
    } else if zip_name(bytes, (count - 1) as nat) == Ok::<Seq<char>, ZipFailure>(name) {
        Some((count - 1) as usize)
    } else {
        entry_named(bytes, (count - 1) as usize, name)
    }
}

/// `result` is `expected`, the bytes taken by their view and the error by its kind.
pub open spec fn matches_content(
    result: Result<Vec<u8>, Error>,
    expected: Result<Seq<u8>, ErrorKind>,
) -> bool {
    match result {
        Ok(data) => expected == Ok::<Seq<u8>, ErrorKind>(data@),
        Err(e) => expected == Err::<Seq<u8>, ErrorKind>(e.kind),
    }
}

/// The views of a list of entries.
pub open spec fn entry_views(entries: Seq<ArchiveEntry>) -> Seq<EntryView> {
    Seq::new(entries.len(), |i: int| entries[i]@)
}

/// What is made of an opened entry's outcome, given whether the entry is encrypted
/// and whether a password was given.
pub open spec fn classified(outcome: ExtractionView, locked: bool, with_password: bool) -> Result<
    Seq<u8>,
    ErrorKind,
> {
    match outcome {
        ExtractionView::Data(data) => Ok(data),
        ExtractionView::WrongPassword => if with_password {
            Err(ErrorKind::InvalidPassword)
        } else {
            Err(ErrorKind::PasswordRequired)
        },
        ExtractionView::Failed(failure) => Err(failure_kind(failure)),
        ExtractionView::ReadFailed => if locked && with_password {
            Err(ErrorKind::InvalidPassword)
        } else {
            Err(ErrorKind::CorruptContainer)
        },
    }
}

/// The error that a failure of `zip` is reported as.
pub fn error_of(failure: ZipFailure) -> (error: Error)
    ensures
        error.kind == failure_kind(failure),
{
    match failure {
        ZipFailure::Missing => Error::new(ErrorKind::NotFound),
        ZipFailure::Invalid => Error::new(ErrorKind::CorruptContainer),
        ZipFailure::Unsupported => Error::new(ErrorKind::CorruptContainer),
        ZipFailure::Io => Error::new(ErrorKind::CorruptContainer),
        ZipFailure::PasswordRequired => Error::new(ErrorKind::PasswordRequired),
    }
}

/// Turns the outcome of reading an entry into its content or an error: a refused
/// password is invalid where one was given and required where none was; damaged
/// content of an encrypted entry read with a password counts as an invalid password,
/// any other damaged content as a corrupt container.
pub fn result_from_zip_file(outcome: Extraction, locked: bool, with_password: bool) -> (result:
    Result<Vec<u8>, Error>)
    ensures
        matches_content(result, classified(outcome@, locked, with_password)),
{
    match outcome {
        Extraction::Data(data) => Ok(data),
        Extraction::WrongPassword => if with_password {
            Err(Error::new(ErrorKind::InvalidPassword))
        } else {
            Err(Error::new(ErrorKind::PasswordRequired))
        },
        Extraction::Failed(failure) => Err(error_of(failure)),
        Extraction::ReadFailed => if locked && with_password {
            Err(Error::new(ErrorKind::InvalidPassword))
        } else {
            Err(Error::new(ErrorKind::CorruptContainer))
        },
    }
}

/// A zip archive in memory.
pub struct Archive {
    bytes: Vec<u8>,
    count: usize,
}

impl Archive {
    /// The bytes of the archive.
    pub closed spec fn bytes(&self) -> Seq<u8> {
        self.bytes@
    }

    /// The number of its entries.
    pub closed spec fn count(&self) -> usize {
        self.count
    }

    /// The count is the one that `zip` finds in the bytes.
    pub closed spec fn well_formed(&self) -> bool {
        zip_count(self.bytes@) == Ok::<usize, ZipFailure>(self.count)
    }

    /// Takes bytes as an archive, if `zip` can read their directory of entries.
    pub fn open(bytes: Vec<u8>) -> (result: Result<Archive, Error>)
        ensures
            match result {
                Ok(archive) => archive.well_formed() && archive.bytes() == bytes@
                    && zip_count(bytes@) == Ok::<usize, ZipFailure>(archive.count()),
                Err(e) => zip_count(bytes@) matches Err(failure) && e.kind == failure_kind(
                    failure,
                ) && e.kind == ErrorKind::CorruptContainer,
            },
    {
        match entry_count(bytes.as_slice()) {
            Ok(count) => Ok(Archive { bytes, count }),
            Err(failure) => Err(error_of(failure)),
        }
    }

    /// The number of entries in the archive.
    pub fn len(&self) -> (count: usize)
        ensures
            count == self.count(),
    {
        self.count
    }

    /// Whether the entry at `index` is encrypted.
    fn locked(&self, index: usize) -> (state: Result<bool, ZipFailure>)
        ensures
            state == lock_state(self.bytes@, index as nat),
    {
        let empty: [u8; 0] = [];
        assert(empty@ =~= Seq::<u8>::empty());
        match entry_accepts(self.bytes.as_slice(), index, empty.as_slice()) {
            Err(failure) => Err(failure),
            Ok(false) => Ok(true),
            Ok(true) => match entry_plain(self.bytes.as_slice(), index) {
                Ok(_) => Ok(false),
                Err(ZipFailure::PasswordRequired) => Ok(true),
                Err(failure) => Err(failure),
            },
        }
    }

    /// The entry at `index` with its name and whether it is encrypted, or why `zip`
    /// cannot give them.
    pub fn entry_at(&self, index: usize) -> (outcome: Result<ArchiveEntry, ZipFailure>)
        ensures
            outcome_view(outcome) == listed_outcome(self.bytes(), index),
    {
        match entry_name(self.bytes.as_slice(), index) {
            Err(failure) => Err(failure),
            Ok(name) => match self.locked(index) {
                Err(failure) => Err(failure),
                Ok(is_encrypted) => Ok(ArchiveEntry { name, index, is_encrypted }),
            },
        }
    }

    /// What there is to say of every entry, in their order: the entry, or why it
    /// cannot be listed.
    pub fn list_outcomes(&self) -> (outcomes: Vec<Result<ArchiveEntry, ZipFailure>>)
        ensures
            outcomes@.len() == self.count(),
            forall|i: int|
                0 <= i < outcomes@.len() ==> outcome_view(#[trigger] outcomes@[i])
                    == listed_outcome(self.bytes(), i as usize),
    {
        let mut outcomes: Vec<Result<ArchiveEntry, ZipFailure>> = Vec::new();
        let mut index: usize = 0;
        while index < self.count
            invariant
                index <= self.count,
                outcomes@.len() == index,
                forall|i: int|
                    0 <= i < outcomes@.len() ==> outcome_view(#[trigger] outcomes@[i])
                        == listed_outcome(self.bytes@, i as usize),
            decreases self.count - index,
        {
            outcomes.push(self.entry_at(index));
            index += 1;
        }
        outcomes
    }

    /// Lists the entries with their names and whether they are encrypted. An entry
    /// of which either cannot be read is left out; [`Archive::list_outcomes`] says
    /// which and why.
    pub fn list_entries(&self) -> (entries: Vec<ArchiveEntry>)
        requires
            self.well_formed(),
        ensures
            entry_views(entries@) == listing(self.bytes(), self.count()),
    {
        let mut entries: Vec<ArchiveEntry> = Vec::new();
        let mut index: usize = 0;
        assert(entry_views(entries@) =~= listing(self.bytes@, 0));
        while index < self.count
            invariant
                index <= self.count,
                entry_views(entries@) == listing(self.bytes@, index),
            decreases self.count - index,
        {
            let ghost before = entry_views(entries@);
            match self.entry_at(index) {
                Ok(entry) => {
                    entries.push(entry);
                    assert(entry_views(entries@) =~= before.push(
                        listed(self.bytes@, index).unwrap(),
                    ));
                },
                Err(_) => {},
            }
            index += 1;
        }
        entries
    }

    /// Reads the entry at `index`, with `password` if one is given.
    pub fn read_index(&self, index: usize, password: Option<&[u8]>) -> (result: Result<
        Vec<u8>,
        Error,
    >)
        ensures
            matches_content(
                result,
                entry_content(
                    self.bytes(),
                    index as nat,
                    match password {
                        Some(password) => Some(password@),
                        None => None,
                    },
                ),
            ),
    {
        match password {
            None => match self.locked(index) {
                Err(failure) => Err(error_of(failure)),
                Ok(true) => Err(Error::new(ErrorKind::PasswordRequired)),
                Ok(false) => {
                    let empty: [u8; 0] = [];
                    assert(empty@ =~= Seq::<u8>::empty());
                    let outcome = extract(self.bytes.as_slice(), index, empty.as_slice());
                    match outcome {
                        Extraction::Data(data) => Ok(data),
                        _ => Err(Error::new(ErrorKind::CorruptContainer)),
                    }
                },
            },
            Some(password) => {
                let outcome = extract(self.bytes.as_slice(), index, password);
                let locked = match outcome {
                    Extraction::ReadFailed => match self.locked(index) {
                        Ok(true) => true,
                        _ => false,
                    },
                    _ => false,
                };
                result_from_zip_file(outcome, locked, true)
            },
        }
    }

    /// Reads a listed entry, with `password` if one is given.
    pub fn read_entry(&self, entry: &ArchiveEntry, password: Option<&[u8]>) -> (result: Result<
        Vec<u8>,
        Error,
    >)
        ensures
            matches_content(
                result,
                entry_content(
                    self.bytes(),
                    entry.index as nat,
                    match password {
                        Some(password) => Some(password@),
                        None => None,
                    },
                ),
            ),
    {
        self.read_index(entry.index, password)
    }

    /// The index of the last entry named `name`, among the entries whose names `zip`
    /// gives by their index. This is not `by_name` of `zip`, which goes by the
    /// directory alone: an entry whose own header in the archive is damaged has no
    /// name here and is passed over, where `by_name` would find it and then fail on
    /// it.
    pub fn find(&self, name: &str) -> (found: Option<usize>)
        ensures
            found == entry_named(self.bytes(), self.count(), name@),
    {
        let mut count = self.count;
        while count > 0
            invariant
                count <= self.count,
                entry_named(self.bytes@, self.count, name@) == entry_named(
                    self.bytes@,
                    count,
                    name@,
                ),
            decreases count,
        {
            let index = count - 1;
            match entry_name(self.bytes.as_slice(), index) {
                Ok(text) => {
                    if same_text(text.as_str(), name) {
                        return Some(index);
                    }
                },
                Err(_) => {},
            }
            count = index;
        }
        None
    }

    /// Reads the entry that a path inside the archive names: the last entry whose
    /// name is `suffix`, found as [`Archive::find`] finds it.
    pub fn read_by_suffix(&self, suffix: &str, password: Option<&[u8]>) -> (result: Result<
        Vec<u8>,
        Error,
    >)
        ensures
            match entry_named(self.bytes(), self.count(), suffix@) {
                None => result matches Err(e) && e.kind == ErrorKind::NotFound,
                Some(index) => matches_content(
                    result,
                    entry_content(
                        self.bytes(),
                        index as nat,
                        match password {
                            Some(password) => Some(password@),
                            None => None,
                        },
                    ),
                ),
            },
    {
        match self.find(suffix) {
            None => Err(Error::new(ErrorKind::NotFound)),
            Some(index) => self.read_index(index, password),
        }
    }
}

/// What a location holds, given the content of its container: the content itself
/// where the location names the file as a whole, else the entry of the archive that
/// the path inside names.
pub open spec fn location_content(
    content: Seq<u8>,
    location: LocationView,
    password: Option<Seq<u8>>,
) -> Result<Seq<u8>, ErrorKind> {
    match location.inner_suffix {
        None => Ok(content),
        Some(suffix) => match zip_count(content) {
            Err(failure) => Err(failure_kind(failure)),
            Ok(count) => match entry_named(content, count, suffix) {
                None => Err(ErrorKind::NotFound),
                Some(index) => entry_content(content, index as nat, password),
            },
        },
    }
}

/// Reads what a location names out of the content of its container.
pub fn open_location(content: Vec<u8>, location: &VaultLocation, password: Option<&[u8]>) -> (result:
    Result<Vec<u8>, Error>)
    ensures
        matches_content(
            result,
            location_content(
                content@,
                location@,
                match password {
                    Some(password) => Some(password@),
                    None => None,
                },
            ),
        ),
{
    match &location.inner_suffix {
        None => Ok(content),
        Some(suffix) => match Archive::open(content) {
            Err(e) => Err(e),
            Ok(archive) => archive.read_by_suffix(suffix.as_str(), password),
        },
    }
}

/// Read with a password, an encrypted entry gives its content or reports an invalid
/// password, unless the entry cannot be got at in the first place: content that comes
/// out damaged counts as a wrong password, never as a damaged archive.
pub proof fn lemma_wrong_password_is_invalid(bytes: Seq<u8>, index: nat, password: Seq<u8>)
    requires
        lock_state(bytes, index) == Ok::<bool, ZipFailure>(true),
        !(zip_unlocked(bytes, index, password) is Failed),
    ensures
        entry_content(bytes, index, Some(password)) is Ok || entry_content(
            bytes,
            index,
            Some(password),
        ) == Err::<Seq<u8>, ErrorKind>(ErrorKind::InvalidPassword),
{
}

/// Without a password, an encrypted entry asks for one, and an entry that is not
/// encrypted is read as with any password.
pub proof fn lemma_password_only_where_locked(bytes: Seq<u8>, index: nat, password: Seq<u8>)
    ensures
        lock_state(bytes, index) == Ok::<bool, ZipFailure>(true) ==> entry_content(
            bytes,
            index,
            None,
        ) == Err::<Seq<u8>, ErrorKind>(ErrorKind::PasswordRequired),
        lock_state(bytes, index) == Ok::<bool, ZipFailure>(false) && zip_unlocked(
            bytes,
            index,
            Seq::empty(),
        ) is Data ==> entry_content(bytes, index, None) is Ok,
{
}

} // verus!
