//! ZIP archives: their entries, and reading them.

use crate::fault::{BundleError, Fault};
use crate::text::texts;
use std::io::Read;
use vstd::prelude::*;
use vstd::string::*;
use vstd::utf8::{decode_utf8, valid_utf8};

verus! {

/// An archive of `zip`.
#[verifier::external_type_specification]
#[verifier::external_body]
#[verifier::reject_recursive_types(R)]
pub struct ExZipArchive<R>(zip::ZipArchive<R>);

/// Bytes in memory that are read like a file.
#[verifier::external_type_specification]
#[verifier::external_body]
#[verifier::reject_recursive_types(T)]
pub struct ExCursor<T>(std::io::Cursor<T>);

/// An archive in memory.
pub type Archive = zip::ZipArchive<std::io::Cursor<Vec<u8>>>;

/// What is read from an entry once it is opened, or the text of the error that reading it
/// reports.
pub struct ContentView {
    /// Read as bytes
    pub bytes: Result<Seq<u8>, Seq<char>>,
    /// Read as a text
    pub text: Result<Seq<char>, Seq<char>>,
}

/// An entry of an archive: its name and what is read from it, or the text of the error
/// that opening it reports.
pub struct EntryView {
    pub name: Seq<char>,
    pub opened: Result<ContentView, Seq<char>>,
}

/// The entries that `ZipArchive::new` finds in an archive with this content, or the text
/// of the error that it reports.
pub uninterp spec fn archive_entries(content: Seq<u8>) -> Result<Seq<EntryView>, Seq<char>>;

/// The entries of an archive.
pub uninterp spec fn entries(archive: zip::ZipArchive<std::io::Cursor<Vec<u8>>>) -> Seq<EntryView>;

/// Where the first entry named `name` stands.
pub open spec fn entry_index(entries: Seq<EntryView>, name: Seq<char>) -> Option<
    int,
>
    decreases entries.len(),
{
    if entries.len() == 0 {
        None
    } else {
        match entry_index(entries.drop_last(), name) {
            Some(i) => Some(i),
            None => if entries.last().name == name {
                Some(entries.len() - 1)
            } else {
                None
            },
        }
    }
}

/// The names of entries.
pub open spec fn entry_names(entries: Seq<EntryView>) -> Seq<Seq<char>> {
    entries.map_values(|entry: EntryView| entry.name)
}

/// `zip::ZipArchive::new` on bytes in memory: finds the entries of the archive, or
/// reports an error, of which the text is kept. Both are a function of the bytes alone;
/// which one is left to the name.
#[verifier::external_body]
fn open(content: Vec<u8>) -> (archive: Result<Archive, String>)
    ensures
        archive is Ok <==> archive_entries(content@) is Ok,
        archive matches Ok(a) ==> entries(a) == archive_entries(content@)->Ok_0,
        archive matches Err(reason) ==> reason@ == archive_entries(content@)->Err_0,
{
    zip::ZipArchive::new(std::io::Cursor::new(content)).map_err(|e| e.to_string())
}

/// `zip::ZipArchive::file_names`: the names of the entries, in the order in which
/// `by_index` counts them.
#[verifier::external_body]
pub(crate) fn file_names(archive: &Archive) -> (names: Vec<String>)
    ensures
        texts(names@) == entry_names(entries(*archive)),
{
    archive.file_names().map(String::from).collect()
}

/// `zip::ZipArchive::index_for_name`: where the entry with this name stands, of which
/// an archive has one at most.
#[verifier::external_body]
fn index_for_name(archive: &Archive, name: &str) -> (index: Option<usize>)
    ensures
        index is Some <==> entry_index(entries(*archive), name@) is Some,
        index matches Some(i) ==> i == entry_index(entries(*archive), name@)->0,
{
    archive.index_for_name(name)
}

/// `zip::ZipArchive::by_index`, and reading the entry that it finds to its end with
/// `read_to_end`: the bytes of the entry, or the text of the error that reading reports,
/// or that of the error that opening reports. The archive has the same entries
/// afterwards. Errors below the one that is reported are not kept.
#[verifier::external_body]
fn read_to_end(archive: &mut Archive, index: usize) -> (data: Result<
    Result<Vec<u8>, String>,
    String,
>)
    requires
        index < entries(*old(archive)).len(),
    ensures
        opened_bytes(data) == bytes_in(entries(*old(archive))[index as int]),
        entries(*final(archive)) == entries(*old(archive)),
{
    let mut file = archive.by_index(index).map_err(|e| e.to_string())?;
    let mut data = Vec::new();
    let result = file.read_to_end(&mut data);
    Ok(result.map(|_| data).map_err(|e| e.to_string()))
}

/// `zip::ZipArchive::by_index`, and reading the entry that it finds to its end with
/// `read_to_string`: the text in the entry, or the text of the error that reading
/// reports, or that of the error that opening reports. There is a text if and only if
/// there are bytes and they are the UTF-8 form of it. The archive has the same entries
/// afterwards. Errors below the one that is reported are not kept.
#[verifier::external_body]
fn read_to_string(archive: &mut Archive, index: usize) -> (text: Result<
    Result<String, String>,
    String,
>)
    requires
        index < entries(*old(archive)).len(),
    ensures
        opened_text(text) == text_in(entries(*old(archive))[index as int]),
        text matches Ok(read) ==> ({
            let bytes = entries(*old(archive))[index as int].opened->Ok_0.bytes;
            &&& read is Ok <==> bytes is Ok && valid_utf8(bytes->Ok_0)
            &&& read matches Ok(t) ==> t@ == decode_utf8(bytes->Ok_0)
        }),
        entries(*final(archive)) == entries(*old(archive)),
{
    let mut file = archive.by_index(index).map_err(|e| e.to_string())?;
    let mut text = String::new();
    let result = file.read_to_string(&mut text);
    Ok(result.map(|_| text).map_err(|e| e.to_string()))
}

/// The bytes in an entry.
pub open spec fn bytes_in(entry: EntryView) -> Result<Result<Seq<u8>, Seq<char>>, Seq<char>> {
    match entry.opened {
        Ok(content) => Ok(content.bytes),
        Err(reason) => Err(reason),
    }
}

/// The text in an entry.
pub open spec fn text_in(entry: EntryView) -> Result<Result<Seq<char>, Seq<char>>, Seq<char>> {
    match entry.opened {
        Ok(content) => Ok(content.text),
        Err(reason) => Err(reason),
    }
}

/// Bytes that were read, as contracts speak of them.
pub open spec fn opened_bytes(data: Result<Result<Vec<u8>, String>, String>) -> Result<
    Result<Seq<u8>, Seq<char>>,
    Seq<char>,
> {
    match data {
        Ok(Ok(bytes)) => Ok(Ok(bytes@)),
        Ok(Err(reason)) => Ok(Err(reason@)),
        Err(reason) => Err(reason@),
    }
}

/// A text that was read, as contracts speak of it.
pub open spec fn opened_text(text: Result<Result<String, String>, String>) -> Result<
    Result<Seq<char>, Seq<char>>,
    Seq<char>,
> {
    match text {
        Ok(Ok(read)) => Ok(Ok(read@)),
        Ok(Err(reason)) => Ok(Err(reason@)),
        Err(reason) => Err(reason@),
    }
}

/// The entry with this name, if there is one.
pub open spec fn find_entry(entries: Seq<EntryView>, name: Seq<char>) -> Option<EntryView> {
    match entry_index(entries, name) {
        Some(i) => Some(entries[i]),
        None => None,
    }
}

/// What loading the bytes of a file comes to: nothing, where there is none of that name.
pub open spec fn file_bytes(entries: Seq<EntryView>, name: Seq<char>) -> Result<
    Option<Seq<u8>>,
    Fault<Seq<char>>,
> {
    match find_entry(entries, name) {
        None => Ok(None),
        Some(entry) => match bytes_in(entry) {
            Ok(Ok(bytes)) => Ok(Some(bytes)),
            Ok(Err(reason)) => Err(Fault::Load { file: name, reason }),
            Err(reason) => Err(Fault::Load { file: name, reason }),
        },
    }
}

/// The text of a file, where there is one of that name.
pub open spec fn file_text(entries: Seq<EntryView>, name: Seq<char>) -> Option<
    Result<Result<Seq<char>, Seq<char>>, Seq<char>>,
> {
    match find_entry(entries, name) {
        None => None,
        Some(entry) => Some(text_in(entry)),
    }
}

/// What came of loading bytes, as contracts speak of it.
pub open spec fn file_bytes_outcome(result: Result<Option<Vec<u8>>, BundleError>) -> Result<
    Option<Seq<u8>>,
    Fault<Seq<char>>,
> {
    match result {
        Ok(Some(bytes)) => Ok(Some(bytes@)),
        Ok(None) => Ok(None),
        Err(e) => Err(e@),
    }
}

/// An entry that is found is one of the entries, and has the name.
pub proof fn lemma_entry_index(entries: Seq<EntryView>, name: Seq<char>)
    ensures
        entry_index(entries, name) matches Some(i) ==> 0 <= i < entries.len() && entries[i].name
            == name,
    decreases entries.len(),
{
    if entries.len() > 0 {
        lemma_entry_index(entries.drop_last(), name);
    }
}

/// Open the archive with this content.
pub fn open_archive(content: Vec<u8>) -> (archive: Result<Archive, BundleError>)
    ensures
        match archive {
            Ok(a) => archive_entries(content@) is Ok && archive_entries(content@)->Ok_0 == entries(
                a,
            ),
            Err(e) => archive_entries(content@) is Err && e@ == (Fault::Archive {
                reason: archive_entries(content@)->Err_0,
            }),
        },
{
    match open(content) {
        Ok(archive) => Ok(archive),
        Err(reason) => Err(Fault::Archive { reason }),
    }
}

/// Load the bytes of the file with this name, where there is one.
pub fn load_bytes(archive: &mut Archive, name: &str) -> (data: Result<Option<Vec<u8>>, BundleError>)
    ensures
        file_bytes_outcome(data) == file_bytes(entries(*old(archive)), name@),
        entries(*final(archive)) == entries(*old(archive)),
{
    proof {
        lemma_entry_index(entries(*archive), name@);
    }
    match index_for_name(archive, name) {
        None => Ok(None),
        Some(index) => match read_to_end(archive, index) {
            Ok(Ok(bytes)) => Ok(Some(bytes)),
            Ok(Err(reason)) => Err(Fault::Load { file: name.to_string(), reason }),
            Err(reason) => Err(Fault::Load { file: name.to_string(), reason }),
        },
    }
}

/// Load the text of the file with this name, where there is one: what its bytes are the
/// UTF-8 form of.
pub fn load_text(archive: &mut Archive, name: &str) -> (text: Option<
    Result<Result<String, String>, String>,
>)
    ensures
        match text {
            Some(read) => file_text(entries(*old(archive)), name@) == Some(opened_text(read)),
            None => file_text(entries(*old(archive)), name@) is None,
        },
        text matches Some(Ok(read)) ==> ({
            let bytes = find_entry(entries(*old(archive)), name@)->0.opened->Ok_0.bytes;
            &&& read is Ok <==> bytes is Ok && valid_utf8(bytes->Ok_0)
            &&& read matches Ok(t) ==> t@ == decode_utf8(bytes->Ok_0)
        }),
        entries(*final(archive)) == entries(*old(archive)),
{
    proof {
        lemma_entry_index(entries(*archive), name@);
    }
    match index_for_name(archive, name) {
        None => None,
        Some(index) => Some(read_to_string(archive, index)),
    }
}

} // verus!
