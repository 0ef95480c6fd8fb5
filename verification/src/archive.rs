use vstd::prelude::*;
use crate::cli::{CliError, CliErrorView};
use crate::text::{ascii_lowercase, ends_with, has_xml_extension};
use std::io::Read;

verus! {

#[verifier::external_type_specification]
#[verifier::external_body]
#[verifier::reject_recursive_types(T)]
pub struct ExCursor<T>(std::io::Cursor<T>);

#[verifier::external_type_specification]
#[verifier::external_body]
#[verifier::reject_recursive_types(R)]
pub struct ExZipArchive<R>(zip::ZipArchive<R>);

/// A ZIP archive read from bytes in memory.
pub type Archive = zip::ZipArchive<std::io::Cursor<Vec<u8>>>;

/// The bytes that an archive reads.
pub uninterp spec fn zip_source(archive: zip::ZipArchive<std::io::Cursor<Vec<u8>>>) -> Seq<u8>;

/// The message of the error that `ZipArchive::new` reports for `bytes`, if
/// it reports one.
pub uninterp spec fn zip_open_error(bytes: Seq<u8>) -> Option<Seq<char>>;

/// The number of entries that `ZipArchive::len` reports for the archive
/// `bytes`.
pub uninterp spec fn zip_entry_count(bytes: Seq<u8>) -> nat;

/// The name of entry `index` of the archive `bytes`, as `ZipFile::name`
/// gives it, or the message of the error `ZipArchive::by_index` reports.
pub uninterp spec fn zip_entry_name(bytes: Seq<u8>, index: int) -> Result<Seq<char>, Seq<char>>;

/// The contents of entry `index` of the archive `bytes`, as `read_to_end`
/// on the entry gives them, or the message of the error reported on the way.
pub uninterp spec fn zip_entry_contents(bytes: Seq<u8>, index: int) -> Result<Seq<u8>, Seq<char>>;

/// Reads the central directory of the archive `bytes` with
/// `zip::ZipArchive::new` over a `Cursor`. Trusted: an archive comes back
/// exactly when `zip_open_error` names no error, it reads `bytes`, and an
/// error comes back as its message.
#[verifier::external_body]
fn open_archive(bytes: &[u8]) -> (r: Result<Archive, String>)
    ensures
        match r {
            Ok(a) => zip_open_error(bytes@) is None && zip_source(a) == bytes@,
            Err(m) => zip_open_error(bytes@) == Some(m@),
        },
{
    zip::ZipArchive::new(std::io::Cursor::new(bytes.to_vec())).map_err(|e| e.to_string())
}

/// `ZipArchive::len`. Trusted: the count that `zip_entry_count` names for
/// the archive's bytes.
#[verifier::external_body]
fn entry_count(archive: &Archive) -> (r: usize)
    ensures
        r == zip_entry_count(zip_source(*archive)),
{
    archive.len()
}

/// `ZipArchive::by_index` and `ZipFile::name`. Trusted: the result that
/// `zip_entry_name` names; the archive still reads the same bytes.
#[verifier::external_body]
fn entry_name(archive: &mut Archive, index: usize) -> (r: Result<String, String>)
    ensures
        zip_source(*final(archive)) == zip_source(*old(archive)),
        match r {
            Ok(name) => zip_entry_name(zip_source(*old(archive)), index as int) == Ok::<
                Seq<char>,
                Seq<char>,
            >(name@),
            Err(m) => zip_entry_name(zip_source(*old(archive)), index as int) == Err::<
                Seq<char>,
                Seq<char>,
            >(m@),
        },
{
    archive.by_index(index).map(|entry| entry.name().to_string()).map_err(|e| e.to_string())
}

/// `ZipArchive::by_index` and `Read::read_to_end` on the entry. Trusted: the
/// result that `zip_entry_contents` names; the archive still reads the same
/// bytes.
#[verifier::external_body]
fn entry_contents(archive: &mut Archive, index: usize) -> (r: Result<Vec<u8>, String>)
    ensures
        zip_source(*final(archive)) == zip_source(*old(archive)),
        match r {
            Ok(data) => zip_entry_contents(zip_source(*old(archive)), index as int) == Ok::<
                Seq<u8>,
                Seq<char>,
            >(data@),
            Err(m) => zip_entry_contents(zip_source(*old(archive)), index as int) == Err::<
                Seq<u8>,
                Seq<char>,
            >(m@),
        },
{
    let mut entry = archive.by_index(index).map_err(|e| e.to_string())?;
    let mut data = Vec::new();
    entry.read_to_end(&mut data).map_err(|e| e.to_string())?;
    Ok(data)
}

/// The contents of the first entry, from `index` on, whose name ends in
/// `.xml` in any case, or the error met on the way.
pub open spec fn first_xml_entry(bytes: Seq<u8>, index: int) -> Result<Seq<u8>, CliErrorView>
    decreases zip_entry_count(bytes) - index,
{
    if index < 0 || index >= zip_entry_count(bytes) {
        Err(CliErrorView::NoXmlInArchive)
    } else {
        match zip_entry_name(bytes, index) {
            Err(m) => Err(CliErrorView::Zip(m)),
            Ok(name) => if ends_with(ascii_lowercase(name), ".xml"@) {
                match zip_entry_contents(bytes, index) {
                    Ok(data) => Ok(data),
                    Err(m) => Err(CliErrorView::Zip(m)),
                }
            } else {
                first_xml_entry(bytes, index + 1)
            },
        }
    }
}

/// What extracting the XML file from the archive `bytes` gives.
pub open spec fn extracted_xml(bytes: Seq<u8>) -> Result<Seq<u8>, CliErrorView> {
    match zip_open_error(bytes) {
        Some(m) => Err(CliErrorView::Zip(m)),
        None => first_xml_entry(bytes, 0),
    }
}

/// The contents of the first file of the archive whose name ends in `.xml`
/// in any case.
pub fn extract_first_xml(archive_bytes: &[u8]) -> (r: Result<Vec<u8>, CliError>)
    ensures
        match r {
            Ok(data) => extracted_xml(archive_bytes@) == Ok::<Seq<u8>, CliErrorView>(data@),
            Err(e) => extracted_xml(archive_bytes@) == Err::<Seq<u8>, CliErrorView>(e@),
        },
{
    let mut archive = match open_archive(archive_bytes) {
        Ok(a) => a,
        Err(m) => {
            return Err(CliError::Zip(m));
        },
    };
    let ghost bytes = archive_bytes@;
    let n = entry_count(&archive);
    let mut index: usize = 0;
    while index < n
        invariant
            index <= n,
            n == zip_entry_count(bytes),
            zip_source(archive) == bytes,
            bytes == archive_bytes@,
            zip_open_error(bytes) is None,
            extracted_xml(bytes) == first_xml_entry(bytes, index as int),
        decreases n - index,
    {
        let name = match entry_name(&mut archive, index) {
            Ok(name) => name,
            Err(m) => {
                let e = CliError::Zip(m);
                assert(e@ == CliErrorView::Zip(m@));
                assert(first_xml_entry(bytes, index as int) == Err::<Seq<u8>, CliErrorView>(e@));
                return Err(e);
            },
        };
        if has_xml_extension(name.as_str()) {
            return match entry_contents(&mut archive, index) {
                Ok(data) => {
                    assert(first_xml_entry(bytes, index as int) == Ok::<Seq<u8>, CliErrorView>(data@));
                    Ok(data)
                },
                Err(m) => {
                    let e = CliError::Zip(m);
                    assert(e@ == CliErrorView::Zip(m@));
                    assert(first_xml_entry(bytes, index as int) == Err::<Seq<u8>, CliErrorView>(e@));
                    Err(e)
                },
            };
        }
        index = index + 1;
    }
    Err(CliError::NoXmlInArchive)
}

} // verus!

verus! {

proof fn lemma_scan_passes_other_entries(bytes: Seq<u8>, from: int, k: int)
    requires
        0 <= from <= k <= zip_entry_count(bytes),
        forall|j: int|
            0 <= j < k ==> (#[trigger] zip_entry_name(bytes, j) matches Ok(name) && !ends_with(
                ascii_lowercase(name),
                ".xml"@,
            )),
    ensures
        first_xml_entry(bytes, from) == first_xml_entry(bytes, k),
    decreases k - from,
{
    if from < k {
        assert(zip_entry_name(bytes, from) matches Ok(name) && !ends_with(ascii_lowercase(name), ".xml"@));
        lemma_scan_passes_other_entries(bytes, from + 1, k);
    }
}

/// Extraction scans the entries in order from the first one. When the
/// archive opens and every entry before entry `k` has a name that does not
/// end in `.xml` in any case, extraction gives what entry `k` decides: its
/// contents when its name ends in `.xml` (or the error met reading them),
/// the error met reading its name, or, when there is no entry `k` because
/// all entries were passed, that the archive holds no XML file. An archive
/// that does not open gives the error met opening it.
pub proof fn extraction_takes_first_xml_entry(bytes: Seq<u8>, k: int)
    ensures
        zip_open_error(bytes) matches Some(m) ==> extracted_xml(bytes) == Err::<Seq<u8>, CliErrorView>(
            CliErrorView::Zip(m),
        ),
        ({
            &&& zip_open_error(bytes) is None
            &&& 0 <= k <= zip_entry_count(bytes)
            &&& forall|j: int|
                0 <= j < k ==> (#[trigger] zip_entry_name(bytes, j) matches Ok(name) && !ends_with(
                    ascii_lowercase(name),
                    ".xml"@,
                ))
        }) ==> {
            &&& k == zip_entry_count(bytes) ==> extracted_xml(bytes) == Err::<Seq<u8>, CliErrorView>(
                CliErrorView::NoXmlInArchive,
            )
            &&& k < zip_entry_count(bytes) ==> match zip_entry_name(bytes, k) {
                Err(m) => extracted_xml(bytes) == Err::<Seq<u8>, CliErrorView>(CliErrorView::Zip(m)),
                Ok(name) => ends_with(ascii_lowercase(name), ".xml"@) ==> extracted_xml(bytes) == match zip_entry_contents(bytes, k) {
                    Ok(data) => Ok::<Seq<u8>, CliErrorView>(data),
                    Err(m) => Err::<Seq<u8>, CliErrorView>(CliErrorView::Zip(m)),
                },
            }
        },
{
    if zip_open_error(bytes) is None && 0 <= k <= zip_entry_count(bytes) && forall|j: int|
        0 <= j < k ==> (#[trigger] zip_entry_name(bytes, j) matches Ok(name) && !ends_with(
            ascii_lowercase(name),
            ".xml"@,
        )) {
        lemma_scan_passes_other_entries(bytes, 0, k);
    }
}

} // verus!
