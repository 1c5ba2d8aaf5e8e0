//! Trusted boundary to the `zip` crate: a ZIP archive is read only through
//! the functions here, whose contracts speak of `zip_model`, the archive's
//! contents as a function of its raw bytes.

use vstd::prelude::*;
use std::io::Cursor;
use std::io::Read;

verus! {

/// One archive entry as the model sees it: `None` when the entry cannot be
/// opened at all; otherwise its name, whether it is a directory marker, and
/// its decompressed content (`None` for directory markers and for entries
/// whose content cannot be read).
pub type ZipEntryModel = Option<(Seq<char>, bool, Option<Seq<u8>>)>;

/// What a ZIP archive holds, as a function of its raw bytes alone: `None`
/// where the bytes do not parse as an archive, otherwise one record per
/// entry in archive-index order.
pub uninterp spec fn zip_model(bytes: Seq<u8>) -> Option<Seq<Option<(Seq<char>, bool, Option<Seq<u8>>)>>>;

/// What a strict UTF-8 decoder returns for the given bytes: `None` exactly
/// when they are not valid UTF-8.
pub uninterp spec fn utf8_decode(bytes: Seq<u8>) -> Option<Seq<char>>;

/// Relies on `zip::ZipArchive::new` and `zip::ZipArchive::len`: how many
/// entries the archive read from `bytes` has, or `None` where the bytes do
/// not parse as a ZIP archive.
#[verifier::external_body]
pub(crate) fn zip_entry_count(bytes: &Vec<u8>) -> (r: Option<usize>)
    ensures
        match r {
            Some(n) => zip_model(bytes@) matches Some(es) && es.len() == n,
            None => zip_model(bytes@) is None,
        },
{
    match zip::ZipArchive::new(Cursor::new(bytes.as_slice())) {
        Ok(a) => Some(a.len()),
        Err(_) => None,
    }
}

/// Relies on `zip::ZipArchive::by_index`, converting the borrowed entry it
/// hands back into plain values with `ZipFile::name`, `ZipFile::is_dir` and
/// `Read::read_to_end`.
#[verifier::external_body]
pub(crate) fn zip_entry(bytes: &Vec<u8>, i: usize) -> (r: Option<(String, bool, Option<Vec<u8>>)>)
    requires
        zip_model(bytes@) matches Some(es) && i < es.len(),
    ensures
        match r {
            Some(t) => zip_model(bytes@) matches Some(es) && es[i as int] matches Some(e) && e.0
                == t.0@ && e.1 == t.1 && (match t.2 {
                Some(d) => e.2 == Some(d@),
                None => e.2 is None,
            }),
            None => zip_model(bytes@) matches Some(es) && es[i as int] is None,
        },
{
    let mut a = zip::ZipArchive::new(Cursor::new(bytes.as_slice())).ok()?;
    let mut f = a.by_index(i).ok()?;
    let name = f.name().to_string();
    if f.is_dir() {
        return Some((name, true, None));
    }
    let mut buf = Vec::new();
    let data = f.read_to_end(&mut buf).ok().map(|_| buf);
    Some((name, false, data))
}

/// Relies on `String::from_utf8`: decodes exactly the valid-UTF-8 byte
/// sequences and fails exactly on the rest.
#[verifier::external_body]
pub(crate) fn utf8_to_string(bytes: Vec<u8>) -> (r: Option<String>)
    ensures
        match r {
            Some(s) => utf8_decode(bytes@) == Some(s@),
            None => utf8_decode(bytes@) is None,
        },
{
    match String::from_utf8(bytes) {
        Ok(s) => Some(s),
        Err(_) => None,
    }
}

} // verus!
