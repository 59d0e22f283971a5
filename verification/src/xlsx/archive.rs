//! The three texts of a spreadsheet export that the reader needs, taken from
//! the zip archive that the export is.
use vstd::prelude::*;

verus! {

/// Why an entry of an archive could not be had.
#[derive(Clone, Copy, Debug, PartialEq, Eq, Structural)]
pub enum ArchiveError {
    /// The bytes are not a zip archive that can be read.
    NotAnArchive,
    /// The archive has no entry of that name.
    MissingEntry,
    /// The entry cannot be read out, or is not UTF-8 text.
    UnreadableEntry,
}

/// What the zip crate gives for the entry `name` of the archive `archive`:
/// its text, or why it cannot be had.
pub uninterp spec fn archive_entry(archive: Seq<u8>, name: Seq<char>) -> Result<Seq<char>, ArchiveError>;

/// Calls `zip::ZipArchive::new` on the bytes, `by_name_decrypt` for the
/// entry and `read_to_string` on it.  Claimed: the result is
/// `archive_entry` of the bytes and the name; an archive that `new` refuses
/// is `NotAnArchive`, a `FileNotFound` is `MissingEntry`, any other failure
/// of finding or reading the entry is `UnreadableEntry`.  The entry is asked
/// for with an empty password: for an entry that is not encrypted the
/// password is dropped and the call is `by_name`'s, and a stray AES field is
/// an error here where `by_name` would unwrap it and panic; an encrypted
/// entry is tried with that password and fails unless it opens with it.
/// Which bytes make which archive is left to the name.
#[verifier::external_body]
fn read_archive_entry(archive: &Vec<u8>, name: &str) -> (r: Result<String, ArchiveError>)
    ensures
        match r {
            Ok(s) => archive_entry(archive@, name@) == Ok::<Seq<char>, ArchiveError>(s@),
            Err(e) => archive_entry(archive@, name@) == Err::<Seq<char>, ArchiveError>(e),
        },
{
    let mut zip = match zip::ZipArchive::new(std::io::Cursor::new(archive.as_slice())) {
        Ok(z) => z,
        Err(_) => return Err(ArchiveError::NotAnArchive),
    };
    let mut entry = match zip.by_name_decrypt(name, b"") {
        Ok(Ok(f)) => f,
        Err(zip::result::ZipError::FileNotFound) => return Err(ArchiveError::MissingEntry),
        _ => return Err(ArchiveError::UnreadableEntry),
    };
    let mut text = String::new();
    match std::io::Read::read_to_string(&mut entry, &mut text) {
        Ok(_) => Ok(text),
        Err(_) => Err(ArchiveError::UnreadableEntry),
    }
}

/// The texts of the table, the shared strings and the first sheet.
pub struct XlsxParts {
    pub table: String,
    pub shared: String,
    pub sheet: String,
}

pub open spec fn table_entry() -> Seq<char> {
    "xl/tables/table1.xml"@
}

pub open spec fn shared_entry() -> Seq<char> {
    "xl/sharedStrings.xml"@
}

pub open spec fn sheet_entry() -> Seq<char> {
    "xl/worksheets/sheet1.xml"@
}

/// Takes from the archive of a spreadsheet export the texts of
/// `xl/tables/table1.xml`, `xl/sharedStrings.xml` and
/// `xl/worksheets/sheet1.xml`, in that order; the first that cannot be had
/// gives the error.
pub fn xlsx_parts(archive: &Vec<u8>) -> (r: Result<XlsxParts, ArchiveError>)
    ensures
        match (archive_entry(archive@, table_entry()), archive_entry(archive@, shared_entry()), archive_entry(archive@, sheet_entry())) {
            (Ok(t), Ok(s), Ok(w)) => r matches Ok(p) && p.table@ == t && p.shared@ == s && p.sheet@ == w,
            (Err(e), _, _) => r == Err::<XlsxParts, ArchiveError>(e),
            (Ok(_), Err(e), _) => r == Err::<XlsxParts, ArchiveError>(e),
            (Ok(_), Ok(_), Err(e)) => r == Err::<XlsxParts, ArchiveError>(e),
        },
{
    let table = match read_archive_entry(archive, "xl/tables/table1.xml") {
        Ok(t) => t,
        Err(e) => return Err(e),
    };
    let shared = match read_archive_entry(archive, "xl/sharedStrings.xml") {
        Ok(s) => s,
        Err(e) => return Err(e),
    };
    let sheet = match read_archive_entry(archive, "xl/worksheets/sheet1.xml") {
        Ok(w) => w,
        Err(e) => return Err(e),
    };
    Ok(XlsxParts { table, shared, sheet })
}

} // verus!
