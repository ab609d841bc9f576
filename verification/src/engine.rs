use vstd::prelude::*;
use crate::text::{chars_of, extend_chars, str_eq, string_of, to_lower, unicode_lower};

verus! {

/// The engine a document is opened with.
#[derive(Clone, Copy, PartialEq, Eq, Structural, Debug)]
pub enum BackendKind {
    /// The native DjVu decoder.
    DjVu,
    /// The Word converter, which renders its HTML through MuPDF.
    Docx,
    /// MuPDF, for every other format.
    MuPdf,
}

/// The engine for a lower-cased file extension.
pub open spec fn backend_kind_spec(ext: Seq<char>) -> BackendKind {
    if ext == "djvu"@ {
        BackendKind::DjVu
    } else if ext == "docx"@ {
        BackendKind::Docx
    } else {
        BackendKind::MuPdf
    }
}

/// Lower-cased extensions of formats made of page images (comic archives
/// and pictures), which the night filter leaves alone.
pub open spec fn image_extension_spec(ext: Seq<char>) -> bool {
    ||| ext == "cbz"@
    ||| ext == "cbr"@
    ||| ext == "cb7"@
    ||| ext == "cbt"@
    ||| ext == "png"@
    ||| ext == "jpg"@
    ||| ext == "jpeg"@
    ||| ext == "webp"@
}

/// The engine for an already lower-cased extension.
pub fn backend_kind_of_lower(ext: &str) -> (r: BackendKind)
    ensures
        r == backend_kind_spec(ext@),
{
    if str_eq(ext, "djvu") {
        BackendKind::DjVu
    } else if str_eq(ext, "docx") {
        BackendKind::Docx
    } else {
        BackendKind::MuPdf
    }
}

/// The engine for a file extension, compared without regard to case.
pub fn backend_kind(ext: &str) -> (r: BackendKind)
    ensures
        r == backend_kind_spec(unicode_lower(ext@)),
{
    let lower = to_lower(ext);
    backend_kind_of_lower(lower.as_str())
}

/// Whether an already lower-cased extension names a format of page images.
pub fn is_image_extension_of_lower(ext: &str) -> (r: bool)
    ensures
        r == image_extension_spec(ext@),
{
    str_eq(ext, "cbz") || str_eq(ext, "cbr") || str_eq(ext, "cb7") || str_eq(ext, "cbt") || str_eq(ext, "png")
        || str_eq(ext, "jpg") || str_eq(ext, "jpeg") || str_eq(ext, "webp")
}

/// Whether a file extension, in any case, names a format of page images.
pub fn is_image_extension(ext: &str) -> (r: bool)
    ensures
        r == image_extension_spec(unicode_lower(ext@)),
{
    let lower = to_lower(ext);
    is_image_extension_of_lower(lower.as_str())
}


/// The error an open attempt reports when the user closed the file dialog
/// without choosing a file.
pub const FILE_SELECTION_CANCELED: &'static str = "File selection canceled";

/// The banner a failed open attempt shows: none when the dialog was
/// cancelled, else the error after `Failed to open document: `.
pub open spec fn open_failure_banner_spec(err: Seq<char>) -> Option<Seq<char>> {
    if err == FILE_SELECTION_CANCELED@ {
        None
    } else {
        Some("Failed to open document: "@ + err)
    }
}

/// The banner to show after an open attempt failed with `err`.
pub fn open_failure_banner(err: &str) -> (r: Option<String>)
    ensures
        match r {
            Some(m) => open_failure_banner_spec(err@) == Some(m@),
            None => open_failure_banner_spec(err@) is None,
        },
{
    if str_eq(err, FILE_SELECTION_CANCELED) {
        None
    } else {
        let mut v = chars_of("Failed to open document: ");
        extend_chars(&mut v, &chars_of(err));
        Some(string_of(&v))
    }
}

} // verus!
