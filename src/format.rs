use vstd::prelude::*;

verus! {

/// The file formats a document can be read from or written to.
#[derive(Clone, Copy, Debug, PartialEq, Eq, Structural)]
pub enum FileFormat {
    Png,
    Jpeg,
    Bmp,
    Tiff,
    Gif,
    WebP,
    Rustiq,
    Unknown,
}

/// What the lower-case form of a string is, as `str::to_lowercase` gives it.
pub uninterp spec fn lower_of(s: Seq<char>) -> Seq<char>;

/// Relies on `str::to_lowercase`: the result depends on the characters alone.
#[verifier::external_body]
fn lowercase(s: &str) -> (r: String)
    ensures
        r@ == lower_of(s@),
{
    s.to_lowercase()
}

/// The format that a lower-case file extension names.
pub open spec fn format_of(ext: Seq<char>) -> FileFormat {
    if ext == "png"@ {
        FileFormat::Png
    } else if ext == "jpg"@ || ext == "jpeg"@ {
        FileFormat::Jpeg
    } else if ext == "bmp"@ {
        FileFormat::Bmp
    } else if ext == "tiff"@ || ext == "tif"@ {
        FileFormat::Tiff
    } else if ext == "gif"@ {
        FileFormat::Gif
    } else if ext == "webp"@ {
        FileFormat::WebP
    } else if ext == "rustiq"@ {
        FileFormat::Rustiq
    } else {
        FileFormat::Unknown
    }
}

fn is(s: &String, lit: &str) -> (r: bool)
    ensures
        r == (s@ == lit@),
{
    *s == lit.to_owned()
}

impl FileFormat {
    /// The format that an already lower-cased file extension names.
    pub fn from_lowered(ext: &str) -> (f: FileFormat)
        ensures
            f == format_of(ext@),
    {
        let e = ext.to_owned();
        if is(&e, "png") {
            FileFormat::Png
        } else if is(&e, "jpg") || is(&e, "jpeg") {
            FileFormat::Jpeg
        } else if is(&e, "bmp") {
            FileFormat::Bmp
        } else if is(&e, "tiff") || is(&e, "tif") {
            FileFormat::Tiff
        } else if is(&e, "gif") {
            FileFormat::Gif
        } else if is(&e, "webp") {
            FileFormat::WebP
        } else if is(&e, "rustiq") {
            FileFormat::Rustiq
        } else {
            FileFormat::Unknown
        }
    }

    /// The format that a file extension names, in any letter case.
    pub fn from_extension(ext: &str) -> (f: FileFormat)
        ensures
            f == format_of(lower_of(ext@)),
    {
        let lowered = lowercase(ext);
        FileFormat::from_lowered(lowered.as_str())
    }

    /// Whether documents in this format go through the generic image codec.
    pub fn is_image(&self) -> (r: bool)
        ensures
            r == !(*self == FileFormat::Rustiq || *self == FileFormat::Unknown),
    {
        match self {
            FileFormat::Rustiq | FileFormat::Unknown => false,
            _ => true,
        }
    }
}

/// What the start screen asks for: a new canvas of a given size, or a file.
#[derive(Clone, Copy, Debug, PartialEq, Eq, Structural)]
pub enum MenuAction {
    NewCanvas(u32, u32),
    OpenFile,
}

} // verus!
