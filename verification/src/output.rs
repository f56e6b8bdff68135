//! Which encoding a file gets, decided by the extension of its name.

use vstd::prelude::*;

verus! {

/// An encoding of a finished image.
#[derive(Clone, Copy, Debug, PartialEq, Eq, Structural)]
pub enum OutputFormat {
    /// The compressed raster format.
    Png,
    /// The plain-text pixel format.
    Ppm,
}

/// The encoding chosen for a file, and whether its extension named one.
#[derive(Clone, Copy, Debug, PartialEq, Eq, Structural)]
pub struct FormatChoice {
    /// The encoding to write.
    pub format: OutputFormat,
    /// `false` where the extension was not known and the default stands in;
    /// the caller then owes the user a warning.
    pub recognized: bool,
}

/// What `str::to_lowercase` returns for a text.
pub uninterp spec fn lowercase(text: Seq<char>) -> Seq<char>;

/// `str::to_lowercase`: the lowercase equivalent of `text`, in a new string.
#[verifier::external_body]
fn to_lowercase(text: &str) -> (lower: String)
    ensures
        lower@ == lowercase(text@),
{
    text.to_lowercase()
}

/// The extension of the compressed raster format.
pub open spec fn png_extension() -> Seq<char> {
    seq!['p', 'n', 'g']
}

/// The extension of the plain-text pixel format.
pub open spec fn ppm_extension() -> Seq<char> {
    seq!['p', 'p', 'm']
}

/// The choice for an extension that is already in lower case: its own format
/// where it names one, and otherwise the compressed raster format, marked as
/// not recognized.
pub open spec fn choice_of(lower: Seq<char>) -> FormatChoice {
    if lower == png_extension() {
        FormatChoice { format: OutputFormat::Png, recognized: true }
    } else if lower == ppm_extension() {
        FormatChoice { format: OutputFormat::Ppm, recognized: true }
    } else {
        FormatChoice { format: OutputFormat::Png, recognized: false }
    }
}

/// The choice for a file name's extension, if it has one: a name without an
/// extension gets the plain-text format, and letter case does not matter.
pub open spec fn choice_for(extension: Option<Seq<char>>) -> FormatChoice {
    match extension {
        None => FormatChoice { format: OutputFormat::Ppm, recognized: true },
        Some(text) => choice_of(lowercase(text)),
    }
}

/// Whether `text` is exactly the three characters given.
fn is_three(text: &str, first: char, second: char, third: char) -> (same: bool)
    ensures
        same == (text@ == seq![first, second, third]),
{
    if text.unicode_len() != 3 {
        return false;
    }
    let same = text.get_char(0) == first && text.get_char(1) == second && text.get_char(2)
        == third;
    assert(same ==> text@ =~= seq![first, second, third]);
    same
}

/// Chooses the encoding for an extension that is already in lower case.
pub fn select_lowercase(lower: &str) -> (choice: FormatChoice)
    ensures
        choice == choice_of(lower@),
{
    if is_three(lower, 'p', 'n', 'g') {
        FormatChoice { format: OutputFormat::Png, recognized: true }
    } else if is_three(lower, 'p', 'p', 'm') {
        FormatChoice { format: OutputFormat::Ppm, recognized: true }
    } else {
        FormatChoice { format: OutputFormat::Png, recognized: false }
    }
}

/// Chooses the encoding for the extension of a file name, if it has one.
pub fn select_format(extension: Option<&str>) -> (choice: FormatChoice)
    ensures
        choice == choice_for(
            match extension {
                Some(text) => Some(text@),
                None => None,
            },
        ),
{
    match extension {
        None => FormatChoice { format: OutputFormat::Ppm, recognized: true },
        Some(text) => {
            let lower = to_lowercase(text);
            select_lowercase(lower.as_str())
        },
    }
}

} // verus!
