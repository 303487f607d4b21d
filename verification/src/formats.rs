//! Choosing how to read an input and how to write an output, from what the
//! caller found on disk and from file-name extensions.

use vstd::prelude::*;
use crate::text::{ascii_ci_eq, eq_ignore_ascii_case};

verus! {

/// The two layouts of a `.pixaki` package.
#[derive(Debug, Clone, Copy, PartialEq, Eq, Structural)]
pub enum PixakiFormat {
    /// Version 3: `document.json`.
    Modern,
    /// Version 2: `DocumentInfo.plist`.
    Legacy,
}

/// The kinds of input document.
#[derive(Debug, Clone, Copy, PartialEq, Eq, Structural)]
pub enum InputFormat {
    /// A Pixel Studio Pro `.psp` file.
    PixelStudioPro,
    /// A Photoshop `.psd` file.
    Photoshop,
    /// An Aseprite `.ase` or `.aseprite` file.
    Aseprite,
    /// A Pixaki package directory.
    Pixaki(PixakiFormat),
}

/// The kinds of output file.
#[derive(Debug, Clone, Copy, PartialEq, Eq, Structural)]
pub enum OutputFormat {
    /// An Aseprite file.
    Aseprite,
    /// A PNG image of the rendered document.
    Png,
}

/// Why a conversion cannot start.
#[derive(Debug, PartialEq, Eq)]
pub enum ConvertError {
    /// The input is neither a recognised file nor a Pixaki package.
    NoValidInput,
    /// The output extension (as given; empty when there is none) names no
    /// supported format.
    UnsupportedOutputFormat(String),
}

/// Whether the extension `ext` equals `name` up to ASCII case.
pub open spec fn extension_is(ext: Option<&str>, name: Seq<char>) -> bool {
    match ext {
        Some(e) => ascii_ci_eq(e@, name),
        None => false,
    }
}

fn extension_matches(ext: Option<&str>, name: &str) -> (r: bool)
    ensures
        r == extension_is(ext, name@),
{
    match ext {
        Some(e) => eq_ignore_ascii_case(e, name),
        None => false,
    }
}

/// The layout of a Pixaki package: version 3 when it holds `document.json`,
/// else version 2 when it holds `DocumentInfo.plist`, else none.
pub fn detect_pixaki_format(has_document_json: bool, has_document_info_plist: bool) -> (r: Option<PixakiFormat>)
    ensures
        r == (if has_document_json {
            Some(PixakiFormat::Modern)
        } else if has_document_info_plist {
            Some(PixakiFormat::Legacy)
        } else {
            None::<PixakiFormat>
        }),
{
    if has_document_json {
        Some(PixakiFormat::Modern)
    } else if has_document_info_plist {
        Some(PixakiFormat::Legacy)
    } else {
        None
    }
}

/// The input format, tried in this order: a file with extension `psp`, then
/// `psd`, then `ase` or `aseprite` (extensions compared up to ASCII case);
/// else a Pixaki package as `detect_pixaki_format` decides; else an error.
pub fn detect_input_format(
    is_file: bool,
    extension: Option<&str>,
    has_document_json: bool,
    has_document_info_plist: bool,
) -> (r: Result<InputFormat, ConvertError>)
    ensures
        r == (if is_file && extension_is(extension, "psp"@) {
            Ok::<InputFormat, ConvertError>(InputFormat::PixelStudioPro)
        } else if is_file && extension_is(extension, "psd"@) {
            Ok(InputFormat::Photoshop)
        } else if is_file && (extension_is(extension, "ase"@) || extension_is(extension, "aseprite"@)) {
            Ok(InputFormat::Aseprite)
        } else if has_document_json {
            Ok(InputFormat::Pixaki(PixakiFormat::Modern))
        } else if has_document_info_plist {
            Ok(InputFormat::Pixaki(PixakiFormat::Legacy))
        } else {
            Err(ConvertError::NoValidInput)
        }),
{
    if is_file && extension_matches(extension, "psp") {
        Ok(InputFormat::PixelStudioPro)
    } else if is_file && extension_matches(extension, "psd") {
        Ok(InputFormat::Photoshop)
    } else if is_file && (extension_matches(extension, "ase") || extension_matches(extension, "aseprite")) {
        Ok(InputFormat::Aseprite)
    } else {
        match detect_pixaki_format(has_document_json, has_document_info_plist) {
            Some(f) => Ok(InputFormat::Pixaki(f)),
            None => Err(ConvertError::NoValidInput),
        }
    }
}

/// The output format named by the output file's extension, compared up to
/// ASCII case: `ase` or `aseprite`, or `png`. (Lower-casing an extension with
/// full Unicode rules gives one of these names exactly when the ASCII
/// comparison holds: no other character lower-cases to one of their letters.)
pub fn detect_output_format(extension: Option<&str>) -> (r: Result<OutputFormat, ConvertError>)
    ensures
        (extension_is(extension, "ase"@) || extension_is(extension, "aseprite"@)) ==> r == Ok::<
            OutputFormat,
            ConvertError,
        >(OutputFormat::Aseprite),
        !(extension_is(extension, "ase"@) || extension_is(extension, "aseprite"@)) && extension_is(
            extension,
            "png"@,
        ) ==> r == Ok::<OutputFormat, ConvertError>(OutputFormat::Png),
        !(extension_is(extension, "ase"@) || extension_is(extension, "aseprite"@) || extension_is(
            extension,
            "png"@,
        )) ==> (r matches Err(ConvertError::UnsupportedOutputFormat(e)) && e@ == (match extension {
            Some(x) => x@,
            None => Seq::<char>::empty(),
        })),
{
    if extension_matches(extension, "ase") || extension_matches(extension, "aseprite") {
        Ok(OutputFormat::Aseprite)
    } else if extension_matches(extension, "png") {
        Ok(OutputFormat::Png)
    } else {
        let given = match extension {
            Some(x) => String::from_str(x),
            None => String::new(),
        };
        Err(ConvertError::UnsupportedOutputFormat(given))
    }
}

/// The reply to a conversion request: `Success`, or `Error: ` followed by the
/// error's message.
pub fn status_message(error: Option<&str>) -> (s: String)
    ensures
        s@ == (match error {
            None => "Success"@,
            Some(e) => "Error: "@ + e@,
        }),
{
    match error {
        None => String::from_str("Success"),
        Some(e) => {
            let mut s = String::from_str("Error: ");
            s.append(e);
            s
        },
    }
}

} // verus!
