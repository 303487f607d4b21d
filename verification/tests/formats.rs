use pixaki_converter::formats::{
    detect_input_format, detect_output_format, detect_pixaki_format, status_message, ConvertError, InputFormat,
    OutputFormat, PixakiFormat,
};
use pixaki_converter::text::{decimal_string, eq_ignore_ascii_case, str_equal};

#[test]
fn input_psp_file_any_case() {
    assert_eq!(detect_input_format(true, Some("psp"), false, false), Ok(InputFormat::PixelStudioPro));
    assert_eq!(detect_input_format(true, Some("PsP"), false, false), Ok(InputFormat::PixelStudioPro));
}

#[test]
fn input_psd_and_aseprite_files() {
    assert_eq!(detect_input_format(true, Some("PSD"), false, false), Ok(InputFormat::Photoshop));
    assert_eq!(detect_input_format(true, Some("ase"), false, false), Ok(InputFormat::Aseprite));
    assert_eq!(detect_input_format(true, Some("AsePrite"), false, false), Ok(InputFormat::Aseprite));
}

#[test]
fn input_file_extension_wins_over_package_contents() {
    assert_eq!(detect_input_format(true, Some("psp"), true, true), Ok(InputFormat::PixelStudioPro));
}

#[test]
fn input_extension_ignored_for_directories() {
    assert_eq!(
        detect_input_format(false, Some("psp"), true, false),
        Ok(InputFormat::Pixaki(PixakiFormat::Modern))
    );
    assert_eq!(detect_input_format(false, Some("psp"), false, false), Err(ConvertError::NoValidInput));
}

#[test]
fn input_pixaki_layouts() {
    assert_eq!(detect_input_format(false, None, true, true), Ok(InputFormat::Pixaki(PixakiFormat::Modern)));
    assert_eq!(detect_input_format(false, None, false, true), Ok(InputFormat::Pixaki(PixakiFormat::Legacy)));
    assert_eq!(detect_input_format(true, Some("png"), false, false), Err(ConvertError::NoValidInput));
}

#[test]
fn input_non_ascii_extension_is_not_folded() {
    assert_eq!(detect_input_format(true, Some("pśp"), false, false), Err(ConvertError::NoValidInput));
}

#[test]
fn pixaki_layout_detection() {
    assert_eq!(detect_pixaki_format(true, false), Some(PixakiFormat::Modern));
    assert_eq!(detect_pixaki_format(true, true), Some(PixakiFormat::Modern));
    assert_eq!(detect_pixaki_format(false, true), Some(PixakiFormat::Legacy));
    assert_eq!(detect_pixaki_format(false, false), None);
}

#[test]
fn output_formats() {
    assert_eq!(detect_output_format(Some("ase")), Ok(OutputFormat::Aseprite));
    assert_eq!(detect_output_format(Some("ASEPRITE")), Ok(OutputFormat::Aseprite));
    assert_eq!(detect_output_format(Some("Png")), Ok(OutputFormat::Png));
}

#[test]
fn output_unsupported_keeps_extension() {
    assert_eq!(
        detect_output_format(Some("GIF")),
        Err(ConvertError::UnsupportedOutputFormat(String::from("GIF")))
    );
    assert_eq!(detect_output_format(None), Err(ConvertError::UnsupportedOutputFormat(String::new())));
}

#[test]
fn status_messages() {
    assert_eq!(status_message(None), "Success");
    assert_eq!(status_message(Some("disk full")), "Error: disk full");
}

#[test]
fn text_helpers() {
    assert!(eq_ignore_ascii_case("Aseprite", "aSEPRITE"));
    assert!(!eq_ignore_ascii_case("ase", "aseprite"));
    assert!(!eq_ignore_ascii_case("a", "b"));
    assert!(str_equal("normal", "normal"));
    assert!(!str_equal("normal", "Normal"));
    assert_eq!(decimal_string(0), "0");
    assert_eq!(decimal_string(7), "7");
    assert_eq!(decimal_string(10), "10");
    assert_eq!(decimal_string(1234567), "1234567");
}
