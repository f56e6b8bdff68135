use raytracer::output::{select_format, select_lowercase, FormatChoice, OutputFormat};

fn known(format: OutputFormat) -> FormatChoice {
    FormatChoice { format, recognized: true }
}

fn fallback() -> FormatChoice {
    FormatChoice { format: OutputFormat::Png, recognized: false }
}

#[test]
fn png_and_ppm_are_recognized() {
    assert_eq!(select_format(Some("png")), known(OutputFormat::Png));
    assert_eq!(select_format(Some("ppm")), known(OutputFormat::Ppm));
}

#[test]
fn letter_case_does_not_matter() {
    assert_eq!(select_format(Some("PNG")), known(OutputFormat::Png));
    assert_eq!(select_format(Some("Png")), known(OutputFormat::Png));
    assert_eq!(select_format(Some("PPM")), known(OutputFormat::Ppm));
    assert_eq!(select_format(Some("pPm")), known(OutputFormat::Ppm));
}

#[test]
fn unknown_extension_falls_back_to_png() {
    assert_eq!(select_format(Some("jpg")), fallback());
    assert_eq!(select_format(Some("")), fallback());
    assert_eq!(select_format(Some("pn")), fallback());
    assert_eq!(select_format(Some("pngx")), fallback());
    assert_eq!(select_format(Some("p\u{f1}g")), fallback());
}

#[test]
fn missing_extension_is_plain_text() {
    assert_eq!(select_format(None), known(OutputFormat::Ppm));
}

#[test]
fn lowercase_selection_is_exact() {
    assert_eq!(select_lowercase("png"), known(OutputFormat::Png));
    assert_eq!(select_lowercase("ppm"), known(OutputFormat::Ppm));
    assert_eq!(select_lowercase("PNG"), fallback());
    assert_eq!(select_lowercase("Ppm"), fallback());
    assert_eq!(select_lowercase("gif"), fallback());
    assert_eq!(select_lowercase(""), fallback());
}
