use pkm_ai::synthesize::{parse_output_format, sanitize_filename, OutputFormat};

#[test]
fn test_sanitize_filename() {
    assert_eq!(sanitize_filename("My Document"), "My_Document");
    assert_eq!(sanitize_filename("Test/File"), "Test_File");
    assert_eq!(sanitize_filename("valid-name"), "valid-name");
}

#[test]
fn test_parse_output_format() {
    assert!(matches!(parse_output_format("pdf").unwrap(), OutputFormat::Pdf));
    assert!(matches!(parse_output_format("html").unwrap(), OutputFormat::Html));
    assert!(matches!(parse_output_format("markdown").unwrap(), OutputFormat::Markdown));
    assert!(matches!(parse_output_format("typst").unwrap(), OutputFormat::Typst));
}

#[test]
fn output_format_aliases_and_errors() {
    assert_eq!(parse_output_format("HTM").unwrap(), OutputFormat::Html);
    assert_eq!(parse_output_format("md").unwrap(), OutputFormat::Markdown);
    assert_eq!(parse_output_format("Typ").unwrap(), OutputFormat::Typst);
    assert_eq!(
        parse_output_format("docx").unwrap_err(),
        "Unknown format: docx. Use pdf, html, markdown, or typst"
    );
}

#[test]
fn sanitize_filename_keeps_unicode_letters() {
    assert_eq!(sanitize_filename("Café au lait!"), "Café_au_lait_");
    assert_eq!(sanitize_filename(""), "");
}
