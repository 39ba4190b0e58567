use heelix::document::{
    docx_html, docx_text, document_format, extract_document_content, extract_document_text,
    extract_formatted_docx, extract_formatted_pdf, extract_formatted_rtf, extract_text_from_docx,
    format_of_lowercase, is_space, unsupported_format_message, DocumentFormat, ExtractedContent,
};
use heelix::text::{chars_of, same_text};

const DOCX_HTML_NOTICE: &str = "<div><p>This DOCX file could not be fully parsed with formatting. The content may be incomplete.</p></div>";
const DOCX_TEXT_NOTICE: &str =
    "This DOCX file could not be fully parsed. Please try converting it to a text format first.";

#[test]
fn rtf_is_wrapped_unchanged() {
    assert_eq!(extract_formatted_rtf("{\\rtf1 hi}"), "<div><pre>{\\rtf1 hi}</pre></div>");
    assert_eq!(extract_formatted_rtf(""), "<div><pre></pre></div>");
    assert_eq!(extract_formatted_rtf("a <b> & c\n"), "<div><pre>a <b> & c\n</pre></div>");
}

#[test]
fn pdf_lines_become_paragraphs_and_breaks() {
    assert_eq!(
        extract_formatted_pdf("Hello\nworld\n\nNext  \n"),
        "<div><p>Hello world </p><br/><p>Next </p></div>"
    );
    assert_eq!(extract_formatted_pdf("one line"), "<div><p>one line </p></div>");
    assert_eq!(extract_formatted_pdf("  padded\t\n"), "<div><p>padded </p></div>");
}

#[test]
fn pdf_without_text_is_an_empty_block() {
    assert_eq!(extract_formatted_pdf(""), "<div></div>");
    assert_eq!(extract_formatted_pdf("\n"), "<div><br/></div>");
    assert_eq!(extract_formatted_pdf("\n\n"), "<div><br/><br/></div>");
    assert_eq!(extract_formatted_pdf("   "), "<div><br/></div>");
    assert_eq!(extract_formatted_pdf(" \n \n"), "<div><br/><br/></div>");
}

#[test]
fn pdf_line_endings_with_carriage_return() {
    assert_eq!(extract_formatted_pdf("a\r\nb"), "<div><p>a b </p></div>");
    assert_eq!(extract_formatted_pdf("a\r\n\r\nb\r\n"), "<div><p>a </p><br/><p>b </p></div>");
    assert_eq!(extract_formatted_pdf("a\n\r"), "<div><p>a </p><br/></div>");
}

#[test]
fn pdf_blank_lines_between_paragraphs() {
    assert_eq!(
        extract_formatted_pdf("\n\nx\ny\n\n\nz"),
        "<div><br/><br/><p>x y </p><br/><br/><p>z </p></div>"
    );
}

#[test]
fn pdf_trims_unicode_white_space() {
    assert_eq!(extract_formatted_pdf("\u{a0}\u{2003}x y\u{3000}\n"), "<div><p>x y </p></div>");
    assert_eq!(extract_formatted_pdf("\u{2028}\n"), "<div><br/></div>");
    // A zero-width space is no white space.
    assert_eq!(extract_formatted_pdf("\u{200b}\n"), "<div><p>\u{200b} </p></div>");
}

#[test]
fn white_space_is_unicode_white_space() {
    for code in 0u32..0x3100 {
        if let Some(c) = char::from_u32(code) {
            assert_eq!(is_space(c), c.is_whitespace());
        }
    }
    assert!(!is_space('a'));
    assert!(!is_space('\u{feff}'));
}

#[test]
fn docx_text_runs_become_paragraphs() {
    assert_eq!(docx_html("<w:p><w:t>Hello</w:t></w:p>"), "<div><p>Hello</div>");
    assert_eq!(docx_html("<a>Hi</a><b>there</b>"), "<div><p>Hithere</div>");
    assert_eq!(docx_html(">line1\nline2<"), "<div><p>line1</p><p>line2</div>");
    assert_eq!(docx_html(">a<>b\rc<"), "<div><p>a</p><p>b</p><p>c</div>");
    assert_eq!(docx_html(">tail"), "<div><p>tail</p></div>");
    assert_eq!(docx_html(">a<b>tail"), "<div><p>atail</p></div>");
}

#[test]
fn docx_without_text_gives_the_notice() {
    assert_eq!(docx_html(""), DOCX_HTML_NOTICE);
    assert_eq!(docx_html("no markup at all"), DOCX_HTML_NOTICE);
    assert_eq!(docx_html("<a><b></b></a>"), DOCX_HTML_NOTICE);
    assert_eq!(docx_html(">\n\r\n<"), DOCX_HTML_NOTICE);
}

#[test]
fn docx_plain_text_is_one_run_per_line() {
    assert_eq!(docx_text("<a>Hi</a><b>there</b>"), "Hi\nthere\n");
    assert_eq!(docx_text(">two\nlines<"), "two\nlines\n");
    assert_eq!(docx_text(">a<skipped>b<"), "a\nb\n");
}

#[test]
fn docx_plain_text_without_closed_run_gives_the_notice() {
    assert_eq!(docx_text(""), DOCX_TEXT_NOTICE);
    assert_eq!(docx_text(">tail"), DOCX_TEXT_NOTICE);
    assert_eq!(docx_text("<a></a>"), DOCX_TEXT_NOTICE);
}

#[test]
fn docx_bytes_are_decoded_leniently() {
    assert_eq!(extract_formatted_docx(&b"<a>Hi</a>".to_vec()), "<div><p>Hi</div>");
    assert_eq!(extract_formatted_docx(&b">a\xffb<".to_vec()), "<div><p>a\u{fffd}b</div>");
    assert_eq!(extract_formatted_docx(&"<t>gr\u{fc}n</t>".as_bytes().to_vec()), "<div><p>gr\u{fc}n</div>");
    assert_eq!(extract_formatted_docx(&vec![0x50, 0x4b, 0x03, 0x04]), DOCX_HTML_NOTICE);
    assert_eq!(extract_text_from_docx(&b"<a>Hi</a>".to_vec()), "Hi\n");
    assert_eq!(extract_text_from_docx(&b">\xc3\x28<".to_vec()), "\u{fffd}(\n");
    assert_eq!(extract_text_from_docx(&vec![]), DOCX_TEXT_NOTICE);
}

#[test]
fn formats_are_named_by_extension() {
    assert_eq!(document_format("pdf"), Some(DocumentFormat::Pdf));
    assert_eq!(document_format("PDF"), Some(DocumentFormat::Pdf));
    assert_eq!(document_format("Docx"), Some(DocumentFormat::Docx));
    assert_eq!(document_format("txt"), Some(DocumentFormat::Text));
    assert_eq!(document_format("MD"), Some(DocumentFormat::Markdown));
    assert_eq!(document_format("rtf"), Some(DocumentFormat::Rtf));
    assert_eq!(document_format(""), None);
    assert_eq!(document_format("doc"), None);
    assert_eq!(document_format("pdfx"), None);
    assert_eq!(format_of_lowercase("pdf"), Some(DocumentFormat::Pdf));
    assert_eq!(format_of_lowercase("PDF"), None);
    assert_eq!(format_of_lowercase("md"), Some(DocumentFormat::Markdown));
}

#[test]
fn unsupported_format_is_reported_with_its_extension() {
    assert_eq!(unsupported_format_message("exe"), "Unsupported file format: exe");
    assert_eq!(unsupported_format_message(""), "Unsupported file format: ");
}

#[test]
fn content_without_formatting_is_plain() {
    for format in [DocumentFormat::Pdf, DocumentFormat::Text, DocumentFormat::Markdown, DocumentFormat::Rtf] {
        assert_eq!(
            extract_document_content(format, false, "a\nb"),
            ExtractedContent { text: "a\nb".to_string(), is_formatted: false }
        );
        assert_eq!(extract_document_text(format, "a\nb"), "a\nb");
    }
    assert_eq!(
        extract_document_content(DocumentFormat::Docx, false, "<a>x</a>"),
        ExtractedContent { text: "x\n".to_string(), is_formatted: false }
    );
    assert_eq!(extract_document_text(DocumentFormat::Docx, "<a>x</a>"), "x\n");
}

#[test]
fn content_with_formatting_depends_on_the_format() {
    assert_eq!(
        extract_document_content(DocumentFormat::Pdf, true, "a\nb"),
        ExtractedContent { text: "<div><p>a b </p></div>".to_string(), is_formatted: true }
    );
    assert_eq!(
        extract_document_content(DocumentFormat::Docx, true, "<a>x</a>"),
        ExtractedContent { text: "<div><p>x</div>".to_string(), is_formatted: true }
    );
    assert_eq!(
        extract_document_content(DocumentFormat::Rtf, true, "raw"),
        ExtractedContent { text: "<div><pre>raw</pre></div>".to_string(), is_formatted: true }
    );
    assert_eq!(
        extract_document_content(DocumentFormat::Markdown, true, "# t"),
        ExtractedContent { text: "# t".to_string(), is_formatted: true }
    );
    assert_eq!(
        extract_document_content(DocumentFormat::Text, true, "plain"),
        ExtractedContent { text: "plain".to_string(), is_formatted: false }
    );
}

#[test]
fn texts_are_compared_character_by_character() {
    assert!(same_text("", ""));
    assert!(same_text("abc", "abc"));
    assert!(!same_text("abc", "abd"));
    assert!(!same_text("abc", "ab"));
    assert!(!same_text("ab", "abc"));
    assert!(same_text("gr\u{fc}n", "gr\u{fc}n"));
    assert_eq!(chars_of("a\u{fc}b"), vec!['a', '\u{fc}', 'b']);
    assert_eq!(chars_of(""), Vec::<char>::new());
}
