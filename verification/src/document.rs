//! Turning the text of imported documents into what the editor shows: HTML for
//! PDF, DOCX and RTF sources, and plain text where no formatting is wanted.
//!
//! Reading files and taking the text out of a PDF is the caller's business;
//! the functions here start from the text or the bytes that were read.

use vstd::prelude::*;
use vstd::string::StringExecFns;
use crate::text::same_text;

verus! {

/// The text that `String::from_utf8_lossy` makes of `bytes`.
pub uninterp spec fn lossy_text(bytes: Seq<u8>) -> Seq<char>;

/// Decodes bytes as UTF-8 with `String::from_utf8_lossy`, which replaces what
/// is not valid UTF-8 by U+FFFD. The result is a function of the bytes alone;
/// nothing more is claimed of it.
#[verifier::external_body]
fn decode_lossy(bytes: &[u8]) -> (text: String)
    ensures
        text@ == lossy_text(bytes@),
{
    String::from_utf8_lossy(bytes).into_owned()
}

/// The text that `str::to_lowercase` makes of `text`.
pub uninterp spec fn lowercase_of(text: Seq<char>) -> Seq<char>;

/// Lower-cases a text with `str::to_lowercase`, which follows Unicode's rules.
/// The result is a function of the text alone; nothing more is claimed of it.
#[verifier::external_body]
fn lowercase(text: &str) -> (lowered: String)
    ensures
        lowered@ == lowercase_of(text@),
{
    text.to_lowercase()
}

/// Whether `c` is white space in Unicode's sense.
pub open spec fn is_white_space(c: char) -> bool {
    let u = c as u32;
    ||| 0x9 <= u <= 0xd
    ||| u == 0x20
    ||| u == 0x85
    ||| u == 0xa0
    ||| u == 0x1680
    ||| 0x2000 <= u <= 0x200a
    ||| u == 0x2028
    ||| u == 0x2029
    ||| u == 0x202f
    ||| u == 0x205f
    ||| u == 0x3000
}

/// Whether `c` is white space in Unicode's sense.
pub fn is_space(c: char) -> (space: bool)
    ensures
        space == is_white_space(c),
{
    let u: u32 = c as u32;
    (0x9 <= u && u <= 0xd) || u == 0x20 || u == 0x85 || u == 0xa0 || u == 0x1680 || (0x2000 <= u
        && u <= 0x200a) || u == 0x2028 || u == 0x2029 || u == 0x202f || u == 0x205f || u == 0x3000
}

/// Number of white-space characters at the start of `s`.
pub open spec fn leading_spaces(s: Seq<char>) -> int
    decreases s.len(),
{
    if s.len() == 0 || !is_white_space(s[0]) {
        0
    } else {
        1 + leading_spaces(s.drop_first())
    }
}

/// Number of white-space characters at the end of `s`.
pub open spec fn trailing_spaces(s: Seq<char>) -> int
    decreases s.len(),
{
    if s.len() == 0 || !is_white_space(s.last()) {
        0
    } else {
        1 + trailing_spaces(s.drop_last())
    }
}

/// `s` without the white space at its start and at its end.
pub open spec fn trimmed(s: Seq<char>) -> Seq<char> {
    let from = leading_spaces(s);
    let to = s.len() - trailing_spaces(s);
    if from >= to {
        Seq::empty()
    } else {
        s.subrange(from, to)
    }
}

/// Whether a line holds nothing but white space.
pub open spec fn is_blank(line: Seq<char>) -> bool {
    trimmed(line).len() == 0
}

proof fn lemma_leading_spaces(s: Seq<char>, k: int)
    requires
        0 <= k <= s.len(),
        forall|i: int| 0 <= i < k ==> is_white_space(#[trigger] s[i]),
        k == s.len() || !is_white_space(s[k]),
    ensures
        leading_spaces(s) == k,
    decreases k,
{
    if k > 0 {
        let rest = s.drop_first();
        assert forall|i: int| 0 <= i < k - 1 implies is_white_space(#[trigger] rest[i]) by {
            assert(rest[i] == s[i + 1]);
        }
        if k < s.len() {
            assert(rest[k - 1] == s[k]);
        }
        assert(is_white_space(s[0]));
        lemma_leading_spaces(rest, k - 1);
    }
}

proof fn lemma_trailing_spaces(s: Seq<char>, k: int)
    requires
        0 <= k <= s.len(),
        forall|i: int| s.len() - k <= i < s.len() ==> is_white_space(#[trigger] s[i]),
        k == s.len() || !is_white_space(s[s.len() - k - 1]),
    ensures
        trailing_spaces(s) == k,
    decreases k,
{
    if k > 0 {
        let rest = s.drop_last();
        assert forall|i: int| rest.len() - (k - 1) <= i < rest.len() implies is_white_space(
            #[trigger] rest[i],
        ) by {
            assert(rest[i] == s[i]);
        }
        if k < s.len() {
            assert(rest[rest.len() - (k - 1) - 1] == s[s.len() - k - 1]);
        }
        assert(is_white_space(s[s.len() - 1]));
        lemma_trailing_spaces(rest, k - 1);
    }
}

/// Where the trimmed part of `line` starts and ends.
fn trim_bounds(line: &Vec<char>) -> (bounds: (usize, usize))
    ensures
        bounds.0 <= bounds.1 <= line@.len(),
        line@.subrange(bounds.0 as int, bounds.1 as int) == trimmed(line@),
{
    let n: usize = line.len();
    let mut from: usize = 0;
    while from < n && is_space(line[from])
        invariant
            from <= n,
            n == line@.len(),
            forall|i: int| 0 <= i < from ==> is_white_space(#[trigger] line@[i]),
        decreases n - from,
    {
        from = from + 1;
    }
    let mut to: usize = n;
    while to > from && is_space(line[to - 1])
        invariant
            from <= to <= n,
            n == line@.len(),
            forall|i: int| to <= i < n ==> is_white_space(#[trigger] line@[i]),
        decreases to,
    {
        to = to - 1;
    }
    proof {
        lemma_leading_spaces(line@, from as int);
        if from == n {
            lemma_trailing_spaces(line@, n as int);
            assert(line@.subrange(from as int, to as int) =~= Seq::<char>::empty());
        } else if to == from {
            // Cannot happen: the character at `from` is no white space.
            assert(!is_white_space(line@[from as int]));
            assert(false);
        } else {
            lemma_trailing_spaces(line@, n - to);
        }
    }
    (from, to)
}

/// Appends the characters of `line` from `from` up to `to`.
fn append_range(out: &mut String, line: &Vec<char>, from: usize, to: usize)
    requires
        from <= to <= line@.len(),
    ensures
        final(out)@ == old(out)@ + line@.subrange(from as int, to as int),
{
    let mut i: usize = from;
    assert(line@.subrange(from as int, from as int) =~= Seq::<char>::empty());
    assert(out@ =~= old(out)@ + line@.subrange(from as int, from as int));
    while i < to
        invariant
            from <= i <= to,
            to <= line@.len(),
            out@ == old(out)@ + line@.subrange(from as int, i as int),
        decreases to - i,
    {
        out.push(line[i]);
        assert(out@ =~= old(out)@ + line@.subrange(from as int, i + 1));
        i = i + 1;
    }
}

/// The HTML that wraps the raw text of an RTF file: the text inside `<pre>`
/// inside `<div>`.
pub open spec fn rtf_html_of(content: Seq<char>) -> Seq<char> {
    "<div>"@ + "<pre>"@ + content + "</pre>"@ + "</div>"@
}

/// Wraps the raw text of an RTF file for display: the text, unchanged, inside
/// `<pre>` inside `<div>`.
pub fn extract_formatted_rtf(content: &str) -> (html: String)
    ensures
        html@ == rtf_html_of(content@),
{
    let mut html = String::from_str("<div>");
    html.append("<pre>");
    html.append(content);
    html.append("</pre>");
    html.append("</div>");
    html
}

/// The pieces between the line feeds of `text`: one more than it has line
/// feeds.
pub open spec fn segments(text: Seq<char>) -> Seq<Seq<char>>
    decreases text.len(),
{
    if text.len() == 0 {
        seq![Seq::<char>::empty()]
    } else {
        let before = segments(text.drop_last());
        if text.last() == '\n' {
            before.push(Seq::<char>::empty())
        } else {
            before.update(before.len() - 1, before.last().push(text.last()))
        }
    }
}

/// The lines of `text`: its segments, without the last one when that is empty,
/// so that a final line feed does not start another line.
pub open spec fn lines_of(text: Seq<char>) -> Seq<Seq<char>> {
    let all = segments(text);
    if all.last().len() == 0 {
        all.drop_last()
    } else {
        all
    }
}

/// What one line adds to the HTML of a PDF's text, given whether a paragraph
/// is open before it. A blank line closes the open paragraph and adds a line
/// break. Any other line opens a paragraph unless one is open, and adds its
/// trimmed text and a space.
pub open spec fn line_piece(line: Seq<char>, paragraph_open: bool) -> Seq<char> {
    if is_blank(line) {
        if paragraph_open {
            "</p>"@ + "<br/>"@
        } else {
            "<br/>"@
        }
    } else {
        if paragraph_open {
            trimmed(line) + " "@
        } else {
            "<p>"@ + trimmed(line) + " "@
        }
    }
}

/// Whether a paragraph is open after the first `n` of `lines`: the last of
/// them is not blank.
pub open spec fn paragraph_open_after(lines: Seq<Seq<char>>, n: int) -> bool {
    n > 0 && !is_blank(lines[n - 1])
}

/// What the first `n` of `lines` add to the HTML.
pub open spec fn pieces(lines: Seq<Seq<char>>, n: int) -> Seq<char>
    decreases n,
{
    if n <= 0 {
        Seq::empty()
    } else {
        pieces(lines, n - 1) + line_piece(lines[n - 1], paragraph_open_after(lines, n - 1))
    }
}

/// The HTML for the text of a PDF: inside `<div>`, runs of non-blank lines are
/// paragraphs and each blank line is a line break.
pub open spec fn pdf_html_of(text: Seq<char>) -> Seq<char> {
    let lines = lines_of(text);
    let body = "<div>"@ + pieces(lines, lines.len() as int);
    if paragraph_open_after(lines, lines.len() as int) {
        body + "</p>"@ + "</div>"@
    } else {
        body + "</div>"@
    }
}

proof fn lemma_pieces_of_prefix(a: Seq<Seq<char>>, b: Seq<Seq<char>>, n: int)
    requires
        0 <= n <= a.len(),
        n <= b.len(),
        forall|i: int| 0 <= i < n ==> a[i] == b[i],
    ensures
        pieces(a, n) == pieces(b, n),
    decreases n,
{
    if n > 0 {
        lemma_pieces_of_prefix(a, b, n - 1);
    }
}

/// Appends what `line` adds to the HTML and answers whether a paragraph is
/// open afterwards.
fn append_line(html: &mut String, line: &Vec<char>, paragraph_open: bool) -> (open: bool)
    ensures
        final(html)@ == old(html)@ + line_piece(line@, paragraph_open),
        open == !is_blank(line@),
{
    let (from, to) = trim_bounds(line);
    if from == to {
        assert(line@.subrange(from as int, to as int) =~= Seq::<char>::empty());
        if paragraph_open {
            html.append("</p>");
        }
        html.append("<br/>");
        assert(html@ =~= old(html)@ + line_piece(line@, paragraph_open));
        false
    } else {
        if !paragraph_open {
            html.append("<p>");
        }
        append_range(html, line, from, to);
        html.append(" ");
        assert(html@ =~= old(html)@ + line_piece(line@, paragraph_open));
        true
    }
}

/// Formats the text taken out of a PDF as HTML. The text is read line by
/// line; white space around a line does not count. Runs of non-blank lines
/// become one paragraph, each line followed by a space, and each blank line
/// becomes a line break.
pub fn extract_formatted_pdf(text: &str) -> (html: String)
    ensures
        html@ == pdf_html_of(text@),
{
    let mut html = String::from_str("<div>");
    let mut in_paragraph = false;
    let mut line: Vec<char> = Vec::new();
    let ghost mut done: Seq<Seq<char>> = Seq::empty();
    proof {
        assert(text@.subrange(0, 0) =~= Seq::<char>::empty());
        assert(segments(Seq::<char>::empty()) =~= done.push(line@));
        assert(html@ =~= "<div>"@ + pieces(done, 0));
    }
    for c in it: text.chars()
        invariant
            it.seq() == text@,
            segments(text@.subrange(0, it.index())) == done.push(line@),
            html@ == "<div>"@ + pieces(done, done.len() as int),
            in_paragraph == paragraph_open_after(done, done.len() as int),
    {
        let ghost prefix = text@.subrange(0, it.index());
        let ghost next = text@.subrange(0, it.index() + 1);
        proof {
            assert(next.drop_last() =~= prefix);
            assert(next.last() == c);
        }
        if c == '\n' {
            let ghost before = done;
            in_paragraph = append_line(&mut html, &line, in_paragraph);
            proof {
                done = done.push(line@);
                lemma_pieces_of_prefix(done, before, before.len() as int);
                assert(html@ =~= "<div>"@ + pieces(done, done.len() as int));
            }
            line = Vec::new();
            assert(segments(next) =~= done.push(line@));
        } else {
            line.push(c);
            assert(segments(next) =~= done.push(line@));
        }
    }
    proof {
        assert(text@.subrange(0, text@.len() as int) =~= text@);
    }
    if line.len() > 0 {
        let ghost before = done;
        in_paragraph = append_line(&mut html, &line, in_paragraph);
        proof {
            done = done.push(line@);
            lemma_pieces_of_prefix(done, before, before.len() as int);
            assert(html@ =~= "<div>"@ + pieces(done, done.len() as int));
            assert(lines_of(text@) =~= done);
        }
    } else {
        proof {
            assert(lines_of(text@) =~= done);
        }
    }
    if in_paragraph {
        html.append("</p>");
    }
    html.append("</div>");
    html
}

/// The first `n` characters of `text`.
pub open spec fn text_prefix(text: Seq<char>, n: int) -> Seq<char> {
    text.subrange(0, n)
}

/// State of the scan that takes the text of a DOCX file apart.
pub ghost struct MarkupScan {
    /// Whether the scan is between a `>` and the next `<`.
    pub in_text: bool,
    /// The characters of the text run that is being read.
    pub current: Seq<char>,
    /// Whether a paragraph is open in the output.
    pub in_paragraph: bool,
    /// What has been written so far.
    pub written: Seq<char>,
}

/// The scan before the first character.
pub open spec fn scan_start() -> MarkupScan {
    MarkupScan { in_text: false, current: Seq::empty(), in_paragraph: false, written: Seq::empty() }
}

/// One step of the scan that writes HTML. A `<` ends the text run: a run that
/// is not empty is written, after `<p>` unless a paragraph is open. A `>`
/// starts a text run. Inside a run, a line feed or carriage return after some
/// text closes the open paragraph and writes the text as a paragraph of its
/// own; any other character joins the run. Outside a run characters are
/// markup and are dropped.
pub open spec fn html_scan_step(s: MarkupScan, c: char) -> MarkupScan {
    if c == '<' {
        if s.current.len() > 0 {
            MarkupScan {
                in_text: false,
                current: Seq::empty(),
                in_paragraph: true,
                written: if s.in_paragraph {
                    s.written + s.current
                } else {
                    s.written + "<p>"@ + s.current
                },
            }
        } else {
            MarkupScan { in_text: false, ..s }
        }
    } else if c == '>' {
        MarkupScan { in_text: true, ..s }
    } else if s.in_text {
        if c == '\n' || c == '\r' {
            if s.current.len() > 0 {
                MarkupScan {
                    in_text: true,
                    current: Seq::empty(),
                    in_paragraph: false,
                    written: if s.in_paragraph {
                        s.written + "</p>"@ + "<p>"@ + s.current + "</p>"@
                    } else {
                        s.written + "<p>"@ + s.current + "</p>"@
                    },
                }
            } else {
                s
            }
        } else {
            MarkupScan { current: s.current.push(c), ..s }
        }
    } else {
        s
    }
}

/// The scan that writes HTML, after all of `content`.
pub open spec fn html_scan(content: Seq<char>) -> MarkupScan
    decreases content.len(),
{
    if content.len() == 0 {
        scan_start()
    } else {
        html_scan_step(html_scan(content.drop_last()), content.last())
    }
}

/// What the HTML scan has written once its last text run is flushed: a run
/// that is not empty is written, after `<p>` unless a paragraph is open, and
/// closed with `</p>`.
pub open spec fn html_scan_body(s: MarkupScan) -> Seq<char> {
    if s.current.len() > 0 {
        if s.in_paragraph {
            s.written + s.current + "</p>"@
        } else {
            s.written + "<p>"@ + s.current + "</p>"@
        }
    } else {
        s.written
    }
}

/// What is shown for a DOCX file in which no text was found.
pub open spec fn docx_html_fallback() -> Seq<char> {
    "<div><p>This DOCX file could not be fully parsed with formatting. The content may be incomplete.</p></div>"@
}

/// The HTML for the content of a DOCX file: what the scan wrote, inside
/// `<div>`, or the fallback notice when it wrote nothing.
pub open spec fn docx_html_of(content: Seq<char>) -> Seq<char> {
    let body = html_scan_body(html_scan(content));
    if body.len() > 0 {
        "<div>"@ + body + "</div>"@
    } else {
        docx_html_fallback()
    }
}

/// Formats the content of a DOCX file, taken as text, as HTML: the text runs
/// between the markup become paragraphs. When no text is found the result is a
/// notice that says so.
pub fn docx_html(content: &str) -> (html: String)
    ensures
        html@ == docx_html_of(content@),
{
    let mut body = String::new();
    let mut current = String::new();
    let mut in_text = false;
    let mut in_paragraph = false;
    proof {
        assert(text_prefix(content@, 0) =~= Seq::<char>::empty());
    }
    for c in it: content.chars()
        invariant
            it.seq() == content@,
            html_scan(text_prefix(content@, it.index())) == (MarkupScan {
                in_text,
                current: current@,
                in_paragraph,
                written: body@,
            }),
    {
        let ghost next = text_prefix(content@, it.index() + 1);
        proof {
            assert(next.drop_last() =~= text_prefix(content@, it.index()));
            assert(next.last() == c);
        }
        if c == '<' {
            if !current.as_str().is_empty() {
                if !in_paragraph {
                    body.append("<p>");
                    in_paragraph = true;
                }
                body.append(current.as_str());
                current = String::new();
            }
            in_text = false;
        } else if c == '>' {
            in_text = true;
        } else if in_text {
            if c == '\n' || c == '\r' {
                if !current.as_str().is_empty() {
                    if in_paragraph {
                        body.append("</p>");
                        in_paragraph = false;
                    }
                    body.append("<p>");
                    body.append(current.as_str());
                    body.append("</p>");
                    current = String::new();
                }
            } else {
                current.push(c);
            }
        }
    }
    proof {
        assert(text_prefix(content@, content@.len() as int) =~= content@);
    }
    if !current.as_str().is_empty() {
        if !in_paragraph {
            body.append("<p>");
        }
        body.append(current.as_str());
        body.append("</p>");
    }
    if !body.as_str().is_empty() {
        let mut html = String::from_str("<div>");
        html.append(body.as_str());
        html.append("</div>");
        html
    } else {
        String::from_str(
            "<div><p>This DOCX file could not be fully parsed with formatting. The content may be incomplete.</p></div>",
        )
    }
}

/// Formats a DOCX file, given its bytes, as HTML. The bytes are decoded as
/// UTF-8, with a replacement character for whatever is not valid, and the
/// text that results is formatted as `docx_html` says.
pub fn extract_formatted_docx(bytes: &Vec<u8>) -> (html: String)
    ensures
        html@ == docx_html_of(lossy_text(bytes@)),
{
    let content = decode_lossy(bytes.as_slice());
    docx_html(content.as_str())
}

/// One step of the scan that collects plain text. A `<` ends the text run: a
/// run that is not empty is written, followed by a line feed. A `>` starts a
/// text run, and inside a run every character joins it.
pub open spec fn text_scan_step(s: MarkupScan, c: char) -> MarkupScan {
    if c == '<' {
        if s.current.len() > 0 {
            MarkupScan {
                in_text: false,
                current: Seq::empty(),
                written: s.written + s.current + seq!['\n'],
                ..s
            }
        } else {
            MarkupScan { in_text: false, ..s }
        }
    } else if c == '>' {
        MarkupScan { in_text: true, ..s }
    } else if s.in_text {
        MarkupScan { current: s.current.push(c), ..s }
    } else {
        s
    }
}

/// The scan that collects plain text, after all of `content`.
pub open spec fn text_scan(content: Seq<char>) -> MarkupScan
    decreases content.len(),
{
    if content.len() == 0 {
        scan_start()
    } else {
        text_scan_step(text_scan(content.drop_last()), content.last())
    }
}

/// What is shown for a DOCX file in which no text was found, as plain text.
pub open spec fn docx_text_fallback() -> Seq<char> {
    "This DOCX file could not be fully parsed. Please try converting it to a text format first."@
}

/// The plain text of the content of a DOCX file: the text runs that are
/// followed by markup, one per line, or the fallback notice when there is
/// none. A run that nothing follows is not part of it.
pub open spec fn docx_text_of(content: Seq<char>) -> Seq<char> {
    let written = text_scan(content).written;
    if written.len() > 0 {
        written
    } else {
        docx_text_fallback()
    }
}

/// Takes the plain text out of the content of a DOCX file, given as text: each
/// text run between `>` and the next `<` on a line of its own. When no text is
/// found the result is a notice that says so.
pub fn docx_text(content: &str) -> (text: String)
    ensures
        text@ == docx_text_of(content@),
{
    let mut extracted = String::new();
    let mut current = String::new();
    let mut in_text = false;
    proof {
        assert(text_prefix(content@, 0) =~= Seq::<char>::empty());
    }
    for c in it: content.chars()
        invariant
            it.seq() == content@,
            text_scan(text_prefix(content@, it.index())) == (MarkupScan {
                in_text,
                current: current@,
                in_paragraph: false,
                written: extracted@,
            }),
    {
        let ghost next = text_prefix(content@, it.index() + 1);
        proof {
            assert(next.drop_last() =~= text_prefix(content@, it.index()));
            assert(next.last() == c);
        }
        if c == '<' {
            if !current.as_str().is_empty() {
                extracted.append(current.as_str());
                extracted.push('\n');
                assert(extracted@ =~= text_scan(text_prefix(content@, it.index())).written
                    + current@ + seq!['\n']);
                current = String::new();
            }
            in_text = false;
        } else if c == '>' {
            in_text = true;
        } else if in_text {
            current.push(c);
        }
    }
    proof {
        assert(text_prefix(content@, content@.len() as int) =~= content@);
    }
    if !extracted.as_str().is_empty() {
        extracted
    } else {
        String::from_str(
            "This DOCX file could not be fully parsed. Please try converting it to a text format first.",
        )
    }
}

/// Takes the plain text out of a DOCX file, given its bytes. The bytes are
/// decoded as UTF-8, with a replacement character for whatever is not valid,
/// and the text is collected as `docx_text` says.
pub fn extract_text_from_docx(bytes: &Vec<u8>) -> (text: String)
    ensures
        text@ == docx_text_of(lossy_text(bytes@)),
{
    let content = decode_lossy(bytes.as_slice());
    docx_text(content.as_str())
}

/// The kinds of document that can be imported.
#[derive(Clone, Copy, Debug, PartialEq, Eq, Structural)]
pub enum DocumentFormat {
    Pdf,
    Docx,
    Text,
    Markdown,
    Rtf,
}

/// The format that a lower-case file extension stands for.
pub open spec fn format_named(extension: Seq<char>) -> Option<DocumentFormat> {
    if extension == "pdf"@ {
        Some(DocumentFormat::Pdf)
    } else if extension == "docx"@ {
        Some(DocumentFormat::Docx)
    } else if extension == "txt"@ {
        Some(DocumentFormat::Text)
    } else if extension == "md"@ {
        Some(DocumentFormat::Markdown)
    } else if extension == "rtf"@ {
        Some(DocumentFormat::Rtf)
    } else {
        None
    }
}

/// The format of a document, from the extension of its file name. Letter case
/// does not matter: the extension is lower-cased first.
pub fn document_format(extension: &str) -> (format: Option<DocumentFormat>)
    ensures
        format == format_named(lowercase_of(extension@)),
{
    let lowered = lowercase(extension);
    format_of_lowercase(lowered.as_str())
}

/// The format that a file extension in lower case stands for: `pdf`, `docx`,
/// `txt`, `md` or `rtf`; any other extension stands for none.
pub fn format_of_lowercase(extension: &str) -> (format: Option<DocumentFormat>)
    ensures
        format == format_named(extension@),
{
    if same_text(extension, "pdf") {
        Some(DocumentFormat::Pdf)
    } else if same_text(extension, "docx") {
        Some(DocumentFormat::Docx)
    } else if same_text(extension, "txt") {
        Some(DocumentFormat::Text)
    } else if same_text(extension, "md") {
        Some(DocumentFormat::Markdown)
    } else if same_text(extension, "rtf") {
        Some(DocumentFormat::Rtf)
    } else {
        None
    }
}

/// What is reported for a file whose extension stands for no format.
pub fn unsupported_format_message(extension: &str) -> (message: String)
    ensures
        message@ == "Unsupported file format: "@ + extension@,
{
    let mut message = String::from_str("Unsupported file format: ");
    message.append(extension);
    message
}

/// What an import hands to the editor.
#[derive(Debug, PartialEq, Eq)]
pub struct ExtractedContent {
    pub text: String,
    pub is_formatted: bool,
}

/// Whether what an import of `format` yields counts as formatted: never when
/// formatting is not asked for, and else for every format but plain text.
pub open spec fn counts_as_formatted(format: DocumentFormat, preserve_formatting: bool) -> bool {
    preserve_formatting && format != DocumentFormat::Text
}

/// The text that an import of `format` shows for `source`, which is the text
/// taken out of the PDF, the decoded content of the DOCX file, or the text of
/// the file for the other formats.
pub open spec fn shown_text(
    format: DocumentFormat,
    preserve_formatting: bool,
    source: Seq<char>,
) -> Seq<char> {
    match format {
        DocumentFormat::Pdf => if preserve_formatting {
            pdf_html_of(source)
        } else {
            source
        },
        DocumentFormat::Docx => if preserve_formatting {
            docx_html_of(source)
        } else {
            docx_text_of(source)
        },
        DocumentFormat::Rtf => if preserve_formatting {
            rtf_html_of(source)
        } else {
            source
        },
        DocumentFormat::Text => source,
        DocumentFormat::Markdown => source,
    }
}

/// Prepares a document for the editor. `source` is the text taken out of the
/// PDF, the decoded content of the DOCX file, or the text of the file for the
/// other formats. Without formatting the result is plain text. With
/// formatting, PDF, DOCX and RTF sources become HTML, Markdown is handed on as
/// it is and counts as formatted, and plain text stays plain text.
pub fn extract_document_content(
    format: DocumentFormat,
    preserve_formatting: bool,
    source: &str,
) -> (content: ExtractedContent)
    ensures
        content.text@ == shown_text(format, preserve_formatting, source@),
        content.is_formatted == counts_as_formatted(format, preserve_formatting),
{
    let is_formatted = preserve_formatting && format != DocumentFormat::Text;
    let text = match format {
        DocumentFormat::Pdf => if preserve_formatting {
            extract_formatted_pdf(source)
        } else {
            String::from_str(source)
        },
        DocumentFormat::Docx => if preserve_formatting {
            docx_html(source)
        } else {
            docx_text(source)
        },
        DocumentFormat::Rtf => if preserve_formatting {
            extract_formatted_rtf(source)
        } else {
            String::from_str(source)
        },
        DocumentFormat::Text => String::from_str(source),
        DocumentFormat::Markdown => String::from_str(source),
    };
    ExtractedContent { text, is_formatted }
}

/// The plain text of a document: what `extract_document_content` shows when
/// no formatting is asked for.
pub fn extract_document_text(format: DocumentFormat, source: &str) -> (text: String)
    ensures
        text@ == shown_text(format, false, source@),
{
    extract_document_content(format, false, source).text
}

} // verus!
