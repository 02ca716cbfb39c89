//! Native PDF export: the court report as a multi-page PDF. A minimal PDF is a set of
//! numbered objects, a byte-offset cross-reference table and a trailer; the report is
//! written as monospaced (Courier) text, paginated, with no font embedding and no
//! compression.
use crate::correlate::{DeviceHistory, DeviceHistoryView};
use crate::order::views;
use crate::render::{render_report, report_text};
use crate::report::Finding;
use crate::text::{
    chars_of, decimal, lemma_encode_utf8_concat, lines_of, push_char, push_count, push_str,
    line_split, push_text, push_text_count, push_zero_padded, text_lines, utf8_bytes, zero_pad,
};
use crate::report::FindingView;
use vstd::prelude::*;
use vstd::utf8::encode_utf8;

verus! {

/// Report lines per page.
pub const LINES_PER_PAGE: usize = 60;

/// A character folded to what the Courier base font can render: dashes and curly
/// quotes to their ASCII forms, other ASCII kept, anything else `?`.
pub open spec fn pdf_fold(c: char) -> char {
    if c == '\u{2014}' || c == '\u{2013}' {
        '-'
    } else if c == '\u{201C}' || c == '\u{201D}' {
        '"'
    } else if c == '\u{2018}' || c == '\u{2019}' {
        '\''
    } else if (c as u32) < 128u32 {
        c
    } else {
        '?'
    }
}

/// One character inside a PDF literal string: folded, with `\`, `(` and `)` escaped.
pub open spec fn pdf_char(c: char) -> Seq<char> {
    let f = pdf_fold(c);
    if f == '\\' || f == '(' || f == ')' {
        seq!['\\', f]
    } else {
        seq![f]
    }
}

/// `t` as the body of a PDF literal string.
pub open spec fn pdf_escaped(t: Seq<char>) -> Seq<char>
    decreases t.len(),
{
    if t.len() == 0 {
        Seq::empty()
    } else {
        pdf_escaped(t.drop_last()) + pdf_char(t.last())
    }
}

/// Fold to the Courier glyphs the base font can render, then escape the three characters
/// special inside a PDF literal string.
pub fn pdf_escape(text: &str) -> (r: String)
    ensures
        r@ == pdf_escaped(text@),
{
    let cs = chars_of(text);
    pdf_escape_chars(&cs)
}

/// [`pdf_escape`] over characters.
fn pdf_escape_chars(cs: &Vec<char>) -> (r: String)
    ensures
        r@ == pdf_escaped(cs@),
{
    let mut out = String::new();
    let mut i: usize = 0;
    while i < cs.len()
        invariant
            i <= cs.len(),
            out@ == pdf_escaped(cs@.take(i as int)),
        decreases cs.len() - i,
    {
        let c = cs[i];
        let f = if c == '\u{2014}' || c == '\u{2013}' {
            '-'
        } else if c == '\u{201C}' || c == '\u{201D}' {
            '"'
        } else if c == '\u{2018}' || c == '\u{2019}' {
            '\''
        } else if (c as u32) < 128 {
            c
        } else {
            '?'
        };
        if f == '\\' || f == '(' || f == ')' {
            push_char(&mut out, '\\');
        }
        push_char(&mut out, f);
        proof {
            let t = cs@.take(i + 1);
            assert(t.drop_last() =~= cs@.take(i as int));
            assert(out@ =~= pdf_escaped(t));
        }
        i = i + 1;
    }
    assert(cs@.take(cs.len() as int) =~= cs@);
    out
}

/// The number of pages for `n` report lines.
pub open spec fn page_count(n: nat) -> nat {
    ((n + 59) / 60) as nat
}

/// The report lines on page `p` (the `p`-th run of up to sixty).
pub open spec fn page_lines(lines: Seq<Seq<char>>, p: int) -> Seq<Seq<char>> {
    lines.subrange(
        60 * p,
        if 60 * p + 60 < lines.len() {
            60 * p + 60
        } else {
            lines.len() as int
        },
    )
}

/// The text operators for the rows of a page: the first row is placed by `Td`, each
/// later one advanced with `T*`.
pub open spec fn stream_rows(rows: Seq<Seq<char>>) -> Seq<char>
    decreases rows.len(),
{
    if rows.len() == 0 {
        Seq::empty()
    } else {
        stream_rows(rows.drop_last()) + (if rows.len() == 1 {
            " ("@
        } else {
            " T* ("@
        }) + pdf_escaped(rows.last()) + ") Tj"@
    }
}

/// The content stream of a page: Courier 9 pt, 12 pt leading, from (40, 760).
pub open spec fn content_stream(rows: Seq<Seq<char>>) -> Seq<char> {
    "BT /F0 9 Tf 12 TL 40 760 Td"@ + stream_rows(rows) + " ET"@
}

/// The stream object of a page, with its byte length.
pub open spec fn content_body(rows: Seq<Seq<char>>) -> Seq<char> {
    "<< /Length "@ + decimal(encode_utf8(content_stream(rows)).len()) + " >>\nstream\n"@
        + content_stream(rows) + "\nendstream"@
}

/// `base 0 R base+1 0 R …` for `n` objects.
pub open spec fn kids_text(base: nat, n: nat) -> Seq<char>
    decreases n,
{
    if n == 0 {
        Seq::empty()
    } else {
        kids_text(base, (n - 1) as nat) + decimal((base + n - 1) as nat) + " 0 R "@
    }
}

/// The page-tree object for `n` pages (page objects numbered from `4 + n`).
pub open spec fn pages_body(n: nat) -> Seq<char> {
    "<< /Type /Pages /Kids [ "@ + kids_text(4 + n, n) + "] /Count "@ + decimal(n) + " >>"@
}

/// The page object of page `i` (its content stream is object `4 + i`).
pub open spec fn page_body(i: nat) -> Seq<char> {
    "<< /Type /Page /Parent 2 0 R /MediaBox [0 0 612 792] /Resources << /Font << /F0 3 0 R >> >> /Contents "@
        + decimal(4 + i) + " 0 R >>"@
}

/// The object bodies, numbered from 1: catalog, page tree, font, one content stream per
/// page, then one page object per page.
pub open spec fn pdf_bodies(lines: Seq<Seq<char>>) -> Seq<Seq<char>> {
    let n = page_count(lines.len());
    seq![
        "<< /Type /Catalog /Pages 2 0 R >>"@,
        pages_body(n),
        "<< /Type /Font /Subtype /Type1 /BaseFont /Courier >>"@,
    ] + Seq::new(n, |p: int| content_body(page_lines(lines, p))) + Seq::new(
        n,
        |i: int| page_body(i as nat),
    )
}

/// One numbered object.
pub open spec fn pdf_object(number: nat, body: Seq<char>) -> Seq<char> {
    decimal(number) + " 0 obj\n"@ + body + "\nendobj\n"@
}

/// The objects, numbered from 1, in order.
pub open spec fn pdf_objects(bodies: Seq<Seq<char>>) -> Seq<char>
    decreases bodies.len(),
{
    if bodies.len() == 0 {
        Seq::empty()
    } else {
        pdf_objects(bodies.drop_last()) + pdf_object(bodies.len(), bodies.last())
    }
}

/// The cross-reference entries: each object's byte offset, ten digits wide.
pub open spec fn xref_entries(bodies: Seq<Seq<char>>) -> Seq<char>
    decreases bodies.len(),
{
    if bodies.len() == 0 {
        Seq::empty()
    } else {
        xref_entries(bodies.drop_last()) + zero_pad(
            decimal(encode_utf8("%PDF-1.4\n"@ + pdf_objects(bodies.drop_last())).len()),
            10,
        ) + " 00000 n \n"@
    }
}

/// A whole PDF file around the object bodies: header, objects, `xref`, trailer.
pub open spec fn pdf_text(bodies: Seq<Seq<char>>) -> Seq<char> {
    let objects = "%PDF-1.4\n"@ + pdf_objects(bodies);
    objects + "xref\n0 "@ + decimal(bodies.len() + 1) + "\n0000000000 65535 f \n"@ + xref_entries(
        bodies,
    ) + "trailer\n<< /Size "@ + decimal(bodies.len() + 1) + " /Root 1 0 R >>\nstartxref\n"@
        + decimal(encode_utf8(objects).len()) + "\n%%EOF\n"@
}

/// The PDF bytes for a report text.
pub open spec fn pdf_document(report: Seq<char>) -> Seq<u8> {
    encode_utf8(pdf_text(pdf_bodies(text_lines(report))))
}

/// The stream object for the lines `start..end`.
fn content_body_of(lines: &Vec<Vec<char>>, start: usize, end: usize) -> (r: String)
    requires
        start <= end <= lines.len(),
    ensures
        r@ == content_body(lines@.map_values(|l: Vec<char>| l@).subrange(start as int, end as int)),
{
    let ghost ls = lines@.map_values(|l: Vec<char>| l@);
    let mut stream = String::new();
    push_str(&mut stream, "BT /F0 9 Tf 12 TL 40 760 Td");
    let ghost head = stream@;
    let mut row = start;
    while row < end
        invariant
            start <= row <= end <= lines.len(),
            ls == lines@.map_values(|l: Vec<char>| l@),
            stream@ == head + stream_rows(ls.subrange(start as int, row as int)),
        decreases end - row,
    {
        if row == start {
            push_str(&mut stream, " (");
        } else {
            push_str(&mut stream, " T* (");
        }
        let esc = pdf_escape_chars(&lines[row]);
        push_str(&mut stream, esc.as_str());
        push_str(&mut stream, ") Tj");
        proof {
            let t = ls.subrange(start as int, row + 1);
            assert(t.drop_last() =~= ls.subrange(start as int, row as int));
            assert(t.last() == lines@[row as int]@);
            assert(stream@ =~= head + stream_rows(t));
        }
        row = row + 1;
    }
    push_str(&mut stream, " ET");
    let ghost rows = ls.subrange(start as int, end as int);
    assert(stream@ =~= content_stream(rows));
    let sb = utf8_bytes(stream.as_str());
    let mut body = String::new();
    push_str(&mut body, "<< /Length ");
    push_count(&mut body, sb.len());
    push_str(&mut body, " >>\nstream\n");
    push_str(&mut body, stream.as_str());
    push_str(&mut body, "\nendstream");
    assert(body@ =~= content_body(rows));
    body
}

/// The object bodies for the report lines.
fn pdf_bodies_of(lines: &Vec<Vec<char>>) -> (r: Vec<String>)
    ensures
        r@.map_values(|b: String| b@) == pdf_bodies(lines@.map_values(|l: Vec<char>| l@)),
        r@.len() < usize::MAX,
{
    let ghost ls = lines@.map_values(|l: Vec<char>| l@);
    let total = lines.len();
    let n = total / LINES_PER_PAGE + if total % LINES_PER_PAGE == 0 {
        0
    } else {
        1
    };
    assert(n == page_count(total as nat));
    let content_base: usize = 4;
    let page_base: usize = content_base + n;
    let mut bodies: Vec<String> = Vec::new();
    bodies.push(String::from_str("<< /Type /Catalog /Pages 2 0 R >>"));
    let mut kids = String::new();
    let mut i: usize = 0;
    while i < n
        invariant
            i <= n,
            n == page_count(total as nat),
            page_base == 4 + n,
            kids@ == kids_text(page_base as nat, i as nat),
        decreases n - i,
    {
        push_count(&mut kids, page_base + i);
        push_str(&mut kids, " 0 R ");
        i = i + 1;
        assert(kids@ =~= kids_text(page_base as nat, i as nat));
    }
    let mut pages = String::new();
    push_str(&mut pages, "<< /Type /Pages /Kids [ ");
    push_str(&mut pages, kids.as_str());
    push_str(&mut pages, "] /Count ");
    push_count(&mut pages, n);
    push_str(&mut pages, " >>");
    assert(pages@ =~= pages_body(n as nat));
    bodies.push(pages);
    bodies.push(String::from_str("<< /Type /Font /Subtype /Type1 /BaseFont /Courier >>"));
    let ghost fixed = seq![
        "<< /Type /Catalog /Pages 2 0 R >>"@,
        pages_body(n as nat),
        "<< /Type /Font /Subtype /Type1 /BaseFont /Courier >>"@,
    ];
    assert(bodies@.map_values(|b: String| b@) =~= fixed);
    let mut p: usize = 0;
    while p < n
        invariant
            p <= n,
            n == page_count(total as nat),
            total == lines.len(),
            ls == lines@.map_values(|l: Vec<char>| l@),
            bodies@.map_values(|b: String| b@) == fixed + Seq::new(
                p as nat,
                |q: int| content_body(page_lines(ls, q)),
            ),
        decreases n - p,
    {
        assert(60 * p < total) by (nonlinear_arith)
            requires
                p < n,
                n == (total + 59) / 60,
        ;
        let start = LINES_PER_PAGE * p;
        let end = if total - start > LINES_PER_PAGE {
            start + LINES_PER_PAGE
        } else {
            total
        };
        let body = content_body_of(&lines, start, end);
        assert(body@ == content_body(page_lines(ls, p as int)));
        let ghost before = bodies@;
        bodies.push(body);
        proof {
            assert(bodies@ == before.push(body));
            assert(bodies@.map_values(|b: String| b@) =~= before.map_values(|b: String| b@).push(
                body@,
            ));
        }
        p = p + 1;
        assert(bodies@.map_values(|b: String| b@) =~= fixed + Seq::new(
            p as nat,
            |q: int| content_body(page_lines(ls, q)),
        ));
    }
    let ghost with_content = bodies@.map_values(|b: String| b@);
    let mut k: usize = 0;
    while k < n
        invariant
            k <= n,
            content_base == 4,
            page_base == content_base + n,
            bodies@.map_values(|b: String| b@) == with_content + Seq::new(
                k as nat,
                |q: int| page_body(q as nat),
            ),
        decreases n - k,
    {
        let mut page = String::new();
        push_str(
            &mut page,
            "<< /Type /Page /Parent 2 0 R /MediaBox [0 0 612 792] /Resources << /Font << /F0 3 0 R >> >> /Contents ",
        );
        push_count(&mut page, content_base + k);
        push_str(&mut page, " 0 R >>");
        assert(page@ =~= page_body(k as nat));
        let ghost before = bodies@;
        bodies.push(page);
        proof {
            assert(bodies@.map_values(|b: String| b@) =~= before.map_values(|b: String| b@).push(
                page@,
            ));
        }
        k = k + 1;
        assert(bodies@.map_values(|b: String| b@) =~= with_content + Seq::new(
            k as nat,
            |q: int| page_body(q as nat),
        ));
    }
    assert(bodies@.map_values(|b: String| b@) =~= pdf_bodies(ls));
    assert(bodies@.len() == 3 + 2 * n);
    bodies
}

/// A whole PDF file around the object bodies.
fn assemble_pdf(bodies: &Vec<String>) -> (r: Vec<u8>)
    requires
        bodies@.len() < usize::MAX,
    ensures
        r@ == encode_utf8(pdf_text(bodies@.map_values(|b: String| b@))),
{
    let ghost bv = bodies@.map_values(|b: String| b@);
    let mut out: Vec<u8> = Vec::new();
    push_text(&mut out, "%PDF-1.4\n");
    let ghost mut text: Seq<char> = "%PDF-1.4\n"@;
    let mut offsets: Vec<usize> = Vec::new();
    let mut idx: usize = 0;
    while idx < bodies.len()
        invariant
            idx <= bodies.len(),
            bv == bodies@.map_values(|b: String| b@),
            out@ == encode_utf8(text),
            text == "%PDF-1.4\n"@ + pdf_objects(bv.take(idx as int)),
            offsets@.len() == idx,
            forall|j: int|
                0 <= j < idx ==> offsets@[j] == encode_utf8(
                    "%PDF-1.4\n"@ + pdf_objects(#[trigger] bv.take(j)),
                ).len(),
        decreases bodies.len() - idx,
    {
        offsets.push(out.len());
        let mut obj = String::new();
        push_count(&mut obj, idx + 1);
        push_str(&mut obj, " 0 obj\n");
        push_str(&mut obj, bodies[idx].as_str());
        push_str(&mut obj, "\nendobj\n");
        push_text(&mut out, obj.as_str());
        proof {
            lemma_encode_utf8_concat(text, obj@);
            let t = bv.take(idx + 1);
            assert(t.drop_last() =~= bv.take(idx as int));
            assert(obj@ =~= pdf_object((idx + 1) as nat, bv[idx as int]));
            text = text + obj@;
            assert(text =~= "%PDF-1.4\n"@ + pdf_objects(t));
        }
        idx = idx + 1;
    }
    assert(bv.take(bodies.len() as int) =~= bv);
    let xref_at = out.len();
    let count = bodies.len() + 1;
    let mut tail = String::new();
    push_str(&mut tail, "xref\n0 ");
    push_count(&mut tail, count);
    push_str(&mut tail, "\n0000000000 65535 f \n");
    let ghost tail_head = tail@;
    let mut m: usize = 0;
    while m < offsets.len()
        invariant
            m <= offsets.len(),
            offsets@.len() == bv.len(),
            forall|j: int|
                0 <= j < bv.len() ==> offsets@[j] == encode_utf8(
                    "%PDF-1.4\n"@ + pdf_objects(#[trigger] bv.take(j)),
                ).len(),
            tail@ == tail_head + xref_entries(bv.take(m as int)),
        decreases offsets.len() - m,
    {
        push_zero_padded(&mut tail, offsets[m] as u64, 10);
        push_str(&mut tail, " 00000 n \n");
        proof {
            let t = bv.take(m + 1);
            assert(t.drop_last() =~= bv.take(m as int));
            assert(offsets@[m as int] == encode_utf8("%PDF-1.4\n"@ + pdf_objects(bv.take(m as int))).len());
            assert(tail@ =~= tail_head + xref_entries(t));
        }
        m = m + 1;
    }
    assert(bv.take(offsets.len() as int) =~= bv);
    push_str(&mut tail, "trailer\n<< /Size ");
    push_count(&mut tail, count);
    push_str(&mut tail, " /Root 1 0 R >>\nstartxref\n");
    push_count(&mut tail, xref_at);
    push_str(&mut tail, "\n%%EOF\n");
    push_text(&mut out, tail.as_str());
    proof {
        lemma_encode_utf8_concat(text, tail@);
        assert(text + tail@ =~= pdf_text(bv));
    }
    out
}

/// Render the forensic report as a multi-page PDF byte stream: sixty report lines per
/// page, with a byte-exact cross-reference table.
pub fn render_pdf(histories: &[DeviceHistory], findings: &[Finding]) -> (r: Vec<u8>)
    ensures
        r@ == pdf_document(report_text(views(histories@), views(findings@))),
{
    let report = render_report(histories, findings);
    let lines = lines_of(report.as_str());
    let bodies = pdf_bodies_of(&lines);
    assemble_pdf(&bodies)
}

/// Whatever the evidence text, its PDF form is plain ASCII: every character the base
/// font cannot show has been folded or replaced.
pub proof fn law_escaped_text_is_ascii(t: Seq<char>)
    ensures
        forall|i: int| 0 <= i < pdf_escaped(t).len() ==> (#[trigger] pdf_escaped(t)[i] as u32) < 128,
    decreases t.len(),
{
    if t.len() > 0 {
        law_escaped_text_is_ascii(t.drop_last());
        let head = pdf_escaped(t.drop_last());
        let last = pdf_char(t.last());
        assert(pdf_escaped(t) == head + last);
        assert forall|i: int| 0 <= i < pdf_escaped(t).len() implies (#[trigger] pdf_escaped(t)[i] as u32) < 128 by {
            if i >= head.len() {
                assert(pdf_escaped(t)[i] == last[i - head.len()]);
            } else {
                assert(pdf_escaped(t)[i] == head[i]);
            }
        }
    }
}

/// Appending text never takes away a finished line.
proof fn lemma_finished_lines_only_grow(s: Seq<char>, t: Seq<char>)
    ensures
        line_split(s + t).0.len() >= line_split(s).0.len(),
    decreases t.len(),
{
    if t.len() == 0 {
        assert(s + t =~= s);
    } else {
        lemma_finished_lines_only_grow(s, t.drop_last());
        assert((s + t).drop_last() =~= s + t.drop_last());
    }
}

/// Every report opens with its title line, so it has at least one line and the PDF at
/// least one page.
pub proof fn law_every_report_has_a_page(hs: Seq<DeviceHistoryView>, fs: Seq<FindingView>)
    ensures
        text_lines(report_text(hs, fs)).len() >= 1,
        page_count(text_lines(report_text(hs, fs)).len()) >= 1,
{
    let title = "# USB Device History — Forensic Report\n\n"@;
    reveal_strlit("# USB Device History — Forensic Report\n\n");
    let report = report_text(hs, fs);
    let rest = report.subrange(title.len() as int, report.len() as int);
    assert(report =~= title + rest);
    assert(title.last() == '\n');
    assert(line_split(title).0.len() >= 1);
    lemma_finished_lines_only_grow(title, rest);
}

/// The file is framed as a PDF whatever the report holds: it opens with the version
/// header and closes with the end-of-file marker.
pub proof fn law_pdf_is_framed(bodies: Seq<Seq<char>>)
    ensures
        pdf_text(bodies).len() >= 15,
        pdf_text(bodies).take(9) == "%PDF-1.4\n"@,
        pdf_text(bodies).subrange(pdf_text(bodies).len() - 6, pdf_text(bodies).len() as int)
            == "%%EOF\n"@,
{
    reveal_strlit("%PDF-1.4\n");
    reveal_strlit("\n%%EOF\n");
    reveal_strlit("%%EOF\n");
    let t = pdf_text(bodies);
    let objects = "%PDF-1.4\n"@ + pdf_objects(bodies);
    let middle = "xref\n0 "@ + decimal(bodies.len() + 1) + "\n0000000000 65535 f \n"@ + xref_entries(
        bodies,
    ) + "trailer\n<< /Size "@ + decimal(bodies.len() + 1) + " /Root 1 0 R >>\nstartxref\n"@
        + decimal(encode_utf8(objects).len());
    assert(t =~= objects + middle + "\n%%EOF\n"@);
    assert(t.take(9) =~= "%PDF-1.4\n"@);
    assert(t.subrange(t.len() - 6, t.len() as int) =~= "%%EOF\n"@);
}

} // verus!
