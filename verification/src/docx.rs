//! Native DOCX export: the court report as an Office Open XML `.docx`. A `.docx` is a ZIP
//! of a few XML parts, so this writes a minimal stored (uncompressed) ZIP by hand; each
//! line of the report becomes a Word paragraph.
use crate::correlate::DeviceHistory;
use crate::order::views;
use crate::render::{render_report, report_text};
use crate::report::Finding;
use crate::text::{chars_of, lines_of, push_char, push_str, string_of, text_lines, utf8_bytes};
use vstd::prelude::*;
use vstd::utf8::encode_utf8;

verus! {

/// One bit step of the reflected CRC-32 (ZIP polynomial `0xEDB88320`).
pub open spec fn crc_bit(crc: u32) -> u32 {
    (crc >> 1u32) ^ (if crc & 1u32 == 1u32 { 0xEDB8_8320u32 } else { 0u32 })
}

/// `k` bit steps.
pub open spec fn crc_bits(crc: u32, k: nat) -> u32
    decreases k,
{
    if k == 0 {
        crc
    } else {
        crc_bit(crc_bits(crc, (k - 1) as nat))
    }
}

/// The register after feeding `data` into it, starting from `crc`.
pub open spec fn crc_update(crc: u32, data: Seq<u8>) -> u32
    decreases data.len(),
{
    if data.len() == 0 {
        crc
    } else {
        crc_bits(crc_update(crc, data.drop_last()) ^ (data.last() as u32), 8)
    }
}

/// CRC-32 (ISO-HDLC): initial register all ones, final complement.
pub open spec fn crc32_of(data: Seq<u8>) -> u32 {
    !crc_update(0xFFFF_FFFFu32, data)
}

/// CRC-32 (ISO-HDLC / ZIP polynomial `0xEDB88320`), the checksum each ZIP entry needs.
pub fn crc32(data: &[u8]) -> (r: u32)
    ensures
        r == crc32_of(data@),
{
    let mut crc: u32 = 0xFFFF_FFFF;
    let mut i: usize = 0;
    while i < data.len()
        invariant
            i <= data.len(),
            crc == crc_update(0xFFFF_FFFFu32, data@.take(i as int)),
        decreases data.len() - i,
    {
        crc = crc ^ (data[i] as u32);
        let ghost start = crc;
        let mut k: u32 = 0;
        while k < 8
            invariant
                k <= 8,
                crc == crc_bits(start, k as nat),
            decreases 8 - k,
        {
            crc = (crc >> 1u32) ^ (if crc & 1u32 == 1u32 { 0xEDB8_8320u32 } else { 0u32 });
            k = k + 1;
        }
        proof {
            let t = data@.take(i + 1);
            assert(t.drop_last() =~= data@.take(i as int));
        }
        i = i + 1;
    }
    assert(data@.take(data.len() as int) =~= data@);
    !crc
}

/// The XML form of one character: the five predefined entities escaped.
pub open spec fn xml_char(c: char) -> Seq<char> {
    if c == '&' {
        "&amp;"@
    } else if c == '<' {
        "&lt;"@
    } else if c == '>' {
        "&gt;"@
    } else if c == '"' {
        "&quot;"@
    } else if c == '\'' {
        "&apos;"@
    } else {
        seq![c]
    }
}

/// `t` with the five XML predefined entities escaped.
pub open spec fn xml_escaped(t: Seq<char>) -> Seq<char>
    decreases t.len(),
{
    if t.len() == 0 {
        Seq::empty()
    } else {
        xml_escaped(t.drop_last()) + xml_char(t.last())
    }
}

/// Escape the five XML predefined entities so arbitrary evidence text is safe in XML.
pub fn xml_escape(text: &str) -> (r: String)
    ensures
        r@ == xml_escaped(text@),
{
    let cs = chars_of(text);
    xml_escape_chars(&cs)
}

/// [`xml_escape`] over characters.
fn xml_escape_chars(cs: &Vec<char>) -> (r: String)
    ensures
        r@ == xml_escaped(cs@),
{
    let mut out = String::new();
    let mut i: usize = 0;
    while i < cs.len()
        invariant
            i <= cs.len(),
            out@ == xml_escaped(cs@.take(i as int)),
        decreases cs.len() - i,
    {
        let c = cs[i];
        if c == '&' {
            push_str(&mut out, "&amp;");
        } else if c == '<' {
            push_str(&mut out, "&lt;");
        } else if c == '>' {
            push_str(&mut out, "&gt;");
        } else if c == '"' {
            push_str(&mut out, "&quot;");
        } else if c == '\'' {
            push_str(&mut out, "&apos;");
        } else {
            push_char(&mut out, c);
        }
        proof {
            let t = cs@.take(i + 1);
            assert(t.drop_last() =~= cs@.take(i as int));
            assert(out@ =~= xml_escaped(t));
        }
        i = i + 1;
    }
    assert(cs@.take(cs.len() as int) =~= cs@);
    out
}

/// Little-endian bytes of a `u16`.
pub open spec fn le16(x: u16) -> Seq<u8> {
    seq![(x % 256) as u8, (x / 256) as u8]
}

/// Little-endian bytes of a `u32`.
pub open spec fn le32(x: u32) -> Seq<u8> {
    seq![(x % 256) as u8, ((x / 256) % 256) as u8, ((x / 65536) % 256) as u8, (x / 16777216) as u8]
}

/// Append the little-endian bytes of a `u16`.
fn push_le16(out: &mut Vec<u8>, x: u16)
    ensures
        final(out)@ == old(out)@ + le16(x),
{
    out.push((x % 256) as u8);
    out.push((x / 256) as u8);
    assert(out@ =~= old(out)@ + le16(x));
}

/// Append the little-endian bytes of a `u32`.
fn push_le32(out: &mut Vec<u8>, x: u32)
    ensures
        final(out)@ == old(out)@ + le32(x),
{
    out.push((x % 256) as u8);
    out.push(((x / 256) % 256) as u8);
    out.push(((x / 65536) % 256) as u8);
    out.push((x / 16777216) as u8);
    assert(out@ =~= old(out)@ + le32(x));
}

/// Append `n` zero bytes.
fn push_zeros(out: &mut Vec<u8>, n: usize)
    ensures
        final(out)@ == old(out)@ + Seq::new(n as nat, |i: int| 0u8),
{
    let mut i: usize = 0;
    while i < n
        invariant
            i <= n,
            out@ == old(out)@ + Seq::new(i as nat, |k: int| 0u8),
        decreases n - i,
    {
        out.push(0u8);
        i = i + 1;
        assert(out@ =~= old(out)@ + Seq::new(i as nat, |k: int| 0u8));
    }
}

/// Append every byte of `b`.
fn push_bytes(out: &mut Vec<u8>, b: &[u8])
    ensures
        final(out)@ == old(out)@ + b@,
{
    let mut i: usize = 0;
    while i < b.len()
        invariant
            i <= b.len(),
            out@ == old(out)@ + b@.take(i as int),
        decreases b.len() - i,
    {
        out.push(b[i]);
        i = i + 1;
        assert(out@ =~= old(out)@ + b@.take(i as int));
    }
    assert(b@.take(b.len() as int) =~= b@);
}

/// A part's local file header (`PK\x03\x04`, stored, no timestamps) followed by its data.
pub open spec fn local_entry(name: Seq<u8>, data: Seq<u8>) -> Seq<u8> {
    le32(0x0403_4b50u32) + seq![20u8, 0u8, 0u8, 0u8, 0u8, 0u8, 0u8, 0u8, 0u8, 0u8] + le32(
        crc32_of(data),
    ) + le32(data.len() as u32) + le32(data.len() as u32) + le16(name.len() as u16) + le16(0u16)
        + name + data
}

/// A part's central-directory record (`PK\x01\x02`), pointing at its local header.
pub open spec fn central_entry(name: Seq<u8>, data: Seq<u8>, offset: u32) -> Seq<u8> {
    le32(0x0201_4b50u32) + seq![20u8, 0u8, 20u8, 0u8, 0u8, 0u8, 0u8, 0u8, 0u8, 0u8, 0u8, 0u8]
        + le32(crc32_of(data)) + le32(data.len() as u32) + le32(data.len() as u32) + le16(
        name.len() as u16,
    ) + Seq::new(8, |i: int| 0u8) + le32(0u32) + le32(offset) + name
}

/// The local entries of the parts, in order.
pub open spec fn local_entries(parts: Seq<(Seq<u8>, Seq<u8>)>) -> Seq<u8>
    decreases parts.len(),
{
    if parts.len() == 0 {
        Seq::empty()
    } else {
        local_entries(parts.drop_last()) + local_entry(parts.last().0, parts.last().1)
    }
}

/// The central directory: one record per part, each with its local entry's offset.
pub open spec fn central_entries(parts: Seq<(Seq<u8>, Seq<u8>)>) -> Seq<u8>
    decreases parts.len(),
{
    if parts.len() == 0 {
        Seq::empty()
    } else {
        central_entries(parts.drop_last()) + central_entry(
            parts.last().0,
            parts.last().1,
            local_entries(parts.drop_last()).len() as u32,
        )
    }
}

/// A stored ZIP archive of `parts` (name bytes, data): the local entries, the central
/// directory, and the end-of-central-directory record (`PK\x05\x06`).
pub open spec fn zip_archive(parts: Seq<(Seq<u8>, Seq<u8>)>) -> Seq<u8> {
    local_entries(parts) + central_entries(parts) + end_of_directory(
        parts.len() as u16,
        central_entries(parts).len() as u32,
        local_entries(parts).len() as u32,
    )
}

/// The end-of-central-directory record (`PK\x05\x06`): the entry count, and the size
/// and offset of the central directory.
pub open spec fn end_of_directory(count: u16, cd_len: u32, cd_offset: u32) -> Seq<u8> {
    le32(0x0605_4b50u32) + seq![0u8, 0u8, 0u8, 0u8] + le16(count) + le16(count) + le32(cd_len)
        + le32(cd_offset) + le16(0u16)
}

/// The parts as the archive sees them: the UTF-8 bytes of each name, and the data.
pub open spec fn zip_parts(parts: Seq<(&str, Vec<u8>)>) -> Seq<(Seq<u8>, Seq<u8>)> {
    parts.map_values(|p: (&str, Vec<u8>)| (encode_utf8(p.0@), p.1@))
}

/// Package parts into a minimal stored (method 0) ZIP, enough for a valid `.docx`.
#[verifier::rlimit(40)]
#[verifier::spinoff_prover]
pub fn zip_stored(parts: &[(&str, Vec<u8>)]) -> (r: Vec<u8>)
    ensures
        r@ == zip_archive(zip_parts(parts@)),
{
    let ghost zp = zip_parts(parts@);
    let mut out: Vec<u8> = Vec::new();
    let mut central: Vec<u8> = Vec::new();
    let mut i: usize = 0;
    while i < parts.len()
        invariant
            i <= parts.len(),
            zp == zip_parts(parts@),
            out@ == local_entries(zp.take(i as int)),
            central@ == central_entries(zp.take(i as int)),
        decreases parts.len() - i,
    {
        let name: &str = parts[i].0;
        let data: &Vec<u8> = &parts[i].1;
        let crc = crc32(data.as_slice());
        #[verifier::truncate]
        let size = data.len() as u32;
        #[verifier::truncate]
        let offset = out.len() as u32;
        let name_bytes = utf8_bytes(name);
        #[verifier::truncate]
        let name_len = name_bytes.len() as u16;
        let ghost out0 = out@;
        let ghost central0 = central@;
        push_le32(&mut out, 0x0403_4b50u32);
        out.push(20u8);
        push_zeros(&mut out, 9);
        push_le32(&mut out, crc);
        push_le32(&mut out, size);
        push_le32(&mut out, size);
        push_le16(&mut out, name_len);
        push_le16(&mut out, 0u16);
        push_bytes(&mut out, name_bytes.as_slice());
        push_bytes(&mut out, data.as_slice());
        push_le32(&mut central, 0x0201_4b50u32);
        central.push(20u8);
        central.push(0u8);
        central.push(20u8);
        push_zeros(&mut central, 9);
        push_le32(&mut central, crc);
        push_le32(&mut central, size);
        push_le32(&mut central, size);
        push_le16(&mut central, name_len);
        push_zeros(&mut central, 8);
        push_le32(&mut central, 0u32);
        push_le32(&mut central, offset);
        push_bytes(&mut central, name_bytes.as_slice());
        proof {
            let t = zp.take(i + 1);
            assert(t.drop_last() =~= zp.take(i as int));
            assert(t.last() == (encode_utf8(name@), data@));
            assert(seq![20u8] + Seq::new(9, |k: int| 0u8) =~= seq![
                20u8,
                0u8,
                0u8,
                0u8,
                0u8,
                0u8,
                0u8,
                0u8,
                0u8,
                0u8,
            ]);
            assert(seq![20u8, 0u8, 20u8] + Seq::new(9, |k: int| 0u8) =~= seq![
                20u8,
                0u8,
                20u8,
                0u8,
                0u8,
                0u8,
                0u8,
                0u8,
                0u8,
                0u8,
                0u8,
                0u8,
            ]);
            assert(out@ =~= out0 + local_entry(encode_utf8(name@), data@));
            assert(central@ =~= central0 + central_entry(encode_utf8(name@), data@, offset));
        }
        i = i + 1;
    }
    assert(zp.take(parts.len() as int) =~= zp);
    #[verifier::truncate]
    let cd_offset = out.len() as u32;
    #[verifier::truncate]
    let cd_len = central.len() as u32;
    #[verifier::truncate]
    let count = parts.len() as u16;
    let ghost locals = out@;
    push_bytes(&mut out, central.as_slice());
    push_le32(&mut out, 0x0605_4b50u32);
    push_zeros(&mut out, 4);
    push_le16(&mut out, count);
    push_le16(&mut out, count);
    push_le32(&mut out, cd_len);
    push_le32(&mut out, cd_offset);
    push_le16(&mut out, 0u16);
    assert(Seq::new(4, |k: int| 0u8) =~= seq![0u8, 0u8, 0u8, 0u8]);
    assert(out@ =~= locals + central@ + end_of_directory(count, cd_len, cd_offset));
    out
}

/// The `[Content_Types].xml` part.
pub const CONTENT_TYPES: &'static str = r#"<?xml version="1.0" encoding="UTF-8" standalone="yes"?>
<Types xmlns="http://schemas.openxmlformats.org/package/2006/content-types"><Default Extension="rels" ContentType="application/vnd.openxmlformats-package.relationships+xml"/><Default Extension="xml" ContentType="application/xml"/><Override PartName="/word/document.xml" ContentType="application/vnd.openxmlformats-officedocument.wordprocessingml.document.main+xml"/></Types>"#;

/// The `_rels/.rels` part.
pub const RELS: &'static str = r#"<?xml version="1.0" encoding="UTF-8" standalone="yes"?>
<Relationships xmlns="http://schemas.openxmlformats.org/package/2006/relationships"><Relationship Id="rId1" Type="http://schemas.openxmlformats.org/officeDocument/2006/relationships/officeDocument" Target="word/document.xml"/></Relationships>"#;

/// The opening of `word/document.xml`, up to the body.
pub const DOCUMENT_HEAD: &'static str = r#"<?xml version="1.0" encoding="UTF-8" standalone="yes"?>
<w:document xmlns:w="http://schemas.openxmlformats.org/wordprocessingml/2006/main"><w:body>"#;

/// One Word paragraph holding `line`, escaped.
pub open spec fn paragraph(line: Seq<char>) -> Seq<char> {
    "<w:p><w:r><w:t xml:space=\"preserve\">"@ + xml_escaped(line) + "</w:t></w:r></w:p>"@
}

/// The paragraphs of the lines, in order.
pub open spec fn paragraphs(lines: Seq<Seq<char>>) -> Seq<char>
    decreases lines.len(),
{
    if lines.len() == 0 {
        Seq::empty()
    } else {
        paragraphs(lines.drop_last()) + paragraph(lines.last())
    }
}

/// `word/document.xml` for a report: one paragraph per line.
pub open spec fn document_xml(report: Seq<char>) -> Seq<char> {
    DOCUMENT_HEAD@ + paragraphs(text_lines(report)) + "</w:body></w:document>"@
}

/// The three parts of the `.docx` for a report.
pub open spec fn docx_parts(report: Seq<char>) -> Seq<(Seq<u8>, Seq<u8>)> {
    seq![
        (encode_utf8("[Content_Types].xml"@), encode_utf8(CONTENT_TYPES@)),
        (encode_utf8("_rels/.rels"@), encode_utf8(RELS@)),
        (encode_utf8("word/document.xml"@), encode_utf8(document_xml(report))),
    ]
}

/// Render the forensic report as a `.docx` byte stream.
pub fn render_docx(histories: &[DeviceHistory], findings: &[Finding]) -> (r: Vec<u8>)
    ensures
        r@ == zip_archive(docx_parts(report_text(views(histories@), views(findings@)))),
{
    let report = render_report(histories, findings);
    let lines = lines_of(report.as_str());
    let mut body = String::new();
    push_str(&mut body, DOCUMENT_HEAD);
    let ghost head = body@;
    let ghost ls = lines@.map_values(|l: Vec<char>| l@);
    let mut i: usize = 0;
    while i < lines.len()
        invariant
            i <= lines.len(),
            ls == lines@.map_values(|l: Vec<char>| l@),
            body@ == head + paragraphs(ls.take(i as int)),
        decreases lines.len() - i,
    {
        push_str(&mut body, "<w:p><w:r><w:t xml:space=\"preserve\">");
        let escaped = xml_escape_chars(&lines[i]);
        push_str(&mut body, escaped.as_str());
        push_str(&mut body, "</w:t></w:r></w:p>");
        proof {
            let t = ls.take(i + 1);
            assert(t.drop_last() =~= ls.take(i as int));
            assert(t.last() == lines@[i as int]@);
        }
        i = i + 1;
    }
    assert(ls.take(lines.len() as int) =~= ls);
    push_str(&mut body, "</w:body></w:document>");
    let mut parts: Vec<(&str, Vec<u8>)> = Vec::new();
    parts.push(("[Content_Types].xml", utf8_bytes(CONTENT_TYPES)));
    parts.push(("_rels/.rels", utf8_bytes(RELS)));
    parts.push(("word/document.xml", utf8_bytes(body.as_str())));
    assert(zip_parts(parts@) =~= docx_parts(report@));
    zip_stored(parts.as_slice())
}

/// The local entries of a non-empty part list open with the first part's local header.
proof fn lemma_local_entries_open_with_a_header(parts: Seq<(Seq<u8>, Seq<u8>)>)
    requires
        parts.len() > 0,
    ensures
        local_entries(parts).len() >= 4,
        local_entries(parts).take(4) == le32(0x0403_4b50u32),
    decreases parts.len(),
{
    let rest = parts.drop_last();
    let last = local_entry(parts.last().0, parts.last().1);
    if rest.len() == 0 {
        assert(local_entries(rest) =~= Seq::<u8>::empty());
        assert(local_entries(parts) =~= last);
        assert(last.take(4) =~= le32(0x0403_4b50u32));
    } else {
        lemma_local_entries_open_with_a_header(rest);
        assert(local_entries(parts).take(4) =~= local_entries(rest).take(4));
    }
}

/// The end record is 22 bytes long and opens with its signature.
proof fn lemma_end_of_directory_shape(count: u16, cd_len: u32, cd_offset: u32)
    ensures
        end_of_directory(count, cd_len, cd_offset).len() == 22,
        end_of_directory(count, cd_len, cd_offset).take(4) == seq![0x50u8, 0x4bu8, 5u8, 6u8],
{
    assert(le32(0x0605_4b50u32) =~= seq![0x50u8, 0x4bu8, 5u8, 6u8]);
    assert(end_of_directory(count, cd_len, cd_offset).take(4) =~= le32(0x0605_4b50u32));
}

/// A stored archive of at least one part begins with a local file header (`PK\x03\x04`),
/// and every archive ends with its 22-byte end-of-central-directory record (`PK\x05\x06`),
/// which is where a ZIP reader starts.
#[verifier::rlimit(60)]
#[verifier::spinoff_prover]
pub proof fn law_archive_is_framed_as_a_zip(parts: Seq<(Seq<u8>, Seq<u8>)>)
    ensures
        parts.len() > 0 ==> zip_archive(parts).take(4) == seq![0x50u8, 0x4bu8, 3u8, 4u8],
        zip_archive(parts).len() >= 22,
        zip_archive(parts).subrange(zip_archive(parts).len() - 22, zip_archive(parts).len() - 18)
            == seq![0x50u8, 0x4bu8, 5u8, 6u8],
{
    let locals = local_entries(parts);
    let body = locals + central_entries(parts);
    let tail = end_of_directory(
        parts.len() as u16,
        central_entries(parts).len() as u32,
        locals.len() as u32,
    );
    let z = zip_archive(parts);
    assert(z == body + tail);
    lemma_end_of_directory_shape(
        parts.len() as u16,
        central_entries(parts).len() as u32,
        locals.len() as u32,
    );
    assert(z.subrange(z.len() - 22, z.len() - 18) =~= tail.take(4));
    if parts.len() > 0 {
        lemma_local_entries_open_with_a_header(parts);
        assert(z.take(4) =~= locals.take(4));
        assert(le32(0x0403_4b50u32) =~= seq![0x50u8, 0x4bu8, 3u8, 4u8]);
    }
}

/// Every report, whatever it holds, is packaged as a ZIP with three parts: it opens
/// with a local file header and closes with the end-of-central-directory record.
pub proof fn law_docx_is_a_zip(report: Seq<char>)
    ensures
        ({
            let z = zip_archive(docx_parts(report));
            &&& z.take(4) == seq![0x50u8, 0x4bu8, 3u8, 4u8]
            &&& z.len() >= 22
            &&& z.subrange(z.len() - 22, z.len() - 18) == seq![0x50u8, 0x4bu8, 5u8, 6u8]
        }),
{
    law_archive_is_framed_as_a_zip(docx_parts(report));
}

/// Escaped text holds none of the characters that open or close XML markup or an
/// attribute value, so evidence text can never change the document's structure.
pub proof fn law_escaped_text_holds_no_markup(t: Seq<char>)
    ensures
        forall|i: int|
            0 <= i < xml_escaped(t).len() ==> {
                let c = #[trigger] xml_escaped(t)[i];
                c != '<' && c != '>' && c != '"' && c != '\''
            },
    decreases t.len(),
{
    if t.len() > 0 {
        law_escaped_text_holds_no_markup(t.drop_last());
        reveal_strlit("&amp;");
        reveal_strlit("&lt;");
        reveal_strlit("&gt;");
        reveal_strlit("&quot;");
        reveal_strlit("&apos;");
        let head = xml_escaped(t.drop_last());
        let last = xml_char(t.last());
        assert(xml_escaped(t) == head + last);
        assert forall|i: int| 0 <= i < xml_escaped(t).len() implies {
            let c = #[trigger] xml_escaped(t)[i];
            c != '<' && c != '>' && c != '"' && c != '\''
        } by {
            if i >= head.len() {
                assert(xml_escaped(t)[i] == last[i - head.len()]);
            } else {
                assert(xml_escaped(t)[i] == head[i]);
            }
        }
    }
}

/// `x` occurs somewhere in `s`.
pub open spec fn holds_at_some_offset(x: Seq<char>, s: Seq<char>) -> bool {
    exists|p: int| 0 <= p && p + x.len() <= s.len() && #[trigger] s.subrange(p, p + x.len()) == x
}

/// Each line has its paragraph among the paragraphs.
proof fn lemma_paragraph_of_each_line(lines: Seq<Seq<char>>, k: int)
    requires
        0 <= k < lines.len(),
    ensures
        holds_at_some_offset(paragraph(lines[k]), paragraphs(lines)),
    decreases lines.len(),
{
    let head = paragraphs(lines.drop_last());
    let last = paragraph(lines.last());
    if k == lines.len() - 1 {
        let p: int = head.len() as int;
        assert(paragraphs(lines).subrange(p, p + last.len()) =~= last);
    } else {
        lemma_paragraph_of_each_line(lines.drop_last(), k);
        assert(lines.drop_last()[k] == lines[k]);
        let x = paragraph(lines[k]);
        let p = choose|p: int| 0 <= p && p + x.len() <= head.len() && #[trigger] head.subrange(p, p + x.len()) == x;
        assert(paragraphs(lines).subrange(p, p + x.len()) =~= head.subrange(p, p + x.len()));
    }
}

/// Each line of the report becomes a Word paragraph of `word/document.xml`, its text
/// escaped.
pub proof fn law_every_report_line_is_a_paragraph(report: Seq<char>, k: int)
    requires
        0 <= k < text_lines(report).len(),
    ensures
        holds_at_some_offset(paragraph(text_lines(report)[k]), document_xml(report)),
{
    let lines = text_lines(report);
    let x = paragraph(lines[k]);
    lemma_paragraph_of_each_line(lines, k);
    let body = paragraphs(lines);
    let p = choose|p: int| 0 <= p && p + x.len() <= body.len() && #[trigger] body.subrange(p, p + x.len()) == x;
    let q = DOCUMENT_HEAD@.len() + p;
    assert(document_xml(report).subrange(q, q + x.len()) =~= body.subrange(p, p + x.len()));
}

/// The little-endian 16-bit number at `i`.
pub open spec fn u16_at(b: Seq<u8>, i: int) -> int {
    b[i] + 256 * b[i + 1]
}

/// The little-endian 32-bit number at `i`.
pub open spec fn u32_at(b: Seq<u8>, i: int) -> int {
    b[i] + 256 * b[i + 1] + 65536 * b[i + 2] + 16777216 * b[i + 3]
}

/// The name and data of the local entry at the start of `b`, as a ZIP reader takes them:
/// the name length from offset 26, the stored size from offset 18, the name from offset
/// 30 and the data after it; and the bytes the entry spans.
pub open spec fn read_local_entry(b: Seq<u8>) -> (Seq<u8>, Seq<u8>, int) {
    let nl = u16_at(b, 26);
    let dl = u32_at(b, 18);
    (b.subrange(30, 30 + nl), b.subrange(30 + nl, 30 + nl + dl), 30 + nl + dl)
}

/// The first `n` local entries of `b`, read one after the other from its start.
pub open spec fn read_local_entries(b: Seq<u8>, n: nat) -> Seq<(Seq<u8>, Seq<u8>)>
    decreases n,
{
    if n == 0 {
        Seq::empty()
    } else {
        let (name, data, used) = read_local_entry(b);
        if used <= 0 || used > b.len() {
            seq![(name, data)]
        } else {
            seq![(name, data)] + read_local_entries(b.skip(used), (n - 1) as nat)
        }
    }
}

/// The entry count the end record states (offset 10 of the 22-byte record).
pub open spec fn stated_entry_count(z: Seq<u8>) -> int {
    u16_at(z, z.len() - 12)
}

/// Every part fits a stored ZIP entry: its name in 16 bits and its data in 32.
pub open spec fn parts_fit(parts: Seq<(Seq<u8>, Seq<u8>)>) -> bool {
    &&& parts.len() < 65536
    &&& forall|i: int| 0 <= i < parts.len() ==> (#[trigger] parts[i]).0.len() < 65536 && parts[i].1.len() < 0x1_0000_0000
}

/// A little-endian 16-bit number reads back.
proof fn lemma_le16_reads_back(x: u16, b: Seq<u8>, i: int)
    requires
        0 <= i,
        i + 2 <= b.len(),
        b.subrange(i, i + 2) == le16(x),
    ensures
        u16_at(b, i) == x,
{
    assert(b[i] == le16(x)[0] && b[i + 1] == le16(x)[1]);
}

/// A little-endian 32-bit number reads back.
proof fn lemma_le32_reads_back(x: u32, b: Seq<u8>, i: int)
    requires
        0 <= i,
        i + 4 <= b.len(),
        b.subrange(i, i + 4) == le32(x),
    ensures
        u32_at(b, i) == x,
{
    assert(b[i] == le32(x)[0] && b[i + 1] == le32(x)[1] && b[i + 2] == le32(x)[2] && b[i + 3] == le32(x)[3]);
}

/// A local entry followed by anything reads back as its name and data.
#[verifier::rlimit(60)]
#[verifier::spinoff_prover]
proof fn lemma_local_entry_reads_back(name: Seq<u8>, data: Seq<u8>, rest: Seq<u8>)
    requires
        name.len() < 65536,
        data.len() < 0x1_0000_0000,
    ensures
        read_local_entry(local_entry(name, data) + rest) == (name, data, local_entry(name, data).len() as int),
        local_entry(name, data).len() == 30 + name.len() + data.len(),
{
    let e = local_entry(name, data);
    let b = e + rest;
    let nl = name.len() as u16;
    let dl = data.len() as u32;
    assert(e.len() == 30 + name.len() + data.len());
    assert(b.subrange(26, 28) =~= le16(nl));
    assert(b.subrange(18, 22) =~= le32(dl));
    lemma_le16_reads_back(nl, b, 26);
    lemma_le32_reads_back(dl, b, 18);
    let n: int = name.len() as int;
    let d: int = data.len() as int;
    assert(b.subrange(30, 30 + n) =~= name);
    assert(b.subrange(30 + n, 30 + n + d) =~= data);
}

/// The local entries, taken from the front: the first part's entry, then the rest's.
#[verifier::rlimit(60)]
#[verifier::spinoff_prover]
proof fn lemma_local_entries_from_front(parts: Seq<(Seq<u8>, Seq<u8>)>)
    requires
        parts.len() > 0,
    ensures
        local_entries(parts) == local_entry(parts[0].0, parts[0].1) + local_entries(parts.skip(1)),
    decreases parts.len(),
{
    if parts.len() == 1 {
        assert(parts.drop_last() =~= Seq::<(Seq<u8>, Seq<u8>)>::empty());
        assert(parts.skip(1) =~= Seq::<(Seq<u8>, Seq<u8>)>::empty());
        assert(local_entries(parts) =~= local_entry(parts[0].0, parts[0].1) + local_entries(parts.skip(1)));
    } else {
        lemma_local_entries_from_front(parts.drop_last());
        assert(parts.drop_last().skip(1) =~= parts.skip(1).drop_last());
        assert(parts.skip(1).last() == parts.last());
        assert(parts.drop_last()[0] == parts[0]);
        let first = local_entry(parts[0].0, parts[0].1);
        let last = local_entry(parts.last().0, parts.last().1);
        assert(first + local_entries(parts.skip(1).drop_last()) + last =~= first + (local_entries(
            parts.skip(1).drop_last(),
        ) + last));
    }
}

/// The local entries, followed by anything, read back as the parts.
#[verifier::rlimit(60)]
#[verifier::spinoff_prover]
proof fn lemma_local_entries_read_back(parts: Seq<(Seq<u8>, Seq<u8>)>, rest: Seq<u8>)
    requires
        parts_fit(parts),
    ensures
        read_local_entries(local_entries(parts) + rest, parts.len()) == parts,
    decreases parts.len(),
{
    if parts.len() > 0 {
        lemma_local_entries_from_front(parts);
        let first = local_entry(parts[0].0, parts[0].1);
        let tail = local_entries(parts.skip(1)) + rest;
        assert(parts[0].0.len() < 65536 && parts[0].1.len() < 0x1_0000_0000);
        lemma_local_entry_reads_back(parts[0].0, parts[0].1, tail);
        let b = local_entries(parts) + rest;
        assert(b =~= first + tail);
        assert(b.skip(first.len() as int) =~= tail);
        let sub = parts.skip(1);
        assert forall|i: int| 0 <= i < sub.len() implies (#[trigger] sub[i]).0.len() < 65536 && sub[i].1.len()
            < 0x1_0000_0000 by {
            assert(sub[i] == parts[i + 1]);
        }
        lemma_local_entries_read_back(sub, rest);
        assert(seq![(parts[0].0, parts[0].1)] + sub =~= parts);
    }
}

/// Reading the archive back gives the parts: a reader that takes the entry count from
/// the end record and walks the local entries from the start finds every part's name and
/// data, in order.
#[verifier::rlimit(60)]
#[verifier::spinoff_prover]
pub proof fn law_archive_reads_back(parts: Seq<(Seq<u8>, Seq<u8>)>)
    requires
        parts_fit(parts),
    ensures
        stated_entry_count(zip_archive(parts)) == parts.len(),
        read_local_entries(zip_archive(parts), parts.len()) == parts,
{
    let z = zip_archive(parts);
    let count = parts.len() as u16;
    let tail = central_entries(parts) + end_of_directory(
        count,
        central_entries(parts).len() as u32,
        local_entries(parts).len() as u32,
    );
    assert(z =~= local_entries(parts) + tail);
    lemma_local_entries_read_back(parts, tail);
    let eocd = end_of_directory(count, central_entries(parts).len() as u32, local_entries(parts).len() as u32);
    assert(eocd.len() == 22);
    assert(eocd.subrange(10, 12) =~= le16(count));
    assert(z.subrange(z.len() - 12, z.len() - 10) =~= eocd.subrange(10, 12));
    lemma_le16_reads_back(count, z, z.len() - 12);
}

/// The compression method and checksum of the first `n` local entries of `b`, read one
/// after the other from its start (method at offset 8, CRC-32 at offset 14).
pub open spec fn read_local_headers(b: Seq<u8>, n: nat) -> Seq<(int, int)>
    decreases n,
{
    if n == 0 {
        Seq::empty()
    } else {
        let (name, data, used) = read_local_entry(b);
        if used <= 0 || used > b.len() {
            seq![(u16_at(b, 8), u32_at(b, 14))]
        } else {
            seq![(u16_at(b, 8), u32_at(b, 14))] + read_local_headers(b.skip(used), (n - 1) as nat)
        }
    }
}

/// The bytes the local entries of the parts take: 30 header bytes, the name and the data.
pub open spec fn local_size(parts: Seq<(Seq<u8>, Seq<u8>)>) -> int
    decreases parts.len(),
{
    if parts.len() == 0 {
        0
    } else {
        local_size(parts.drop_last()) + 30 + parts.last().0.len() + parts.last().1.len()
    }
}

/// The bytes the central directory takes: 46 bytes and the name per part.
pub open spec fn central_size(parts: Seq<(Seq<u8>, Seq<u8>)>) -> int
    decreases parts.len(),
{
    if parts.len() == 0 {
        0
    } else {
        central_size(parts.drop_last()) + 46 + parts.last().0.len()
    }
}

/// A local entry is stored (method 0) and carries its data's CRC-32.
proof fn lemma_local_entry_header(name: Seq<u8>, data: Seq<u8>, rest: Seq<u8>)
    ensures
        u16_at(local_entry(name, data) + rest, 8) == 0,
        u32_at(local_entry(name, data) + rest, 14) == crc32_of(data),
{
    let b = local_entry(name, data) + rest;
    assert(b.subrange(14, 18) =~= le32(crc32_of(data)));
    lemma_le32_reads_back(crc32_of(data), b, 14);
    assert(b[8] == 0 && b[9] == 0);
}

/// The local entries, followed by anything, read back as stored entries with their
/// data's checksums.
#[verifier::rlimit(60)]
#[verifier::spinoff_prover]
proof fn lemma_local_headers_read_back(parts: Seq<(Seq<u8>, Seq<u8>)>, rest: Seq<u8>)
    requires
        parts_fit(parts),
    ensures
        read_local_headers(local_entries(parts) + rest, parts.len()) == parts.map_values(
            |p: (Seq<u8>, Seq<u8>)| (0int, crc32_of(p.1) as int),
        ),
    decreases parts.len(),
{
    let want = parts.map_values(|p: (Seq<u8>, Seq<u8>)| (0int, crc32_of(p.1) as int));
    if parts.len() == 0 {
        assert(want =~= Seq::<(int, int)>::empty());
    } else {
        lemma_local_entries_from_front(parts);
        let first = local_entry(parts[0].0, parts[0].1);
        let tail = local_entries(parts.skip(1)) + rest;
        assert(parts[0].0.len() < 65536 && parts[0].1.len() < 0x1_0000_0000);
        lemma_local_entry_reads_back(parts[0].0, parts[0].1, tail);
        lemma_local_entry_header(parts[0].0, parts[0].1, tail);
        let b = local_entries(parts) + rest;
        assert(b =~= first + tail);
        assert(b.skip(first.len() as int) =~= tail);
        let sub = parts.skip(1);
        assert forall|i: int| 0 <= i < sub.len() implies (#[trigger] sub[i]).0.len() < 65536 && sub[i].1.len()
            < 0x1_0000_0000 by {
            assert(sub[i] == parts[i + 1]);
        }
        lemma_local_headers_read_back(sub, rest);
        assert(seq![(0int, crc32_of(parts[0].1) as int)] + sub.map_values(
            |p: (Seq<u8>, Seq<u8>)| (0int, crc32_of(p.1) as int),
        ) =~= want);
    }
}

/// The local entries and the central directory take the bytes their sizes say.
proof fn lemma_section_sizes(parts: Seq<(Seq<u8>, Seq<u8>)>)
    ensures
        local_entries(parts).len() == local_size(parts),
        central_entries(parts).len() == central_size(parts),
    decreases parts.len(),
{
    if parts.len() > 0 {
        lemma_section_sizes(parts.drop_last());
        let (n, d) = parts.last();
        assert(local_entry(n, d).len() == 30 + n.len() + d.len());
        assert(central_entry(n, d, local_entries(parts.drop_last()).len() as u32).len() == 46 + n.len());
    }
}

/// The stored layout: every entry is stored (method 0) with its data's CRC-32; the
/// archive is the local entries, the central directory and the 22-byte end record; and
/// the end record begins with its signature `PK\x05\x06` and states the entry count
/// twice, the directory's size, and its offset (where the local entries end).
#[verifier::rlimit(60)]
#[verifier::spinoff_prover]
pub proof fn law_archive_layout(parts: Seq<(Seq<u8>, Seq<u8>)>)
    requires
        parts_fit(parts),
        zip_archive(parts).len() < 0x1_0000_0000,
    ensures
        read_local_headers(zip_archive(parts), parts.len()) == parts.map_values(
            |p: (Seq<u8>, Seq<u8>)| (0int, crc32_of(p.1) as int),
        ),
        zip_archive(parts).len() == local_size(parts) + central_size(parts) + 22,
        u32_at(zip_archive(parts), zip_archive(parts).len() - 22) == 0x0605_4b50,
        u16_at(zip_archive(parts), zip_archive(parts).len() - 14) == parts.len(),
        u16_at(zip_archive(parts), zip_archive(parts).len() - 12) == parts.len(),
        u32_at(zip_archive(parts), zip_archive(parts).len() - 10) == central_size(parts),
        u32_at(zip_archive(parts), zip_archive(parts).len() - 6) == local_size(parts),
{
    let z = zip_archive(parts);
    let count = parts.len() as u16;
    let cd = central_entries(parts).len() as u32;
    let off = local_entries(parts).len() as u32;
    let eocd = end_of_directory(count, cd, off);
    let tail = central_entries(parts) + eocd;
    assert(z =~= local_entries(parts) + tail);
    lemma_local_headers_read_back(parts, tail);
    lemma_section_sizes(parts);
    assert(eocd.len() == 22);
    assert(z.len() == local_entries(parts).len() + central_entries(parts).len() + 22);
    let e = z.len() - 22;
    assert(z.subrange(e, e + 4) =~= le32(0x0605_4b50u32));
    assert(z.subrange(e + 8, e + 10) =~= le16(count));
    assert(z.subrange(e + 10, e + 12) =~= le16(count));
    assert(z.subrange(e + 12, e + 16) =~= le32(cd));
    assert(z.subrange(e + 16, e + 20) =~= le32(off));
    lemma_le32_reads_back(0x0605_4b50u32, z, e);
    lemma_le16_reads_back(count, z, e + 8);
    lemma_le16_reads_back(count, z, e + 10);
    lemma_le32_reads_back(cd, z, e + 12);
    lemma_le32_reads_back(off, z, e + 16);
}

} // verus!
