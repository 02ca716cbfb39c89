//! Human views: a readable results grid and a court-oriented Markdown report. The
//! machine view is the correlated histories themselves.
use crate::correlate::{CorrelatedAttribute, CorrelatedAttributeView, DeviceHistory, DeviceHistoryView, ProvenancedValue, ProvenancedValueView};
use crate::model::{consistency_label, Attribute, Consistency, Value, ValueView};
use crate::order::views;
use crate::report::{attribute_label, attribute_name, source_label, source_name, Finding, FindingView, Severity};
use crate::text::{chars_of, decimal, decimal_digit, zero_pad, div_rem_euclid, owned, padded_signed, push_char, push_count, push_padded, push_repeated, push_str};
use vstd::prelude::*;

verus! {

/// The proleptic Gregorian (year, month, day) of a day count since 1970-01-01
/// (Howard Hinnant's `civil_from_days`).
pub open spec fn civil_from_days(days: int) -> (int, int, int) {
    let z = days + 719468;
    let era = z / 146097;
    let doe = z - era * 146097;
    let yoe = (doe - doe / 1460 + doe / 36524 - doe / 146096) / 365;
    let year = yoe + era * 400;
    let doy = doe - (365 * yoe + yoe / 4 - yoe / 100);
    let mp = (5 * doy + 2) / 153;
    let day = doy - (153 * mp + 2) / 5 + 1;
    let month = if mp < 10 { mp + 3 } else { mp - 9 };
    (if month <= 2 { year + 1 } else { year }, month, day)
}

/// Within one 400-year era, the year of the era and the day of that year are in range.
proof fn lemma_day_of_era_in_range(doe: int)
    requires
        0 <= doe < 146097,
    ensures
        ({
            let yoe = (doe - doe / 1460 + doe / 36524 - doe / 146096) / 365;
            let doy = doe - (365 * yoe + yoe / 4 - yoe / 100);
            0 <= yoe <= 399 && 0 <= doy <= 365
        }),
{
}

/// Every day count names a real calendar date: the month is 1 to 12 and the day 1 to 31.
pub proof fn law_calendar_fields_in_range(days: int)
    ensures
        1 <= civil_from_days(days).1 <= 12,
        1 <= civil_from_days(days).2 <= 31,
{
    let z = days + 719468;
    let era = z / 146097;
    let doe = z - era * 146097;
    vstd::arithmetic::div_mod::lemma_fundamental_div_mod(z, 146097);
    assert(doe == z % 146097);
    lemma_day_of_era_in_range(doe);
}

/// Every timestamp, before 1970 too, renders a real time of day: hours 0 to 23, minutes
/// and seconds 0 to 59, on a real calendar date.
pub proof fn law_epoch_fields_in_range(secs: int)
    ensures
        0 <= (secs % 86400) / 3600 <= 23,
        0 <= ((secs % 86400) % 3600) / 60 <= 59,
        0 <= (secs % 86400) % 60 <= 59,
        1 <= civil_from_days(secs / 86400).1 <= 12,
        1 <= civil_from_days(secs / 86400).2 <= 31,
{
    law_calendar_fields_in_range(secs / 86400);
}

/// `YYYY-MM-DD HH:MM:SS UTC` for an epoch-seconds timestamp.
pub open spec fn epoch_text(secs: int) -> Seq<char> {
    let days = secs / 86400;
    let tod = secs % 86400;
    let (year, month, day) = civil_from_days(days);
    padded_signed(year, 4) + seq!['-'] + padded_signed(month, 2) + seq!['-'] + padded_signed(day, 2)
        + seq![' '] + padded_signed(tod / 3600, 2) + seq![':'] + padded_signed((tod % 3600) / 60, 2)
        + seq![':'] + padded_signed(tod % 60, 2) + " UTC"@
}

/// The calendar date of a day count, computed.
fn civil(days: i64) -> (r: (i64, i64, i64))
    requires
        -200000000000000 <= days <= 200000000000000,
    ensures
        (r.0 as int, r.1 as int, r.2 as int) == civil_from_days(days as int),
{
    let z = days + 719468;
    let (era, doe) = div_rem_euclid(z, 146097);
    proof {
        vstd::arithmetic::div_mod::lemma_fundamental_div_mod(z as int, 146097);
        if era > 2000000000 {
            vstd::arithmetic::mul::lemma_mul_inequality(2000000001, era as int, 146097);
            assert(false);
        }
        if era < -2000000000 {
            vstd::arithmetic::mul::lemma_mul_inequality(era as int, -2000000001, 146097);
            assert(false);
        }
        assert(doe == z - era * 146097);
    }
    let yoe = (doe - doe / 1460 + doe / 36524 - doe / 146096) / 365;
    let year = yoe + era * 400;
    let doy = doe - (365 * yoe + yoe / 4 - yoe / 100);
    let mp = (5 * doy + 2) / 153;
    let day = doy - (153 * mp + 2) / 5 + 1;
    let month = if mp < 10 { mp + 3 } else { mp - 9 };
    let year = if month <= 2 { year + 1 } else { year };
    (year, month, day)
}

/// Format a Unix-epoch-seconds timestamp as `YYYY-MM-DD HH:MM:SS UTC`, for any `i64`.
pub fn format_epoch(secs: i64) -> (r: String)
    ensures
        r@ == epoch_text(secs as int),
{
    let (days, tod) = div_rem_euclid(secs, 86400);
    proof {
        vstd::arithmetic::div_mod::lemma_fundamental_div_mod(secs as int, 86400);
        assert(-200000000000000 <= days <= 200000000000000) by (nonlinear_arith)
            requires
                secs == 86400 * days + tod,
                0 <= tod < 86400,
                i64::MIN <= secs <= i64::MAX;
    }
    let hour = tod / 3600;
    let min = (tod % 3600) / 60;
    let sec = tod % 60;
    let (year, month, day) = civil(days);
    let mut out = String::new();
    push_padded(&mut out, year, 4);
    push_char(&mut out, '-');
    push_padded(&mut out, month, 2);
    push_char(&mut out, '-');
    push_padded(&mut out, day, 2);
    push_char(&mut out, ' ');
    push_padded(&mut out, hour, 2);
    push_char(&mut out, ':');
    push_padded(&mut out, min, 2);
    push_char(&mut out, ':');
    push_padded(&mut out, sec, 2);
    push_str(&mut out, " UTC");
    assert(out@ =~= epoch_text(secs as int));
    out
}

/// `t` left-aligned in a field of `w` characters (`{:<w}`).
pub open spec fn pad_right(t: Seq<char>, w: nat) -> Seq<char> {
    if t.len() < w {
        t + Seq::new((w - t.len()) as nat, |i: int| ' ')
    } else {
        t
    }
}

/// Append `t` left-aligned in a field of `w` characters.
fn push_left_aligned(out: &mut String, t: &str, w: usize)
    ensures
        final(out)@ == old(out)@ + pad_right(t@, w as nat),
{
    let cs = chars_of(t);
    push_str(out, t);
    if cs.len() < w {
        push_repeated(out, ' ', w - cs.len());
    }
    assert(out@ =~= old(out)@ + pad_right(t@, w as nat));
}

/// The human rendering of a value: a formatted timestamp, or the text itself.
pub open spec fn value_text(v: ValueView) -> Seq<char> {
    match v {
        ValueView::Timestamp(t) => epoch_text(t as int),
        ValueView::Text(s) => s,
    }
}

/// The human rendering of a value.
fn render_value(value: &Value) -> (r: String)
    ensures
        r@ == value_text(value@),
{
    match value {
        Value::Timestamp(secs) => format_epoch(*secs),
        Value::Text(text) => owned(text.as_str()),
    }
}

/// The values of an attribute, rendered and joined with `", "`.
pub open spec fn joined_values(vals: Seq<ProvenancedValueView>) -> Seq<char>
    decreases vals.len(),
{
    if vals.len() == 0 {
        Seq::empty()
    } else if vals.len() == 1 {
        value_text(vals[0].value)
    } else {
        joined_values(vals.drop_last()) + ", "@ + value_text(vals.last().value)
    }
}

/// One grid line: `  {attribute:<16} {consistency:<13} {values}`.
pub open spec fn table_line(ca: CorrelatedAttributeView) -> Seq<char> {
    "  "@ + pad_right(attribute_name(ca.attribute), 16) + " "@ + pad_right(
        consistency_label(ca.consistency),
        13,
    ) + " "@ + joined_values(ca.values) + "\n"@
}

/// The grid lines of a device's attributes, in order.
pub open spec fn table_lines(cas: Seq<CorrelatedAttributeView>) -> Seq<char>
    decreases cas.len(),
{
    if cas.len() == 0 {
        Seq::empty()
    } else {
        table_lines(cas.drop_last()) + table_line(cas.last())
    }
}

/// One device block of the grid.
pub open spec fn table_block(h: DeviceHistoryView) -> Seq<char> {
    "Device: "@ + h.device + "\n"@ + table_lines(h.attributes)
}

/// The whole grid: one block per device, in order.
pub open spec fn table_text(hs: Seq<DeviceHistoryView>) -> Seq<char>
    decreases hs.len(),
{
    if hs.len() == 0 {
        Seq::empty()
    } else {
        table_text(hs.drop_last()) + table_block(hs.last())
    }
}

/// Append the rendered values of an attribute, joined with `", "`.
fn push_joined_values(out: &mut String, vals: &Vec<ProvenancedValue>)
    ensures
        final(out)@ == old(out)@ + joined_values(views(vals@)),
{
    let mut i: usize = 0;
    while i < vals.len()
        invariant
            i <= vals.len(),
            out@ == old(out)@ + joined_values(views(vals@).take(i as int)),
        decreases vals.len() - i,
    {
        let ghost before = out@;
        if i > 0 {
            push_str(out, ", ");
        }
        let text = render_value(&vals[i].value);
        push_str(out, text.as_str());
        proof {
            let s = views(vals@).take(i + 1);
            assert(s.drop_last() =~= views(vals@).take(i as int));
            assert(s.last() == vals@[i as int]@);
            if i == 0 {
                assert(out@ =~= old(out)@ + joined_values(s));
            } else {
                assert(out@ =~= old(out)@ + joined_values(s));
            }
        }
        i = i + 1;
    }
    assert(views(vals@).take(vals.len() as int) =~= views(vals@));
}

/// Append one grid line.
fn push_table_line(out: &mut String, ca: &CorrelatedAttribute)
    ensures
        final(out)@ == old(out)@ + table_line(ca@),
{
    push_str(out, "  ");
    push_left_aligned(out, attribute_label(ca.attribute), 16);
    push_str(out, " ");
    push_left_aligned(out, ca.consistency.label(), 13);
    push_str(out, " ");
    push_joined_values(out, &ca.values);
    push_str(out, "\n");
    assert(out@ =~= old(out)@ + table_line(ca@));
}

/// Render device histories as a human-readable results grid: one block per device,
/// each attribute on a line with its consistency label and every value rendered.
pub fn render_table(histories: &[DeviceHistory]) -> (r: String)
    ensures
        r@ == table_text(views(histories@)),
{
    let mut out = String::new();
    let mut i: usize = 0;
    while i < histories.len()
        invariant
            i <= histories.len(),
            out@ == table_text(views(histories@).take(i as int)),
        decreases histories.len() - i,
    {
        let history = &histories[i];
        let ghost before = out@;
        push_str(&mut out, "Device: ");
        push_str(&mut out, history.device.0.as_str());
        push_str(&mut out, "\n");
        let mut j: usize = 0;
        while j < history.attributes.len()
            invariant
                j <= history.attributes.len(),
                out@ == before + "Device: "@ + history.device.0@ + "\n"@ + table_lines(
                    views(history.attributes@).take(j as int),
                ),
            decreases history.attributes.len() - j,
        {
            push_table_line(&mut out, &history.attributes[j]);
            proof {
                let s = views(history.attributes@).take(j + 1);
                assert(s.drop_last() =~= views(history.attributes@).take(j as int));
            }
            j = j + 1;
        }
        proof {
            assert(views(history.attributes@).take(j as int) =~= views(history.attributes@));
            let s = views(histories@).take(i + 1);
            assert(s.drop_last() =~= views(histories@).take(i as int));
            assert(s.last() == histories@[i as int]@);
            assert(out@ =~= table_text(s));
        }
        i = i + 1;
    }
    assert(views(histories@).take(histories.len() as int) =~= views(histories@));
    out
}

/// `t` with every `|` escaped as `\|`, so it cannot break a Markdown table cell.
pub open spec fn cell_text(t: Seq<char>) -> Seq<char>
    decreases t.len(),
{
    if t.len() == 0 {
        Seq::empty()
    } else {
        cell_text(t.drop_last()) + if t.last() == '|' {
            seq!['\\', '|']
        } else {
            seq![t.last()]
        }
    }
}

/// Neutralize `|` so a value cannot break a Markdown table cell.
pub fn cell(text: &str) -> (r: String)
    ensures
        r@ == cell_text(text@),
{
    let cs = chars_of(text);
    let mut out = String::new();
    let mut i: usize = 0;
    while i < cs.len()
        invariant
            i <= cs.len(),
            out@ == cell_text(cs@.take(i as int)),
        decreases cs.len() - i,
    {
        if cs[i] == '|' {
            push_char(&mut out, '\\');
            push_char(&mut out, '|');
        } else {
            push_char(&mut out, cs[i]);
        }
        proof {
            let s = cs@.take(i + 1);
            assert(s.drop_last() =~= cs@.take(i as int));
            assert(out@ =~= cell_text(s));
        }
        i = i + 1;
    }
    assert(cs@.take(cs.len() as int) =~= cs@);
    out
}


/// One provenance row of the report: `| attribute | consistency | value | source | locator |`.
pub open spec fn report_row(a: Attribute, c: Consistency, pv: ProvenancedValueView) -> Seq<char> {
    "| "@ + attribute_name(a) + " | "@ + consistency_label(c) + " | "@ + cell_text(
        value_text(pv.value),
    ) + " | "@ + source_name(pv.provenance.source) + " | "@ + cell_text(pv.provenance.locator)
        + " |\n"@
}

/// The provenance rows of one attribute, one per value, in order.
pub open spec fn value_rows(a: Attribute, c: Consistency, vals: Seq<ProvenancedValueView>) -> Seq<
    char,
>
    decreases vals.len(),
{
    if vals.len() == 0 {
        Seq::empty()
    } else {
        value_rows(a, c, vals.drop_last()) + report_row(a, c, vals.last())
    }
}

/// The provenance rows of a device's attributes, in order.
pub open spec fn attribute_rows(cas: Seq<CorrelatedAttributeView>) -> Seq<char>
    decreases cas.len(),
{
    if cas.len() == 0 {
        Seq::empty()
    } else {
        attribute_rows(cas.drop_last()) + value_rows(
            cas.last().attribute,
            cas.last().consistency,
            cas.last().values,
        )
    }
}

/// One device section of the report: a heading and its provenance table.
pub open spec fn device_section(h: DeviceHistoryView) -> Seq<char> {
    "### Device: "@ + h.device + "\n\n"@ + "| Attribute | Consistency | Value | Source | Locator |\n"@
        + "|---|---|---|---|---|\n"@ + attribute_rows(h.attributes) + "\n"@
}

/// The device sections, in order.
pub open spec fn device_sections(hs: Seq<DeviceHistoryView>) -> Seq<char>
    decreases hs.len(),
{
    if hs.len() == 0 {
        Seq::empty()
    } else {
        device_sections(hs.drop_last()) + device_section(hs.last())
    }
}

/// The `{:?}` name of a severity.
pub open spec fn severity_name(s: Severity) -> Seq<char> {
    match s {
        Severity::Info => "Info"@,
        Severity::Low => "Low"@,
        Severity::Medium => "Medium"@,
        Severity::High => "High"@,
        Severity::Critical => "Critical"@,
    }
}

/// The `{:?}` rendering of an optional severity: `Some(Medium)` or `None`.
pub open spec fn optional_severity_text(o: Option<Severity>) -> Seq<char> {
    match o {
        Some(s) => "Some("@ + severity_name(s) + ")"@,
        None => "None"@,
    }
}

/// One finding bullet: `- **[severity] code** — note`.
pub open spec fn finding_line(f: FindingView) -> Seq<char> {
    "- **["@ + optional_severity_text(f.severity) + "] "@ + f.code + "** — "@ + f.note + "\n"@
}

/// The finding bullets, in order.
pub open spec fn finding_lines(fs: Seq<FindingView>) -> Seq<char>
    decreases fs.len(),
{
    if fs.len() == 0 {
        Seq::empty()
    } else {
        finding_lines(fs.drop_last()) + finding_line(fs.last())
    }
}

/// The findings section: the bullets, or a sentence saying there are none.
pub open spec fn findings_section(fs: Seq<FindingView>) -> Seq<char> {
    "## Findings\n\n"@ + if fs.len() == 0 {
        "No cross-source conflicts or corroborations surfaced.\n\n"@
    } else {
        finding_lines(fs) + "\n"@
    }
}

/// The executive summary sentence.
pub open spec fn summary_text(devices: nat, findings: nat) -> Seq<char> {
    "Reconstructed "@ + decimal(devices) + " device history record(s) from correlated evidence; "@
        + decimal(findings)
        + " finding(s) surfaced. Every reported value retains its source and locator. Findings are observations (\"consistent with\"), not conclusions.\n\n"@
}

/// The closing methodology and limitations note.
pub open spec fn methodology_text() -> Seq<char> {
    "## Methodology & Limitations\n\n"@
        + "- Values are graded by tamper-independent storage container: agreement across sources sharing one container is not counted as corroboration.\n- A conflict is reported as \"not consistent with\", never as proven tampering; every value is shown with its source so it can be independently verified.\n- The findings are observations of the evidence; the Court may draw its own conclusions.\n"@
}

/// The whole Markdown report.
pub open spec fn report_text(hs: Seq<DeviceHistoryView>, fs: Seq<FindingView>) -> Seq<char> {
    "# USB Device History — Forensic Report\n\n"@ + "## Executive Summary\n\n"@ + summary_text(
        hs.len(),
        fs.len(),
    ) + "## Devices\n\n"@ + device_sections(hs) + findings_section(fs) + methodology_text()
}

/// Append one provenance row.
fn push_report_row(out: &mut String, a: Attribute, c: Consistency, pv: &ProvenancedValue)
    ensures
        final(out)@ == old(out)@ + report_row(a, c, pv@),
{
    push_str(out, "| ");
    push_str(out, attribute_label(a));
    push_str(out, " | ");
    push_str(out, c.label());
    push_str(out, " | ");
    let v = render_value(&pv.value);
    let vc = cell(v.as_str());
    push_str(out, vc.as_str());
    push_str(out, " | ");
    push_str(out, source_label(pv.provenance.source));
    push_str(out, " | ");
    let lc = cell(pv.provenance.locator.as_str());
    push_str(out, lc.as_str());
    push_str(out, " |\n");
    assert(out@ =~= old(out)@ + report_row(a, c, pv@));
}

/// Append the provenance rows of one attribute.
fn push_attribute_rows(out: &mut String, ca: &CorrelatedAttribute)
    ensures
        final(out)@ == old(out)@ + value_rows(ca.attribute, ca.consistency, views(ca.values@)),
{
    let mut i: usize = 0;
    while i < ca.values.len()
        invariant
            i <= ca.values.len(),
            out@ == old(out)@ + value_rows(ca.attribute, ca.consistency, views(ca.values@).take(i as int)),
        decreases ca.values.len() - i,
    {
        push_report_row(out, ca.attribute, ca.consistency, &ca.values[i]);
        proof {
            let s = views(ca.values@).take(i + 1);
            assert(s.drop_last() =~= views(ca.values@).take(i as int));
        }
        i = i + 1;
    }
    assert(views(ca.values@).take(ca.values.len() as int) =~= views(ca.values@));
}

/// Append one device section.
fn push_device_section(out: &mut String, h: &DeviceHistory)
    ensures
        final(out)@ == old(out)@ + device_section(h@),
{
    push_str(out, "### Device: ");
    push_str(out, h.device.0.as_str());
    push_str(out, "\n\n");
    push_str(out, "| Attribute | Consistency | Value | Source | Locator |\n");
    push_str(out, "|---|---|---|---|---|\n");
    let ghost head = out@;
    let mut j: usize = 0;
    while j < h.attributes.len()
        invariant
            j <= h.attributes.len(),
            out@ == head + attribute_rows(views(h.attributes@).take(j as int)),
        decreases h.attributes.len() - j,
    {
        push_attribute_rows(out, &h.attributes[j]);
        proof {
            let s = views(h.attributes@).take(j + 1);
            assert(s.drop_last() =~= views(h.attributes@).take(j as int));
        }
        j = j + 1;
    }
    assert(views(h.attributes@).take(h.attributes.len() as int) =~= views(h.attributes@));
    push_str(out, "\n");
    assert(out@ =~= old(out)@ + device_section(h@));
}

/// The `{:?}` name of a severity.
fn severity_label(s: Severity) -> (r: &'static str)
    ensures
        r@ == severity_name(s),
{
    match s {
        Severity::Info => "Info",
        Severity::Low => "Low",
        Severity::Medium => "Medium",
        Severity::High => "High",
        Severity::Critical => "Critical",
    }
}

/// Append one finding bullet.
fn push_finding_line(out: &mut String, f: &Finding)
    ensures
        final(out)@ == old(out)@ + finding_line(f@),
{
    push_str(out, "- **[");
    match f.severity {
        Some(s) => {
            push_str(out, "Some(");
            push_str(out, severity_label(s));
            push_str(out, ")");
        },
        None => {
            push_str(out, "None");
        },
    }
    push_str(out, "] ");
    push_str(out, f.code.as_str());
    push_str(out, "** — ");
    push_str(out, f.note.as_str());
    push_str(out, "\n");
    assert(out@ =~= old(out)@ + finding_line(f@));
}

/// Render a court-oriented Markdown forensic report: an executive summary, a per-device
/// provenance table (every value with its source and locator), the graded findings, and
/// a methodology/limitations note. Values are observed facts; findings are observations
/// ("consistent with"), never legal conclusions.
pub fn render_report(histories: &[DeviceHistory], findings: &[Finding]) -> (r: String)
    ensures
        r@ == report_text(views(histories@), views(findings@)),
{
    let mut r = String::new();
    push_str(&mut r, "# USB Device History — Forensic Report\n\n");
    push_str(&mut r, "## Executive Summary\n\n");
    push_str(&mut r, "Reconstructed ");
    push_count(&mut r, histories.len());
    push_str(&mut r, " device history record(s) from correlated evidence; ");
    push_count(&mut r, findings.len());
    push_str(
        &mut r,
        " finding(s) surfaced. Every reported value retains its source and locator. Findings are observations (\"consistent with\"), not conclusions.\n\n",
    );
    push_str(&mut r, "## Devices\n\n");
    let ghost head = r@;
    let mut i: usize = 0;
    while i < histories.len()
        invariant
            i <= histories.len(),
            r@ == head + device_sections(views(histories@).take(i as int)),
        decreases histories.len() - i,
    {
        push_device_section(&mut r, &histories[i]);
        proof {
            let s = views(histories@).take(i + 1);
            assert(s.drop_last() =~= views(histories@).take(i as int));
        }
        i = i + 1;
    }
    assert(views(histories@).take(histories.len() as int) =~= views(histories@));
    let ghost mid = r@;
    push_str(&mut r, "## Findings\n\n");
    if findings.len() == 0 {
        push_str(&mut r, "No cross-source conflicts or corroborations surfaced.\n\n");
    } else {
        let ghost fhead = r@;
        let mut k: usize = 0;
        while k < findings.len()
            invariant
                k <= findings.len(),
                r@ == fhead + finding_lines(views(findings@).take(k as int)),
            decreases findings.len() - k,
        {
            push_finding_line(&mut r, &findings[k]);
            proof {
                let s = views(findings@).take(k + 1);
                assert(s.drop_last() =~= views(findings@).take(k as int));
            }
            k = k + 1;
        }
        assert(views(findings@).take(findings.len() as int) =~= views(findings@));
        push_str(&mut r, "\n");
    }
    assert(r@ =~= mid + findings_section(views(findings@)));
    push_str(&mut r, "## Methodology & Limitations\n\n");
    push_str(
        &mut r,
        "- Values are graded by tamper-independent storage container: agreement across sources sharing one container is not counted as corroboration.\n- A conflict is reported as \"not consistent with\", never as proven tampering; every value is shown with its source so it can be independently verified.\n- The findings are observations of the evidence; the Court may draw its own conclusions.\n",
    );
    assert(r@ =~= report_text(views(histories@), views(findings@)));
    r
}

/// `x` occurs somewhere in `s`.
pub open spec fn occurs_in(x: Seq<char>, s: Seq<char>) -> bool {
    exists|p: int| 0 <= p && p + x.len() <= s.len() && #[trigger] s.subrange(p, p + x.len()) == x
}

/// Text around an occurrence keeps it.
proof fn lemma_occurs_in_context(x: Seq<char>, pre: Seq<char>, mid: Seq<char>, post: Seq<char>)
    requires
        occurs_in(x, mid),
    ensures
        occurs_in(x, pre + mid + post),
{
    let p = choose|p: int| 0 <= p && p + x.len() <= mid.len() && #[trigger] mid.subrange(p, p + x.len()) == x;
    let s = pre + mid + post;
    assert(s.subrange(pre.len() + p, pre.len() + p + x.len()) =~= mid.subrange(p, p + x.len()));
}

/// A text occurs in itself.
proof fn lemma_occurs_in_itself(x: Seq<char>)
    ensures
        occurs_in(x, x),
{
    let p: int = 0;
    assert(x.subrange(p, p + x.len()) =~= x);
}

/// Each value of an attribute has its row among the attribute's rows.
proof fn lemma_row_in_value_rows(a: Attribute, c: Consistency, vals: Seq<ProvenancedValueView>, k: int)
    requires
        0 <= k < vals.len(),
    ensures
        occurs_in(report_row(a, c, vals[k]), value_rows(a, c, vals)),
    decreases vals.len(),
{
    let head = value_rows(a, c, vals.drop_last());
    let row = report_row(a, c, vals.last());
    if k == vals.len() - 1 {
        lemma_occurs_in_itself(row);
        lemma_occurs_in_context(row, head, row, Seq::empty());
        assert(head + row + Seq::<char>::empty() =~= value_rows(a, c, vals));
    } else {
        lemma_row_in_value_rows(a, c, vals.drop_last(), k);
        assert(vals.drop_last()[k] == vals[k]);
        lemma_occurs_in_context(report_row(a, c, vals[k]), Seq::empty(), head, row);
        assert(Seq::<char>::empty() + head + row =~= value_rows(a, c, vals));
    }
}

/// Each value of each attribute has its row among the device's rows.
proof fn lemma_row_in_attribute_rows(cas: Seq<CorrelatedAttributeView>, j: int, k: int)
    requires
        0 <= j < cas.len(),
        0 <= k < cas[j].values.len(),
    ensures
        occurs_in(report_row(cas[j].attribute, cas[j].consistency, cas[j].values[k]), attribute_rows(cas)),
    decreases cas.len(),
{
    let head = attribute_rows(cas.drop_last());
    let last = cas.last();
    let tail = value_rows(last.attribute, last.consistency, last.values);
    let row = report_row(cas[j].attribute, cas[j].consistency, cas[j].values[k]);
    if j == cas.len() - 1 {
        lemma_row_in_value_rows(last.attribute, last.consistency, last.values, k);
        lemma_occurs_in_context(row, head, tail, Seq::empty());
        assert(head + tail + Seq::<char>::empty() =~= attribute_rows(cas));
    } else {
        lemma_row_in_attribute_rows(cas.drop_last(), j, k);
        assert(cas.drop_last()[j] == cas[j]);
        lemma_occurs_in_context(row, Seq::empty(), head, tail);
        assert(Seq::<char>::empty() + head + tail =~= attribute_rows(cas));
    }
}

/// Each value of each device has its row among the device sections.
proof fn lemma_row_in_device_sections(hs: Seq<DeviceHistoryView>, i: int, j: int, k: int)
    requires
        0 <= i < hs.len(),
        0 <= j < hs[i].attributes.len(),
        0 <= k < hs[i].attributes[j].values.len(),
    ensures
        occurs_in(
            report_row(hs[i].attributes[j].attribute, hs[i].attributes[j].consistency, hs[i].attributes[j].values[k]),
            device_sections(hs),
        ),
    decreases hs.len(),
{
    let head = device_sections(hs.drop_last());
    let last = device_section(hs.last());
    let ca = hs[i].attributes[j];
    let row = report_row(ca.attribute, ca.consistency, ca.values[k]);
    if i == hs.len() - 1 {
        let h = hs.last();
        let opening = "### Device: "@ + h.device + "\n\n"@ + "| Attribute | Consistency | Value | Source | Locator |\n"@
            + "|---|---|---|---|---|\n"@;
        lemma_row_in_attribute_rows(h.attributes, j, k);
        lemma_occurs_in_context(row, opening, attribute_rows(h.attributes), "\n"@);
        assert(opening + attribute_rows(h.attributes) + "\n"@ =~= last);
        lemma_occurs_in_context(row, head, last, Seq::empty());
        assert(head + last + Seq::<char>::empty() =~= device_sections(hs));
    } else {
        lemma_row_in_device_sections(hs.drop_last(), i, j, k);
        assert(hs.drop_last()[i] == hs[i]);
        lemma_occurs_in_context(row, Seq::empty(), head, last);
        assert(Seq::<char>::empty() + head + last =~= device_sections(hs));
    }
}

/// The report's provenance tables list every value: for each value of each attribute of
/// each device, its row (attribute, grade, value, source and locator) is in the report.
pub proof fn law_report_lists_every_value(
    hs: Seq<DeviceHistoryView>,
    fs: Seq<FindingView>,
    i: int,
    j: int,
    k: int,
)
    requires
        0 <= i < hs.len(),
        0 <= j < hs[i].attributes.len(),
        0 <= k < hs[i].attributes[j].values.len(),
    ensures
        occurs_in(
            report_row(hs[i].attributes[j].attribute, hs[i].attributes[j].consistency, hs[i].attributes[j].values[k]),
            report_text(hs, fs),
        ),
{
    let ca = hs[i].attributes[j];
    let row = report_row(ca.attribute, ca.consistency, ca.values[k]);
    lemma_row_in_device_sections(hs, i, j, k);
    let pre = "# USB Device History — Forensic Report\n\n"@ + "## Executive Summary\n\n"@ + summary_text(
        hs.len(),
        fs.len(),
    ) + "## Devices\n\n"@;
    let post = findings_section(fs) + methodology_text();
    lemma_occurs_in_context(row, pre, device_sections(hs), post);
    assert(pre + device_sections(hs) + post =~= report_text(hs, fs));
}

/// Each finding has its bullet among the bullets.
proof fn lemma_line_in_finding_lines(fs: Seq<FindingView>, k: int)
    requires
        0 <= k < fs.len(),
    ensures
        occurs_in(finding_line(fs[k]), finding_lines(fs)),
    decreases fs.len(),
{
    let head = finding_lines(fs.drop_last());
    let line = finding_line(fs.last());
    if k == fs.len() - 1 {
        lemma_occurs_in_itself(line);
        lemma_occurs_in_context(line, head, line, Seq::empty());
        assert(head + line + Seq::<char>::empty() =~= finding_lines(fs));
    } else {
        lemma_line_in_finding_lines(fs.drop_last(), k);
        assert(fs.drop_last()[k] == fs[k]);
        lemma_occurs_in_context(finding_line(fs[k]), Seq::empty(), head, line);
        assert(Seq::<char>::empty() + head + line =~= finding_lines(fs));
    }
}

/// The report lists every finding: its grade, code and note each stand in one bullet.
pub proof fn law_report_lists_every_finding(hs: Seq<DeviceHistoryView>, fs: Seq<FindingView>, k: int)
    requires
        0 <= k < fs.len(),
    ensures
        occurs_in(finding_line(fs[k]), report_text(hs, fs)),
{
    let line = finding_line(fs[k]);
    lemma_line_in_finding_lines(fs, k);
    lemma_occurs_in_context(line, "## Findings\n\n"@, finding_lines(fs), "\n"@);
    assert("## Findings\n\n"@ + finding_lines(fs) + "\n"@ =~= findings_section(fs));
    let pre = "# USB Device History — Forensic Report\n\n"@ + "## Executive Summary\n\n"@ + summary_text(
        hs.len(),
        fs.len(),
    ) + "## Devices\n\n"@ + device_sections(hs);
    lemma_occurs_in_context(line, pre, findings_section(fs), methodology_text());
    assert(pre + findings_section(fs) + methodology_text() =~= report_text(hs, fs));
}

/// The grid of two lists of histories, one after the other, is the grid of the first
/// followed by the grid of the second: each device's block depends on that device alone.
pub proof fn law_table_of_concatenation(a: Seq<DeviceHistoryView>, b: Seq<DeviceHistoryView>)
    ensures
        table_text(a + b) == table_text(a) + table_text(b),
        table_text(Seq::empty()) == Seq::<char>::empty(),
    decreases b.len(),
{
    if b.len() == 0 {
        assert(a + b =~= a);
        assert(table_text(a) + table_text(b) =~= table_text(a));
    } else {
        law_table_of_concatenation(a, b.drop_last());
        assert((a + b).drop_last() =~= a + b.drop_last());
        assert((a + b).last() == b.last());
        assert(table_text(a) + table_text(b.drop_last()) + table_block(b.last()) =~= table_text(a) + (
        table_text(b.drop_last()) + table_block(b.last())));
    }
}

/// Whether `y` is a Gregorian leap year.
pub open spec fn is_leap_year(y: int) -> bool {
    y % 4 == 0 && (y % 100 != 0 || y % 400 == 0)
}

/// The number of days in month `m` of year `y`.
pub open spec fn days_in_month(y: int, m: int) -> int {
    if m == 2 {
        if is_leap_year(y) {
            29
        } else {
            28
        }
    } else if m == 4 || m == 6 || m == 9 || m == 11 {
        30
    } else {
        31
    }
}

/// The calendar date after (`y`, `m`, `d`).
pub open spec fn next_date(date: (int, int, int)) -> (int, int, int) {
    let (y, m, d) = date;
    if d < days_in_month(y, m) {
        (y, m, d + 1)
    } else if m < 12 {
        (y, m + 1, 1)
    } else {
        (y + 1, 1, 1)
    }
}

/// The year of the era (counted from March 1 of its first year) of day `doe` of an era.
pub open spec fn year_of_era(doe: int) -> int {
    (doe - doe / 1460 + doe / 36524 - doe / 146096) / 365
}

/// The day of that March-based year.
pub open spec fn day_of_year(doe: int) -> int {
    let yoe = year_of_era(doe);
    doe - (365 * yoe + yoe / 4 - yoe / 100)
}

/// The length of March-based year `yoe` of an era: 366 when the February it ends with
/// (in year `yoe + 1`) has a leap day.
pub open spec fn march_year_len(yoe: int) -> int {
    if (yoe + 1) % 4 == 0 && ((yoe + 1) % 100 != 0 || yoe + 1 == 400) {
        366
    } else {
        365
    }
}

/// (month, day) of day `doy` of a March-based year.
pub open spec fn month_day(doy: int) -> (int, int) {
    let mp = (5 * doy + 2) / 153;
    let day = doy - (153 * mp + 2) / 5 + 1;
    (if mp < 10 { mp + 3 } else { mp - 9 }, day)
}

/// Day `doy + 1` of a March-based year of `len` days is the next date: the next day of
/// the month, else the first of the next month.
proof fn lemma_next_in_year(doy: int, len: int)
    requires
        len == 365 || len == 366,
        0 <= doy < len - 1,
    ensures
        ({
            let (m, d) = month_day(doy);
            let feb = len - 337;
            let dim = if m == 2 { feb } else if m == 4 || m == 6 || m == 9 || m == 11 { 30 } else { 31 };
            month_day(doy + 1) == if d < dim { (m, d + 1) } else if m < 12 { (m + 1, 1) } else { (1, 1) }
        }),
{
}

/// The last day of a March-based year of `len` days is February's last.
proof fn lemma_last_in_year(len: int)
    requires
        len == 365 || len == 366,
    ensures
        month_day(len - 1) == (2int, len - 337),
        month_day(0) == (3int, 1int),
{
}

/// Within one century of an era (the last century one day longer), the day after a day
/// is the next day of its March-based year, or the first day of the next year.
#[verifier::rlimit(100)]
#[verifier::spinoff_prover]
proof fn lemma_next_in_century(doe: int, c: int)
    requires
        0 <= c <= 3,
        36524 * c <= doe,
        doe < 36524 * (c + 1) || (c == 3 && doe < 146096),
    ensures
        0 <= day_of_year(doe) < march_year_len(year_of_era(doe)),
        day_of_year(doe) + 1 < march_year_len(year_of_era(doe)) ==> year_of_era(doe + 1) == year_of_era(doe)
            && day_of_year(doe + 1) == day_of_year(doe) + 1,
        day_of_year(doe) + 1 == march_year_len(year_of_era(doe)) ==> year_of_era(doe + 1) == year_of_era(doe)
            + 1 && day_of_year(doe + 1) == 0,
{
    assert(doe / 146096 == 0);
    assert(doe / 36524 == c);
}

/// Within an era, the day after a day of the era is the next day of its March-based
/// year, or the first day of the next year.
proof fn lemma_next_in_era(doe: int)
    requires
        0 <= doe < 146096,
    ensures
        0 <= day_of_year(doe) < march_year_len(year_of_era(doe)),
        day_of_year(doe) + 1 < march_year_len(year_of_era(doe)) ==> year_of_era(doe + 1) == year_of_era(doe)
            && day_of_year(doe + 1) == day_of_year(doe) + 1,
        day_of_year(doe) + 1 == march_year_len(year_of_era(doe)) ==> year_of_era(doe + 1) == year_of_era(doe)
            + 1 && day_of_year(doe + 1) == 0,
{
    if doe < 36524 {
        lemma_next_in_century(doe, 0);
    } else if doe < 73048 {
        lemma_next_in_century(doe, 1);
    } else if doe < 109572 {
        lemma_next_in_century(doe, 2);
    } else {
        lemma_next_in_century(doe, 3);
    }
}

/// A year `400 * era + k` with `1 <= k <= 400` is a leap year exactly when the March-based
/// year `k - 1` of the era is 366 days long.
proof fn lemma_leap_in_era(era: int, k: int)
    requires
        1 <= k <= 400,
    ensures
        is_leap_year(400 * era + k) == (march_year_len(k - 1) == 366),
{
    assert((400 * era + k) % 4 == k % 4) by {
        vstd::arithmetic::div_mod::lemma_mod_multiples_vanish(100 * era, k, 4);
        assert(400 * era + k == 4 * (100 * era) + k) by (nonlinear_arith);
    }
    assert((400 * era + k) % 100 == k % 100) by {
        vstd::arithmetic::div_mod::lemma_mod_multiples_vanish(4 * era, k, 100);
        assert(400 * era + k == 100 * (4 * era) + k) by (nonlinear_arith);
    }
    assert((400 * era + k) % 400 == k % 400) by {
        vstd::arithmetic::div_mod::lemma_mod_multiples_vanish(era, k, 400);
    }
}

/// The day after a day of an era, other than its last, is the next calendar date.
#[verifier::rlimit(60)]
#[verifier::spinoff_prover]
proof fn lemma_next_day_in_era(doe: int, era: int)
    requires
        0 <= doe < 146096,
    ensures
        civil_from_days(era * 146097 + doe - 719468 + 1) == next_date(civil_from_days(era * 146097 + doe - 719468)),
{
    let z = era * 146097 + doe;
    assert(z / 146097 == era && (z + 1) / 146097 == era) by {
        vstd::arithmetic::div_mod::lemma_fundamental_div_mod_converse(z, 146097, era, doe);
        vstd::arithmetic::div_mod::lemma_fundamental_div_mod_converse(z + 1, 146097, era, doe + 1);
    }
    assert(z - 719468 + 719468 == z);
    assert(z - 719468 + 1 + 719468 == z + 1);
    lemma_next_in_era(doe);
    let yoe = year_of_era(doe);
    let doy = day_of_year(doe);
    let len = march_year_len(yoe);
    lemma_day_of_era_in_range(doe);
    assert(0 <= yoe <= 399);
    lemma_leap_in_era(era, yoe + 1);
    if doy + 1 < len {
        lemma_next_in_year(doy, len);
    } else {
        lemma_last_in_year(len);
    }
    assert(civil_from_days(z - 719468) == ({
        let (m, d) = month_day(doy);
        (if m <= 2 { yoe + era * 400 + 1 } else { yoe + era * 400 }, m, d)
    }));
    assert(civil_from_days(z - 719468 + 1) == ({
        let (m, d) = month_day(day_of_year(doe + 1));
        (if m <= 2 { year_of_era(doe + 1) + era * 400 + 1 } else { year_of_era(doe + 1) + era * 400 }, m, d)
    }));
}

/// The calendar is the Gregorian one counted from 1970-01-01: day 0 is that date, and
/// each day is followed by the next calendar date.
#[verifier::rlimit(60)]
#[verifier::spinoff_prover]
pub proof fn law_days_follow_the_calendar(days: int)
    ensures
        civil_from_days(0) == (1970int, 1int, 1int),
        civil_from_days(days + 1) == next_date(civil_from_days(days)),
{
    let z = days + 719468;
    let era = z / 146097;
    let doe = z % 146097;
    vstd::arithmetic::div_mod::lemma_fundamental_div_mod(z, 146097);
    assert(era * 146097 + doe == z);
    if doe < 146096 {
        lemma_next_day_in_era(doe, era);
    } else {
        assert((z + 1) / 146097 == era + 1 && (z + 1) % 146097 == 0) by {
            vstd::arithmetic::div_mod::lemma_fundamental_div_mod_converse(z + 1, 146097, era + 1, 0);
        }
        lemma_leap_in_era(era, 400);
        assert(year_of_era(146096) == 399);
        assert(day_of_year(146096) == 365);
        assert(month_day(365) == (2int, 29int));
        assert(month_day(0) == (3int, 1int));
    }
}

/// `a` comes before `b` in character order, for texts of one length: the text without
/// its last character decides, and if that is the same, the last character.
pub open spec fn text_before(a: Seq<char>, b: Seq<char>) -> bool
    decreases a.len(),
{
    if a.len() == 0 || a.len() != b.len() {
        false
    } else if a.drop_last() == b.drop_last() {
        a.last() < b.last()
    } else {
        text_before(a.drop_last(), b.drop_last())
    }
}

/// `10` to the power `w`.
pub open spec fn pow10(w: nat) -> nat
    decreases w,
{
    if w == 0 {
        1
    } else {
        10 * pow10((w - 1) as nat)
    }
}

/// The last `w` decimal digits of `v`, most significant first.
pub open spec fn fixed_digits(v: nat, w: nat) -> Seq<char>
    decreases w,
{
    if w == 0 {
        Seq::empty()
    } else {
        fixed_digits(v / 10, (w - 1) as nat).push(decimal_digit((v % 10) as int))
    }
}

/// Zero digits are zeros.
proof fn lemma_fixed_zero(w: nat)
    ensures
        fixed_digits(0, w) == Seq::new(w, |i: int| '0'),
    decreases w,
{
    if w > 0 {
        lemma_fixed_zero((w - 1) as nat);
        assert(fixed_digits(0, w) =~= Seq::new(w, |i: int| '0'));
    }
}

/// A number below `10^w` is padded to its last `w` digits.
proof fn lemma_padded_is_fixed(v: nat, w: nat)
    requires
        w >= 1,
        v < pow10(w),
    ensures
        zero_pad(decimal(v), w) == fixed_digits(v, w),
        fixed_digits(v, w).len() == w,
    decreases v,
{
    lemma_fixed_len(v, w);
    if v < 10 {
        lemma_fixed_zero((w - 1) as nat);
        assert(zero_pad(decimal(v), w) =~= fixed_digits(v, w));
    } else {
        assert(w >= 2) by {
            if w == 1 {
                assert(pow10(1) == 10) by {
                    reveal_with_fuel(pow10, 2);
                }
            }
        }
        assert(v / 10 < pow10((w - 1) as nat));
        lemma_padded_is_fixed(v / 10, (w - 1) as nat);
        lemma_decimal_len(v / 10, (w - 1) as nat);
        assert(zero_pad(decimal(v), w) =~= zero_pad(decimal(v / 10), (w - 1) as nat).push(
            decimal_digit((v % 10) as int),
        ));
    }
}

/// The decimal form of a number below `10^w` has at most `w` digits.
proof fn lemma_decimal_len(v: nat, w: nat)
    requires
        w >= 1,
        v < pow10(w),
    ensures
        decimal(v).len() <= w,
    decreases v,
{
    if v >= 10 {
        assert(w >= 2) by {
            if w == 1 {
                assert(pow10(1) == 10) by {
                    reveal_with_fuel(pow10, 2);
                }
            }
        }
        lemma_decimal_len(v / 10, (w - 1) as nat);
    }
}

/// `w` digits are `w` long.
proof fn lemma_fixed_len(v: nat, w: nat)
    ensures
        fixed_digits(v, w).len() == w,
    decreases w,
{
    if w > 0 {
        lemma_fixed_len(v / 10, (w - 1) as nat);
    }
}

/// For numbers below `10^w`, digit order is number order, and equal digits mean equal
/// numbers.
proof fn lemma_fixed_order(u: nat, v: nat, w: nat)
    requires
        u < pow10(w),
        v < pow10(w),
    ensures
        text_before(fixed_digits(u, w), fixed_digits(v, w)) <==> u < v,
        fixed_digits(u, w) == fixed_digits(v, w) <==> u == v,
    decreases w,
{
    lemma_fixed_len(u, w);
    lemma_fixed_len(v, w);
    if w == 0 {
    } else {
        let k = (w - 1) as nat;
        assert(u / 10 < pow10(k) && v / 10 < pow10(k));
        lemma_fixed_order(u / 10, v / 10, k);
        lemma_fixed_len(u / 10, k);
        let fu = fixed_digits(u, w);
        let fv = fixed_digits(v, w);
        assert(fu.drop_last() =~= fixed_digits(u / 10, k));
        assert(fv.drop_last() =~= fixed_digits(v / 10, k));
        if fu == fv {
            assert(fu.last() == fv.last());
        }
    }
}

/// Texts of equal-length pieces compare by the first pieces, then by the second.
proof fn lemma_before_concat(a1: Seq<char>, b1: Seq<char>, a2: Seq<char>, b2: Seq<char>)
    requires
        a1.len() == a2.len(),
        b1.len() == b2.len(),
        a1.len() > 0,
    ensures
        text_before(a1 + b1, a2 + b2) <==> (text_before(a1, a2) || (a1 == a2 && text_before(b1, b2))),
    decreases b1.len(),
{
    if b1.len() == 0 {
        assert(a1 + b1 =~= a1);
        assert(a2 + b2 =~= a2);
    } else {
        lemma_before_concat(a1, b1.drop_last(), a2, b2.drop_last());
        assert((a1 + b1).drop_last() =~= a1 + b1.drop_last());
        assert((a2 + b2).drop_last() =~= a2 + b2.drop_last());
        if a1 + b1.drop_last() == a2 + b2.drop_last() {
            assert(a1 =~= (a1 + b1.drop_last()).take(a1.len() as int));
            assert(a2 =~= (a2 + b2.drop_last()).take(a2.len() as int));
            assert(b1.drop_last() =~= (a1 + b1.drop_last()).skip(a1.len() as int));
            assert(b2.drop_last() =~= (a2 + b2.drop_last()).skip(a2.len() as int));
        } else if a1 == a2 {
            assert(b1.drop_last() != b2.drop_last());
        }
    }
}

/// Three fields with separators compare field by field, when each field has the same
/// length on both sides.
proof fn lemma_before_fields(
    a1: Seq<char>,
    b1: Seq<char>,
    c1: Seq<char>,
    a2: Seq<char>,
    b2: Seq<char>,
    c2: Seq<char>,
    s1: Seq<char>,
    s2: Seq<char>,
)
    requires
        a1.len() == a2.len() && a1.len() > 0,
        b1.len() == b2.len() && b1.len() > 0,
        c1.len() == c2.len(),
        s1.len() > 0 && s2.len() > 0,
        text_before(a1, a2) || (a1 == a2 && (text_before(b1, b2) || (b1 == b2 && text_before(c1, c2)))),
    ensures
        text_before(a1 + s1 + b1 + s2 + c1, a2 + s1 + b2 + s2 + c2),
{
    let r1 = s1 + (b1 + (s2 + c1));
    let r2 = s1 + (b2 + (s2 + c2));
    assert(a1 + s1 + b1 + s2 + c1 =~= a1 + r1);
    assert(a2 + s1 + b2 + s2 + c2 =~= a2 + r2);
    lemma_before_concat(a1, r1, a2, r2);
    if a1 == a2 {
        lemma_before_concat(s1, b1 + (s2 + c1), s1, b2 + (s2 + c2));
        lemma_before_concat(b1, s2 + c1, b2, s2 + c2);
        if b1 == b2 {
            lemma_before_concat(s2, c1, s2, c2);
        }
    }
}

/// `YYYY-MM-DD` for a year of four digits.
pub open spec fn date_text(y: nat, m: nat, d: nat) -> Seq<char> {
    fixed_digits(y, 4) + seq!['-'] + fixed_digits(m, 2) + seq!['-'] + fixed_digits(d, 2)
}

/// `HH:MM:SS`.
pub open spec fn time_text(h: nat, mi: nat, s: nat) -> Seq<char> {
    fixed_digits(h, 2) + seq![':'] + fixed_digits(mi, 2) + seq![':'] + fixed_digits(s, 2)
}

/// The tuple order of dates.
pub open spec fn date_before(x: (int, int, int), y: (int, int, int)) -> bool {
    x.0 < y.0 || (x.0 == y.0 && (x.1 < y.1 || (x.1 == y.1 && x.2 < y.2)))
}

/// Later days have later dates.
proof fn lemma_dates_increase(a: int, n: nat)
    requires
        n >= 1,
    ensures
        date_before(civil_from_days(a), civil_from_days(a + n)),
    decreases n,
{
    law_days_follow_the_calendar(a + n - 1);
    if n > 1 {
        lemma_dates_increase(a, (n - 1) as nat);
    }
}

/// From the start of year 0 to the end of 9999, the year has four digits.
proof fn lemma_four_digit_years(days: int)
    requires
        -719528 <= days <= 2932896,
    ensures
        0 <= civil_from_days(days).0 <= 9999,
{
    assert(civil_from_days(-719528) == (0int, 1int, 1int));
    assert(civil_from_days(2932896) == (9999int, 12int, 31int));
    if days > -719528 {
        lemma_dates_increase(-719528, (days + 719528) as nat);
    }
    if days < 2932896 {
        lemma_dates_increase(days, (2932896 - days) as nat);
    }
}

/// From year 0 through 9999, a timestamp renders as its date, a space, its time of day,
/// and ` UTC`, each field with its fixed width.
#[verifier::rlimit(60)]
#[verifier::spinoff_prover]
proof fn lemma_epoch_text_fields(secs: int)
    requires
        -62167219200 <= secs <= 253402300799,
    ensures
        ({
            let tod = secs % 86400;
            let (y, m, d) = civil_from_days(secs / 86400);
            epoch_text(secs) == date_text(y as nat, m as nat, d as nat) + seq![' '] + time_text(
                (tod / 3600) as nat,
                ((tod % 3600) / 60) as nat,
                (tod % 60) as nat,
            ) + " UTC"@
        }),
{
    let days = secs / 86400;
    let tod = secs % 86400;
    let (y, m, d) = civil_from_days(days);
    lemma_four_digit_years(days);
    law_epoch_fields_in_range(secs);
    reveal_with_fuel(pow10, 5);
    lemma_padded_is_fixed(y as nat, 4);
    lemma_padded_is_fixed(m as nat, 2);
    lemma_padded_is_fixed(d as nat, 2);
    lemma_padded_is_fixed((tod / 3600) as nat, 2);
    lemma_padded_is_fixed(((tod % 3600) / 60) as nat, 2);
    lemma_padded_is_fixed((tod % 60) as nat, 2);
    assert(epoch_text(secs) =~= date_text(y as nat, m as nat, d as nat) + seq![' '] + time_text(
        (tod / 3600) as nat,
        ((tod % 3600) / 60) as nat,
        (tod % 60) as nat,
    ) + " UTC"@);
}

/// Later days from year 0 through 9999 have later date texts.
#[verifier::rlimit(60)]
#[verifier::spinoff_prover]
proof fn lemma_date_texts_increase(da: int, db: int)
    requires
        -719528 <= da < db <= 2932896,
    ensures
        text_before(
            date_text(civil_from_days(da).0 as nat, civil_from_days(da).1 as nat, civil_from_days(da).2 as nat),
            date_text(civil_from_days(db).0 as nat, civil_from_days(db).1 as nat, civil_from_days(db).2 as nat),
        ),
{
    let (ya, ma, dda) = civil_from_days(da);
    let (yb, mb, ddb) = civil_from_days(db);
    lemma_four_digit_years(da);
    lemma_four_digit_years(db);
    law_calendar_fields_in_range(da);
    law_calendar_fields_in_range(db);
    lemma_dates_increase(da, (db - da) as nat);
    reveal_with_fuel(pow10, 5);
    lemma_fixed_len(ya as nat, 4);
    lemma_fixed_len(yb as nat, 4);
    lemma_fixed_len(ma as nat, 2);
    lemma_fixed_len(mb as nat, 2);
    lemma_fixed_len(dda as nat, 2);
    lemma_fixed_len(ddb as nat, 2);
    lemma_fixed_order(ya as nat, yb as nat, 4);
    lemma_fixed_order(ma as nat, mb as nat, 2);
    lemma_fixed_order(dda as nat, ddb as nat, 2);
    lemma_before_fields(
        fixed_digits(ya as nat, 4),
        fixed_digits(ma as nat, 2),
        fixed_digits(dda as nat, 2),
        fixed_digits(yb as nat, 4),
        fixed_digits(mb as nat, 2),
        fixed_digits(ddb as nat, 2),
        seq!['-'],
        seq!['-'],
    );
}

/// Later times of day have later time texts.
proof fn lemma_time_texts_increase(ta: int, tb: int)
    requires
        0 <= ta < tb < 86400,
    ensures
        text_before(
            time_text((ta / 3600) as nat, ((ta % 3600) / 60) as nat, (ta % 60) as nat),
            time_text((tb / 3600) as nat, ((tb % 3600) / 60) as nat, (tb % 60) as nat),
        ),
{
    let (ha, mia, sa) = ((ta / 3600) as nat, ((ta % 3600) / 60) as nat, (ta % 60) as nat);
    let (hb, mib, sb) = ((tb / 3600) as nat, ((tb % 3600) / 60) as nat, (tb % 60) as nat);
    reveal_with_fuel(pow10, 3);
    lemma_fixed_len(ha, 2);
    lemma_fixed_len(hb, 2);
    lemma_fixed_len(mia, 2);
    lemma_fixed_len(mib, 2);
    lemma_fixed_len(sa, 2);
    lemma_fixed_len(sb, 2);
    lemma_fixed_order(ha, hb, 2);
    lemma_fixed_order(mia, mib, 2);
    lemma_fixed_order(sa, sb, 2);
    lemma_before_fields(
        fixed_digits(ha, 2),
        fixed_digits(mia, 2),
        fixed_digits(sa, 2),
        fixed_digits(hb, 2),
        fixed_digits(mib, 2),
        fixed_digits(sb, 2),
        seq![':'],
        seq![':'],
    );
}

/// A rendered stamp: date, a space, time of day, ` UTC`.
pub open spec fn stamp_text(date: Seq<char>, time: Seq<char>) -> Seq<char> {
    date + seq![' '] + time + " UTC"@
}

/// Date and time texts are ten and eight characters long.
proof fn lemma_field_text_lengths(y: nat, m: nat, d: nat, h: nat, mi: nat, s: nat)
    ensures
        date_text(y, m, d).len() == 10,
        time_text(h, mi, s).len() == 8,
{
    lemma_fixed_len(y, 4);
    lemma_fixed_len(m, 2);
    lemma_fixed_len(d, 2);
    lemma_fixed_len(h, 2);
    lemma_fixed_len(mi, 2);
    lemma_fixed_len(s, 2);
}

/// Stamps compare by date, then by time of day.
proof fn lemma_stamp_order(dta: Seq<char>, tta: Seq<char>, dtb: Seq<char>, ttb: Seq<char>)
    requires
        dta.len() == 10 && dtb.len() == 10 && tta.len() == 8 && ttb.len() == 8,
        text_before(dta, dtb) || (dta == dtb && text_before(tta, ttb)),
    ensures
        text_before(stamp_text(dta, tta), stamp_text(dtb, ttb)),
        stamp_text(dta, tta) != stamp_text(dtb, ttb),
{
    let utc = " UTC"@;
    lemma_before_concat(dta, seq![' '] + (tta + utc), dtb, seq![' '] + (ttb + utc));
    lemma_before_concat(seq![' '], tta + utc, seq![' '], ttb + utc);
    lemma_before_concat(tta, utc, ttb, utc);
    assert(stamp_text(dta, tta) =~= dta + (seq![' '] + (tta + utc)));
    assert(stamp_text(dtb, ttb) =~= dtb + (seq![' '] + (ttb + utc)));
    lemma_before_irreflexive(stamp_text(dta, tta));
}

/// From year 0 through 9999, later timestamps render later in character order, so the
/// rendering sorts as the times do, and two times render alike exactly when they are the
/// same time.
pub proof fn law_epoch_text_follows_time(a: int, b: int)
    requires
        -62167219200 <= a <= b <= 253402300799,
    ensures
        a < b ==> text_before(epoch_text(a), epoch_text(b)),
        epoch_text(a) == epoch_text(b) <==> a == b,
{
    if a < b {
        lemma_later_renders_later(a, b);
    }
}

/// A later timestamp renders later, and so differently.
#[verifier::rlimit(60)]
#[verifier::spinoff_prover]
proof fn lemma_later_renders_later(a: int, b: int)
    requires
        -62167219200 <= a < b <= 253402300799,
    ensures
        text_before(epoch_text(a), epoch_text(b)),
        epoch_text(a) != epoch_text(b),
{
    lemma_epoch_text_fields(a);
    lemma_epoch_text_fields(b);
    let (da, ta) = (a / 86400, a % 86400);
    let (db, tb) = (b / 86400, b % 86400);
    let ca = civil_from_days(da);
    let cb = civil_from_days(db);
    let dta = date_text(ca.0 as nat, ca.1 as nat, ca.2 as nat);
    let dtb = date_text(cb.0 as nat, cb.1 as nat, cb.2 as nat);
    let tta = time_text((ta / 3600) as nat, ((ta % 3600) / 60) as nat, (ta % 60) as nat);
    let ttb = time_text((tb / 3600) as nat, ((tb % 3600) / 60) as nat, (tb % 60) as nat);
    lemma_field_text_lengths(ca.0 as nat, ca.1 as nat, ca.2 as nat, (ta / 3600) as nat, ((ta % 3600) / 60) as nat, (ta % 60) as nat);
    lemma_field_text_lengths(cb.0 as nat, cb.1 as nat, cb.2 as nat, (tb / 3600) as nat, ((tb % 3600) / 60) as nat, (tb % 60) as nat);
    if da < db {
        lemma_date_texts_increase(da, db);
    } else {
        lemma_time_texts_increase(ta, tb);
    }
    lemma_stamp_order(dta, tta, dtb, ttb);
    assert(epoch_text(a) == stamp_text(dta, tta));
    assert(epoch_text(b) == stamp_text(dtb, ttb));
}

/// Nothing comes before itself.
proof fn lemma_before_irreflexive(a: Seq<char>)
    ensures
        !text_before(a, a),
    decreases a.len(),
{
    if a.len() > 0 {
        lemma_before_irreflexive(a.drop_last());
    }
}

/// The grid of one history is its block: `Device: <key>` and one line per attribute.
pub proof fn law_table_of_one(h: DeviceHistoryView)
    ensures
        table_text(seq![h]) == table_block(h),
{
    assert(seq![h].drop_last() =~= Seq::<DeviceHistoryView>::empty());
    assert(table_text(Seq::<DeviceHistoryView>::empty()) + table_block(h) =~= table_block(h));
}

} // verus!
