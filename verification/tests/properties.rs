#![allow(unused_imports)]
use usb_forensic::sources::macos_unified_log::read_unified_log;
use usb_forensic::docx::{crc32, xml_escape};
use usb_forensic::model::{Attribute, Claim, Consistency, DeviceKey, Provenance, SourceKind, Value};
use usb_forensic::pdf::pdf_escape;
use usb_forensic::text::format_volume_serial;
use usb_forensic::{
    audit, correlate, format_epoch, normalize_local_clocks, reconcile_volume_serials, render_docx,
    render_pdf, super_timeline, Severity,
};

fn claim(device: &str, attr: Attribute, value: Value, src: SourceKind, loc: &str) -> Claim {
    Claim {
        device: DeviceKey(device.into()),
        attribute: attr,
        value,
        provenance: Provenance {
            source: src,
            locator: loc.into(),
        },
    }
}

fn mixed_claims() -> Vec<Claim> {
    vec![
        claim("SN1", Attribute::FirstConnected, Value::Timestamp(100), SourceKind::SetupApi, "a"),
        claim("SN1", Attribute::FirstConnected, Value::Timestamp(100), SourceKind::Usbstor, "b"),
        claim("SN2", Attribute::LastConnected, Value::Timestamp(300), SourceKind::Usbstor, "c"),
        claim("SN2", Attribute::LastConnected, Value::Timestamp(200), SourceKind::Lnk, "d"),
        claim("SN2", Attribute::VolumeName, Value::Text("KEY".into()), SourceKind::VolumeInfoCache, "e"),
        claim("SN3", Attribute::LastConnected, Value::Timestamp(50), SourceKind::Lnk, "f"),
    ]
}

#[test]
fn correlation_does_not_depend_on_claim_order() {
    let claims = mixed_claims();
    let mut reversed = claims.clone();
    reversed.reverse();
    let mut rotated = claims.clone();
    rotated.rotate_left(2);
    let expected = correlate(&claims);
    assert_eq!(correlate(&reversed), expected);
    assert_eq!(correlate(&rotated), expected);
}

#[test]
fn correlation_keeps_every_claim_as_a_value() {
    let claims = mixed_claims();
    let histories = correlate(&claims);
    let values: usize = histories
        .iter()
        .flat_map(|h| h.attributes.iter())
        .map(|a| a.values.len())
        .sum();
    assert_eq!(values, claims.len());
}

#[test]
fn agreement_inside_one_container_stays_single_source() {
    let claims = vec![
        claim("SN1", Attribute::FirstConnected, Value::Timestamp(7), SourceKind::Lnk, "x"),
        claim("SN1", Attribute::FirstConnected, Value::Timestamp(7), SourceKind::Lnk, "y"),
        claim("SN1", Attribute::FirstConnected, Value::Timestamp(7), SourceKind::Lnk, "z"),
    ];
    let histories = correlate(&claims);
    assert_eq!(histories[0].attributes[0].consistency, Consistency::SingleSource);
}

#[test]
fn timeline_does_not_depend_on_history_order() {
    let histories = correlate(&mixed_claims());
    let mut reversed = histories.clone();
    reversed.reverse();
    let forward = super_timeline(&histories);
    assert_eq!(super_timeline(&reversed), forward);
    assert_eq!(forward.len(), 5);
    assert!(forward.windows(2).all(|w| w[0].when <= w[1].when));
}

#[test]
fn opposite_offsets_cancel() {
    let original = mixed_claims();
    let mut claims = original.clone();
    normalize_local_clocks(&mut claims, -18_000);
    assert_eq!(claims[0].value, Value::Timestamp(18_100));
    normalize_local_clocks(&mut claims, 18_000);
    assert_eq!(claims, original);
}

#[test]
fn a_local_reading_lines_up_with_the_utc_reading_once_corrected() {
    let mut claims = vec![
        claim("SN1", Attribute::FirstConnected, Value::Timestamp(1_700_003_600), SourceKind::SetupApi, "l"),
        claim("SN1", Attribute::FirstConnected, Value::Timestamp(1_700_000_000), SourceKind::Usbstor, "r"),
    ];
    normalize_local_clocks(&mut claims, 3600);
    assert_eq!(claims[0].value, claims[1].value);
    let histories = correlate(&claims);
    assert_eq!(histories[0].attributes[0].consistency, Consistency::Corroborated);
}

#[test]
fn every_finding_is_an_observation() {
    let histories = correlate(&mixed_claims());
    let findings = audit(&histories);
    assert!(!findings.is_empty());
    for f in &findings {
        assert!(matches!(
            f.severity,
            Some(Severity::Info) | Some(Severity::Low) | Some(Severity::Medium)
        ));
    }
}

#[test]
fn a_conflict_keeps_every_value_as_evidence() {
    let histories = correlate(&mixed_claims());
    let findings = audit(&histories);
    let conflict = findings
        .iter()
        .find(|f| f.severity == Some(Severity::Medium))
        .expect("the SN2 conflict");
    assert_eq!(conflict.evidence.len(), 2);
}

#[test]
fn docx_of_an_empty_report_is_still_a_zip() {
    let docx = render_docx(&[], &[]);
    assert_eq!(&docx[..4], b"PK\x03\x04");
    assert_eq!(&docx[docx.len() - 22..docx.len() - 18], b"PK\x05\x06");
    // three entries, recorded twice in the end record
    assert_eq!(&docx[docx.len() - 14..docx.len() - 10], &[3, 0, 3, 0]);
}

#[test]
fn pdf_is_framed_by_its_header_and_end_marker() {
    let histories = correlate(&mixed_claims());
    let pdf = render_pdf(&histories, &audit(&histories));
    assert!(pdf.starts_with(b"%PDF-1.4\n"));
    assert!(pdf.ends_with(b"%%EOF\n"));
    assert!(pdf.is_ascii());
}

#[test]
fn escaped_text_carries_no_markup_and_no_non_ascii() {
    let hostile = "\"><script>x</script>' — «ü» \u{1F600}";
    let xml = xml_escape(hostile);
    assert!(!xml.contains(['<', '>', '"', '\'']));
    assert_eq!(
        xml,
        "&quot;&gt;&lt;script&gt;x&lt;/script&gt;&apos; — «ü» \u{1F600}"
    );
    let pdf = pdf_escape(hostile);
    assert!(pdf.is_ascii());
    assert_eq!(pdf, "\"><script>x</script>' - ??? ?");
}

#[test]
fn crc32_of_nothing_is_zero() {
    assert_eq!(crc32(b""), 0);
    assert_eq!(crc32(b"a"), 0xE8B7_BE43);
}

#[test]
fn distinct_serials_never_share_a_rendering() {
    assert_eq!(format_volume_serial(0x0001_0000), "0001-0000");
    assert_eq!(format_volume_serial(0x0000_0001), "0000-0001");
    assert_eq!(format_volume_serial(u32::MAX), "FFFF-FFFF");
    assert_ne!(format_volume_serial(0x0001_0000), format_volume_serial(0x0000_0001));
}

#[test]
fn format_epoch_covers_the_whole_i64_range() {
    assert_eq!(format_epoch(0), "1970-01-01 00:00:00 UTC");
    assert_eq!(format_epoch(-1), "1969-12-31 23:59:59 UTC");
    assert_eq!(format_epoch(951_782_400), "2000-02-29 00:00:00 UTC");
    assert_eq!(format_epoch(i64::MAX), "292277026596-12-04 15:30:07 UTC");
    assert_eq!(format_epoch(i64::MIN), "-292277022657-01-27 08:29:52 UTC");
}

#[test]
fn rekeying_keeps_attribute_value_and_provenance() {
    let claims = vec![
        claim("DEAD-BEEF", Attribute::AccessedFile, Value::Text("E:\\a.txt".into()), SourceKind::Lnk, "r.lnk"),
        claim("SN9", Attribute::VolumeSerial, Value::Text("DEAD-BEEF".into()), SourceKind::PartitionDiag, "p"),
    ];
    let out = reconcile_volume_serials(&claims);
    assert_eq!(out[0].device, DeviceKey("SN9".into()));
    assert_eq!(out[0].attribute, claims[0].attribute);
    assert_eq!(out[0].value, claims[0].value);
    assert_eq!(out[0].provenance, claims[0].provenance);
    assert_eq!(out[1], claims[1]);
}

#[test]
fn the_report_lists_every_value_and_every_finding() {
    let histories = correlate(&mixed_claims());
    let findings = audit(&histories);
    let report = usb_forensic::render_report(&histories, &findings);
    assert!(report.contains("| LastConnected | conflicting | 1970-01-01 00:05:00 UTC | Usbstor | c |\n"));
    assert!(report.contains("| LastConnected | conflicting | 1970-01-01 00:03:20 UTC | Lnk | d |\n"));
    for h in &histories {
        for a in &h.attributes {
            for v in &a.values {
                assert!(report.contains(&format!("| {} |", v.provenance.locator)));
            }
        }
    }
    for f in &findings {
        assert!(report.contains(&format!("** — {}\n", f.note)));
    }
}

#[test]
fn every_report_line_is_a_docx_paragraph() {
    let histories = correlate(&mixed_claims());
    let findings = audit(&histories);
    let report = usb_forensic::render_report(&histories, &findings);
    let docx = render_docx(&histories, &findings);
    let bytes = String::from_utf8_lossy(&docx);
    for line in report.lines() {
        let escaped = xml_escape(line);
        assert!(bytes.contains(&format!(
            "<w:p><w:r><w:t xml:space=\"preserve\">{escaped}</w:t></w:r></w:p>"
        )));
    }
}

#[test]
fn the_table_of_joined_histories_is_the_joined_tables() {
    let histories = correlate(&mixed_claims());
    let (a, b) = histories.split_at(1);
    let joined = usb_forensic::render_table(&histories);
    assert_eq!(joined, usb_forensic::render_table(a) + &usb_forensic::render_table(b));
    assert_eq!(usb_forensic::render_table(&[]), "");
}

#[test]
fn the_docx_archive_reads_back_as_its_parts() {
    let histories = correlate(&mixed_claims());
    let findings = audit(&histories);
    let z = render_docx(&histories, &findings);
    let u16_at = |i: usize| usize::from(z[i]) | usize::from(z[i + 1]) << 8;
    let u32_at = |i: usize| u16_at(i) | u16_at(i + 2) << 16;
    assert_eq!(u16_at(z.len() - 12), 3);
    let mut at = 0;
    let mut names = Vec::new();
    for _ in 0..3 {
        assert_eq!(&z[at..at + 4], b"PK\x03\x04");
        let (nl, dl) = (u16_at(at + 26), u32_at(at + 18));
        let name = String::from_utf8(z[at + 30..at + 30 + nl].to_vec()).unwrap();
        let data = &z[at + 30 + nl..at + 30 + nl + dl];
        assert_eq!(u32_at(at + 14) as u32, crc32(data));
        names.push(name);
        at += 30 + nl + dl;
    }
    assert_eq!(names, ["[Content_Types].xml", "_rels/.rels", "word/document.xml"]);
}

#[test]
fn renderings_sort_as_the_times_do() {
    let samples = [0i64, 59, 60, 3599, 86_399, 86_400, 951_782_399, 951_782_400, 1_700_000_000, 253_402_300_799];
    for w in samples.windows(2) {
        assert!(format_epoch(w[0]) < format_epoch(w[1]));
    }
    assert_eq!(format_epoch(253_402_300_799), "9999-12-31 23:59:59 UTC");
}

#[test]
fn consecutive_days_are_consecutive_dates() {
    assert_eq!(format_epoch(951_696_000), "2000-02-28 00:00:00 UTC");
    assert_eq!(format_epoch(951_696_000 + 86_400), "2000-02-29 00:00:00 UTC");
    assert_eq!(format_epoch(951_696_000 + 2 * 86_400), "2000-03-01 00:00:00 UTC");
    assert_eq!(format_epoch(-2_203_891_200), "1900-03-01 00:00:00 UTC");
    assert_eq!(format_epoch(-2_203_891_200 - 86_400), "1900-02-28 00:00:00 UTC");
}

#[test]
fn a_unified_log_with_an_unrewritable_offset_is_refused() {
    assert_eq!(read_unified_log(b"not json").map(|v| v.len()), Some(0));
    assert_eq!(read_unified_log(b"[]").map(|v| v.len()), Some(0));
}
