#![allow(unused_imports)]
use usb_forensic::model::{Attribute, Claim, DeviceKey, Provenance, SourceKind, Value};
use usb_forensic::pdf::{pdf_escape, render_pdf};
use usb_forensic::{audit, correlate};
#[test]
fn pdf_escape_folds_unicode_and_escapes_specials() {
    assert_eq!(pdf_escape(r"a(b)c\d"), r"a\(b\)c\\d");
    // em/en dash → '-', curly quotes → straight, other non-ASCII → '?'.
    assert_eq!(
        pdf_escape("x\u{2014}y\u{2013}\u{201C}q\u{201D}\u{2018}r\u{2019}\u{1F600}z"),
        "x-y-\"q\"'r'?z"
    );
}

#[test]
fn pdf_is_well_formed_and_paginated() {
    // Enough devices to force more than one page.
    let claims: Vec<Claim> = (0..40)
        .map(|i| Claim {
            device: DeviceKey(format!("SN{i}")),
            attribute: Attribute::FirstConnected,
            value: Value::Timestamp(1_700_000_000 + i),
            provenance: Provenance {
                source: SourceKind::SetupApi,
                locator: "log(1)".into(), // exercises pdf_escape on '(' / ')'
            },
        })
        .collect();
    let histories = correlate(&claims);
    let pdf = render_pdf(&histories, &audit(&histories));
    let text = String::from_utf8_lossy(&pdf);
    assert!(text.starts_with("%PDF-1.4"));
    assert!(text.trim_end().ends_with("%%EOF"));
    assert!(text.contains("/Type /Catalog"));
    assert!(text.contains("startxref"));
    assert!(
        text.matches("/Type /Page ").count() >= 2,
        "paginated across ≥2 pages"
    );
    assert!(text.contains(r"log\(1\)"), "parens escaped in the stream");
}

#[test]
fn empty_input_still_produces_one_valid_page() {
    let pdf = render_pdf(&[], &[]);
    let text = String::from_utf8_lossy(&pdf);
    assert!(text.starts_with("%PDF-1.4"));
    assert_eq!(text.matches("/Type /Page ").count(), 1);
}
