#![allow(unused_imports)]
use usb_forensic::docx::{crc32, render_docx, xml_escape};
use usb_forensic::model::{Attribute, Claim, DeviceKey, Provenance, SourceKind, Value};
use usb_forensic::{audit, correlate};
#[test]
fn crc32_matches_the_standard_test_vector() {
    assert_eq!(crc32(b"123456789"), 0xCBF4_3926);
}

#[test]
fn xml_escape_covers_all_five_entities() {
    assert_eq!(
        xml_escape("a&b<c>d\"e'f"),
        "a&amp;b&lt;c&gt;d&quot;e&apos;f"
    );
}

#[test]
fn docx_is_a_valid_zip_carrying_the_document_part() {
    let claims = [Claim {
        device: DeviceKey("SN1".into()),
        attribute: Attribute::VolumeName,
        value: Value::Text("A&B<C>".into()), // forces xml escaping in the body
        provenance: Provenance {
            source: SourceKind::MountedDevices,
            locator: "m".into(),
        },
    }];
    let histories = correlate(&claims);
    let docx = render_docx(&histories, &audit(&histories));
    assert_eq!(&docx[..4], b"PK\x03\x04", "starts with a ZIP local header");
    let as_text = String::from_utf8_lossy(&docx);
    assert!(
        as_text.contains("word/document.xml"),
        "carries the document part"
    );
    assert!(as_text.contains("[Content_Types].xml"));
    assert!(
        as_text.contains("A&amp;B&lt;C&gt;"),
        "evidence text is XML-escaped"
    );
    assert_eq!(
        &docx[docx.len() - 22..docx.len() - 18],
        b"PK\x05\x06",
        "EOCD present"
    );
}
