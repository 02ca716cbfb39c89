#![allow(unused_imports)]
use usb_forensic::model::{Attribute, Claim, DeviceKey, Provenance, SourceKind, Value};
use usb_forensic::{parse_ipod_plist, AppleDevice, AppleIPodSource, HistorySource, PlistDate, PlistValue};


/// Read a plist's devices.
fn ipod(bytes: &[u8]) -> Vec<AppleDevice> {
    parse_ipod_plist(bytes)
}


const XML: &str = r#"<?xml version="1.0" encoding="UTF-8"?>
<plist version="1.0"><dict><key>Devices</key><dict>
  <key>0004486C1A03401E</key><dict>
<key>Device Class</key><string>iPad</string>
<key>Product Type</key><string>iPad14,6</string>
<key>Serial Number</key><string>TESTSERIAL9</string>
<key>ID</key><string>0004486C1A03401E</string>
<key>Connected</key><date>2023-07-04T00:50:36Z</date>
  </dict>
  <key>NOSERIAL</key><dict><key>Device Class</key><string>iPhone</string></dict>
</dict></dict></plist>"#;

#[test]
fn parse_extracts_serial_model_and_last_connected() {
    let devs = ipod(XML.as_bytes());
    let ipad = devs
        .iter()
        .find(|d| d.serial.as_deref() == Some("TESTSERIAL9"))
        .expect("device present");
    assert_eq!(ipad.model.as_deref(), Some("iPad14,6"));
    assert_eq!(ipad.last_connected, Some(1_688_431_836));
}

#[test]
fn a_non_plist_or_wrong_shape_yields_nothing() {
    assert!(ipod(b"not a plist").is_empty());
    let other = r#"<?xml version="1.0"?><plist version="1.0"><dict><key>X</key><string>y</string></dict></plist>"#;
    assert!(ipod(other.as_bytes()).is_empty());
}

#[test]
fn a_pre_1970_connected_date_saturates_to_epoch_zero() {
    // Defensive: a clock-wrong device with a pre-epoch `Connected` date yields 0, not a
    // panic or a negative wraparound.
    let xml = r#"<?xml version="1.0"?><plist version="1.0"><dict><key>Devices</key><dict>
      <key>OLD</key><dict><key>Serial Number</key><string>S</string>
      <key>Connected</key><date>1969-01-01T00:00:00Z</date></dict>
    </dict></dict></plist>"#;
    let devs = ipod(xml.as_bytes());
    assert_eq!(devs[0].last_connected, Some(0));
}

#[test]
fn source_emits_last_connected_and_model_keyed_by_serial() {
    let devs = ipod(XML.as_bytes());
    let claims = AppleIPodSource::new(&devs, "com.apple.iPod.plist").claims();
    let lc = claims
        .iter()
        .find(|c| c.attribute == Attribute::LastConnected)
        .expect("last-connected claim");
    assert_eq!(lc.device, DeviceKey("TESTSERIAL9".to_string()));
    assert_eq!(lc.value, Value::Timestamp(1_688_431_836));
    assert_eq!(lc.provenance.source, SourceKind::AppleIPod);
    assert!(lc.provenance.locator.contains("Devices/0004486C1A03401E"));
    let name = claims
        .iter()
        .find(|c| c.attribute == Attribute::VolumeName)
        .expect("model claim");
    assert_eq!(name.value, Value::Text("iPad14,6".to_string()));
}

#[test]
fn a_serialless_device_is_keyed_by_its_id_and_still_emits_its_model() {
    let devs = ipod(XML.as_bytes());
    let claims = AppleIPodSource::new(&devs, "f").claims();
    // NOSERIAL has a model but no serial and no Connected date → one VolumeName claim.
    let name = claims
        .iter()
        .find(|c| c.device == DeviceKey("NOSERIAL".to_string()))
        .expect("serialless device present");
    assert_eq!(name.attribute, Attribute::VolumeName);
    assert_eq!(name.value, Value::Text("iPhone".to_string()));
}
