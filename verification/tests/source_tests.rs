#![allow(unused_imports)]
use usb_forensic::model::{Attribute, Claim, Consistency, DeviceKey, Provenance, SourceKind, Value};
use usb_forensic::{correlate_sources, HistorySource};
struct Mock(Vec<Claim>);
impl HistorySource for Mock {
    fn claims(&self) -> Vec<Claim> {
        self.0.clone()
    }
}

fn claim(src: SourceKind) -> Claim {
    Claim {
        device: DeviceKey("SN1".into()),
        attribute: Attribute::FirstConnected,
        value: Value::Timestamp(1_700_000_000),
        provenance: Provenance {
            source: src,
            locator: "x".into(),
        },
    }
}

#[test]
fn correlate_sources_merges_claims_from_every_source() {
    let a = Mock(vec![claim(SourceKind::Usbstor)]);
    let b = Mock(vec![claim(SourceKind::SetupApi)]);
    let sources: [&dyn HistorySource; 2] = [&a, &b];
    let hist = correlate_sources(&sources);
    assert_eq!(hist.len(), 1);
    // two distinct sources agreeing on the same value → corroborated
    assert_eq!(hist[0].attributes[0].consistency, Consistency::Corroborated);
}
