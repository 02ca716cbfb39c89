#![allow(unused_imports)]
use usb_forensic::Consistency;
#[test]
fn labels_are_stable_and_distinct() {
    let all = [
        Consistency::SingleSource,
        Consistency::Corroborated,
        Consistency::Conflicting,
    ];
    let labels: Vec<&str> = all.iter().map(|c| c.label()).collect();
    assert_eq!(labels, ["single-source", "corroborated", "conflicting"]);
    assert_eq!(
        labels
            .iter()
            .collect::<std::collections::HashSet<_>>()
            .len(),
        all.len(),
        "labels must be distinct",
    );
}
