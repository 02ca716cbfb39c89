//! Findings: turn correlated device histories into graded observations. Findings are
//! observations, never verdicts: a conflict is "consistent with" tampering or partial
//! evidence; a corroborated value is a reliable timeline fact.
use crate::correlate::{CorrelatedAttribute, CorrelatedAttributeView, DeviceHistory, DeviceHistoryView, ProvenancedValueView};
use crate::model::{container_of, ArtifactContainer, Attribute, Consistency, DeviceKey, SourceKind, Value, ValueView};
use crate::order::{insert_distinct, is_strictly_sorted, views, ViewOrder};
use crate::text::{debug_rendering, debug_text, decimal, owned, push_count, push_signed, push_str, signed_decimal};
use vstd::prelude::*;

verus! {

/// The finding code for a cross-source timestamp/value conflict.
pub const CODE_CONFLICT: &'static str = "USB-TIMESTAMP-CONFLICT";

/// The finding code for a corroborated device-history attribute.
pub const CODE_HISTORY: &'static str = "USB-DEVICE-HISTORY";

/// The finding code for a physically impossible first-vs-last timestamp ordering.
pub const CODE_IMPOSSIBLE_ORDER: &'static str = "USB-IMPOSSIBLE-ORDERING";

/// The finding code for a device whose volume is encrypted.
pub const CODE_ENCRYPTED: &'static str = "USB-VOLUME-ENCRYPTED";

/// The finding code for an MTP/PTP portable device.
pub const CODE_MTP: &'static str = "USB-MTP-DEVICE";

/// The finding code for a volume reformatted-and-reused (label with multiple serials).
pub const CODE_REFORMATTED: &'static str = "USB-VOLUME-REFORMATTED";

/// Severity of a finding (`Info` < `Low` < `Medium` < `High` < `Critical`).
#[derive(Debug, Clone, Copy, PartialEq, Eq, PartialOrd, Ord, Hash, Structural)]
#[non_exhaustive]
pub enum Severity {
    Info,
    Low,
    Medium,
    High,
    Critical,
}

/// The analytical lens of a finding.
#[derive(Debug, Clone, Copy, PartialEq, Eq, Hash, Structural)]
#[non_exhaustive]
pub enum Category {
    Integrity,
    Structure,
    Residue,
    Provenance,
    History,
    Concealment,
    Threat,
}

/// One backing evidence item: a field name and its rendered value.
#[derive(Debug, Clone, PartialEq, Eq)]
pub struct Evidence {
    pub field: String,
    pub value: String,
}

/// A forensic finding: an observation with its evidence, never an assertion of intent.
#[derive(Debug, Clone, PartialEq, Eq)]
pub struct Finding {
    /// Severity, or `None` when not scored.
    pub severity: Option<Severity>,
    /// Analytical lens.
    pub category: Category,
    /// Stable machine-readable code.
    pub code: String,
    /// Human-readable observation.
    pub note: String,
    /// Backing evidence.
    pub evidence: Vec<Evidence>,
    /// MITRE ATT&CK techniques the observation is consistent with.
    pub mitre: Vec<String>,
}

/// The mathematical content of an [`Evidence`] item.
pub struct EvidenceView {
    pub field: Seq<char>,
    pub value: Seq<char>,
}

impl View for Evidence {
    type V = EvidenceView;

    open spec fn view(&self) -> EvidenceView {
        EvidenceView { field: self.field@, value: self.value@ }
    }
}

/// The mathematical content of a [`Finding`].
pub struct FindingView {
    pub severity: Option<Severity>,
    pub category: Category,
    pub code: Seq<char>,
    pub note: Seq<char>,
    pub evidence: Seq<EvidenceView>,
    pub mitre: Seq<Seq<char>>,
}

impl View for Finding {
    type V = FindingView;

    open spec fn view(&self) -> FindingView {
        FindingView {
            severity: self.severity,
            category: self.category,
            code: self.code@,
            note: self.note@,
            evidence: views(self.evidence@),
            mitre: self.mitre@.map_values(|m: String| m@),
        }
    }
}

/// The `{:?}` name of an attribute.
pub open spec fn attribute_name(a: Attribute) -> Seq<char> {
    match a {
        Attribute::FirstConnected => "FirstConnected"@,
        Attribute::LastConnected => "LastConnected"@,
        Attribute::LastRemoved => "LastRemoved"@,
        Attribute::VolumeName => "VolumeName"@,
        Attribute::VolumeSerial => "VolumeSerial"@,
        Attribute::AccessedFile => "AccessedFile"@,
        Attribute::DriveLetter => "DriveLetter"@,
        Attribute::DeviceClass => "DeviceClass"@,
        Attribute::Encryption => "Encryption"@,
        Attribute::BrowsedFolder => "BrowsedFolder"@,
    }
}

/// The `{:?}` name of an attribute.
pub fn attribute_label(a: Attribute) -> (r: &'static str)
    ensures
        r@ == attribute_name(a),
{
    match a {
        Attribute::FirstConnected => "FirstConnected",
        Attribute::LastConnected => "LastConnected",
        Attribute::LastRemoved => "LastRemoved",
        Attribute::VolumeName => "VolumeName",
        Attribute::VolumeSerial => "VolumeSerial",
        Attribute::AccessedFile => "AccessedFile",
        Attribute::DriveLetter => "DriveLetter",
        Attribute::DeviceClass => "DeviceClass",
        Attribute::Encryption => "Encryption",
        Attribute::BrowsedFolder => "BrowsedFolder",
    }
}

/// The `{:?}` name of a source.
pub open spec fn source_name(s: SourceKind) -> Seq<char> {
    match s {
        SourceKind::Usbstor => "Usbstor"@,
        SourceKind::MountedDevices => "MountedDevices"@,
        SourceKind::SetupApi => "SetupApi"@,
        SourceKind::PartitionDiag => "PartitionDiag"@,
        SourceKind::Lnk => "Lnk"@,
        SourceKind::JumpList => "JumpList"@,
        SourceKind::LinuxKernelLog => "LinuxKernelLog"@,
        SourceKind::VolumeInfoCache => "VolumeInfoCache"@,
        SourceKind::MountPoints2 => "MountPoints2"@,
        SourceKind::EmdMgmt => "EmdMgmt"@,
        SourceKind::DeviceImage => "DeviceImage"@,
        SourceKind::AppleIPod => "AppleIPod"@,
        SourceKind::MacosUsb => "MacosUsb"@,
        SourceKind::MacosUnifiedLog => "MacosUnifiedLog"@,
        SourceKind::KernelPnp => "KernelPnp"@,
        SourceKind::DriverFramework => "DriverFramework"@,
        SourceKind::Shellbag => "Shellbag"@,
    }
}

/// The `{:?}` name of a source.
pub fn source_label(s: SourceKind) -> (r: &'static str)
    ensures
        r@ == source_name(s),
{
    match s {
        SourceKind::Usbstor => "Usbstor",
        SourceKind::MountedDevices => "MountedDevices",
        SourceKind::SetupApi => "SetupApi",
        SourceKind::PartitionDiag => "PartitionDiag",
        SourceKind::Lnk => "Lnk",
        SourceKind::JumpList => "JumpList",
        SourceKind::LinuxKernelLog => "LinuxKernelLog",
        SourceKind::VolumeInfoCache => "VolumeInfoCache",
        SourceKind::MountPoints2 => "MountPoints2",
        SourceKind::EmdMgmt => "EmdMgmt",
        SourceKind::DeviceImage => "DeviceImage",
        SourceKind::AppleIPod => "AppleIPod",
        SourceKind::MacosUsb => "MacosUsb",
        SourceKind::MacosUnifiedLog => "MacosUnifiedLog",
        SourceKind::KernelPnp => "KernelPnp",
        SourceKind::DriverFramework => "DriverFramework",
        SourceKind::Shellbag => "Shellbag",
    }
}

/// The `{:?}` rendering of a value: `Timestamp(n)` or `Text("…")`.
pub open spec fn value_debug(v: ValueView) -> Seq<char> {
    match v {
        ValueView::Timestamp(t) => "Timestamp("@ + signed_decimal(t as int) + ")"@,
        ValueView::Text(s) => "Text("@ + debug_rendering(s) + ")"@,
    }
}

/// The `{:?}` rendering of a value.
pub fn render_value_debug(v: &Value) -> (r: String)
    ensures
        r@ == value_debug(v@),
{
    let mut out = String::new();
    match v {
        Value::Timestamp(t) => {
            push_str(&mut out, "Timestamp(");
            push_signed(&mut out, *t);
            push_str(&mut out, ")");
        },
        Value::Text(s) => {
            push_str(&mut out, "Text(");
            let d = debug_text(s.as_str());
            push_str(&mut out, d.as_str());
            push_str(&mut out, ")");
        },
    }
    assert(out@ =~= value_debug(v@));
    out
}

/// The timestamps recorded for `attr` across a device's attributes, in order.
pub open spec fn ts_of_attributes(cas: Seq<CorrelatedAttributeView>, attr: Attribute) -> Seq<i64>
    decreases cas.len(),
{
    if cas.len() == 0 {
        Seq::empty()
    } else {
        ts_of_attributes(cas.drop_last(), attr) + if cas.last().attribute == attr {
            ts_of_values(cas.last().values)
        } else {
            Seq::empty()
        }
    }
}

/// The timestamps among some values, in order.
pub open spec fn ts_of_values(vals: Seq<ProvenancedValueView>) -> Seq<i64>
    decreases vals.len(),
{
    if vals.len() == 0 {
        Seq::empty()
    } else {
        ts_of_values(vals.drop_last()) + match vals.last().value {
            ValueView::Timestamp(t) => seq![t],
            ValueView::Text(_) => Seq::empty(),
        }
    }
}

/// The texts recorded for `attr` across a device's attributes, in order.
pub open spec fn text_of_attributes(cas: Seq<CorrelatedAttributeView>, attr: Attribute) -> Seq<Seq<char>>
    decreases cas.len(),
{
    if cas.len() == 0 {
        Seq::empty()
    } else {
        text_of_attributes(cas.drop_last(), attr) + if cas.last().attribute == attr {
            text_of_values(cas.last().values)
        } else {
            Seq::empty()
        }
    }
}

/// The texts among some values, in order.
pub open spec fn text_of_values(vals: Seq<ProvenancedValueView>) -> Seq<Seq<char>>
    decreases vals.len(),
{
    if vals.len() == 0 {
        Seq::empty()
    } else {
        text_of_values(vals.drop_last()) + match vals.last().value {
            ValueView::Text(s) => seq![s],
            ValueView::Timestamp(_) => Seq::empty(),
        }
    }
}

/// Every timestamp value recorded for `attr` on this device.
fn ts_values(h: &DeviceHistory, attr: Attribute) -> (r: Vec<i64>)
    ensures
        r@ == ts_of_attributes(h@.attributes, attr),
{
    let ghost cas = h@.attributes;
    let mut out: Vec<i64> = Vec::new();
    let mut k: usize = 0;
    while k < h.attributes.len()
        invariant
            k <= h.attributes.len(),
            cas == h@.attributes,
            out@ == ts_of_attributes(cas.take(k as int), attr),
        decreases h.attributes.len() - k,
    {
        let a = &h.attributes[k];
        assert(cas.take(k + 1).drop_last() =~= cas.take(k as int));
        assert(cas.take(k + 1).last() == a@);
        if a.attribute == attr {
            let ghost vals = a@.values;
            let ghost base = out@;
            let mut m: usize = 0;
            while m < a.values.len()
                invariant
                    m <= a.values.len(),
                    vals == a@.values,
                    out@ == base + ts_of_values(vals.take(m as int)),
                decreases a.values.len() - m,
            {
                assert(vals.take(m + 1).drop_last() =~= vals.take(m as int));
                assert(vals.take(m + 1).last() == a.values@[m as int]@);
                if let Value::Timestamp(t) = a.values[m].value {
                    out.push(t);
                }
                assert(out@ =~= base + ts_of_values(vals.take(m + 1)));
                m = m + 1;
            }
            assert(vals.take(m as int) =~= vals);
        }
        assert(out@ =~= ts_of_attributes(cas.take(k + 1), attr));
        k = k + 1;
    }
    assert(cas.take(k as int) =~= cas);
    out
}

/// Every text value recorded for `attr` on this device.
fn text_values(h: &DeviceHistory, attr: Attribute) -> (r: Vec<String>)
    ensures
        views(r@) == text_of_attributes(h@.attributes, attr),
{
    let ghost cas = h@.attributes;
    let mut out: Vec<String> = Vec::new();
    let mut k: usize = 0;
    while k < h.attributes.len()
        invariant
            k <= h.attributes.len(),
            cas == h@.attributes,
            views(out@) == text_of_attributes(cas.take(k as int), attr),
        decreases h.attributes.len() - k,
    {
        let a = &h.attributes[k];
        assert(cas.take(k + 1).drop_last() =~= cas.take(k as int));
        assert(cas.take(k + 1).last() == a@);
        if a.attribute == attr {
            let ghost vals = a@.values;
            let ghost base = views(out@);
            let mut m: usize = 0;
            while m < a.values.len()
                invariant
                    m <= a.values.len(),
                    vals == a@.values,
                    views(out@) == base + text_of_values(vals.take(m as int)),
                decreases a.values.len() - m,
            {
                assert(vals.take(m + 1).drop_last() =~= vals.take(m as int));
                assert(vals.take(m + 1).last() == a.values@[m as int]@);
                if let Value::Text(t) = &a.values[m].value {
                    let ghost prev = views(out@);
                    out.push(t.clone());
                    assert(views(out@) =~= prev.push(t@));
                }
                assert(views(out@) =~= base + text_of_values(vals.take(m + 1)));
                m = m + 1;
            }
            assert(vals.take(m as int) =~= vals);
        }
        assert(views(out@) =~= text_of_attributes(cas.take(k + 1), attr));
        k = k + 1;
    }
    assert(cas.take(k as int) =~= cas);
    out
}

/// The least element of a sequence, if any.
pub open spec fn seq_min(s: Seq<i64>) -> Option<i64>
    decreases s.len(),
{
    if s.len() == 0 {
        None
    } else {
        match seq_min(s.drop_last()) {
            None => Some(s.last()),
            Some(m) => Some(if s.last() < m { s.last() } else { m }),
        }
    }
}

/// The greatest element of a sequence, if any.
pub open spec fn seq_max(s: Seq<i64>) -> Option<i64>
    decreases s.len(),
{
    if s.len() == 0 {
        None
    } else {
        match seq_max(s.drop_last()) {
            None => Some(s.last()),
            Some(m) => Some(if s.last() > m { s.last() } else { m }),
        }
    }
}

/// The earliest timestamp recorded for `attr` on this device, if any.
fn min_ts(h: &DeviceHistory, attr: Attribute) -> (r: Option<i64>)
    ensures
        r == seq_min(ts_of_attributes(h@.attributes, attr)),
{
    let ts = ts_values(h, attr);
    let mut best: Option<i64> = None;
    let mut i: usize = 0;
    while i < ts.len()
        invariant
            i <= ts.len(),
            best == seq_min(ts@.take(i as int)),
        decreases ts.len() - i,
    {
        assert(ts@.take(i + 1).drop_last() =~= ts@.take(i as int));
        best = match best {
            None => Some(ts[i]),
            Some(m) => Some(if ts[i] < m { ts[i] } else { m }),
        };
        i = i + 1;
    }
    assert(ts@.take(i as int) =~= ts@);
    best
}

/// The latest timestamp recorded for `attr` on this device, if any.
fn max_ts(h: &DeviceHistory, attr: Attribute) -> (r: Option<i64>)
    ensures
        r == seq_max(ts_of_attributes(h@.attributes, attr)),
{
    let ts = ts_values(h, attr);
    let mut best: Option<i64> = None;
    let mut i: usize = 0;
    while i < ts.len()
        invariant
            i <= ts.len(),
            best == seq_max(ts@.take(i as int)),
        decreases ts.len() - i,
    {
        assert(ts@.take(i + 1).drop_last() =~= ts@.take(i as int));
        best = match best {
            None => Some(ts[i]),
            Some(m) => Some(if ts[i] > m { ts[i] } else { m }),
        };
        i = i + 1;
    }
    assert(ts@.take(i as int) =~= ts@);
    best
}

/// The number of distinct storage containers the values come from.
pub open spec fn container_count(vals: Seq<ProvenancedValueView>) -> nat {
    vals.map_values(|pv: ProvenancedValueView| container_of(pv.provenance.source)).to_set().len()
}

/// Count the distinct containers of an attribute's values.
fn count_containers(a: &CorrelatedAttribute) -> (r: usize)
    ensures
        r == container_count(a@.values),
{
    let ghost vals = a@.values;
    let ghost all = vals.map_values(|pv: ProvenancedValueView| container_of(pv.provenance.source));
    let mut seen: Vec<ArtifactContainer> = Vec::new();
    let mut m: usize = 0;
    while m < a.values.len()
        invariant
            m <= a.values.len(),
            vals == a@.values,
            all == vals.map_values(|pv: ProvenancedValueView| container_of(pv.provenance.source)),
            is_strictly_sorted::<ArtifactContainer>(views(seen@)),
            forall|c: ArtifactContainer| #[trigger] views(seen@).contains(c) <==> all.take(m as int).contains(c),
        decreases a.values.len() - m,
    {
        let c = a.values[m].provenance.source.container();
        assert(all[m as int] == c);
        let ghost prev = views(seen@);
        insert_distinct(&mut seen, c);
        assert forall|x: ArtifactContainer| #[trigger] views(seen@).contains(x) <==> all.take(m + 1).contains(x) by {
            assert(all.take(m + 1) =~= all.take(m as int).push(c));
            assert(views(seen@).contains(x) <==> (prev.contains(x) || x == c));
            assert(prev.contains(x) <==> all.take(m as int).contains(x));
            if all.take(m + 1).contains(x) {
                let k = choose|k: int| 0 <= k < m + 1 && #[trigger] all.take(m + 1)[k] == x;
                if k < m {
                    assert(all.take(m as int)[k] == x);
                }
            }
            if all.take(m as int).contains(x) {
                let k = choose|k: int| 0 <= k < m && #[trigger] all.take(m as int)[k] == x;
                assert(all.take(m + 1)[k] == x);
            }
            if x == c {
                assert(all.take(m + 1)[m as int] == x);
            }
        }
        m = m + 1;
    }
    proof {
        assert(all.take(m as int) =~= all);
        let sv = views(seen@);
        assert(sv.no_duplicates()) by {
            assert forall|i: int, j: int| 0 <= i < sv.len() && 0 <= j < sv.len() && i != j implies sv[i] != sv[j] by {
                if i < j {
                    assert(ArtifactContainer::before(sv[i], sv[j]));
                } else {
                    assert(ArtifactContainer::before(sv[j], sv[i]));
                }
            }
        }
        sv.unique_seq_to_set();
        assert(sv.to_set() =~= all.to_set());
    }
    seen.len()
}

/// The finding for attribute values that independent containers disagree on.
pub open spec fn conflict_finding(d: Seq<char>, ca: CorrelatedAttributeView) -> FindingView {
    FindingView {
        severity: Some(Severity::Medium),
        category: Category::Integrity,
        code: CODE_CONFLICT@,
        note: "device "@ + d + ": independent sources disagree on "@ + attribute_name(ca.attribute)
            + " — consistent with timestamp tampering or partial evidence"@,
        evidence: ca.values.map_values(
            |pv: ProvenancedValueView|
                EvidenceView { field: source_name(pv.provenance.source), value: value_debug(pv.value) },
        ),
        mitre: seq!["T1070.006"@],
    }
}

/// The finding for an attribute corroborated across independent containers.
pub open spec fn history_finding(d: Seq<char>, ca: CorrelatedAttributeView) -> FindingView {
    FindingView {
        severity: Some(Severity::Info),
        category: Category::History,
        code: CODE_HISTORY@,
        note: "device "@ + d + ": "@ + attribute_name(ca.attribute) + " corroborated across "@
            + decimal(container_count(ca.values)) + " independent containers"@,
        evidence: Seq::empty(),
        mitre: Seq::empty(),
    }
}

/// The findings one graded attribute yields: a conflict, a corroboration, or none.
pub open spec fn attribute_finding(d: Seq<char>, ca: CorrelatedAttributeView) -> Seq<FindingView> {
    match ca.consistency {
        Consistency::Conflicting => seq![conflict_finding(d, ca)],
        Consistency::Corroborated => seq![history_finding(d, ca)],
        Consistency::SingleSource => Seq::empty(),
    }
}

/// The findings of all of a device's graded attributes, in attribute order.
pub open spec fn attribute_findings(d: Seq<char>, cas: Seq<CorrelatedAttributeView>) -> Seq<FindingView>
    decreases cas.len(),
{
    if cas.len() == 0 {
        Seq::empty()
    } else {
        attribute_findings(d, cas.drop_last()) + attribute_finding(d, cas.last())
    }
}

/// Build the conflict finding.
fn make_conflict(device: &DeviceKey, a: &CorrelatedAttribute) -> (r: Finding)
    ensures
        r@ == conflict_finding(device@, a@),
{
    let mut note = String::new();
    push_str(&mut note, "device ");
    push_str(&mut note, device.0.as_str());
    push_str(&mut note, ": independent sources disagree on ");
    push_str(&mut note, attribute_label(a.attribute));
    push_str(&mut note, " — consistent with timestamp tampering or partial evidence");
    let ghost vals = a@.values;
    let mut evidence: Vec<Evidence> = Vec::new();
    let mut m: usize = 0;
    while m < a.values.len()
        invariant
            m <= a.values.len(),
            vals == a@.values,
            views(evidence@) == vals.take(m as int).map_values(
                |pv: ProvenancedValueView|
                    EvidenceView { field: source_name(pv.provenance.source), value: value_debug(pv.value) },
            ),
        decreases a.values.len() - m,
    {
        let pv = &a.values[m];
        assert(vals[m as int] == pv@);
        let e = Evidence { field: owned(source_label(pv.provenance.source)), value: render_value_debug(&pv.value) };
        let ghost prev = views(evidence@);
        evidence.push(e);
        assert(views(evidence@) =~= prev.push(e@));
        assert(vals.take(m + 1) =~= vals.take(m as int).push(vals[m as int]));
        m = m + 1;
    }
    assert(vals.take(m as int) =~= vals);
    let mut mitre: Vec<String> = Vec::new();
    mitre.push(owned("T1070.006"));
    let f = Finding {
        severity: Some(Severity::Medium),
        category: Category::Integrity,
        code: owned(CODE_CONFLICT),
        note,
        evidence,
        mitre,
    };
    assert(f@.note =~= conflict_finding(device@, a@).note);
    assert(f@.mitre =~= seq!["T1070.006"@]);
    f
}

/// Build the corroboration finding.
fn make_history(device: &DeviceKey, a: &CorrelatedAttribute) -> (r: Finding)
    ensures
        r@ == history_finding(device@, a@),
{
    let containers = count_containers(a);
    let mut note = String::new();
    push_str(&mut note, "device ");
    push_str(&mut note, device.0.as_str());
    push_str(&mut note, ": ");
    push_str(&mut note, attribute_label(a.attribute));
    push_str(&mut note, " corroborated across ");
    push_count(&mut note, containers);
    push_str(&mut note, " independent containers");
    let f = Finding {
        severity: Some(Severity::Info),
        category: Category::History,
        code: owned(CODE_HISTORY),
        note,
        evidence: Vec::new(),
        mitre: Vec::new(),
    };
    assert(f@.note =~= history_finding(device@, a@).note);
    assert(f@.evidence =~= Seq::<EvidenceView>::empty());
    assert(f@.mitre =~= Seq::<Seq<char>>::empty());
    f
}

/// The latest of the last-connection and last-removal times, if any.
pub open spec fn latest_last(h: DeviceHistoryView) -> Option<i64> {
    match (seq_max(ts_of_attributes(h.attributes, Attribute::LastConnected)), seq_max(
        ts_of_attributes(h.attributes, Attribute::LastRemoved),
    )) {
        (Some(a), Some(b)) => Some(if b > a { b } else { a }),
        (Some(a), None) => Some(a),
        (None, Some(b)) => Some(b),
        (None, None) => None,
    }
}

/// The impossible-ordering finding: the earliest first-connection is strictly after the
/// latest last-connection/removal.
pub open spec fn impossible_finding(h: DeviceHistoryView) -> Seq<FindingView> {
    match (seq_min(ts_of_attributes(h.attributes, Attribute::FirstConnected)), latest_last(h)) {
        (Some(first), Some(last)) => if first > last {
            seq![
                FindingView {
                    severity: Some(Severity::Medium),
                    category: Category::Integrity,
                    code: CODE_IMPOSSIBLE_ORDER@,
                    note: "device "@ + h.device + ": earliest first-connection ("@ + signed_decimal(first as int)
                        + ") is after the latest last-connection/removal ("@ + signed_decimal(last as int)
                        + ") — consistent with clock rollback or timestamp manipulation"@,
                    evidence: seq![
                        EvidenceView { field: "FirstConnected"@, value: signed_decimal(first as int) },
                        EvidenceView { field: "LastConnected/LastRemoved"@, value: signed_decimal(last as int) },
                    ],
                    mitre: seq!["T1070.006"@],
                },
            ]
        } else {
            Seq::empty()
        },
        _ => Seq::empty(),
    }
}

/// Flag a device whose earliest first-connect is strictly later than its latest
/// last-connect or last-removal — physically impossible under any reading of the
/// timestamps, so a false-positive-free lead.
fn impossible_ordering(h: &DeviceHistory) -> (r: Option<Finding>)
    ensures
        match r {
            Some(f) => impossible_finding(h@) == seq![f@],
            None => impossible_finding(h@) == Seq::<FindingView>::empty(),
        },
{
    let first = match min_ts(h, Attribute::FirstConnected) {
        Some(f) => f,
        None => {
            return None;
        },
    };
    let last = match (max_ts(h, Attribute::LastConnected), max_ts(h, Attribute::LastRemoved)) {
        (Some(a), Some(b)) => if b > a { b } else { a },
        (Some(a), None) => a,
        (None, Some(b)) => b,
        (None, None) => {
            return None;
        },
    };
    if first <= last {
        return None;
    }
    let mut note = String::new();
    push_str(&mut note, "device ");
    push_str(&mut note, h.device.0.as_str());
    push_str(&mut note, ": earliest first-connection (");
    push_signed(&mut note, first);
    push_str(&mut note, ") is after the latest last-connection/removal (");
    push_signed(&mut note, last);
    push_str(&mut note, ") — consistent with clock rollback or timestamp manipulation");
    let mut first_text = String::new();
    push_signed(&mut first_text, first);
    let mut last_text = String::new();
    push_signed(&mut last_text, last);
    let mut evidence: Vec<Evidence> = Vec::new();
    evidence.push(Evidence { field: owned("FirstConnected"), value: first_text });
    evidence.push(Evidence { field: owned("LastConnected/LastRemoved"), value: last_text });
    let mut mitre: Vec<String> = Vec::new();
    mitre.push(owned("T1070.006"));
    let f = Finding {
        severity: Some(Severity::Medium),
        category: Category::Integrity,
        code: owned(CODE_IMPOSSIBLE_ORDER),
        note,
        evidence,
        mitre,
    };
    proof {
        let expected = impossible_finding(h@)[0];
        assert(f@.note =~= expected.note);
        assert(f@.evidence =~= expected.evidence);
        assert(f@.mitre =~= expected.mitre);
        assert(impossible_finding(h@) =~= seq![f@]);
    }
    Some(f)
}

/// The index of the first attribute equal to `attr`, if any.
pub open spec fn first_attribute_index(cas: Seq<CorrelatedAttributeView>, attr: Attribute) -> Option<int>
    decreases cas.len(),
{
    if cas.len() == 0 {
        None
    } else if cas[0].attribute == attr {
        Some(0)
    } else {
        match first_attribute_index(cas.drop_first(), attr) {
            Some(k) => Some(k + 1),
            None => None,
        }
    }
}

/// The encryption finding: the device's first encryption attribute carries a text value.
pub open spec fn encryption_finding_of(h: DeviceHistoryView) -> Seq<FindingView> {
    match first_attribute_index(h.attributes, Attribute::Encryption) {
        Some(k) => if h.attributes[k].values.len() > 0 {
            match h.attributes[k].values[0].value {
                ValueView::Text(kind) => seq![
                    FindingView {
                        severity: Some(Severity::Low),
                        category: Category::History,
                        code: CODE_ENCRYPTED@,
                        note: "device "@ + h.device + ": volume is "@ + kind
                            + "-encrypted — its contents are not accessible without the decryption key"@,
                        evidence: Seq::empty(),
                        mitre: Seq::empty(),
                    },
                ],
                ValueView::Timestamp(_) => Seq::empty(),
            }
        } else {
            Seq::empty()
        },
        None => Seq::empty(),
    }
}

proof fn lemma_first_index(cas: Seq<CorrelatedAttributeView>, attr: Attribute, k: int)
    requires
        0 <= k < cas.len(),
        cas[k].attribute == attr,
        forall|j: int| 0 <= j < k ==> cas[j].attribute != attr,
    ensures
        first_attribute_index(cas, attr) == Some(k),
    decreases k,
{
    if k > 0 {
        lemma_first_index(cas.drop_first(), attr, k - 1);
    }
}

proof fn lemma_no_index(cas: Seq<CorrelatedAttributeView>, attr: Attribute)
    requires
        forall|j: int| 0 <= j < cas.len() ==> cas[j].attribute != attr,
    ensures
        first_attribute_index(cas, attr) is None,
    decreases cas.len(),
{
    if cas.len() > 0 {
        lemma_no_index(cas.drop_first(), attr);
    }
}

/// Flag a device whose volume carries an encryption signature — stated, not judged.
fn encryption_finding(h: &DeviceHistory) -> (r: Option<Finding>)
    ensures
        match r {
            Some(f) => encryption_finding_of(h@) == seq![f@],
            None => encryption_finding_of(h@) == Seq::<FindingView>::empty(),
        },
{
    let ghost cas = h@.attributes;
    let mut k: usize = 0;
    while k < h.attributes.len()
        invariant
            k <= h.attributes.len(),
            cas == h@.attributes,
            forall|j: int| 0 <= j < k ==> cas[j].attribute != Attribute::Encryption,
        decreases h.attributes.len() - k,
    {
        assert(cas[k as int] == h.attributes@[k as int]@);
        if h.attributes[k].attribute == Attribute::Encryption {
            proof {
                lemma_first_index(cas, Attribute::Encryption, k as int);
            }
            let a = &h.attributes[k];
            if a.values.len() == 0 {
                return None;
            }
            assert(cas[k as int].values[0] == a.values@[0]@);
            match &a.values[0].value {
                Value::Text(kind) => {
                    let mut note = String::new();
                    push_str(&mut note, "device ");
                    push_str(&mut note, h.device.0.as_str());
                    push_str(&mut note, ": volume is ");
                    push_str(&mut note, kind.as_str());
                    push_str(&mut note, "-encrypted — its contents are not accessible without the decryption key");
                    let f = Finding {
                        severity: Some(Severity::Low),
                        category: Category::History,
                        code: owned(CODE_ENCRYPTED),
                        note,
                        evidence: Vec::new(),
                        mitre: Vec::new(),
                    };
                    proof {
                        let expected = encryption_finding_of(h@)[0];
                        assert(f@.note =~= expected.note);
                        assert(f@.evidence =~= expected.evidence);
                        assert(f@.mitre =~= expected.mitre);
                        assert(encryption_finding_of(h@) =~= seq![f@]);
                    }
                    return Some(f);
                },
                Value::Timestamp(_) => {
                    return None;
                },
            }
        }
        k = k + 1;
    }
    proof {
        lemma_no_index(cas, Attribute::Encryption);
    }
    None
}

/// Whether some device-class value is the text `MTP`.
pub open spec fn is_mtp(h: DeviceHistoryView) -> bool {
    exists|k: int, m: int|
        0 <= k < h.attributes.len() && 0 <= m < h.attributes[k].values.len()
            && h.attributes[k].attribute == Attribute::DeviceClass
            && (#[trigger] h.attributes[k].values[m]).value == ValueView::Text("MTP"@)
}

/// The MTP finding.
pub open spec fn mtp_finding_of(h: DeviceHistoryView) -> Seq<FindingView> {
    if is_mtp(h) {
        seq![
            FindingView {
                severity: Some(Severity::Low),
                category: Category::History,
                code: CODE_MTP@,
                note: "device "@ + h.device
                    + ": MTP/PTP portable device (phone/tablet/camera) — a data-transfer endpoint that does not appear under USBSTOR"@,
                evidence: Seq::empty(),
                mitre: seq!["T1052.001"@],
            },
        ]
    } else {
        Seq::empty()
    }
}

/// Flag an MTP/PTP portable device — a data-exfil endpoint that never appears under
/// `USBSTOR` — stated, not judged.
fn mtp_finding(h: &DeviceHistory) -> (r: Option<Finding>)
    ensures
        match r {
            Some(f) => mtp_finding_of(h@) == seq![f@],
            None => mtp_finding_of(h@) == Seq::<FindingView>::empty(),
        },
{
    let ghost cas = h@.attributes;
    let mtp = owned("MTP");
    let mut found = false;
    let mut k: usize = 0;
    while k < h.attributes.len() && !found
        invariant
            k <= h.attributes.len(),
            cas == h@.attributes,
            mtp@ == "MTP"@,
            found ==> is_mtp(h@),
            !found ==> forall|kk: int, m: int|
                0 <= kk < k && 0 <= m < cas[kk].values.len() && cas[kk].attribute == Attribute::DeviceClass
                    ==> (#[trigger] cas[kk].values[m]).value != ValueView::Text("MTP"@),
        decreases h.attributes.len() - k,
    {
        let a = &h.attributes[k];
        assert(cas[k as int] == a@);
        if a.attribute == Attribute::DeviceClass {
            let mut m: usize = 0;
            while m < a.values.len() && !found
                invariant
                    m <= a.values.len(),
                    cas == h@.attributes,
                    cas[k as int] == a@,
                    k < h.attributes.len(),
                    a.attribute == Attribute::DeviceClass,
                    mtp@ == "MTP"@,
                    found ==> is_mtp(h@),
                    !found ==> forall|mm: int| 0 <= mm < m ==> (#[trigger] cas[k as int].values[mm]).value != ValueView::Text("MTP"@),
                decreases a.values.len() - m,
            {
                assert(cas[k as int].values[m as int] == a.values@[m as int]@);
                if let Value::Text(t) = &a.values[m].value {
                    if *t == mtp {
                        assert(cas[k as int].values[m as int].value == ValueView::Text("MTP"@));
                        found = true;
                    }
                }
                m = m + 1;
            }
        }
        k = k + 1;
    }
    if !found {
        return None;
    }
    let mut note = String::new();
    push_str(&mut note, "device ");
    push_str(&mut note, h.device.0.as_str());
    push_str(&mut note, ": MTP/PTP portable device (phone/tablet/camera) — a data-transfer endpoint that does not appear under USBSTOR");
    let mut mitre: Vec<String> = Vec::new();
    mitre.push(owned("T1052.001"));
    let f = Finding {
        severity: Some(Severity::Low),
        category: Category::History,
        code: owned(CODE_MTP),
        note,
        evidence: Vec::new(),
        mitre,
    };
    proof {
        let expected = mtp_finding_of(h@)[0];
        assert(f@.note =~= expected.note);
        assert(f@.evidence =~= expected.evidence);
        assert(f@.mitre =~= expected.mitre);
        assert(mtp_finding_of(h@) =~= seq![f@]);
    }
    Some(f)
}

/// Some history records label `l` and serial `s` together.
pub open spec fn label_serial(hs: Seq<DeviceHistoryView>, l: Seq<char>, s: Seq<char>) -> bool {
    exists|i: int|
        0 <= i < hs.len() && text_of_attributes((#[trigger] hs[i]).attributes, Attribute::VolumeName).contains(l)
            && text_of_attributes(hs[i].attributes, Attribute::VolumeSerial).contains(s)
}

/// Label `l` appears with two or more distinct volume serials.
pub open spec fn reused_label(hs: Seq<DeviceHistoryView>, l: Seq<char>) -> bool {
    exists|s1: Seq<char>, s2: Seq<char>| s1 != s2 && label_serial(hs, l, s1) && label_serial(hs, l, s2)
}

/// The texts joined by `, `.
pub open spec fn join_comma(ss: Seq<Seq<char>>) -> Seq<char>
    decreases ss.len(),
{
    if ss.len() == 0 {
        Seq::empty()
    } else if ss.len() == 1 {
        ss[0]
    } else {
        join_comma(ss.drop_last()) + ", "@ + ss.last()
    }
}

/// The reformatting finding for label `l` seen with the (sorted) serials.
pub open spec fn reformat_finding(l: Seq<char>, serials: Seq<Seq<char>>) -> FindingView {
    quoted_reformat_finding(debug_rendering(l), serials)
}

/// The reformatting finding for a label, given in its quoted `{:?}` form, seen with the
/// (sorted) serials.
pub open spec fn quoted_reformat_finding(quoted: Seq<char>, serials: Seq<Seq<char>>) -> FindingView {
    FindingView {
        severity: Some(Severity::Medium),
        category: Category::Integrity,
        code: CODE_REFORMATTED@,
        note: "volume "@ + quoted + " appears with "@ + decimal(serials.len()) + " distinct volume serials ("@
            + join_comma(serials)
            + ") — consistent with the device having been reformatted and reused"@,
        evidence: serials.map_values(|s: Seq<char>| EvidenceView { field: "VolumeSerial"@, value: s }),
        mitre: seq!["T1070.004"@],
    }
}

/// `labels` and `lists` witness that `fs` is the reformatting section: one finding per
/// reused label, in label order, each listing the label's serials in order.
pub open spec fn reformat_witness(
    hs: Seq<DeviceHistoryView>,
    fs: Seq<FindingView>,
    labels: Seq<Seq<char>>,
    lists: Seq<Seq<Seq<char>>>,
) -> bool {
    &&& labels.len() == fs.len()
    &&& lists.len() == fs.len()
    &&& is_strictly_sorted::<String>(labels)
    &&& forall|l: Seq<char>| #[trigger] labels.contains(l) <==> reused_label(hs, l)
    &&& forall|k: int|
        0 <= k < fs.len() ==> {
            &&& is_strictly_sorted::<String>(#[trigger] lists[k])
            &&& forall|s: Seq<char>| #[trigger] lists[k].contains(s) <==> label_serial(hs, labels[k], s)
            &&& fs[k] == reformat_finding(labels[k], lists[k])
        }
}

/// `fs` is the reformatting section for `hs`.
pub open spec fn is_reformat_section(hs: Seq<DeviceHistoryView>, fs: Seq<FindingView>) -> bool {
    exists|labels: Seq<Seq<char>>, lists: Seq<Seq<Seq<char>>>| reformat_witness(hs, fs, labels, lists)
}

/// Whether `v` holds a string equal to `t`.
fn contains_text(v: &Vec<String>, t: &String) -> (r: bool)
    ensures
        r == views(v@).contains(t@),
{
    let mut i: usize = 0;
    while i < v.len()
        invariant
            i <= v.len(),
            forall|k: int| 0 <= k < i ==> views(v@)[k] != t@,
        decreases v.len() - i,
    {
        assert(views(v@)[i as int] == v@[i as int]@);
        if v[i] == *t {
            return true;
        }
        i = i + 1;
    }
    false
}

/// The distinct labels recorded anywhere, sorted.
fn collect_labels(histories: &[DeviceHistory]) -> (r: Vec<String>)
    ensures
        is_strictly_sorted::<String>(views(r@)),
        forall|l: Seq<char>| #[trigger] views(r@).contains(l) <==> exists|i: int|
            0 <= i < histories@.len() && text_of_attributes(
                (#[trigger] histories@[i])@.attributes,
                Attribute::VolumeName,
            ).contains(l),
{
    let mut out: Vec<String> = Vec::new();
    let mut i: usize = 0;
    while i < histories.len()
        invariant
            i <= histories.len(),
            is_strictly_sorted::<String>(views(out@)),
            forall|l: Seq<char>| #[trigger] views(out@).contains(l) <==> exists|j: int|
                0 <= j < i && text_of_attributes((#[trigger] histories@[j])@.attributes, Attribute::VolumeName).contains(l),
        decreases histories.len() - i,
    {
        let labels = text_values(&histories[i], Attribute::VolumeName);
        let ghost lv = views(labels@);
        let ghost base = views(out@);
        let mut m: usize = 0;
        while m < labels.len()
            invariant
                m <= labels.len(),
                lv == views(labels@),
                is_strictly_sorted::<String>(views(out@)),
                forall|l: Seq<char>| #[trigger] views(out@).contains(l) <==> (base.contains(l) || lv.take(m as int).contains(l)),
            decreases labels.len() - m,
        {
            let ghost prev = views(out@);
            insert_distinct(&mut out, labels[m].clone());
            assert forall|l: Seq<char>| #[trigger] views(out@).contains(l) <==> (base.contains(l) || lv.take(m + 1).contains(l)) by {
                assert(lv.take(m + 1) =~= lv.take(m as int).push(lv[m as int]));
                assert(lv[m as int] == labels@[m as int]@);
                if lv.take(m + 1).contains(l) {
                    let k = choose|k: int| 0 <= k < m + 1 && #[trigger] lv.take(m + 1)[k] == l;
                    if k < m {
                        assert(lv.take(m as int)[k] == l);
                    }
                }
                if lv.take(m as int).contains(l) {
                    let k = choose|k: int| 0 <= k < m && #[trigger] lv.take(m as int)[k] == l;
                    assert(lv.take(m + 1)[k] == l);
                }
                if l == lv[m as int] {
                    assert(lv.take(m + 1)[m as int] == l);
                }
            }
            m = m + 1;
        }
        assert(lv.take(m as int) =~= lv);
        assert forall|l: Seq<char>| #[trigger] views(out@).contains(l) <==> exists|j: int|
            0 <= j < i + 1 && text_of_attributes((#[trigger] histories@[j])@.attributes, Attribute::VolumeName).contains(l) by {
            if exists|j: int| 0 <= j < i + 1 && text_of_attributes((#[trigger] histories@[j])@.attributes, Attribute::VolumeName).contains(l) {
                let j = choose|j: int| 0 <= j < i + 1 && text_of_attributes((#[trigger] histories@[j])@.attributes, Attribute::VolumeName).contains(l);
                if j == i {
                    assert(lv.contains(l));
                }
            }
        }
        i = i + 1;
    }
    out
}

/// The distinct serials recorded together with label `l`, sorted.
fn collect_serials(histories: &[DeviceHistory], l: &String) -> (r: Vec<String>)
    ensures
        is_strictly_sorted::<String>(views(r@)),
        forall|s: Seq<char>| #[trigger] views(r@).contains(s) <==> label_serial(views(histories@), l@, s),
{
    let ghost hs = views(histories@);
    let mut out: Vec<String> = Vec::new();
    let mut i: usize = 0;
    while i < histories.len()
        invariant
            i <= histories.len(),
            hs == views(histories@),
            is_strictly_sorted::<String>(views(out@)),
            forall|s: Seq<char>| #[trigger] views(out@).contains(s) <==> label_serial(hs.take(i as int), l@, s),
        decreases histories.len() - i,
    {
        let labels = text_values(&histories[i], Attribute::VolumeName);
        assert(hs[i as int] == histories@[i as int]@);
        let ghost base = views(out@);
        let ghost post = hs.take(i + 1);
        assert forall|s: Seq<char>| label_serial(post, l@, s) <==> (label_serial(hs.take(i as int), l@, s)
            || (text_of_attributes(hs[i as int].attributes, Attribute::VolumeName).contains(l@)
                && text_of_attributes(hs[i as int].attributes, Attribute::VolumeSerial).contains(s))) by {
            if label_serial(post, l@, s) {
                let j = choose|j: int| 0 <= j < post.len() && text_of_attributes((#[trigger] post[j]).attributes, Attribute::VolumeName).contains(l@)
                    && text_of_attributes(post[j].attributes, Attribute::VolumeSerial).contains(s);
                if j < i {
                    assert(hs.take(i as int)[j] == post[j]);
                }
            }
            if label_serial(hs.take(i as int), l@, s) {
                let j = choose|j: int| 0 <= j < i && text_of_attributes((#[trigger] hs.take(i as int)[j]).attributes, Attribute::VolumeName).contains(l@)
                    && text_of_attributes(hs.take(i as int)[j].attributes, Attribute::VolumeSerial).contains(s);
                assert(post[j] == hs.take(i as int)[j]);
            }
            if text_of_attributes(hs[i as int].attributes, Attribute::VolumeName).contains(l@)
                && text_of_attributes(hs[i as int].attributes, Attribute::VolumeSerial).contains(s) {
                assert(post[i as int] == hs[i as int]);
            }
        }
        if contains_text(&labels, l) {
            let serials = text_values(&histories[i], Attribute::VolumeSerial);
            let ghost sv = views(serials@);
            let mut m: usize = 0;
            while m < serials.len()
                invariant
                    m <= serials.len(),
                    sv == views(serials@),
                    is_strictly_sorted::<String>(views(out@)),
                    forall|s: Seq<char>| #[trigger] views(out@).contains(s) <==> (base.contains(s) || sv.take(m as int).contains(s)),
                decreases serials.len() - m,
            {
                insert_distinct(&mut out, serials[m].clone());
                assert forall|s: Seq<char>| #[trigger] views(out@).contains(s) <==> (base.contains(s) || sv.take(m + 1).contains(s)) by {
                    assert(sv.take(m + 1) =~= sv.take(m as int).push(sv[m as int]));
                    assert(sv[m as int] == serials@[m as int]@);
                    if sv.take(m + 1).contains(s) {
                        let k = choose|k: int| 0 <= k < m + 1 && #[trigger] sv.take(m + 1)[k] == s;
                        if k < m {
                            assert(sv.take(m as int)[k] == s);
                        }
                    }
                    if sv.take(m as int).contains(s) {
                        let k = choose|k: int| 0 <= k < m && #[trigger] sv.take(m as int)[k] == s;
                        assert(sv.take(m + 1)[k] == s);
                    }
                    if s == sv[m as int] {
                        assert(sv.take(m + 1)[m as int] == s);
                    }
                }
                m = m + 1;
            }
            assert(sv.take(m as int) =~= sv);
        }
        i = i + 1;
    }
    assert(hs.take(i as int) =~= hs);
    out
}

/// Build the reformatting finding for a label and its sorted serials.
fn make_reformatted(label: &String, serials: &Vec<String>) -> (r: Finding)
    ensures
        r@ == reformat_finding(label@, views(serials@)),
{
    let quoted = debug_text(label.as_str());
    reformatting_finding_for(quoted.as_str(), serials)
}

/// The reformatting finding for a label, given in its quoted `{:?}` form, and its sorted
/// serials: the note names the label, the count and the serials; one evidence item per
/// serial.
pub fn reformatting_finding_for(quoted: &str, serials: &Vec<String>) -> (r: Finding)
    ensures
        r@ == quoted_reformat_finding(quoted@, views(serials@)),
{
    let ghost sv = views(serials@);
    let mut list = String::new();
    let mut i: usize = 0;
    while i < serials.len()
        invariant
            i <= serials.len(),
            sv == views(serials@),
            list@ == join_comma(sv.take(i as int)),
        decreases serials.len() - i,
    {
        assert(sv.take(i + 1).drop_last() =~= sv.take(i as int));
        assert(sv[i as int] == serials@[i as int]@);
        if i > 0 {
            push_str(&mut list, ", ");
        }
        push_str(&mut list, serials[i].as_str());
        assert(list@ =~= join_comma(sv.take(i + 1)));
        i = i + 1;
    }
    assert(sv.take(i as int) =~= sv);
    let mut note = String::new();
    push_str(&mut note, "volume ");
    push_str(&mut note, quoted);
    push_str(&mut note, " appears with ");
    push_count(&mut note, serials.len());
    push_str(&mut note, " distinct volume serials (");
    push_str(&mut note, list.as_str());
    push_str(&mut note, ") — consistent with the device having been reformatted and reused");
    let mut evidence: Vec<Evidence> = Vec::new();
    let mut k: usize = 0;
    while k < serials.len()
        invariant
            k <= serials.len(),
            sv == views(serials@),
            views(evidence@) == sv.take(k as int).map_values(|s: Seq<char>| EvidenceView { field: "VolumeSerial"@, value: s }),
        decreases serials.len() - k,
    {
        let e = Evidence { field: owned("VolumeSerial"), value: serials[k].clone() };
        let ghost prev = views(evidence@);
        evidence.push(e);
        assert(sv[k as int] == serials@[k as int]@);
        assert(views(evidence@) =~= prev.push(e@));
        assert(sv.take(k + 1) =~= sv.take(k as int).push(sv[k as int]));
        k = k + 1;
    }
    assert(sv.take(k as int) =~= sv);
    let mut mitre: Vec<String> = Vec::new();
    mitre.push(owned("T1070.004"));
    let f = Finding {
        severity: Some(Severity::Medium),
        category: Category::Integrity,
        code: owned(CODE_REFORMATTED),
        note,
        evidence,
        mitre,
    };
    assert(f@.note =~= quoted_reformat_finding(quoted@, sv).note);
    assert(f@.mitre =~= seq!["T1070.004"@]);
    f
}

/// Flag each volume label seen with two or more distinct volume serials across the
/// evidence — a formatted-and-reused device. One finding per such label, in label order,
/// listing every serial seen.
fn reformatting_findings(histories: &[DeviceHistory]) -> (r: Vec<Finding>)
    ensures
        is_reformat_section(views(histories@), views(r@)),
{
    let ghost hs = views(histories@);
    let labels = collect_labels(histories);
    let ghost lv = views(labels@);
    let mut out: Vec<Finding> = Vec::new();
    let ghost mut chosen: Seq<Seq<char>> = Seq::empty();
    let ghost mut lists: Seq<Seq<Seq<char>>> = Seq::empty();
    let mut k: usize = 0;
    while k < labels.len()
        invariant
            k <= labels.len(),
            hs == views(histories@),
            lv == views(labels@),
            is_strictly_sorted::<String>(lv),
            forall|l: Seq<char>| #[trigger] lv.contains(l) <==> exists|i: int|
                0 <= i < histories@.len() && text_of_attributes((#[trigger] histories@[i])@.attributes, Attribute::VolumeName).contains(l),
            chosen.len() == out@.len(),
            lists.len() == out@.len(),
            forall|a: int| 0 <= a < chosen.len() ==> exists|b: int| 0 <= b < k && #[trigger] chosen[a] == lv[b],
            forall|a: int, b: int| 0 <= a < b < chosen.len() ==> String::before(#[trigger] chosen[a], #[trigger] chosen[b]),
            forall|a: int| 0 <= a < chosen.len() ==> exists|b: int| 0 <= b < k && lv[b] == #[trigger] chosen[a] && forall|c: int| b < c < lv.len() ==> String::before(#[trigger] chosen[a], lv[c]),
            forall|l: Seq<char>| #[trigger] chosen.contains(l) <==> (reused_label(hs, l) && exists|b: int| 0 <= b < k && lv[b] == l),
            forall|a: int| 0 <= a < out@.len() ==> {
                &&& is_strictly_sorted::<String>(#[trigger] lists[a])
                &&& forall|s: Seq<char>| #[trigger] lists[a].contains(s) <==> label_serial(hs, chosen[a], s)
                &&& views(out@)[a] == reformat_finding(chosen[a], lists[a])
            },
        decreases labels.len() - k,
    {
        let serials = collect_serials(histories, &labels[k]);
        assert(lv[k as int] == labels@[k as int]@);
        let ghost sv = views(serials@);
        proof {
            assert(reused_label(hs, lv[k as int]) <==> serials.len() >= 2) by {
                if serials.len() >= 2 {
                    assert(String::before(sv[0], sv[1]));
                    String::lemma_irreflexive(sv[0]);
                    assert(sv.contains(sv[0]) && sv.contains(sv[1]));
                    assert(label_serial(hs, lv[k as int], sv[0]) && label_serial(hs, lv[k as int], sv[1]));
                }
                if reused_label(hs, lv[k as int]) {
                    let (s1, s2) = choose|s1: Seq<char>, s2: Seq<char>| s1 != s2 && label_serial(hs, lv[k as int], s1) && label_serial(hs, lv[k as int], s2);
                    assert(sv.contains(s1) && sv.contains(s2));
                    if serials.len() < 2 {
                        let a = choose|a: int| 0 <= a < sv.len() && sv[a] == s1;
                        let b = choose|b: int| 0 <= b < sv.len() && sv[b] == s2;
                        assert(a == b);
                    }
                }
            }
        }
        if serials.len() >= 2 {
            let f = make_reformatted(&labels[k], &serials);
            let ghost prev = views(out@);
            out.push(f);
            proof {
                assert(views(out@) =~= prev.push(f@));
                let old_chosen = chosen;
                let old_lists = lists;
                chosen = chosen.push(lv[k as int]);
                lists = lists.push(sv);
                assert forall|a: int| 0 <= a < out@.len() implies {
                    &&& is_strictly_sorted::<String>(#[trigger] lists[a])
                    &&& forall|s: Seq<char>| #[trigger] lists[a].contains(s) <==> label_serial(hs, chosen[a], s)
                    &&& views(out@)[a] == reformat_finding(chosen[a], lists[a])
                } by {
                    if a < old_chosen.len() {
                        assert(lists[a] == old_lists[a]);
                        assert(chosen[a] == old_chosen[a]);
                        assert(views(out@)[a] == prev[a]);
                    }
                }
                assert forall|l: Seq<char>| #[trigger] chosen.contains(l) <==> (reused_label(hs, l) && exists|b: int| 0 <= b < k + 1 && lv[b] == l) by {
                    if chosen.contains(l) {
                        let a = choose|a: int| 0 <= a < chosen.len() && chosen[a] == l;
                        if a < old_chosen.len() {
                            assert(old_chosen.contains(l));
                        }
                    }
                    if reused_label(hs, l) && exists|b: int| 0 <= b < k + 1 && lv[b] == l {
                        let b = choose|b: int| 0 <= b < k + 1 && lv[b] == l;
                        if b < k {
                            assert(old_chosen.contains(l));
                            let a = choose|a: int| 0 <= a < old_chosen.len() && old_chosen[a] == l;
                            assert(chosen[a] == l);
                        } else {
                            assert(chosen[old_chosen.len() as int] == l);
                        }
                    }
                }
                assert forall|a: int| 0 <= a < chosen.len() implies exists|b: int| 0 <= b < k + 1 && lv[b] == #[trigger] chosen[a] && forall|c: int| b < c < lv.len() ==> String::before(#[trigger] chosen[a], lv[c]) by {
                    if a < old_chosen.len() {
                        assert(chosen[a] == old_chosen[a]);
                    } else {
                        assert(forall|c: int| k < c < lv.len() ==> String::before(lv[k as int], lv[c]));
                    }
                }
                assert forall|a: int| 0 <= a < chosen.len() implies exists|b: int| 0 <= b < k + 1 && #[trigger] chosen[a] == lv[b] by {
                    if a < old_chosen.len() {
                        assert(chosen[a] == old_chosen[a]);
                    } else {
                        assert(chosen[a] == lv[k as int]);
                    }
                }
                assert forall|a: int, b: int| 0 <= a < b < chosen.len() implies String::before(#[trigger] chosen[a], #[trigger] chosen[b]) by {
                    if b == old_chosen.len() {
                        assert(chosen[a] == old_chosen[a]);
                        let bb = choose|bb: int| 0 <= bb < k && lv[bb] == #[trigger] old_chosen[a] && forall|c: int| bb < c < lv.len() ==> String::before(#[trigger] old_chosen[a], lv[c]);
                        assert(String::before(old_chosen[a], lv[k as int]));
                    } else {
                        assert(chosen[a] == old_chosen[a] && chosen[b] == old_chosen[b]);
                    }
                }
            }
        } else {
            proof {
                assert forall|l: Seq<char>| #[trigger] chosen.contains(l) <==> (reused_label(hs, l) && exists|b: int| 0 <= b < k + 1 && lv[b] == l) by {
                    if reused_label(hs, l) && exists|b: int| 0 <= b < k + 1 && lv[b] == l {
                        let b = choose|b: int| 0 <= b < k + 1 && lv[b] == l;
                        if b == k {
                            assert(!reused_label(hs, lv[k as int]));
                        }
                    }
                }
                assert forall|a: int| 0 <= a < chosen.len() implies exists|b: int| 0 <= b < k + 1 && lv[b] == #[trigger] chosen[a] && forall|c: int| b < c < lv.len() ==> String::before(#[trigger] chosen[a], lv[c]) by {
                    let b = choose|b: int| 0 <= b < k && lv[b] == #[trigger] chosen[a] && forall|c: int| b < c < lv.len() ==> String::before(#[trigger] chosen[a], lv[c]);
                }
                assert forall|a: int| 0 <= a < chosen.len() implies exists|b: int| 0 <= b < k + 1 && #[trigger] chosen[a] == lv[b] by {
                    let b = choose|b: int| 0 <= b < k && #[trigger] chosen[a] == lv[b];
                }
            }
        }
        k = k + 1;
    }
    proof {
        assert forall|l: Seq<char>| #[trigger] chosen.contains(l) <==> reused_label(hs, l) by {
            if reused_label(hs, l) {
                let (s1, s2) = choose|s1: Seq<char>, s2: Seq<char>| s1 != s2 && label_serial(hs, l, s1) && label_serial(hs, l, s2);
                let i = choose|i: int| 0 <= i < hs.len() && text_of_attributes((#[trigger] hs[i]).attributes, Attribute::VolumeName).contains(l)
                    && text_of_attributes(hs[i].attributes, Attribute::VolumeSerial).contains(s1);
                assert(hs[i] == histories@[i]@);
                assert(lv.contains(l));
            }
        }
        assert(reformat_witness(hs, views(out@), chosen, lists));
    }
    out
}

/// The findings of one device: its graded attributes, then the ordering, encryption and
/// MTP observations.
pub open spec fn history_findings(h: DeviceHistoryView) -> Seq<FindingView> {
    attribute_findings(h.device, h.attributes) + impossible_finding(h) + encryption_finding_of(h)
        + mtp_finding_of(h)
}

/// The per-device findings of every history, in history order.
pub open spec fn all_history_findings(hs: Seq<DeviceHistoryView>) -> Seq<FindingView>
    decreases hs.len(),
{
    if hs.len() == 0 {
        Seq::empty()
    } else {
        all_history_findings(hs.drop_last()) + history_findings(hs.last())
    }
}

/// Append an optional finding.
fn push_optional(out: &mut Vec<Finding>, f: Option<Finding>, Ghost(expected): Ghost<Seq<FindingView>>)
    requires
        match f {
            Some(x) => expected == seq![x@],
            None => expected == Seq::<FindingView>::empty(),
        },
    ensures
        views(final(out)@) == views(old(out)@) + expected,
{
    match f {
        Some(x) => {
            let ghost prev = views(out@);
            out.push(x);
            assert(views(out@) =~= prev + expected);
        },
        None => {
            assert(views(out@) =~= views(out@) + expected);
        },
    }
}

/// Append the per-device findings of one history: its graded attributes, then the
/// ordering, encryption and MTP observations.
fn push_history_findings(out: &mut Vec<Finding>, h: &DeviceHistory)
    ensures
        views(final(out)@) == views(old(out)@) + history_findings(h@),
{
    let ghost base = views(out@);
    let ghost cas = h@.attributes;
    let mut k: usize = 0;
    while k < h.attributes.len()
        invariant
            k <= h.attributes.len(),
            cas == h@.attributes,
            views(out@) == base + attribute_findings(h@.device, cas.take(k as int)),
        decreases h.attributes.len() - k,
    {
        let a = &h.attributes[k];
        assert(cas.take(k + 1).drop_last() =~= cas.take(k as int));
        assert(cas.take(k + 1).last() == a@);
        let ghost prev = views(out@);
        match a.consistency {
            Consistency::Conflicting => {
                let f = make_conflict(&h.device, a);
                out.push(f);
                assert(views(out@) =~= prev.push(f@));
            },
            Consistency::Corroborated => {
                let f = make_history(&h.device, a);
                out.push(f);
                assert(views(out@) =~= prev.push(f@));
            },
            Consistency::SingleSource => {},
        }
        assert(views(out@) =~= base + attribute_findings(h@.device, cas.take(k + 1)));
        k = k + 1;
    }
    assert(cas.take(k as int) =~= cas);
    push_optional(out, impossible_ordering(h), Ghost(impossible_finding(h@)));
    push_optional(out, encryption_finding(h), Ghost(encryption_finding_of(h@)));
    push_optional(out, mtp_finding(h), Ghost(mtp_finding_of(h@)));
    assert(views(out@) =~= base + history_findings(h@));
}

/// Convert correlated device histories into forensic findings: a `Conflicting`
/// attribute yields a Medium integrity finding with every value as evidence; a
/// `Corroborated` one an Info history finding; a `SingleSource` one nothing. Then, per
/// device, the impossible-ordering, encryption and MTP observations; last, one finding
/// per volume label seen with several serials.
pub fn audit(histories: &[DeviceHistory]) -> (r: Vec<Finding>)
    ensures
        views(r@).take(all_history_findings(views(histories@)).len() as int) == all_history_findings(
            views(histories@),
        ),
        all_history_findings(views(histories@)).len() <= r@.len(),
        is_reformat_section(
            views(histories@),
            views(r@).skip(all_history_findings(views(histories@)).len() as int),
        ),
{
    let ghost hs = views(histories@);
    let mut out: Vec<Finding> = Vec::new();
    let mut i: usize = 0;
    while i < histories.len()
        invariant
            i <= histories.len(),
            hs == views(histories@),
            views(out@) == all_history_findings(hs.take(i as int)),
        decreases histories.len() - i,
    {
        let h = &histories[i];
        assert(hs.take(i + 1).drop_last() =~= hs.take(i as int));
        assert(hs.take(i + 1).last() == h@);
        push_history_findings(&mut out, h);
        i = i + 1;
    }
    assert(hs.take(i as int) =~= hs);
    let ghost head = views(out@);
    let mut tail = reformatting_findings(histories);
    let ghost tv = views(tail@);
    out.append(&mut tail);
    assert(views(out@) =~= head + tv);
    assert(views(out@).take(head.len() as int) =~= head);
    assert(views(out@).skip(head.len() as int) =~= tv);
    out
}

/// A finding graded as an observation: informational, low or medium, never a higher
/// grade that would read as a verdict.
pub open spec fn is_observation(f: FindingView) -> bool {
    f.severity == Some(Severity::Info) || f.severity == Some(Severity::Low) || f.severity == Some(Severity::Medium)
}

/// Each graded attribute is reported as its grade says: a conflict yields one medium
/// integrity finding that keeps every value as evidence, a corroboration one
/// informational history finding, and a single-source value no finding of its own.
pub proof fn law_grade_decides_the_finding(d: Seq<char>, ca: CorrelatedAttributeView)
    ensures
        ca.consistency == Consistency::Conflicting ==> {
            &&& attribute_finding(d, ca).len() == 1
            &&& attribute_finding(d, ca)[0].severity == Some(Severity::Medium)
            &&& attribute_finding(d, ca)[0].category == Category::Integrity
            &&& attribute_finding(d, ca)[0].evidence.len() == ca.values.len()
        },
        ca.consistency == Consistency::Corroborated ==> {
            &&& attribute_finding(d, ca).len() == 1
            &&& attribute_finding(d, ca)[0].severity == Some(Severity::Info)
            &&& attribute_finding(d, ca)[0].category == Category::History
        },
        ca.consistency == Consistency::SingleSource ==> attribute_finding(d, ca).len() == 0,
{
}

/// Every finding of one device is an observation.
proof fn lemma_history_findings_are_observations(h: DeviceHistoryView)
    ensures
        forall|i: int| 0 <= i < history_findings(h).len() ==> is_observation(#[trigger] history_findings(h)[i]),
{
    let a = attribute_findings(h.device, h.attributes);
    let b = impossible_finding(h);
    let c = encryption_finding_of(h);
    let m = mtp_finding_of(h);
    lemma_attribute_findings_are_observations(h.device, h.attributes);
    let all = history_findings(h);
    assert(all == a + b + c + m);
    assert forall|i: int| 0 <= i < all.len() implies is_observation(#[trigger] all[i]) by {
        if i < a.len() {
            assert(all[i] == a[i]);
        } else if i < a.len() + b.len() {
            assert(all[i] == b[i - a.len()]);
        } else if i < a.len() + b.len() + c.len() {
            assert(all[i] == c[i - a.len() - b.len()]);
        } else {
            assert(all[i] == m[i - a.len() - b.len() - c.len()]);
        }
    }
}

/// Every finding of a device's graded attributes is an observation.
proof fn lemma_attribute_findings_are_observations(d: Seq<char>, cas: Seq<CorrelatedAttributeView>)
    ensures
        forall|i: int|
            0 <= i < attribute_findings(d, cas).len() ==> is_observation(#[trigger] attribute_findings(d, cas)[i]),
    decreases cas.len(),
{
    if cas.len() > 0 {
        lemma_attribute_findings_are_observations(d, cas.drop_last());
        let head = attribute_findings(d, cas.drop_last());
        let last = attribute_finding(d, cas.last());
        let all = attribute_findings(d, cas);
        assert(all == head + last);
        assert forall|i: int| 0 <= i < all.len() implies is_observation(#[trigger] all[i]) by {
            if i < head.len() {
                assert(all[i] == head[i]);
            } else {
                assert(all[i] == last[i - head.len()]);
            }
        }
    }
}

/// Every per-device finding of every history is an observation.
proof fn lemma_all_history_findings_are_observations(hs: Seq<DeviceHistoryView>)
    ensures
        forall|i: int|
            0 <= i < all_history_findings(hs).len() ==> is_observation(#[trigger] all_history_findings(hs)[i]),
    decreases hs.len(),
{
    if hs.len() > 0 {
        lemma_all_history_findings_are_observations(hs.drop_last());
        lemma_history_findings_are_observations(hs.last());
        let head = all_history_findings(hs.drop_last());
        let last = history_findings(hs.last());
        let all = all_history_findings(hs);
        assert(all == head + last);
        assert forall|i: int| 0 <= i < all.len() implies is_observation(#[trigger] all[i]) by {
            if i < head.len() {
                assert(all[i] == head[i]);
            } else {
                assert(all[i] == last[i - head.len()]);
            }
        }
    }
}

/// Findings are observations, never verdicts: whatever the histories, every finding the
/// audit reports (its per-device findings followed by its reformatting section) is
/// graded informational, low or medium.
pub proof fn law_findings_are_observations(hs: Seq<DeviceHistoryView>, fs: Seq<FindingView>)
    requires
        all_history_findings(hs).len() <= fs.len(),
        fs.take(all_history_findings(hs).len() as int) == all_history_findings(hs),
        is_reformat_section(hs, fs.skip(all_history_findings(hs).len() as int)),
    ensures
        forall|i: int| 0 <= i < fs.len() ==> is_observation(#[trigger] fs[i]),
{
    let n = all_history_findings(hs).len() as int;
    lemma_all_history_findings_are_observations(hs);
    let tail = fs.skip(n);
    let (labels, lists) = choose|labels: Seq<Seq<char>>, lists: Seq<Seq<Seq<char>>>|
        reformat_witness(hs, tail, labels, lists);
    assert forall|i: int| 0 <= i < fs.len() implies is_observation(#[trigger] fs[i]) by {
        if i < n {
            assert(fs[i] == fs.take(n)[i]);
        } else {
            assert(fs[i] == tail[i - n]);
            assert(tail[i - n] == reformat_finding(labels[i - n], lists[i - n]));
        }
    }
}

/// The device records timestamp `t` for `attr` in one of its values.
pub open spec fn records_time(h: DeviceHistoryView, attr: Attribute, t: i64) -> bool {
    exists|i: int, k: int|
        0 <= i < h.attributes.len() && 0 <= k < h.attributes[i].values.len() && (#[trigger] h.attributes[i]).attribute
            == attr && (#[trigger] h.attributes[i].values[k]).value == ValueView::Timestamp(t)
}

/// The device records `t` as a last connection or a last removal.
pub open spec fn records_end(h: DeviceHistoryView, t: i64) -> bool {
    records_time(h, Attribute::LastConnected, t) || records_time(h, Attribute::LastRemoved, t)
}

/// A timestamp is among some values' timestamps exactly when one of them carries it.
proof fn lemma_ts_of_values_holds(vals: Seq<ProvenancedValueView>, t: i64)
    ensures
        ts_of_values(vals).contains(t) <==> exists|k: int|
            0 <= k < vals.len() && (#[trigger] vals[k]).value == ValueView::Timestamp(t),
    decreases vals.len(),
{
    if vals.len() > 0 {
        let pre = vals.drop_last();
        lemma_ts_of_values_holds(pre, t);
        let tail: Seq<i64> = match vals.last().value {
            ValueView::Timestamp(u) => seq![u],
            ValueView::Text(_) => Seq::empty(),
        };
        assert(ts_of_values(vals) == ts_of_values(pre) + tail);
        if ts_of_values(vals).contains(t) {
            let j = choose|j: int| 0 <= j < ts_of_values(vals).len() && ts_of_values(vals)[j] == t;
            if j < ts_of_values(pre).len() {
                assert(ts_of_values(pre)[j] == t);
                assert(ts_of_values(pre).contains(t));
                let k = choose|k: int| 0 <= k < pre.len() && (#[trigger] pre[k]).value == ValueView::Timestamp(t);
                assert(vals[k] == pre[k]);
            } else {
                assert(vals[vals.len() - 1].value == ValueView::Timestamp(t));
            }
        }
        if exists|k: int| 0 <= k < vals.len() && (#[trigger] vals[k]).value == ValueView::Timestamp(t) {
            let k = choose|k: int| 0 <= k < vals.len() && (#[trigger] vals[k]).value == ValueView::Timestamp(t);
            if k < pre.len() {
                assert(pre[k] == vals[k]);
                let j = choose|j: int| 0 <= j < ts_of_values(pre).len() && ts_of_values(pre)[j] == t;
                assert(ts_of_values(vals)[j] == t);
            } else {
                assert(ts_of_values(vals)[ts_of_values(pre).len() as int] == t);
            }
        }
    }
}

/// A timestamp is among an attribute's timestamps exactly when one of its values carries it.
proof fn lemma_ts_of_attributes_holds(cas: Seq<CorrelatedAttributeView>, attr: Attribute, t: i64)
    ensures
        ts_of_attributes(cas, attr).contains(t) <==> exists|i: int, k: int|
            0 <= i < cas.len() && 0 <= k < cas[i].values.len() && (#[trigger] cas[i]).attribute == attr
                && (#[trigger] cas[i].values[k]).value == ValueView::Timestamp(t),
    decreases cas.len(),
{
    if cas.len() > 0 {
        let pre = cas.drop_last();
        let n = cas.len() - 1;
        lemma_ts_of_attributes_holds(pre, attr, t);
        lemma_ts_of_values_holds(cas[n].values, t);
        let tail = if cas.last().attribute == attr { ts_of_values(cas.last().values) } else { Seq::empty() };
        let whole = ts_of_attributes(cas, attr);
        let front = ts_of_attributes(pre, attr);
        assert(whole == front + tail);
        if whole.contains(t) {
            let j = choose|j: int| 0 <= j < whole.len() && whole[j] == t;
            if j < front.len() {
                assert(front[j] == t);
                assert(front.contains(t));
                let (i, k) = choose|i: int, k: int|
                    0 <= i < pre.len() && 0 <= k < pre[i].values.len() && (#[trigger] pre[i]).attribute == attr
                        && (#[trigger] pre[i].values[k]).value == ValueView::Timestamp(t);
                assert(cas[i] == pre[i]);
                assert(cas[i].values[k] == pre[i].values[k]);
            } else {
                assert(tail[j - front.len()] == t);
                assert(tail.contains(t));
                let k = choose|k: int| 0 <= k < cas[n].values.len() && (#[trigger] cas[n].values[k]).value == ValueView::Timestamp(t);
                assert(cas[n].attribute == attr);
            }
        }
        if exists|i: int, k: int|
            0 <= i < cas.len() && 0 <= k < cas[i].values.len() && (#[trigger] cas[i]).attribute == attr
                && (#[trigger] cas[i].values[k]).value == ValueView::Timestamp(t) {
            let (i, k) = choose|i: int, k: int|
                0 <= i < cas.len() && 0 <= k < cas[i].values.len() && (#[trigger] cas[i]).attribute == attr
                    && (#[trigger] cas[i].values[k]).value == ValueView::Timestamp(t);
            if i < n {
                assert(pre[i] == cas[i]);
                assert(pre[i].values[k] == cas[i].values[k]);
                assert(front.contains(t));
                let j = choose|j: int| 0 <= j < front.len() && front[j] == t;
                assert(whole[j] == t);
            } else {
                assert(cas[n].values[k].value == ValueView::Timestamp(t));
                assert(ts_of_values(cas[n].values).contains(t));
                let j = choose|j: int| 0 <= j < tail.len() && tail[j] == t;
                assert(whole[front.len() + j] == t);
            }
        }
    }
}

/// The device records `t` for `attr` exactly when `t` is among its timestamps for `attr`.
proof fn lemma_records_time(h: DeviceHistoryView, attr: Attribute)
    ensures
        forall|t: i64| records_time(h, attr, t) <==> #[trigger] ts_of_attributes(h.attributes, attr).contains(t),
{
    assert forall|t: i64| records_time(h, attr, t) <==> #[trigger] ts_of_attributes(h.attributes, attr).contains(t) by {
        lemma_ts_of_attributes_holds(h.attributes, attr, t);
    }
}

/// The least element is one of the elements and no element is below it; there is one
/// exactly when the sequence is not empty.
proof fn lemma_seq_min(s: Seq<i64>)
    ensures
        seq_min(s) is None <==> s.len() == 0,
        seq_min(s) is Some ==> s.contains(seq_min(s).unwrap()),
        forall|x: i64| s.contains(x) ==> seq_min(s).unwrap() <= x,
    decreases s.len(),
{
    if s.len() > 0 {
        let pre = s.drop_last();
        lemma_seq_min(pre);
        assert(s == pre.push(s.last()));
        assert forall|x: i64| s.contains(x) implies seq_min(s).unwrap() <= x by {
            let j = choose|j: int| 0 <= j < s.len() && s[j] == x;
            if j < pre.len() {
                assert(pre[j] == x);
                assert(pre.contains(x));
            }
        }
        if seq_min(pre) is Some && seq_min(s) == seq_min(pre) {
            let j = choose|j: int| 0 <= j < pre.len() && pre[j] == seq_min(pre).unwrap();
            assert(s[j] == pre[j]);
        } else {
            assert(s[s.len() - 1] == s.last());
        }
    }
}

/// The greatest element is one of the elements and no element is above it; there is one
/// exactly when the sequence is not empty.
proof fn lemma_seq_max(s: Seq<i64>)
    ensures
        seq_max(s) is None <==> s.len() == 0,
        seq_max(s) is Some ==> s.contains(seq_max(s).unwrap()),
        forall|x: i64| s.contains(x) ==> x <= seq_max(s).unwrap(),
    decreases s.len(),
{
    if s.len() > 0 {
        let pre = s.drop_last();
        lemma_seq_max(pre);
        assert(s == pre.push(s.last()));
        assert forall|x: i64| s.contains(x) implies x <= seq_max(s).unwrap() by {
            let j = choose|j: int| 0 <= j < s.len() && s[j] == x;
            if j < pre.len() {
                assert(pre[j] == x);
                assert(pre.contains(x));
            }
        }
        if seq_max(pre) is Some && seq_max(s) == seq_max(pre) {
            let j = choose|j: int| 0 <= j < pre.len() && pre[j] == seq_max(pre).unwrap();
            assert(s[j] == pre[j]);
        } else {
            assert(s[s.len() - 1] == s.last());
        }
    }
}

/// The impossible-ordering finding is raised exactly when the device has a first
/// connection and a last connection or removal, and every first connection it records
/// is strictly later than every last connection and removal; it is raised at most once,
/// and its evidence names the earliest first connection and the latest last event.
#[verifier::rlimit(40)]
#[verifier::spinoff_prover]
pub proof fn law_impossible_ordering_exactly(h: DeviceHistoryView)
    ensures
        impossible_finding(h).len() <= 1,
        impossible_finding(h).len() == 1 <==> {
            &&& exists|f: i64| records_time(h, Attribute::FirstConnected, f)
            &&& exists|l: i64| records_end(h, l)
            &&& forall|f: i64, l: i64|
                records_time(h, Attribute::FirstConnected, f) && records_end(h, l) ==> f > l
        },
        impossible_finding(h).len() == 1 ==> exists|f: i64, l: i64| {
            &&& records_time(h, Attribute::FirstConnected, f)
            &&& records_end(h, l)
            &&& forall|g: i64| records_time(h, Attribute::FirstConnected, g) ==> f <= g
            &&& forall|m: i64| records_end(h, m) ==> m <= l
            &&& impossible_finding(h)[0].evidence == seq![
                EvidenceView { field: "FirstConnected"@, value: signed_decimal(f as int) },
                EvidenceView { field: "LastConnected/LastRemoved"@, value: signed_decimal(l as int) },
            ]
        },
{
    let fs = ts_of_attributes(h.attributes, Attribute::FirstConnected);
    let lc = ts_of_attributes(h.attributes, Attribute::LastConnected);
    let lr = ts_of_attributes(h.attributes, Attribute::LastRemoved);
    lemma_records_time(h, Attribute::FirstConnected);
    lemma_records_time(h, Attribute::LastConnected);
    lemma_records_time(h, Attribute::LastRemoved);
    lemma_seq_min(fs);
    lemma_seq_max(lc);
    lemma_seq_max(lr);
    let raised = {
        &&& exists|f: i64| records_time(h, Attribute::FirstConnected, f)
        &&& exists|l: i64| records_end(h, l)
        &&& forall|f: i64, l: i64| records_time(h, Attribute::FirstConnected, f) && records_end(h, l) ==> f > l
    };
    match (seq_min(fs), latest_last(h)) {
        (Some(first), Some(last)) => {
            assert(records_time(h, Attribute::FirstConnected, first));
            assert(records_end(h, last));
            assert forall|m: i64| records_end(h, m) implies m <= last by {
                if records_time(h, Attribute::LastConnected, m) {
                    assert(lc.contains(m));
                } else {
                    assert(lr.contains(m));
                }
            }
            assert forall|g: i64| records_time(h, Attribute::FirstConnected, g) implies first <= g by {
                assert(fs.contains(g));
            }
            if first > last {
                assert forall|f: i64, l: i64|
                    records_time(h, Attribute::FirstConnected, f) && records_end(h, l) implies f > l by {
                    assert(first <= f);
                    assert(l <= last);
                }
                assert(raised);
            } else {
                assert(!raised);
            }
        },
        (None, _) => {
            assert forall|f: i64| !records_time(h, Attribute::FirstConnected, f) by {
                if records_time(h, Attribute::FirstConnected, f) {
                    assert(fs.contains(f));
                }
            }
            assert(!raised);
        },
        (Some(_), None) => {
            assert(seq_max(lc) is None && seq_max(lr) is None);
            assert forall|l: i64| !records_end(h, l) by {
                if records_time(h, Attribute::LastConnected, l) {
                    assert(lc.contains(l));
                }
                if records_time(h, Attribute::LastRemoved, l) {
                    assert(lr.contains(l));
                }
            }
            assert(!raised);
        },
    }
}

} // verus!
