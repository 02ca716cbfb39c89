//! The correlation core: group atomic [`Claim`]s into per-device histories and grade
//! each attribute's cross-source [`Consistency`].
use crate::model::{attribute_rank, container_of, value_before, provenance_before, ArtifactContainer, Attribute, ClaimView, Claim, Consistency, DeviceKey, Provenance, ProvenanceView, SourceKind, Value, ValueView};
use crate::order::{insert_distinct, insert_sorted, is_sorted, is_strictly_sorted, lemma_sorted_unique, lemma_strictly_sorted_unique, views, Rank, ViewOrder};
use vstd::prelude::*;

verus! {

broadcast use vstd::seq_lib::group_seq_properties, vstd::multiset::group_multiset_axioms;

/// A value together with where it came from.
#[derive(Debug, Clone, PartialEq, Eq, PartialOrd, Ord)]
pub struct ProvenancedValue {
    /// The reported value.
    pub value: Value,
    /// Its source and locator.
    pub provenance: Provenance,
}

/// The mathematical content of a [`ProvenancedValue`].
pub struct ProvenancedValueView {
    pub value: ValueView,
    pub provenance: ProvenanceView,
}

impl View for ProvenancedValue {
    type V = ProvenancedValueView;

    open spec fn view(&self) -> ProvenancedValueView {
        ProvenancedValueView { value: self.value@, provenance: self.provenance@ }
    }
}

/// The order values are listed in: by value, then by provenance.
pub open spec fn pv_before(a: ProvenancedValueView, b: ProvenancedValueView) -> bool {
    value_before(a.value, b.value) || (a.value == b.value && provenance_before(
        a.provenance,
        b.provenance,
    ))
}

impl ViewOrder for ProvenancedValue {
    open spec fn before(a: ProvenancedValueView, b: ProvenancedValueView) -> bool {
        pv_before(a, b)
    }

    proof fn lemma_irreflexive(a: ProvenancedValueView) {
        Value::lemma_irreflexive(a.value);
        Provenance::lemma_irreflexive(a.provenance);
    }

    proof fn lemma_transitive(
        a: ProvenancedValueView,
        b: ProvenancedValueView,
        c: ProvenancedValueView,
    ) {
        if value_before(a.value, b.value) && value_before(b.value, c.value) {
            Value::lemma_transitive(a.value, b.value, c.value);
        }
        Value::lemma_irreflexive(a.value);
        Value::lemma_irreflexive(b.value);
        if a.value == b.value && b.value == c.value {
            Provenance::lemma_transitive(a.provenance, b.provenance, c.provenance);
        }
    }

    proof fn lemma_total(a: ProvenancedValueView, b: ProvenancedValueView) {
        Value::lemma_total(a.value, b.value);
        Provenance::lemma_total(a.provenance, b.provenance);
    }

    fn rank(&self, other: &Self) -> (r: Rank) {
        match self.value.rank(&other.value) {
            Rank::Below => Rank::Below,
            Rank::Above => Rank::Above,
            Rank::Same => self.provenance.rank(&other.provenance),
        }
    }
}

/// One device attribute after cross-source correlation: the grade plus every
/// provenanced value that fed it.
#[derive(Debug, Clone, PartialEq, Eq)]
pub struct CorrelatedAttribute {
    /// Which attribute this is.
    pub attribute: Attribute,
    /// How well the sources agree on it.
    pub consistency: Consistency,
    /// Every value seen, with provenance, sorted deterministically.
    pub values: Vec<ProvenancedValue>,
}

/// The mathematical content of a [`CorrelatedAttribute`].
pub struct CorrelatedAttributeView {
    pub attribute: Attribute,
    pub consistency: Consistency,
    pub values: Seq<ProvenancedValueView>,
}

impl View for CorrelatedAttribute {
    type V = CorrelatedAttributeView;

    open spec fn view(&self) -> CorrelatedAttributeView {
        CorrelatedAttributeView {
            attribute: self.attribute,
            consistency: self.consistency,
            values: views(self.values@),
        }
    }
}

/// A device's full correlated history — one per distinct [`DeviceKey`].
#[derive(Debug, Clone, PartialEq, Eq)]
pub struct DeviceHistory {
    /// The device identity.
    pub device: DeviceKey,
    /// Its attributes, sorted deterministically.
    pub attributes: Vec<CorrelatedAttribute>,
}

/// The mathematical content of a [`DeviceHistory`].
pub struct DeviceHistoryView {
    pub device: Seq<char>,
    pub attributes: Seq<CorrelatedAttributeView>,
}

impl View for DeviceHistory {
    type V = DeviceHistoryView;

    open spec fn view(&self) -> DeviceHistoryView {
        DeviceHistoryView { device: self.device@, attributes: views(self.attributes@) }
    }
}

/// A claim's value with its provenance.
pub open spec fn pv_of(c: ClaimView) -> ProvenancedValueView {
    ProvenancedValueView { value: c.value, provenance: c.provenance }
}

/// The provenanced values of the claims about device `d` and attribute `a`, in input order.
pub open spec fn group_values(claims: Seq<ClaimView>, d: Seq<char>, a: Attribute) -> Seq<
    ProvenancedValueView,
>
    decreases claims.len(),
{
    if claims.len() == 0 {
        Seq::empty()
    } else {
        let rest = group_values(claims.drop_last(), d, a);
        if claims.last().device == d && claims.last().attribute == a {
            rest.push(pv_of(claims.last()))
        } else {
            rest
        }
    }
}

/// Whether the values come from at least two distinct storage containers.
pub open spec fn spans_two_containers(vals: Seq<ProvenancedValueView>) -> bool {
    exists|i: int, j: int|
        0 <= i < vals.len() && 0 <= j < vals.len() && container_of(
            #[trigger] vals[i].provenance.source,
        ) != container_of(#[trigger] vals[j].provenance.source)
}

/// Whether every value equals the first.
pub open spec fn single_value(vals: Seq<ProvenancedValueView>) -> bool {
    forall|i: int| 0 <= i < vals.len() ==> #[trigger] vals[i].value == vals[0].value
}

/// The grading rule: fewer than two containers cannot corroborate; two or more
/// containers agreeing on one value corroborate; otherwise they conflict.
pub open spec fn grade_of(vals: Seq<ProvenancedValueView>) -> Consistency {
    if !spans_two_containers(vals) {
        Consistency::SingleSource
    } else if single_value(vals) {
        Consistency::Corroborated
    } else {
        Consistency::Conflicting
    }
}

/// Agreement inside one storage container is never corroboration: values that all come
/// from the same container are graded single-source, however many there are and whether
/// or not they agree; and a corroborated grade always rests on two containers.
pub proof fn law_one_container_never_corroborates(vals: Seq<ProvenancedValueView>, c: ArtifactContainer)
    ensures
        (forall|i: int| 0 <= i < vals.len() ==> container_of(#[trigger] vals[i].provenance.source) == c)
            ==> grade_of(vals) == Consistency::SingleSource,
        grade_of(vals) == Consistency::Corroborated ==> spans_two_containers(vals) && single_value(vals),
{
}

/// Whether two sources are read out of one and the same evidence file: the `SYSTEM` hive
/// holds USBSTOR and MountedDevices; one event log family holds the Partition/Diagnostic,
/// Kernel-PnP and DriverFrameworks channels; Shell Links and jump lists share the
/// filesystem; the `SOFTWARE` hive holds VolumeInfoCache and EMDMgmt; a user's
/// `NTUSER.DAT` holds MountPoints2 and ShellBags. Every other source is a file of its own.
pub open spec fn same_evidence_file(s: SourceKind, t: SourceKind) -> bool {
    let hive = |k: SourceKind| k == SourceKind::Usbstor || k == SourceKind::MountedDevices;
    let evtx = |k: SourceKind|
        k == SourceKind::PartitionDiag || k == SourceKind::KernelPnp || k == SourceKind::DriverFramework;
    let links = |k: SourceKind| k == SourceKind::Lnk || k == SourceKind::JumpList;
    let software = |k: SourceKind| k == SourceKind::VolumeInfoCache || k == SourceKind::EmdMgmt;
    let user = |k: SourceKind| k == SourceKind::MountPoints2 || k == SourceKind::Shellbag;
    ||| s == t
    ||| hive(s) && hive(t)
    ||| evtx(s) && evtx(t)
    ||| links(s) && links(t)
    ||| software(s) && software(t)
    ||| user(s) && user(t)
}

/// Two sources that report the same value corroborate each other exactly when they are
/// read from different evidence files; from one file they are a single source. So a
/// USBSTOR key and a Partition/Diagnostic event that agree are corroborated, and two
/// event-log channels that agree are not.
pub proof fn law_two_agreeing_sources(a: ProvenancedValueView, b: ProvenancedValueView)
    requires
        a.value == b.value,
    ensures
        grade_of(seq![a, b]) == if same_evidence_file(a.provenance.source, b.provenance.source) {
            Consistency::SingleSource
        } else {
            Consistency::Corroborated
        },
{
    let vals = seq![a, b];
    assert(vals[0] == a && vals[1] == b);
    if !same_evidence_file(a.provenance.source, b.provenance.source) {
        assert(container_of(vals[0].provenance.source) != container_of(vals[1].provenance.source));
        assert(spans_two_containers(vals));
        assert(single_value(vals));
    } else {
        assert(container_of(a.provenance.source) == container_of(b.provenance.source));
        assert forall|i: int| 0 <= i < vals.len() implies container_of(#[trigger] vals[i].provenance.source)
            == container_of(a.provenance.source) by {}
        law_one_container_never_corroborates(vals, container_of(a.provenance.source));
    }
}

/// Values that all agree corroborate as soon as one comes from the `SYSTEM` hive (USBSTOR
/// or MountedDevices) and another from an event log (Partition/Diagnostic, Kernel-PnP or
/// DriverFrameworks): the two are separate files, whatever else reports the value.
pub proof fn law_hive_and_event_log_corroborate(vals: Seq<ProvenancedValueView>, i: int, j: int)
    requires
        0 <= i < vals.len(),
        0 <= j < vals.len(),
        forall|k: int| 0 <= k < vals.len() ==> #[trigger] vals[k].value == vals[0].value,
        vals[i].provenance.source == SourceKind::Usbstor || vals[i].provenance.source == SourceKind::MountedDevices,
        vals[j].provenance.source == SourceKind::PartitionDiag || vals[j].provenance.source == SourceKind::KernelPnp
            || vals[j].provenance.source == SourceKind::DriverFramework,
    ensures
        grade_of(vals) == Consistency::Corroborated,
{
    assert(container_of(vals[i].provenance.source) != container_of(vals[j].provenance.source));
    assert(spans_two_containers(vals));
    assert(single_value(vals));
}

/// Some claim is about device `d`.
pub open spec fn has_device(claims: Seq<ClaimView>, d: Seq<char>) -> bool {
    exists|j: int| 0 <= j < claims.len() && (#[trigger] claims[j]).device == d
}

/// Some claim is about device `d` and attribute `a`.
pub open spec fn has_attribute(claims: Seq<ClaimView>, d: Seq<char>, a: Attribute) -> bool {
    exists|j: int|
        0 <= j < claims.len() && (#[trigger] claims[j]).device == d && claims[j].attribute == a
}

/// One correlated attribute is exactly the graded, sorted group of its claims.
pub open spec fn is_correlated_attribute(
    claims: Seq<ClaimView>,
    d: Seq<char>,
    ca: CorrelatedAttributeView,
) -> bool {
    &&& is_sorted::<ProvenancedValue>(ca.values)
    &&& ca.values.to_multiset() == group_values(claims, d, ca.attribute).to_multiset()
    &&& ca.consistency == grade_of(ca.values)
}

/// One device history lists exactly the device's attributes, each correlated.
pub open spec fn is_device_history(claims: Seq<ClaimView>, h: DeviceHistoryView) -> bool {
    &&& is_strictly_sorted::<Attribute>(h.attributes.map_values(|ca: CorrelatedAttributeView| ca.attribute))
    &&& forall|a: Attribute|
        has_attribute(claims, h.device, a) <==> exists|k: int|
            0 <= k < h.attributes.len() && (#[trigger] h.attributes[k]).attribute == a
    &&& forall|k: int|
        0 <= k < h.attributes.len() ==> is_correlated_attribute(
            claims,
            h.device,
            #[trigger] h.attributes[k],
        )
}

/// The correlation of `claims`: one history per distinct device, in key order.
pub open spec fn is_correlation(claims: Seq<ClaimView>, out: Seq<DeviceHistoryView>) -> bool {
    &&& is_strictly_sorted::<DeviceKey>(out.map_values(|h: DeviceHistoryView| h.device))
    &&& forall|d: Seq<char>|
        has_device(claims, d) <==> exists|i: int|
            0 <= i < out.len() && (#[trigger] out[i]).device == d
    &&& forall|i: int| 0 <= i < out.len() ==> is_device_history(claims, #[trigger] out[i])
}

/// The distinct device keys of the claims, in key order.
fn collect_devices(claims: &[Claim]) -> (r: Vec<DeviceKey>)
    ensures
        is_strictly_sorted::<DeviceKey>(views(r@)),
        forall|d: Seq<char>| has_device(views(claims@), d) <==> #[trigger] views(r@).contains(d),
{
    let mut out: Vec<DeviceKey> = Vec::new();
    let mut i: usize = 0;
    while i < claims.len()
        invariant
            i <= claims.len(),
            is_strictly_sorted::<DeviceKey>(views(out@)),
            forall|d: Seq<char>|
                has_device(views(claims@).take(i as int), d) <==> #[trigger] views(out@).contains(d),
        decreases claims.len() - i,
    {
        let ghost cs = views(claims@);
        insert_distinct(&mut out, claims[i].device.duplicate());
        proof {
            assert forall|d: Seq<char>|
                has_device(cs.take(i + 1), d) <==> #[trigger] views(out@).contains(d) by {
                if has_device(cs.take(i + 1), d) {
                    let j = choose|j: int| 0 <= j < cs.take(i + 1).len() && (#[trigger] cs.take(i + 1)[j]).device == d;
                    if j < i {
                        assert(cs.take(i as int)[j] == cs.take(i + 1)[j]);
                    }
                }
                if has_device(cs.take(i as int), d) {
                    let j = choose|j: int| 0 <= j < cs.take(i as int).len() && (#[trigger] cs.take(i as int)[j]).device == d;
                    assert(cs.take(i + 1)[j] == cs.take(i as int)[j]);
                }
                if d == claims@[i as int].device@ {
                    assert(cs.take(i + 1)[i as int] == cs[i as int]);
                }
            }
        }
        i = i + 1;
    }
    assert(views(claims@).take(claims.len() as int) =~= views(claims@));
    out
}

/// The distinct attributes the claims record for device `d`, in attribute order.
fn collect_attributes(claims: &[Claim], d: &DeviceKey) -> (r: Vec<Attribute>)
    ensures
        is_strictly_sorted::<Attribute>(views(r@)),
        forall|a: Attribute| has_attribute(views(claims@), d@, a) <==> #[trigger] views(r@).contains(a),
{
    let mut out: Vec<Attribute> = Vec::new();
    let mut i: usize = 0;
    while i < claims.len()
        invariant
            i <= claims.len(),
            is_strictly_sorted::<Attribute>(views(out@)),
            forall|a: Attribute|
                has_attribute(views(claims@).take(i as int), d@, a) <==> #[trigger] views(out@).contains(a),
        decreases claims.len() - i,
    {
        let ghost cs = views(claims@);
        let ghost before_out = views(out@);
        let same = match claims[i].device.rank(d) {
            Rank::Same => true,
            _ => false,
        };
        if same {
            insert_distinct(&mut out, claims[i].attribute);
        }
        proof {
            assert forall|a: Attribute|
                has_attribute(cs.take(i + 1), d@, a) <==> #[trigger] views(out@).contains(a) by {
                if has_attribute(cs.take(i + 1), d@, a) {
                    let j = choose|j: int| 0 <= j < cs.take(i + 1).len() && (#[trigger] cs.take(i + 1)[j]).device == d@ && cs.take(i + 1)[j].attribute == a;
                    if j < i {
                        assert(cs.take(i as int)[j] == cs.take(i + 1)[j]);
                    } else {
                        assert(cs.take(i + 1)[j] == cs[i as int]);
                    }
                }
                if has_attribute(cs.take(i as int), d@, a) {
                    let j = choose|j: int| 0 <= j < cs.take(i as int).len() && (#[trigger] cs.take(i as int)[j]).device == d@ && cs.take(i as int)[j].attribute == a;
                    assert(cs.take(i + 1)[j] == cs.take(i as int)[j]);
                }
                if same && a == claims@[i as int].attribute {
                    assert(cs.take(i + 1)[i as int] == cs[i as int]);
                }
            }
        }
        i = i + 1;
    }
    assert(views(claims@).take(claims.len() as int) =~= views(claims@));
    out
}

/// The provenanced values recorded for device `d` and attribute `a`, sorted.
fn collect_values(claims: &[Claim], d: &DeviceKey, a: Attribute) -> (r: Vec<ProvenancedValue>)
    ensures
        is_sorted::<ProvenancedValue>(views(r@)),
        views(r@).to_multiset() == group_values(views(claims@), d@, a).to_multiset(),
{
    let mut out: Vec<ProvenancedValue> = Vec::new();
    let mut i: usize = 0;
    while i < claims.len()
        invariant
            i <= claims.len(),
            is_sorted::<ProvenancedValue>(views(out@)),
            views(out@).to_multiset() == group_values(views(claims@).take(i as int), d@, a).to_multiset(),
        decreases claims.len() - i,
    {
        let ghost cs = views(claims@);
        assert(cs.take(i + 1).drop_last() =~= cs.take(i as int));
        assert(cs.take(i + 1).last() == cs[i as int]);
        let same_device = match claims[i].device.rank(d) {
            Rank::Same => true,
            _ => false,
        };
        if same_device && claims[i].attribute == a {
            let pv = ProvenancedValue {
                value: claims[i].value.duplicate(),
                provenance: claims[i].provenance.duplicate(),
            };
            proof {
                vstd::seq_lib::to_multiset_build(group_values(cs.take(i as int), d@, a), pv@);
            }
            insert_sorted(&mut out, pv);
        }
        i = i + 1;
    }
    assert(views(claims@).take(claims.len() as int) =~= views(claims@));
    out
}

/// Grade one attribute's values by how well its tamper-independent sources agree.
fn grade(attribute: Attribute, values: Vec<ProvenancedValue>) -> (r: CorrelatedAttribute)
    ensures
        r@.attribute == attribute,
        r@.values == views(values@),
        r@.consistency == grade_of(views(values@)),
{
    let ghost vs = views(values@);
    let mut spans = false;
    let mut i: usize = 1;
    while i < values.len() && !spans
        invariant
            1 <= i,
            i <= values.len() || values.len() == 0,
            vs == views(values@),
            spans ==> spans_two_containers(vs),
            !spans ==> forall|k: int|
                0 <= k < i && k < vs.len() ==> container_of(#[trigger] vs[k].provenance.source)
                    == container_of(vs[0].provenance.source),
        decreases values.len() - i,
    {
        if values[i].provenance.source.container() != values[0].provenance.source.container() {
            assert(container_of(vs[i as int].provenance.source) != container_of(vs[0].provenance.source));
            spans = true;
        }
        i = i + 1;
    }
    proof {
        if !spans && spans_two_containers(vs) {
            let (p, q) = choose|p: int, q: int|
                0 <= p < vs.len() && 0 <= q < vs.len() && container_of(
                    #[trigger] vs[p].provenance.source,
                ) != container_of(#[trigger] vs[q].provenance.source);
            assert(container_of(vs[p].provenance.source) == container_of(vs[0].provenance.source));
            assert(container_of(vs[q].provenance.source) == container_of(vs[0].provenance.source));
        }
    }
    let consistency = if !spans {
        Consistency::SingleSource
    } else {
        let mut single = true;
        let mut j: usize = 1;
        while j < values.len()
            invariant
                1 <= j <= values.len(),
                vs == views(values@),
                single <==> forall|k: int| 0 <= k < j ==> #[trigger] vs[k].value == vs[0].value,
            decreases values.len() - j,
        {
            assert(vs[j as int].value == values@[j as int].value@);
            assert(vs[0].value == values@[0].value@);
            match values[j].value.rank(&values[0].value) {
                Rank::Same => {},
                _ => {
                    single = false;
                },
            }
            j = j + 1;
        }
        if single {
            Consistency::Corroborated
        } else {
            Consistency::Conflicting
        }
    };
    CorrelatedAttribute { attribute, consistency, values }
}

/// The correlated history of one device.
fn device_history(claims: &[Claim], d: &DeviceKey) -> (r: DeviceHistory)
    ensures
        r@.device == d@,
        is_device_history(views(claims@), r@),
{
    let ghost cs = views(claims@);
    let attrs = collect_attributes(claims, d);
    let mut cas: Vec<CorrelatedAttribute> = Vec::new();
    let mut k: usize = 0;
    while k < attrs.len()
        invariant
            k <= attrs.len(),
            cs == views(claims@),
            cas.len() == k,
            forall|m: int| 0 <= m < k ==> (#[trigger] cas@[m])@.attribute == attrs@[m],
            forall|m: int| 0 <= m < k ==> is_correlated_attribute(cs, d@, #[trigger] views(cas@)[m]),
        decreases attrs.len() - k,
    {
        let vals = collect_values(claims, d, attrs[k]);
        let ca = grade(attrs[k], vals);
        assert(is_correlated_attribute(cs, d@, ca@));
        let ghost prev = cas@;
        cas.push(ca);
        proof {
            assert(views(cas@)[k as int] == cas@[k as int]@);
            assert forall|m: int| 0 <= m < k + 1 implies is_correlated_attribute(cs, d@, #[trigger] views(cas@)[m]) by {
                if m < k {
                    assert(cas@[m] == prev[m]);
                    assert(views(prev)[m] == prev[m]@);
                    assert(views(cas@)[m] == cas@[m]@);
                }
            }
            assert forall|m: int| 0 <= m < k + 1 implies (#[trigger] cas@[m])@.attribute == attrs@[m] by {
                if m < k {
                    assert(cas@[m] == prev[m]);
                }
            }
        }
        k = k + 1;
    }
    let h = DeviceHistory { device: d.duplicate(), attributes: cas };
    proof {
        let hv = h@;
        let names = hv.attributes.map_values(|ca: CorrelatedAttributeView| ca.attribute);
        assert(hv.attributes == views(cas@));
        assert forall|m: int| 0 <= m < hv.attributes.len() implies (#[trigger] hv.attributes[m]).attribute == views(attrs@)[m] by {
            assert(hv.attributes[m] == cas@[m]@);
            assert(views(attrs@)[m] == attrs@[m]);
        }
        assert(names =~= views(attrs@));
        assert(hv.device == d@);
        assert forall|a: Attribute| has_attribute(cs, hv.device, a) <==> exists|k: int|
            0 <= k < hv.attributes.len() && (#[trigger] hv.attributes[k]).attribute == a by {
            if has_attribute(cs, hv.device, a) {
                assert(views(attrs@).contains(a));
                let m = choose|m: int| 0 <= m < views(attrs@).len() && views(attrs@)[m] == a;
                assert(hv.attributes[m].attribute == a);
            }
            if exists|k: int| 0 <= k < hv.attributes.len() && (#[trigger] hv.attributes[k]).attribute == a {
                let m = choose|m: int| 0 <= m < hv.attributes.len() && (#[trigger] hv.attributes[m]).attribute == a;
                assert(views(attrs@)[m] == a);
                assert(views(attrs@).contains(a));
            }
        }
        assert forall|m: int| 0 <= m < hv.attributes.len() implies is_correlated_attribute(
            cs,
            hv.device,
            #[trigger] hv.attributes[m],
        ) by {
            assert(hv.attributes[m] == views(cas@)[m]);
        }
    }
    h
}

/// Correlate atomic claims into per-device histories, grading each attribute by how
/// well its independent sources agree. The output is deterministic: devices in key
/// order, each device's attributes in attribute order, and each attribute's values
/// sorted by value and then provenance.
pub fn correlate(claims: &[Claim]) -> (r: Vec<DeviceHistory>)
    ensures
        is_correlation(views(claims@), views(r@)),
{
    let ghost cs = views(claims@);
    let devices = collect_devices(claims);
    let mut out: Vec<DeviceHistory> = Vec::new();
    let mut i: usize = 0;
    while i < devices.len()
        invariant
            i <= devices.len(),
            cs == views(claims@),
            out.len() == i,
            forall|k: int| 0 <= k < i ==> (#[trigger] out@[k])@.device == devices@[k]@,
            forall|k: int| 0 <= k < i ==> is_device_history(cs, #[trigger] views(out@)[k]),
        decreases devices.len() - i,
    {
        let h = device_history(claims, &devices[i]);
        let ghost prev = out@;
        out.push(h);
        proof {
            assert forall|k: int| 0 <= k < i + 1 implies is_device_history(cs, #[trigger] views(out@)[k]) by {
                assert(views(out@)[k] == out@[k]@);
                if k < i {
                    assert(out@[k] == prev[k]);
                    assert(views(prev)[k] == prev[k]@);
                }
            }
            assert forall|k: int| 0 <= k < i + 1 implies (#[trigger] out@[k])@.device == devices@[k]@ by {
                if k < i {
                    assert(out@[k] == prev[k]);
                }
            }
        }
        i = i + 1;
    }
    proof {
        let ov = views(out@);
        let keys = ov.map_values(|h: DeviceHistoryView| h.device);
        assert forall|m: int| 0 <= m < ov.len() implies (#[trigger] ov[m]).device == views(devices@)[m] by {
            assert(ov[m] == out@[m]@);
            assert(views(devices@)[m] == devices@[m]@);
        }
        assert(keys =~= views(devices@));
        assert forall|d: Seq<char>| has_device(cs, d) <==> exists|i: int|
            0 <= i < ov.len() && (#[trigger] ov[i]).device == d by {
            if has_device(cs, d) {
                assert(views(devices@).contains(d));
                let m = choose|m: int| 0 <= m < views(devices@).len() && views(devices@)[m] == d;
                assert(ov[m].device == d);
            }
            if exists|i: int| 0 <= i < ov.len() && (#[trigger] ov[i]).device == d {
                let m = choose|m: int| 0 <= m < ov.len() && (#[trigger] ov[m]).device == d;
                assert(views(devices@)[m] == d);
                assert(views(devices@).contains(d));
            }
        }
    }
    out
}

/// The claim a value of device `d`'s attribute `a` came from.
pub open spec fn claim_at(d: Seq<char>, a: Attribute, v: ProvenancedValueView) -> ClaimView {
    ClaimView { device: d, attribute: a, value: v.value, provenance: v.provenance }
}

/// A group holds each value exactly as often as the claims hold the claim it came from.
pub proof fn lemma_group_count(c: Seq<ClaimView>, d: Seq<char>, a: Attribute, v: ProvenancedValueView)
    ensures
        group_values(c, d, a).to_multiset().count(v) == c.to_multiset().count(claim_at(d, a, v)),
    decreases c.len(),
{
    broadcast use vstd::seq_lib::group_to_multiset_ensures;
    broadcast use vstd::multiset::group_multiset_axioms;

    if c.len() == 0 {
        assert(group_values(c, d, a) =~= Seq::<ProvenancedValueView>::empty());
        assert(c.to_multiset().len() == 0);
        assert(group_values(c, d, a).to_multiset().len() == 0);
    } else {
        let rest = c.drop_last();
        let x = c.last();
        lemma_group_count(rest, d, a, v);
        assert(c =~= rest.push(x));
        assert(c.to_multiset() == rest.to_multiset().insert(x));
        if x.device == d && x.attribute == a {
            let g = group_values(rest, d, a);
            assert(group_values(c, d, a) == g.push(pv_of(x)));
            assert(g.push(pv_of(x)).to_multiset() == g.to_multiset().insert(pv_of(x)));
            assert((pv_of(x) == v) == (x == claim_at(d, a, v)));
        } else {
            assert(x != claim_at(d, a, v));
        }
    }
}

/// Claim lists holding the same claims give every device attribute the same group of
/// values, counted with multiplicity.
pub proof fn lemma_group_multiset(c1: Seq<ClaimView>, c2: Seq<ClaimView>, d: Seq<char>, a: Attribute)
    requires
        c1.to_multiset() == c2.to_multiset(),
    ensures
        group_values(c1, d, a).to_multiset() == group_values(c2, d, a).to_multiset(),
{
    assert forall|v: ProvenancedValueView| #[trigger] group_values(c1, d, a).to_multiset().count(v)
        == group_values(c2, d, a).to_multiset().count(v) by {
        lemma_group_count(c1, d, a, v);
        lemma_group_count(c2, d, a, v);
    }
    assert(group_values(c1, d, a).to_multiset() =~= group_values(c2, d, a).to_multiset());
}

/// Claim lists holding the same claims hold the same claims as sequences.
proof fn lemma_same_contents(c1: Seq<ClaimView>, c2: Seq<ClaimView>)
    requires
        c1.to_multiset() == c2.to_multiset(),
    ensures
        forall|x: ClaimView| c1.contains(x) <==> c2.contains(x),
{
    broadcast use vstd::seq_lib::group_to_multiset_ensures;

    assert forall|x: ClaimView| c1.contains(x) <==> c2.contains(x) by {
        vstd::seq_lib::to_multiset_contains(c1, x);
        vstd::seq_lib::to_multiset_contains(c2, x);
        assert(c1.to_multiset().count(x) == c2.to_multiset().count(x));
    }
}

/// Correlation depends only on which claims were made, never on the order they arrive
/// in: any two correlations of claim lists holding the same claims (counted with
/// multiplicity) are identical — the same devices in the same order, each with the same
/// attributes, values, provenance and grades. In particular the result is deterministic.
pub proof fn law_correlation_depends_only_on_the_claims(
    c1: Seq<ClaimView>,
    c2: Seq<ClaimView>,
    o1: Seq<DeviceHistoryView>,
    o2: Seq<DeviceHistoryView>,
)
    requires
        c1.to_multiset() == c2.to_multiset(),
        is_correlation(c1, o1),
        is_correlation(c2, o2),
    ensures
        o1 == o2,
{
    lemma_same_contents(c1, c2);
    let k1 = o1.map_values(|h: DeviceHistoryView| h.device);
    let k2 = o2.map_values(|h: DeviceHistoryView| h.device);
    assert forall|d: Seq<char>| has_device(c1, d) <==> has_device(c2, d) by {
        if has_device(c1, d) {
            let j = choose|j: int| 0 <= j < c1.len() && (#[trigger] c1[j]).device == d;
            assert(c1.contains(c1[j]));
            let m = choose|m: int| 0 <= m < c2.len() && c2[m] == c1[j];
            assert(c2[m].device == d);
        }
        if has_device(c2, d) {
            let j = choose|j: int| 0 <= j < c2.len() && (#[trigger] c2[j]).device == d;
            assert(c2.contains(c2[j]));
            let m = choose|m: int| 0 <= m < c1.len() && c1[m] == c2[j];
            assert(c1[m].device == d);
        }
    }
    assert forall|d: Seq<char>| k1.contains(d) <==> k2.contains(d) by {
        if k1.contains(d) {
            let i = choose|i: int| 0 <= i < k1.len() && k1[i] == d;
            assert(o1[i].device == d);
            assert(has_device(c1, d));
            assert(has_device(c2, d));
            let i2 = choose|i2: int| 0 <= i2 < o2.len() && (#[trigger] o2[i2]).device == d;
            assert(k2[i2] == d);
        }
        if k2.contains(d) {
            let i = choose|i: int| 0 <= i < k2.len() && k2[i] == d;
            assert(o2[i].device == d);
            assert(has_device(c2, d));
            assert(has_device(c1, d));
            let i1 = choose|i1: int| 0 <= i1 < o1.len() && (#[trigger] o1[i1]).device == d;
            assert(k1[i1] == d);
        }
    }
    lemma_strictly_sorted_unique::<DeviceKey>(k1, k2);
    assert(o1.len() == o2.len());
    assert forall|i: int| 0 <= i < o1.len() implies o1[i] == o2[i] by {
        assert(k1[i] == k2[i]);
        lemma_history_unique(c1, c2, o1[i], o2[i]);
    }
    assert(o1 =~= o2);
}

/// Two histories of the same device, over claim lists holding the same claims, are equal.
proof fn lemma_history_unique(c1: Seq<ClaimView>, c2: Seq<ClaimView>, h1: DeviceHistoryView, h2: DeviceHistoryView)
    requires
        c1.to_multiset() == c2.to_multiset(),
        forall|x: ClaimView| c1.contains(x) <==> c2.contains(x),
        h1.device == h2.device,
        is_device_history(c1, h1),
        is_device_history(c2, h2),
    ensures
        h1 == h2,
{
    let d = h1.device;
    let a1 = h1.attributes.map_values(|ca: CorrelatedAttributeView| ca.attribute);
    let a2 = h2.attributes.map_values(|ca: CorrelatedAttributeView| ca.attribute);
    assert forall|a: Attribute| has_attribute(c1, d, a) <==> has_attribute(c2, d, a) by {
        if has_attribute(c1, d, a) {
            let j = choose|j: int| 0 <= j < c1.len() && (#[trigger] c1[j]).device == d && c1[j].attribute == a;
            assert(c1.contains(c1[j]));
            let m = choose|m: int| 0 <= m < c2.len() && c2[m] == c1[j];
            assert(c2[m].device == d && c2[m].attribute == a);
        }
        if has_attribute(c2, d, a) {
            let j = choose|j: int| 0 <= j < c2.len() && (#[trigger] c2[j]).device == d && c2[j].attribute == a;
            assert(c2.contains(c2[j]));
            let m = choose|m: int| 0 <= m < c1.len() && c1[m] == c2[j];
            assert(c1[m].device == d && c1[m].attribute == a);
        }
    }
    assert forall|a: Attribute| a1.contains(a) <==> a2.contains(a) by {
        if a1.contains(a) {
            let k = choose|k: int| 0 <= k < a1.len() && a1[k] == a;
            assert(h1.attributes[k].attribute == a);
            assert(has_attribute(c1, d, a));
            let k2 = choose|k2: int| 0 <= k2 < h2.attributes.len() && (#[trigger] h2.attributes[k2]).attribute == a;
            assert(a2[k2] == a);
        }
        if a2.contains(a) {
            let k = choose|k: int| 0 <= k < a2.len() && a2[k] == a;
            assert(h2.attributes[k].attribute == a);
            assert(has_attribute(c2, d, a));
            let k1 = choose|k1: int| 0 <= k1 < h1.attributes.len() && (#[trigger] h1.attributes[k1]).attribute == a;
            assert(a1[k1] == a);
        }
    }
    lemma_strictly_sorted_unique::<Attribute>(a1, a2);
    assert(h1.attributes.len() == h2.attributes.len());
    assert forall|k: int| 0 <= k < h1.attributes.len() implies h1.attributes[k] == h2.attributes[k] by {
        let ca1 = h1.attributes[k];
        let ca2 = h2.attributes[k];
        assert(a1[k] == a2[k]);
        assert(is_correlated_attribute(c1, d, ca1));
        assert(is_correlated_attribute(c2, d, ca2));
        lemma_group_multiset(c1, c2, d, ca1.attribute);
        lemma_sorted_unique::<ProvenancedValue>(ca1.values, ca2.values);
    }
    assert(h1.attributes =~= h2.attributes);
}

/// No value is lost: every claim's value, with its source and locator, appears among
/// the values of its device's attribute in the correlation.
pub proof fn law_every_claim_is_kept(c: Seq<ClaimView>, o: Seq<DeviceHistoryView>, j: int)
    requires
        is_correlation(c, o),
        0 <= j < c.len(),
    ensures
        exists|i: int, k: int|
            0 <= i < o.len() && 0 <= k < o[i].attributes.len() && o[i].device == c[j].device
                && (#[trigger] o[i].attributes[k]).attribute == c[j].attribute
                && o[i].attributes[k].values.contains(pv_of(c[j])),
{
    broadcast use vstd::seq_lib::group_to_multiset_ensures;

    let d = c[j].device;
    let a = c[j].attribute;
    assert(has_device(c, d));
    let i = choose|i: int| 0 <= i < o.len() && (#[trigger] o[i]).device == d;
    assert(is_device_history(c, o[i]));
    assert(has_attribute(c, d, a));
    let k = choose|k: int| 0 <= k < o[i].attributes.len() && (#[trigger] o[i].attributes[k]).attribute == a;
    let ca = o[i].attributes[k];
    assert(is_correlated_attribute(c, d, ca));
    lemma_group_count(c, d, a, pv_of(c[j]));
    assert(claim_at(d, a, pv_of(c[j])) == c[j]);
    assert(c.contains(c[j]));
    vstd::seq_lib::to_multiset_contains(c, c[j]);
    vstd::seq_lib::to_multiset_contains(ca.values, pv_of(c[j]));
    assert(ca.values.contains(pv_of(c[j])));
}

/// Nothing is invented: every value in the correlation is the value and provenance of
/// some claim about that device and attribute.
pub proof fn law_every_value_comes_from_a_claim(c: Seq<ClaimView>, o: Seq<DeviceHistoryView>, i: int, k: int, v: ProvenancedValueView)
    requires
        is_correlation(c, o),
        0 <= i < o.len(),
        0 <= k < o[i].attributes.len(),
        o[i].attributes[k].values.contains(v),
    ensures
        c.contains(claim_at(o[i].device, o[i].attributes[k].attribute, v)),
{
    broadcast use vstd::seq_lib::group_to_multiset_ensures;

    let d = o[i].device;
    let ca = o[i].attributes[k];
    assert(is_device_history(c, o[i]));
    assert(is_correlated_attribute(c, d, ca));
    vstd::seq_lib::to_multiset_contains(ca.values, v);
    lemma_group_count(c, d, ca.attribute, v);
    vstd::seq_lib::to_multiset_contains(c, claim_at(d, ca.attribute, v));
}

} // verus!
