//! Aggregate super-timeline: every timestamped event across all correlated devices, in
//! chronological order.
use crate::correlate::{CorrelatedAttributeView, DeviceHistory, DeviceHistoryView, ProvenancedValueView};
use crate::model::{attribute_rank, source_rank, Attribute, DeviceKey, SourceKind, ValueView};
use crate::order::{chars_before, lemma_chars_irreflexive, lemma_chars_total, lemma_chars_transitive, rank_i64, rank_strings, is_sorted, lemma_sorted_unique, sort_by_view, views, Rank, ViewOrder};
use vstd::prelude::*;

verus! {

/// One timestamped event on the aggregate timeline.
#[derive(Debug, Clone, PartialEq, Eq, PartialOrd, Ord)]
pub struct TimelineEvent {
    /// Event time, epoch seconds UTC — the primary sort key.
    pub when: i64,
    /// The device the event is about.
    pub device: DeviceKey,
    /// Which attribute this event marks.
    pub attribute: Attribute,
    /// The source that recorded it.
    pub source: SourceKind,
    /// Precise locator within that source.
    pub locator: String,
}

/// The mathematical content of a [`TimelineEvent`].
pub struct TimelineEventView {
    pub when: i64,
    pub device: Seq<char>,
    pub attribute: Attribute,
    pub source: SourceKind,
    pub locator: Seq<char>,
}

impl View for TimelineEvent {
    type V = TimelineEventView;

    open spec fn view(&self) -> TimelineEventView {
        TimelineEventView {
            when: self.when,
            device: self.device@,
            attribute: self.attribute,
            source: self.source,
            locator: self.locator@,
        }
    }
}

/// The order events are listed in: time, then device, attribute, source, locator.
pub open spec fn event_before(a: TimelineEventView, b: TimelineEventView) -> bool {
    if a.when != b.when {
        a.when < b.when
    } else if a.device != b.device {
        chars_before(a.device, b.device)
    } else if a.attribute != b.attribute {
        attribute_rank(a.attribute) < attribute_rank(b.attribute)
    } else if a.source != b.source {
        source_rank(a.source) < source_rank(b.source)
    } else {
        chars_before(a.locator, b.locator)
    }
}

impl ViewOrder for TimelineEvent {
    open spec fn before(a: TimelineEventView, b: TimelineEventView) -> bool {
        event_before(a, b)
    }

    proof fn lemma_irreflexive(a: TimelineEventView) {
        lemma_chars_irreflexive(a.locator);
        assert(!<TimelineEvent as ViewOrder>::before(a, a));
    }

    proof fn lemma_transitive(a: TimelineEventView, b: TimelineEventView, c: TimelineEventView) {
        lemma_chars_irreflexive(a.device);
        lemma_chars_irreflexive(b.device);
        if a.when == b.when && b.when == c.when {
            if a.device != b.device && b.device != c.device {
                lemma_chars_transitive(a.device, b.device, c.device);
                if a.device == c.device {
                    lemma_chars_irreflexive(a.device);
                    lemma_chars_transitive(a.device, b.device, a.device);
                }
            } else if a.device == b.device && b.device == c.device {
                if a.attribute == b.attribute && b.attribute == c.attribute && a.source == b.source
                    && b.source == c.source {
                    lemma_chars_transitive(a.locator, b.locator, c.locator);
                }
            }
        }
        assert(<TimelineEvent as ViewOrder>::before(a, c));
    }

    proof fn lemma_total(a: TimelineEventView, b: TimelineEventView) {
        lemma_chars_total(a.device, b.device);
        lemma_chars_total(a.locator, b.locator);
        assert(<TimelineEvent as ViewOrder>::before(a, b) || <TimelineEvent as ViewOrder>::before(b, a) || a == b);
    }

    fn rank(&self, other: &Self) -> (r: Rank) {
        match rank_i64(self.when, other.when) {
            Rank::Same => {},
            r => { return r; },
        }
        match rank_strings(&self.device.0, &other.device.0) {
            Rank::Same => {},
            r => { return r; },
        }
        let a = self.attribute.rank_value();
        let b = other.attribute.rank_value();
        if a < b {
            return Rank::Below;
        } else if a > b {
            return Rank::Above;
        }
        let s = self.source.rank_value();
        let t = other.source.rank_value();
        if s < t {
            return Rank::Below;
        } else if s > t {
            return Rank::Above;
        }
        rank_strings(&self.locator, &other.locator)
    }
}

/// The events of one attribute's timestamped values, in value order.
pub open spec fn value_events(d: Seq<char>, a: Attribute, vals: Seq<ProvenancedValueView>) -> Seq<TimelineEventView>
    decreases vals.len(),
{
    if vals.len() == 0 {
        Seq::empty()
    } else {
        let rest = value_events(d, a, vals.drop_last());
        match vals.last().value {
            ValueView::Timestamp(t) => rest.push(TimelineEventView {
                when: t,
                device: d,
                attribute: a,
                source: vals.last().provenance.source,
                locator: vals.last().provenance.locator,
            }),
            ValueView::Text(_) => rest,
        }
    }
}

/// The events of one device's attributes.
pub open spec fn attribute_events(d: Seq<char>, cas: Seq<CorrelatedAttributeView>) -> Seq<TimelineEventView>
    decreases cas.len(),
{
    if cas.len() == 0 {
        Seq::empty()
    } else {
        attribute_events(d, cas.drop_last()) + value_events(d, cas.last().attribute, cas.last().values)
    }
}

/// Every timestamped value across all histories, in history order.
pub open spec fn history_events(hs: Seq<DeviceHistoryView>) -> Seq<TimelineEventView>
    decreases hs.len(),
{
    if hs.len() == 0 {
        Seq::empty()
    } else {
        history_events(hs.drop_last()) + attribute_events(hs.last().device, hs.last().attributes)
    }
}

/// Every timestamped value, unsorted, in history order.
fn collect_events(histories: &[DeviceHistory]) -> (r: Vec<TimelineEvent>)
    ensures
        views(r@) == history_events(views(histories@)),
{
    let ghost hs = views(histories@);
    let mut events: Vec<TimelineEvent> = Vec::new();
    let mut i: usize = 0;
    while i < histories.len()
        invariant
            i <= histories.len(),
            hs == views(histories@),
            views(events@) == history_events(hs.take(i as int)),
        decreases histories.len() - i,
    {
        let history = &histories[i];
        let ghost d = history.device@;
        let ghost cas = views(history.attributes@);
        let ghost base = views(events@);
        let mut k: usize = 0;
        while k < history.attributes.len()
            invariant
                k <= history.attributes.len(),
                d == history.device@,
                cas == views(history.attributes@),
                views(events@) == base + attribute_events(d, cas.take(k as int)),
            decreases history.attributes.len() - k,
        {
            let attr = &history.attributes[k];
            let ghost vals = views(attr.values@);
            let ghost mid = views(events@);
            let mut m: usize = 0;
            while m < attr.values.len()
                invariant
                    m <= attr.values.len(),
                    d == history.device@,
                    vals == views(attr.values@),
                    views(events@) == mid + value_events(d, attr.attribute, vals.take(m as int)),
                decreases attr.values.len() - m,
            {
                let pv = &attr.values[m];
                assert(vals.take(m + 1).drop_last() =~= vals.take(m as int));
                assert(vals.take(m + 1).last() == pv@);
                if let crate::model::Value::Timestamp(when) = pv.value {
                    let ev = TimelineEvent {
                        when,
                        device: history.device.duplicate(),
                        attribute: attr.attribute,
                        source: pv.provenance.source,
                        locator: pv.provenance.locator.clone(),
                    };
                    assert(ev@ == TimelineEventView {
                        when: when,
                        device: d,
                        attribute: attr.attribute,
                        source: vals.take(m + 1).last().provenance.source,
                        locator: vals.take(m + 1).last().provenance.locator,
                    });
                    let ghost prev = views(events@);
                    events.push(ev);
                    assert(views(events@) =~= prev.push(ev@));
                    assert(views(events@) =~= mid + value_events(d, attr.attribute, vals.take(m + 1)));
                }
                m = m + 1;
            }
            assert(vals.take(m as int) =~= vals);
            assert(cas.take(k + 1).drop_last() =~= cas.take(k as int));
            assert(cas.take(k + 1).last() == attr@);
            assert(views(events@) =~= base + attribute_events(d, cas.take(k + 1)));
            k = k + 1;
        }
        assert(cas.take(k as int) =~= cas);
        assert(hs.take(i + 1).drop_last() =~= hs.take(i as int));
        assert(hs.take(i + 1).last() == history@);
        i = i + 1;
    }
    assert(hs.take(i as int) =~= hs);
    events
}

/// Build the aggregate super-timeline: every timestamped value across all devices, in
/// chronological order with ties broken deterministically. Non-timestamp values carry
/// no time and are omitted.
pub fn super_timeline(histories: &[DeviceHistory]) -> (r: Vec<TimelineEvent>)
    ensures
        is_sorted::<TimelineEvent>(views(r@)),
        views(r@).to_multiset() == history_events(views(histories@)).to_multiset(),
        forall|i: int, j: int| 0 <= i < j < r@.len() ==> (#[trigger] r@[i]).when <= (#[trigger] r@[j]).when,
{
    let events = collect_events(histories);
    let out = sort_by_view(events);
    assert forall|i: int, j: int| 0 <= i < j < out@.len() implies (#[trigger] out@[i]).when <= (#[trigger] out@[j]).when by {
        assert(views(out@)[i] == out@[i]@);
        assert(views(out@)[j] == out@[j]@);
        assert(!<TimelineEvent as ViewOrder>::before(views(out@)[j], views(out@)[i]));
    }
    out
}

/// The events of concatenated history lists are the events of each, in turn.
proof fn lemma_events_of_concat(a: Seq<DeviceHistoryView>, b: Seq<DeviceHistoryView>)
    ensures
        history_events(a + b) == history_events(a) + history_events(b),
    decreases b.len(),
{
    if b.len() == 0 {
        assert(a + b =~= a);
        assert(history_events(a) + history_events(b) =~= history_events(a));
    } else {
        lemma_events_of_concat(a, b.drop_last());
        assert((a + b).drop_last() =~= a + b.drop_last());
        assert((a + b).last() == b.last());
        let tail = attribute_events(b.last().device, b.last().attributes);
        assert(history_events(a) + history_events(b.drop_last()) + tail =~= history_events(a) + (
        history_events(b.drop_last()) + tail));
    }
}

/// History lists holding the same histories, in any order, yield the same events
/// counted with multiplicity.
proof fn lemma_events_ignore_order(h1: Seq<DeviceHistoryView>, h2: Seq<DeviceHistoryView>)
    requires
        h1.to_multiset() == h2.to_multiset(),
    ensures
        history_events(h1).to_multiset() == history_events(h2).to_multiset(),
    decreases h1.len(),
{
    broadcast use vstd::seq_lib::group_to_multiset_ensures;
    broadcast use vstd::seq_lib::lemma_multiset_commutative;
    broadcast use vstd::multiset::group_multiset_axioms;

    if h1.len() == 0 {
        assert(h1.to_multiset().len() == 0);
        assert(h2.to_multiset().len() == h2.len());
        assert(h1 =~= h2);
    } else {
        let x = h1.last();
        let rest1 = h1.drop_last();
        assert(rest1.push(x) =~= h1);
        assert(h2.to_multiset().count(x) > 0);
        assert(h2.contains(x));
        let k = choose|k: int| 0 <= k < h2.len() && h2[k] == x;
        let rest2 = h2.remove(k);
        assert(rest2.to_multiset() == h2.to_multiset().remove(x));
        assert(rest1.to_multiset() =~= rest2.to_multiset());
        lemma_events_ignore_order(rest1, rest2);
        let pre = h2.take(k);
        let post = h2.skip(k + 1);
        let one = seq![x];
        assert(h2 =~= pre + one + post);
        assert(rest2 =~= pre + post);
        lemma_events_of_concat(pre + one, post);
        lemma_events_of_concat(pre, one);
        lemma_events_of_concat(pre, post);
        assert(one.drop_last() =~= Seq::<DeviceHistoryView>::empty());
        assert(one.last() == x);
        assert(history_events(one.drop_last()).len() == 0);
        let ex = attribute_events(x.device, x.attributes);
        assert(history_events(one) =~= ex);
        assert(history_events(h1) == history_events(rest1) + ex);
        let mp = history_events(pre).to_multiset();
        let mq = history_events(post).to_multiset();
        let mx = ex.to_multiset();
        assert(history_events(h2).to_multiset() =~= mp.add(mx).add(mq));
        assert(history_events(rest2).to_multiset() =~= mp.add(mq));
        assert(history_events(h1).to_multiset() =~= history_events(rest1).to_multiset().add(mx));
    }
}

/// The timeline does not depend on the order in which the device histories arrive:
/// two timelines of the same histories, each sorted and holding exactly their events,
/// are identical. Ties are broken by the full event, so the result is reproducible.
pub proof fn law_timeline_ignores_history_order(
    h1: Seq<DeviceHistoryView>,
    h2: Seq<DeviceHistoryView>,
    t1: Seq<TimelineEventView>,
    t2: Seq<TimelineEventView>,
)
    requires
        h1.to_multiset() == h2.to_multiset(),
        is_sorted::<TimelineEvent>(t1),
        is_sorted::<TimelineEvent>(t2),
        t1.to_multiset() == history_events(h1).to_multiset(),
        t2.to_multiset() == history_events(h2).to_multiset(),
    ensures
        t1 == t2,
{
    lemma_events_ignore_order(h1, h2);
    lemma_sorted_unique::<TimelineEvent>(t1, t2);
}

/// Event `e` is the timestamped value `k` of attribute `j` of history `i`: the device, the
/// attribute, the time, and the value's own source and locator.
pub open spec fn is_event_of_value(hs: Seq<DeviceHistoryView>, i: int, j: int, k: int, e: TimelineEventView) -> bool {
    &&& 0 <= i < hs.len()
    &&& 0 <= j < hs[i].attributes.len()
    &&& 0 <= k < hs[i].attributes[j].values.len()
    &&& e.device == hs[i].device
    &&& e.attribute == hs[i].attributes[j].attribute
    &&& hs[i].attributes[j].values[k].value == ValueView::Timestamp(e.when)
    &&& hs[i].attributes[j].values[k].provenance.source == e.source
    &&& hs[i].attributes[j].values[k].provenance.locator == e.locator
}

/// An event of one attribute's values is exactly one of its timestamped values.
proof fn lemma_value_events_trace(d: Seq<char>, a: Attribute, vals: Seq<ProvenancedValueView>, e: TimelineEventView)
    ensures
        value_events(d, a, vals).contains(e) <==> (e.device == d && e.attribute == a && exists|k: int|
            0 <= k < vals.len() && (#[trigger] vals[k]).value == ValueView::Timestamp(e.when)
                && vals[k].provenance.source == e.source && vals[k].provenance.locator == e.locator),
    decreases vals.len(),
{
    if vals.len() > 0 {
        let pre = vals.drop_last();
        let n = vals.len() - 1;
        lemma_value_events_trace(d, a, pre, e);
        let rest = value_events(d, a, pre);
        let whole = value_events(d, a, vals);
        assert(vals.last() == vals[n]);
        if whole.contains(e) {
            let j = choose|j: int| 0 <= j < whole.len() && whole[j] == e;
            if j < rest.len() {
                assert(whole == rest || whole == rest.push(whole.last()));
                assert(rest[j] == e);
                assert(rest.contains(e));
                let k = choose|k: int|
                    0 <= k < pre.len() && (#[trigger] pre[k]).value == ValueView::Timestamp(e.when)
                        && pre[k].provenance.source == e.source && pre[k].provenance.locator == e.locator;
                assert(vals[k] == pre[k]);
            } else {
                assert(vals[n].value == ValueView::Timestamp(e.when));
            }
        }
        if e.device == d && e.attribute == a && exists|k: int|
            0 <= k < vals.len() && (#[trigger] vals[k]).value == ValueView::Timestamp(e.when)
                && vals[k].provenance.source == e.source && vals[k].provenance.locator == e.locator {
            let k = choose|k: int|
                0 <= k < vals.len() && (#[trigger] vals[k]).value == ValueView::Timestamp(e.when)
                    && vals[k].provenance.source == e.source && vals[k].provenance.locator == e.locator;
            if k < n {
                assert(pre[k] == vals[k]);
                let j = choose|j: int| 0 <= j < rest.len() && rest[j] == e;
                assert(whole[j] == e);
            } else {
                assert(whole == rest.push(e));
                assert(whole[rest.len() as int] == e);
            }
        }
    }
}

/// An event of one history's attributes is exactly one of its timestamped values.
proof fn lemma_attribute_events_trace(d: Seq<char>, cas: Seq<CorrelatedAttributeView>, e: TimelineEventView)
    ensures
        attribute_events(d, cas).contains(e) <==> (e.device == d && exists|j: int, k: int|
            0 <= j < cas.len() && 0 <= k < cas[j].values.len() && e.attribute == (#[trigger] cas[j]).attribute
                && (#[trigger] cas[j].values[k]).value == ValueView::Timestamp(e.when)
                && cas[j].values[k].provenance.source == e.source && cas[j].values[k].provenance.locator == e.locator),
    decreases cas.len(),
{
    if cas.len() > 0 {
        let pre = cas.drop_last();
        let n = cas.len() - 1;
        lemma_attribute_events_trace(d, pre, e);
        lemma_value_events_trace(d, cas[n].attribute, cas[n].values, e);
        let front = attribute_events(d, pre);
        let tail = value_events(d, cas[n].attribute, cas[n].values);
        let whole = attribute_events(d, cas);
        assert(cas.last() == cas[n]);
        assert(whole == front + tail);
        if whole.contains(e) {
            let x = choose|x: int| 0 <= x < whole.len() && whole[x] == e;
            if x < front.len() {
                assert(front[x] == e);
                assert(front.contains(e));
                let (j, k) = choose|j: int, k: int|
                    0 <= j < pre.len() && 0 <= k < pre[j].values.len() && e.attribute == (#[trigger] pre[j]).attribute
                        && (#[trigger] pre[j].values[k]).value == ValueView::Timestamp(e.when)
                        && pre[j].values[k].provenance.source == e.source && pre[j].values[k].provenance.locator
                        == e.locator;
                assert(cas[j] == pre[j]);
                assert(cas[j].values[k] == pre[j].values[k]);
            } else {
                assert(tail[x - front.len()] == e);
                assert(tail.contains(e));
                let k = choose|k: int|
                    0 <= k < cas[n].values.len() && (#[trigger] cas[n].values[k]).value == ValueView::Timestamp(e.when)
                        && cas[n].values[k].provenance.source == e.source && cas[n].values[k].provenance.locator
                        == e.locator;
                assert(cas[n].values[k].value == ValueView::Timestamp(e.when));
            }
        }
        if e.device == d && exists|j: int, k: int|
            0 <= j < cas.len() && 0 <= k < cas[j].values.len() && e.attribute == (#[trigger] cas[j]).attribute
                && (#[trigger] cas[j].values[k]).value == ValueView::Timestamp(e.when)
                && cas[j].values[k].provenance.source == e.source && cas[j].values[k].provenance.locator == e.locator {
            let (j, k) = choose|j: int, k: int|
                0 <= j < cas.len() && 0 <= k < cas[j].values.len() && e.attribute == (#[trigger] cas[j]).attribute
                    && (#[trigger] cas[j].values[k]).value == ValueView::Timestamp(e.when)
                    && cas[j].values[k].provenance.source == e.source && cas[j].values[k].provenance.locator == e.locator;
            if j < n {
                assert(pre[j] == cas[j]);
                assert(pre[j].values[k] == cas[j].values[k]);
                assert(front.contains(e));
                let x = choose|x: int| 0 <= x < front.len() && front[x] == e;
                assert(whole[x] == e);
            } else {
                assert(cas[n].values[k] == cas[j].values[k]);
                assert(tail.contains(e));
                let x = choose|x: int| 0 <= x < tail.len() && tail[x] == e;
                assert(whole[front.len() + x] == e);
            }
        }
    }
}

/// An event of the histories is exactly one of their timestamped values.
proof fn lemma_history_events_trace(hs: Seq<DeviceHistoryView>, e: TimelineEventView)
    ensures
        history_events(hs).contains(e) <==> exists|i: int, j: int, k: int| #[trigger] is_event_of_value(hs, i, j, k, e),
    decreases hs.len(),
{
    if hs.len() > 0 {
        let pre = hs.drop_last();
        let n = hs.len() - 1;
        lemma_history_events_trace(pre, e);
        lemma_attribute_events_trace(hs[n].device, hs[n].attributes, e);
        let front = history_events(pre);
        let tail = attribute_events(hs[n].device, hs[n].attributes);
        let whole = history_events(hs);
        assert(hs.last() == hs[n]);
        assert(whole == front + tail);
        if whole.contains(e) {
            let x = choose|x: int| 0 <= x < whole.len() && whole[x] == e;
            if x < front.len() {
                assert(front[x] == e);
                assert(front.contains(e));
                let (i, j, k) = choose|i: int, j: int, k: int| #[trigger] is_event_of_value(pre, i, j, k, e);
                assert(pre[i] == hs[i]);
                assert(is_event_of_value(hs, i, j, k, e));
            } else {
                assert(tail[x - front.len()] == e);
                assert(tail.contains(e));
                let (j, k) = choose|j: int, k: int|
                    0 <= j < hs[n].attributes.len() && 0 <= k < hs[n].attributes[j].values.len() && e.attribute == (
                    #[trigger] hs[n].attributes[j]).attribute && (#[trigger] hs[n].attributes[j].values[k]).value
                        == ValueView::Timestamp(e.when) && hs[n].attributes[j].values[k].provenance.source == e.source
                        && hs[n].attributes[j].values[k].provenance.locator == e.locator;
                assert(is_event_of_value(hs, n, j, k, e));
            }
        }
        if exists|i: int, j: int, k: int| #[trigger] is_event_of_value(hs, i, j, k, e) {
            let (i, j, k) = choose|i: int, j: int, k: int| #[trigger] is_event_of_value(hs, i, j, k, e);
            if i < n {
                assert(pre[i] == hs[i]);
                assert(is_event_of_value(pre, i, j, k, e));
                let x = choose|x: int| 0 <= x < front.len() && front[x] == e;
                assert(whole[x] == e);
            } else {
                assert(hs[n].attributes[j].values[k] == hs[i].attributes[j].values[k]);
                assert(tail.contains(e));
                let x = choose|x: int| 0 <= x < tail.len() && tail[x] == e;
                assert(whole[front.len() + x] == e);
            }
        }
    }
}

/// Every event on a timeline of the histories is one of their timestamped values, with
/// that value's device, attribute, time, source and locator; and every timestamped value
/// appears on it as such an event.
pub proof fn law_timeline_events_are_the_timestamped_values(hs: Seq<DeviceHistoryView>, t: Seq<TimelineEventView>)
    requires
        t.to_multiset() == history_events(hs).to_multiset(),
    ensures
        forall|e: TimelineEventView| #[trigger] t.contains(e) <==> exists|i: int, j: int, k: int|
            is_event_of_value(hs, i, j, k, e),
{
    broadcast use vstd::seq_lib::group_to_multiset_ensures;

    assert forall|e: TimelineEventView| #[trigger] t.contains(e) <==> exists|i: int, j: int, k: int|
        is_event_of_value(hs, i, j, k, e) by {
        lemma_history_events_trace(hs, e);
        assert(t.contains(e) <==> t.to_multiset().count(e) > 0);
        assert(history_events(hs).contains(e) <==> history_events(hs).to_multiset().count(e) > 0);
    }
}

} // verus!
