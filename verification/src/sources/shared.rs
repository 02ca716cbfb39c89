//! What the adapters share: where a registry or log record was read, how a claim is
//! built, and how a device key is cut from an instance id.
use crate::model::{Attribute, Claim, ClaimView, DeviceKey, Provenance, ProvenanceView, SourceKind, Value, ValueView};
use vstd::prelude::*;

verus! {

/// Where a decoded record was read: its file, its line (for line-oriented logs), and, for
/// a registry record, the full key path.
#[derive(Debug, Clone, PartialEq, Eq)]
pub struct RecordOrigin {
    /// The artifact file (e.g. `SOFTWARE`, `setupapi.dev.log`).
    pub file: String,
    /// The 1-based line for a line-oriented source; 0 for a registry record.
    pub line: usize,
    /// The registry key path, when the record came from a hive.
    pub key_path: Option<String>,
}

/// The locator of a record: its key path when it has one, else its file.
pub open spec fn origin_locator(o: RecordOrigin) -> Seq<char> {
    match o.key_path {
        Some(k) => k@,
        None => o.file@,
    }
}

/// The locator of a record: its key path when it has one, else its file.
pub fn locator_of(o: &RecordOrigin) -> (r: String)
    ensures
        r@ == origin_locator(*o),
{
    match &o.key_path {
        Some(k) => k.clone(),
        None => o.file.clone(),
    }
}

/// The claim with these parts.
pub open spec fn claim_of(
    device: Seq<char>,
    attribute: Attribute,
    value: ValueView,
    source: SourceKind,
    locator: Seq<char>,
) -> ClaimView {
    ClaimView {
        device,
        attribute,
        value,
        provenance: ProvenanceView { source, locator },
    }
}

/// A claim whose value is text.
pub fn text_claim(
    device: &String,
    attribute: Attribute,
    text: &String,
    source: SourceKind,
    locator: &String,
) -> (r: Claim)
    ensures
        r@ == claim_of(device@, attribute, ValueView::Text(text@), source, locator@),
{
    Claim {
        device: DeviceKey(device.clone()),
        attribute,
        value: Value::Text(text.clone()),
        provenance: Provenance { source, locator: locator.clone() },
    }
}

/// A claim whose value is a timestamp.
pub fn time_claim(
    device: &String,
    attribute: Attribute,
    when: i64,
    source: SourceKind,
    locator: &String,
) -> (r: Claim)
    ensures
        r@ == claim_of(device@, attribute, ValueView::Timestamp(when), source, locator@),
{
    Claim {
        device: DeviceKey(device.clone()),
        attribute,
        value: Value::Timestamp(when),
        provenance: Provenance { source, locator: locator.clone() },
    }
}

/// The text after the last `\` of `id` (all of `id` when it has none).
pub open spec fn last_component(id: Seq<char>) -> Seq<char>
    decreases id.len(),
{
    if id.len() == 0 {
        Seq::empty()
    } else if id.last() == '\\' {
        Seq::empty()
    } else {
        last_component(id.drop_last()).push(id.last())
    }
}

/// The text after the last `\` of `id` (all of `id` when it has none).
pub fn last_component_of(id: &str) -> (r: String)
    ensures
        r@ == last_component(id@),
{
    let cs = crate::text::chars_of(id);
    let mut start: usize = cs.len();
    proof {
        assert(cs@.take(cs.len() as int) =~= cs@);
        assert(cs@.subrange(cs.len() as int, cs.len() as int) =~= Seq::<char>::empty());
        assert(last_component(cs@) =~= last_component(cs@) + Seq::<char>::empty());
    }
    while start > 0 && cs[start - 1] != '\\'
        invariant
            start <= cs.len(),
            cs@ == id@,
            last_component(cs@) == last_component(cs@.take(start as int)) + cs@.subrange(
                start as int,
                cs.len() as int,
            ),
        decreases start,
    {
        proof {
            let t = cs@.take(start as int);
            assert(t.drop_last() =~= cs@.take(start - 1));
            assert(cs@.subrange(start - 1, cs.len() as int) =~= seq![cs@[start - 1]]
                + cs@.subrange(start as int, cs.len() as int));
            assert(last_component(t) == last_component(t.drop_last()).push(t.last()));
            assert(last_component(t) + cs@.subrange(start as int, cs.len() as int)
                =~= last_component(cs@.take(start - 1)) + cs@.subrange(start - 1, cs.len() as int));
        }
        start = start - 1;
    }
    proof {
        assert(cs@.take(cs.len() as int) =~= cs@);
    }
    let mut out = String::new();
    let mut i = start;
    while i < cs.len()
        invariant
            start <= i <= cs.len(),
            out@ == cs@.subrange(start as int, i as int),
        decreases cs.len() - i,
    {
        crate::text::push_char(&mut out, cs[i]);
        i = i + 1;
        assert(out@ =~= cs@.subrange(start as int, i as int));
    }
    proof {
        let t = cs@.take(start as int);
        if start > 0 {
            assert(t.last() == '\\');
        }
        assert(last_component(t) =~= Seq::<char>::empty());
        assert(last_component(cs@) =~= out@);
    }
    out
}

/// The epoch seconds (UTC, sub-second part dropped) that `jiff` reads from an ISO 8601 /
/// RFC 3339 timestamp with an offset, or `None` where it rejects the text.
pub uninterp spec fn timestamp_seconds(text: Seq<char>) -> Option<i64>;

/// `jiff::Timestamp` parsed from `text`, then `Timestamp::as_second`.
#[verifier::external_body]
pub fn parse_timestamp(text: &str) -> (r: Option<i64>)
    ensures
        r == timestamp_seconds(text@),
{
    match text.parse::<jiff::Timestamp>() {
        Ok(t) => Some(t.as_second()),
        Err(_) => None,
    }
}

} // verus!
