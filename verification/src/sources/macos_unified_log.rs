//! Adapter: the macOS unified log (`log show --style json`) → claims. When a USB device is
//! attached the kernel's `AppleUSBHostPort` logs `enumerated 0xVVVV/PPPP/… ( Name / … )`;
//! each such event is a connection witness. Events are aggregated per vendor/product
//! into first and last connection times.
use crate::json::{json_get, json_str, JsonValue};
use crate::model::{Attribute, Claim, ClaimView, SourceKind, ValueView};
use crate::order::views;
use crate::scan::{
    find_chars, find_first, first_piece, first_piece_of, parse_radix16_u16, radix16_u16, second_piece,
    second_piece_of, slice_chars, trim_chars, trimmed,
};
use crate::source::HistorySource;
use crate::sources::driver_framework::str_in;
use crate::sources::shared::{claim_of, parse_timestamp, text_claim, time_claim, timestamp_seconds};
use crate::text::{chars_of, hex_fixed, owned, push_char, push_hex, push_str, string_of};
use crate::readers::{json_document, read_json};
use vstd::prelude::*;

verus! {

/// One USB enumeration event from the unified log.
#[derive(Debug, Clone, PartialEq, Eq)]
pub struct UsbEnumeration {
    /// USB vendor id.
    pub vid: u16,
    /// USB product id.
    pub pid: u16,
    /// The product name the device reported (may be empty).
    pub name: String,
    /// When it was enumerated, epoch seconds UTC.
    pub when: i64,
}

/// The mathematical content of a [`UsbEnumeration`].
pub struct UsbEnumerationView {
    pub vid: u16,
    pub pid: u16,
    pub name: Seq<char>,
    pub when: i64,
}

impl View for UsbEnumeration {
    type V = UsbEnumerationView;

    open spec fn view(&self) -> UsbEnumerationView {
        UsbEnumerationView { vid: self.vid, pid: self.pid, name: self.name@, when: self.when }
    }
}

/// The vendor id, product id and name an enumeration message carries:
/// `… enumerated 0xVVVV/PPPP/… ( Name / … ) …`.
pub open spec fn enumeration_of(msg: Seq<char>) -> Option<(u16, u16, Seq<char>)> {
    match second_piece(msg, "enumerated 0x"@) {
        None => None,
        Some(rest) => {
            let first = first_piece(rest, "/"@);
            match find_first(rest, "/"@) {
                None => None,
                Some(slash) => {
                    let second = first_piece(rest.skip(slash + 1), "/"@);
                    match (radix16_u16(trimmed(first)), radix16_u16(trimmed(second)), second_piece(rest, "("@)) {
                        (Some(vid), Some(pid), Some(after_paren)) => Some(
                            (vid, pid, trimmed(first_piece(after_paren, "/"@))),
                        ),
                        _ => None,
                    }
                },
            }
        },
    }
}

/// Extract the vendor id, product id and name from an `AppleUSBHostPort` enumeration
/// message; `None` for any other message.
pub fn parse_enumeration_message(msg: &str) -> (r: Option<(u16, u16, String)>)
    ensures
        r.is_some() == enumeration_of(msg@).is_some(),
        r.is_some() ==> (r.unwrap().0, r.unwrap().1, r.unwrap().2@) == enumeration_of(msg@).unwrap(),
{
    let cs = chars_of(msg);
    let marker = chars_of("enumerated 0x");
    let slash = chars_of("/");
    let paren = chars_of("(");
    proof {
        reveal_strlit("enumerated 0x");
        reveal_strlit("/");
        reveal_strlit("(");
    }
    let rest = match second_piece_of(&cs, &marker) {
        Some(r) => r,
        None => return None,
    };
    let first = first_piece_of(&rest, &slash);
    let at = match find_chars(&rest, &slash, 0) {
        Some(i) => i,
        None => return None,
    };
    let n = rest.len();
    assert(slash@.len() == 1);
    assert(at + 1 <= n);
    let after = slice_chars(&rest, at + 1, n);
    assert(after@ =~= rest@.skip(at + 1));
    let second = first_piece_of(&after, &slash);
    let vid = match parse_radix16_u16(&trim_chars(&first)) {
        Some(v) => v,
        None => return None,
    };
    let pid = match parse_radix16_u16(&trim_chars(&second)) {
        Some(v) => v,
        None => return None,
    };
    let after_paren = match second_piece_of(&rest, &paren) {
        Some(a) => a,
        None => return None,
    };
    let name = trim_chars(&first_piece_of(&after_paren, &slash));
    Some((vid, pid, string_of(name.as_slice())))
}

/// The UTF-8 width of a character.
pub open spec fn utf8_width(c: char) -> nat {
    if (c as u32) < 0x80u32 {
        1
    } else if (c as u32) < 0x800u32 {
        2
    } else if (c as u32) < 0x10000u32 {
        3
    } else {
        4
    }
}

/// The UTF-8 length of a text, in bytes.
pub open spec fn utf8_len(s: Seq<char>) -> nat
    decreases s.len(),
{
    if s.len() == 0 {
        0
    } else {
        utf8_len(s.drop_last()) + utf8_width(s.last())
    }
}

/// How many leading characters of `s` make up exactly its first `n` bytes; `None` when
/// byte `n` falls inside a character.
pub open spec fn chars_in_bytes(s: Seq<char>, n: nat) -> Option<nat>
    decreases s.len(),
{
    if n == 0 {
        Some(0)
    } else if s.len() == 0 || utf8_width(s[0]) > n {
        None
    } else {
        match chars_in_bytes(s.drop_first(), (n - utf8_width(s[0])) as nat) {
            Some(k) => Some(k + 1),
            None => None,
        }
    }
}

/// The last position in `s` of a `+` or a `-`.
pub open spec fn last_sign(s: Seq<char>) -> Option<int>
    decreases s.len(),
{
    if s.len() == 0 {
        None
    } else if s.last() == '+' || s.last() == '-' {
        Some(s.len() - 1)
    } else {
        last_sign(s.drop_last())
    }
}

/// The parts of a unified-log timestamp (`2026-07-12 18:51:45.843302+0800`): the date,
/// the time, and the offset (its sign and four digits), when it has that shape.
pub open spec fn timestamp_parts(ts: Seq<char>) -> Option<(Seq<char>, Seq<char>, Seq<char>)> {
    match find_first(ts, " "@) {
        None => None,
        Some(space) => {
            let rest = ts.skip(space + 1);
            match last_sign(rest) {
                None => None,
                Some(sign) => {
                    let off = rest.skip(sign);
                    if utf8_len(off) != 5 {
                        None
                    } else {
                        Some((ts.take(space), rest.take(sign), off))
                    }
                },
            }
        },
    }
}

/// The timestamp cannot be rewritten: its five-byte offset cannot be cut after its third
/// byte (the cut would fall inside a character).
pub open spec fn log_timestamp_unsplittable(ts: Seq<char>) -> bool {
    match timestamp_parts(ts) {
        Some((_, _, off)) => chars_in_bytes(off, 3).is_none(),
        None => false,
    }
}

/// A unified-log timestamp rewritten to RFC 3339: `+0800` becomes `+08:00`, and a `T`
/// stands between date and time.
pub open spec fn log_timestamp_rfc3339(ts: Seq<char>) -> Option<Seq<char>> {
    match timestamp_parts(ts) {
        None => None,
        Some((date, time, off)) => match chars_in_bytes(off, 3) {
            Some(k) => Some(date + seq!['T'] + time + off.take(k as int) + seq![':'] + off.skip(k as int)),
            None => None,
        },
    }
}

/// A unified-log timestamp, rewritten to RFC 3339 and read by `jiff`, in epoch seconds.
pub open spec fn log_timestamp(ts: Seq<char>) -> Option<i64> {
    match log_timestamp_rfc3339(ts) {
        Some(rfc) => timestamp_seconds(rfc),
        None => None,
    }
}

/// The UTF-8 width of a character.
fn width_of(c: char) -> (r: usize)
    ensures
        r == utf8_width(c),
{
    let v = c as u32;
    if v < 0x80 {
        1
    } else if v < 0x800 {
        2
    } else if v < 0x10000 {
        3
    } else {
        4
    }
}

/// Whether the UTF-8 length of `s` is exactly `n` bytes.
fn utf8_len_is(s: &Vec<char>, n: usize) -> (r: bool)
    ensures
        r == (utf8_len(s@) == n),
{
    let mut total: usize = 0;
    let mut i: usize = 0;
    while i < s.len()
        invariant
            i <= s.len(),
            total == utf8_len(s@.take(i as int)),
            total <= n,
        decreases s.len() - i,
    {
        assert(s@.take(i + 1).drop_last() =~= s@.take(i as int));
        let w = width_of(s[i]);
        if w > n - total {
            proof {
                lemma_utf8_len_prefix(s@, i + 1);
            }
            return false;
        }
        total = total + w;
        i = i + 1;
    }
    assert(s@.take(s.len() as int) =~= s@);
    total == n
}

/// A prefix is never longer, in bytes, than the whole.
proof fn lemma_utf8_len_prefix(s: Seq<char>, k: int)
    requires
        0 <= k <= s.len(),
    ensures
        utf8_len(s.take(k)) <= utf8_len(s),
    decreases s.len() - k,
{
    if k < s.len() {
        lemma_utf8_len_prefix(s, k + 1);
        assert(s.take(k + 1).drop_last() =~= s.take(k));
    } else {
        assert(s.take(k) =~= s);
    }
}

/// How many leading characters of `s` make up exactly its first `n` bytes.
fn chars_in_bytes_of(s: &Vec<char>, n: usize) -> (r: Option<usize>)
    ensures
        r.is_some() == chars_in_bytes(s@, n as nat).is_some(),
        r.is_some() ==> r.unwrap() == chars_in_bytes(s@, n as nat).unwrap(),
        r.is_some() ==> r.unwrap() <= s@.len(),
{
    let mut k: usize = 0;
    let mut left: usize = n;
    assert(s@.skip(0) =~= s@);
    while left > 0
        invariant
            k <= s.len(),
            left <= n,
            chars_in_bytes(s@, n as nat) == match chars_in_bytes(s@.skip(k as int), left as nat) {
                Some(j) => Some((j + k) as nat),
                None => None,
            },
        decreases left,
    {
        if k == s.len() {
            return None;
        }
        let w = width_of(s[k]);
        assert(s@.skip(k as int)[0] == s@[k as int]);
        assert(s@.skip(k as int).drop_first() =~= s@.skip(k + 1));
        if w > left {
            return None;
        }
        left = left - w;
        k = k + 1;
    }
    Some(k)
}

/// Rewrite a unified-log timestamp (`2026-07-12 18:51:45.843302+0800`) to RFC 3339
/// (`2026-07-12T18:51:45.843302+08:00`), when it has that shape.
pub fn log_timestamp_to_rfc3339(ts: &str) -> (r: Option<String>)
    requires
        !log_timestamp_unsplittable(ts@),
    ensures
        r.is_some() == log_timestamp_rfc3339(ts@).is_some(),
        r.is_some() ==> r.unwrap()@ == log_timestamp_rfc3339(ts@).unwrap(),
{
    let cs = chars_of(ts);
    let sp = chars_of(" ");
    proof {
        reveal_strlit(" ");
    }
    let space = match find_chars(&cs, &sp, 0) {
        Some(i) => i,
        None => return None,
    };
    let n = cs.len();
    let rest = slice_chars(&cs, space + 1, n);
    assert(rest@ =~= cs@.skip(space + 1));
    let mut j = rest.len();
    assert(rest@.take(j as int) =~= rest@);
    while j > 0 && !(rest[j - 1] == '+' || rest[j - 1] == '-')
        invariant
            j <= rest.len(),
            last_sign(rest@) == last_sign(rest@.take(j as int)),
        decreases j,
    {
        assert(rest@.take(j as int).drop_last() =~= rest@.take(j - 1));
        j = j - 1;
    }
    if j == 0 {
        assert(rest@.take(0) =~= Seq::<char>::empty());
        return None;
    }
    let sign = j - 1;
    assert(last_sign(rest@.take(j as int)) == Some(sign as int));
    let m = rest.len();
    let off = slice_chars(&rest, sign, m);
    let time = slice_chars(&rest, 0, sign);
    let date = slice_chars(&cs, 0, space);
    assert(off@ =~= rest@.skip(sign as int));
    assert(time@ =~= rest@.take(sign as int));
    assert(date@ =~= cs@.take(space as int));
    if !utf8_len_is(&off, 5) {
        return None;
    }
    let k = match chars_in_bytes_of(&off, 3) {
        Some(k) => k,
        None => {
            assert(log_timestamp_unsplittable(ts@));
            return None;
        },
    };
    let mut rfc = String::new();
    push_str(&mut rfc, string_of(date.as_slice()).as_str());
    push_char(&mut rfc, 'T');
    push_str(&mut rfc, string_of(time.as_slice()).as_str());
    let head = slice_chars(&off, 0, k);
    let tail = slice_chars(&off, k, off.len());
    push_str(&mut rfc, string_of(head.as_slice()).as_str());
    push_char(&mut rfc, ':');
    push_str(&mut rfc, string_of(tail.as_slice()).as_str());
    assert(head@ =~= off@.take(k as int));
    assert(tail@ =~= off@.skip(k as int));
    assert(rfc@ =~= date@ + seq!['T'] + time@ + off@.take(k as int) + seq![':'] + off@.skip(k as int));
    Some(rfc)
}

/// Read a unified-log timestamp (`2026-07-12 18:51:45.843302+0800`) as epoch seconds:
/// rewrite it to RFC 3339 (`+08:00`, a `T` before the time) and parse that.
pub fn parse_log_timestamp(ts: &str) -> (r: Option<i64>)
    requires
        !log_timestamp_unsplittable(ts@),
    ensures
        r == log_timestamp(ts@),
{
    match log_timestamp_to_rfc3339(ts) {
        Some(rfc) => parse_timestamp(rfc.as_str()),
        None => None,
    }
}

/// The enumeration event a log entry holds, if it holds one.
pub open spec fn entry_enumeration(e: JsonValue) -> Option<UsbEnumerationView> {
    match json_str(json_get(e, "eventMessage"@)) {
        None => None,
        Some(msg) => match enumeration_of(msg) {
            None => None,
            Some((vid, pid, name)) => match json_str(json_get(e, "timestamp"@)) {
                None => None,
                Some(ts) => match log_timestamp(ts) {
                    Some(when) => Some(UsbEnumerationView { vid, pid, name, when }),
                    None => None,
                },
            },
        },
    }
}

/// A log entry with an enumeration message whose timestamp cannot be rewritten.
pub open spec fn entry_unsplittable(e: JsonValue) -> bool {
    match json_str(json_get(e, "eventMessage"@)) {
        Some(msg) => enumeration_of(msg).is_some() && match json_str(json_get(e, "timestamp"@)) {
            Some(ts) => log_timestamp_unsplittable(ts),
            None => false,
        },
        None => false,
    }
}

/// The enumeration events of log entries, in order.
pub open spec fn entry_enumerations(entries: Seq<JsonValue>) -> Seq<UsbEnumerationView>
    decreases entries.len(),
{
    if entries.len() == 0 {
        Seq::empty()
    } else {
        entry_enumerations(entries.drop_last()) + match entry_enumeration(entries.last()) {
            Some(e) => seq![e],
            None => Seq::empty(),
        }
    }
}

/// A log document with an enumeration entry whose timestamp cannot be rewritten.
pub open spec fn unified_log_unsplittable(doc: Option<JsonValue>) -> bool {
    match doc {
        Some(JsonValue::Array(entries)) => exists|i: int| 0 <= i < entries@.len() && #[trigger] entry_unsplittable(entries@[i]),
        _ => false,
    }
}

/// The enumeration events of a `log show --style json` document (an array of entries);
/// anything else yields none.
pub open spec fn unified_log_events(doc: Option<JsonValue>) -> Seq<UsbEnumerationView> {
    match doc {
        Some(JsonValue::Array(entries)) => entry_enumerations(entries@),
        _ => Seq::empty(),
    }
}

/// The enumeration event a log entry holds, if it holds one.
fn entry_event(e: &JsonValue) -> (r: Option<UsbEnumeration>)
    requires
        !entry_unsplittable(*e),
    ensures
        r.is_some() == entry_enumeration(*e).is_some(),
        r.is_some() ==> r.unwrap()@ == entry_enumeration(*e).unwrap(),
{
    let msg = match str_in(e.get("eventMessage")) {
        Some(m) => m,
        None => return None,
    };
    let (vid, pid, name) = match parse_enumeration_message(msg.as_str()) {
        Some(t) => t,
        None => return None,
    };
    let ts = match str_in(e.get("timestamp")) {
        Some(t) => t,
        None => return None,
    };
    match parse_log_timestamp(ts.as_str()) {
        Some(when) => Some(UsbEnumeration { vid, pid, name, when }),
        None => None,
    }
}

/// Whether every enumeration entry's timestamp can be rewritten (what
/// [`events_of_log`] needs of its document).
#[verifier::loop_isolation(false)]
pub fn unified_log_is_splittable(doc: Option<&JsonValue>) -> (r: bool)
    ensures
        r == !unified_log_unsplittable(match doc { Some(d) => Some(*d), None => None }),
{
    let entries = match doc {
        Some(JsonValue::Array(entries)) => entries,
        _ => return true,
    };
    let mut i: usize = 0;
    while i < entries.len()
        invariant
            i <= entries@.len(),
            forall|j: int| 0 <= j < i ==> !#[trigger] entry_unsplittable(entries@[j]),
        decreases entries.len() - i,
    {
        let e = &entries[i];
        let bad = match str_in(e.get("eventMessage")) {
            Some(msg) => match parse_enumeration_message(msg.as_str()) {
                Some(_) => match str_in(e.get("timestamp")) {
                    Some(ts) => !timestamp_splittable(ts.as_str()),
                    None => false,
                },
                None => false,
            },
            None => false,
        };
        if bad {
            assert(entry_unsplittable(entries@[i as int]));
            return false;
        }
        i = i + 1;
    }
    true
}

/// Whether a timestamp's offset can be cut after its third byte.
fn timestamp_splittable(ts: &str) -> (r: bool)
    ensures
        r == !log_timestamp_unsplittable(ts@),
{
    let cs = chars_of(ts);
    let sp = chars_of(" ");
    proof {
        reveal_strlit(" ");
    }
    let space = match find_chars(&cs, &sp, 0) {
        Some(i) => i,
        None => return true,
    };
    let n = cs.len();
    let rest = slice_chars(&cs, space + 1, n);
    assert(rest@ =~= cs@.skip(space + 1));
    let mut j = rest.len();
    assert(rest@.take(j as int) =~= rest@);
    while j > 0 && !(rest[j - 1] == '+' || rest[j - 1] == '-')
        invariant
            j <= rest.len(),
            last_sign(rest@) == last_sign(rest@.take(j as int)),
        decreases j,
    {
        assert(rest@.take(j as int).drop_last() =~= rest@.take(j - 1));
        j = j - 1;
    }
    if j == 0 {
        assert(rest@.take(0) =~= Seq::<char>::empty());
        return true;
    }
    let sign = j - 1;
    assert(last_sign(rest@.take(j as int)) == Some(sign as int));
    let m = rest.len();
    let off = slice_chars(&rest, sign, m);
    assert(off@ =~= rest@.skip(sign as int));
    if !utf8_len_is(&off, 5) {
        return true;
    }
    chars_in_bytes_of(&off, 3).is_some()
}

/// Decode the USB enumeration events of a `log show --style json` document (`None` when
/// the input did not parse as JSON), in entry order.
pub fn events_of_log(doc: Option<&JsonValue>) -> (r: Vec<UsbEnumeration>)
    requires
        !unified_log_unsplittable(match doc { Some(d) => Some(*d), None => None }),
    ensures
        views(r@) == unified_log_events(match doc { Some(d) => Some(*d), None => None }),
{
    let mut out: Vec<UsbEnumeration> = Vec::new();
    let entries = match doc {
        Some(JsonValue::Array(entries)) => entries,
        _ => return out,
    };
    let mut i: usize = 0;
    while i < entries.len()
        invariant
            i <= entries@.len(),
            forall|j: int| 0 <= j < entries@.len() ==> !#[trigger] entry_unsplittable(entries@[j]),
            views(out@) == entry_enumerations(entries@.take(i as int)),
        decreases entries.len() - i,
    {
        let ghost before = views(out@);
        assert(!entry_unsplittable(entries@[i as int]));
        if let Some(e) = entry_event(&entries[i]) {
            out.push(e);
        }
        proof {
            assert(entries@.take(i + 1).drop_last() =~= entries@.take(i as int));
            assert(views(out@) =~= entry_enumerations(entries@.take(i + 1)));
        }
        i = i + 1;
    }
    assert(entries@.take(entries@.len() as int) =~= entries@);
    out
}

/// The order devices are reported in: by vendor id, then product id.
pub open spec fn key_less(a: (u16, u16), b: (u16, u16)) -> bool {
    a.0 < b.0 || (a.0 == b.0 && a.1 < b.1)
}

/// `keys` with `k` added in order, unless it is already there.
pub open spec fn insert_key(keys: Seq<(u16, u16)>, k: (u16, u16)) -> Seq<(u16, u16)>
    decreases keys.len(),
{
    if keys.len() == 0 {
        seq![k]
    } else if keys[0] == k {
        keys
    } else if key_less(k, keys[0]) {
        seq![k] + keys
    } else {
        seq![keys[0]] + insert_key(keys.drop_first(), k)
    }
}

/// The distinct vendor/product pairs of the events, in ascending order.
pub open spec fn device_keys(events: Seq<UsbEnumerationView>) -> Seq<(u16, u16)>
    decreases events.len(),
{
    if events.len() == 0 {
        Seq::empty()
    } else {
        insert_key(device_keys(events.drop_last()), (events.last().vid, events.last().pid))
    }
}

/// For the events of one vendor/product pair: the earliest time, the latest time, and
/// the name of the first such event.
pub open spec fn aggregate(events: Seq<UsbEnumerationView>, k: (u16, u16)) -> Option<(i64, i64, Seq<char>)>
    decreases events.len(),
{
    if events.len() == 0 {
        None
    } else {
        let prev = aggregate(events.drop_last(), k);
        let e = events.last();
        if (e.vid, e.pid) != k {
            prev
        } else {
            match prev {
                None => Some((e.when, e.when, e.name)),
                Some((lo, hi, name)) => Some(
                    (if e.when < lo { e.when } else { lo }, if e.when > hi { e.when } else { hi }, name),
                ),
            }
        }
    }
}

/// The device key of a vendor/product pair: `usb-VVVV-PPPP`.
pub open spec fn usb_device_key(k: (u16, u16)) -> Seq<char> {
    "usb-"@ + hex_fixed(k.0 as nat, 4) + seq!['-'] + hex_fixed(k.1 as nat, 4)
}

/// The claims of one vendor/product pair: first and last connection, and its name when
/// non-empty.
pub open spec fn pair_claims(events: Seq<UsbEnumerationView>, k: (u16, u16), locator: Seq<char>) -> Seq<ClaimView> {
    match aggregate(events, k) {
        None => Seq::empty(),
        Some((first, last, name)) => {
            let d = usb_device_key(k);
            seq![
                claim_of(d, Attribute::FirstConnected, ValueView::Timestamp(first), SourceKind::MacosUnifiedLog, locator),
                claim_of(d, Attribute::LastConnected, ValueView::Timestamp(last), SourceKind::MacosUnifiedLog, locator),
            ] + if name.len() > 0 {
                seq![claim_of(d, Attribute::VolumeName, ValueView::Text(name), SourceKind::MacosUnifiedLog, locator)]
            } else {
                Seq::empty()
            }
        },
    }
}

/// The claims of the pairs, in order.
pub open spec fn keys_claims(events: Seq<UsbEnumerationView>, keys: Seq<(u16, u16)>, locator: Seq<char>) -> Seq<ClaimView>
    decreases keys.len(),
{
    if keys.len() == 0 {
        Seq::empty()
    } else {
        keys_claims(events, keys.drop_last(), locator) + pair_claims(events, keys.last(), locator)
    }
}

/// The claims of the events: per vendor/product pair, in ascending order.
pub open spec fn unified_log_claims(events: Seq<UsbEnumerationView>, locator: Seq<char>) -> Seq<ClaimView> {
    keys_claims(events, device_keys(events), locator)
}

/// Insert `k` into the ordered `keys` unless present.
fn insert_key_exec(keys: &mut Vec<(u16, u16)>, k: (u16, u16))
    ensures
        final(keys)@ == insert_key(old(keys)@, k),
{
    let mut i: usize = 0;
    let ghost orig = keys@;
    assert(orig.skip(0) =~= orig);
    while i < keys.len()
        invariant
            i <= keys@.len(),
            keys@ == orig,
            orig == old(keys)@,
            insert_key(orig, k) == orig.take(i as int) + insert_key(orig.skip(i as int), k),
        decreases keys.len() - i,
    {
        let cur = keys[i];
        assert(orig.skip(i as int)[0] == cur);
        assert(orig.skip(i as int).drop_first() =~= orig.skip(i + 1));
        if cur.0 == k.0 && cur.1 == k.1 {
            assert(cur == k);
            assert(insert_key(orig.skip(i as int), k) == orig.skip(i as int));
            assert(orig.take(i as int) + orig.skip(i as int) =~= orig);
            return;
        }
        if k.0 < cur.0 || (k.0 == cur.0 && k.1 < cur.1) {
            keys.insert(i, k);
            assert(keys@ =~= orig.take(i as int) + (seq![k] + orig.skip(i as int)));
            return;
        }
        assert(orig.take(i as int) + (seq![cur] + insert_key(orig.skip(i + 1), k)) =~= orig.take(i + 1) + insert_key(orig.skip(i + 1), k));
        i = i + 1;
    }
    assert(orig.skip(i as int) =~= Seq::<(u16, u16)>::empty());
    assert(orig.take(i as int) =~= orig);
    keys.push(k);
    assert(keys@ =~= orig + seq![k]);
}

/// The aggregate of the events of one pair.
fn aggregate_exec(events: &[UsbEnumeration], k: (u16, u16)) -> (r: Option<(i64, i64, String)>)
    ensures
        r.is_some() == aggregate(views(events@), k).is_some(),
        r.is_some() ==> (r.unwrap().0, r.unwrap().1, r.unwrap().2@) == aggregate(views(events@), k).unwrap(),
{
    let mut acc: Option<(i64, i64, String)> = None;
    let mut i: usize = 0;
    while i < events.len()
        invariant
            i <= events@.len(),
            acc.is_some() == aggregate(views(events@).take(i as int), k).is_some(),
            acc.is_some() ==> (acc.unwrap().0, acc.unwrap().1, acc.unwrap().2@) == aggregate(views(events@).take(i as int), k).unwrap(),
        decreases events.len() - i,
    {
        let e = &events[i];
        proof {
            let t = views(events@).take(i + 1);
            assert(t.drop_last() =~= views(events@).take(i as int));
            assert(t.last() == e@);
        }
        if e.vid == k.0 && e.pid == k.1 {
            acc = match acc {
                None => Some((e.when, e.when, e.name.clone())),
                Some((lo, hi, name)) => Some(
                    (if e.when < lo { e.when } else { lo }, if e.when > hi { e.when } else { hi }, name),
                ),
            };
        }
        i = i + 1;
    }
    assert(views(events@).take(events@.len() as int) =~= views(events@));
    acc
}

/// The device key of a vendor/product pair.
fn usb_device_key_of(k: (u16, u16)) -> (r: String)
    ensures
        r@ == usb_device_key(k),
{
    let mut s = String::new();
    push_str(&mut s, "usb-");
    push_hex(&mut s, k.0 as u64, 4);
    push_char(&mut s, '-');
    push_hex(&mut s, k.1 as u64, 4);
    s
}

/// A [`HistorySource`] over decoded unified-log enumeration events.
pub struct MacUnifiedLogSource<'a> {
    events: &'a [UsbEnumeration],
    locator: String,
}

impl<'a> MacUnifiedLogSource<'a> {
    /// The events this source reads.
    pub closed spec fn events(&self) -> Seq<UsbEnumerationView> {
        views(self.events@)
    }

    /// The locator of the log export.
    pub closed spec fn capture(&self) -> Seq<char> {
        self.locator@
    }

    /// Wrap decoded enumeration events with the log export's locator.
    pub fn new(events: &'a [UsbEnumeration], locator: &str) -> (r: Self)
        ensures
            r.events() == views(events@),
            r.capture() == locator@,
    {
        MacUnifiedLogSource { events, locator: owned(locator) }
    }
}

impl<'a> HistorySource for MacUnifiedLogSource<'a> {
    open spec fn claim_views(&self) -> Seq<ClaimView> {
        unified_log_claims(self.events(), self.capture())
    }

    /// Per vendor/product pair, in ascending order, keyed `usb-VVVV-PPPP`: the earliest
    /// enumeration as `FirstConnected`, the latest as `LastConnected`, and the first
    /// event's name as `VolumeName` when non-empty.
    fn claims(&self) -> (r: Vec<Claim>) {
        let ghost evs = views(self.events@);
        let mut keys: Vec<(u16, u16)> = Vec::new();
        let mut i: usize = 0;
        while i < self.events.len()
            invariant
                i <= self.events@.len(),
                evs == views(self.events@),
                keys@ == device_keys(evs.take(i as int)),
            decreases self.events.len() - i,
        {
            let e = &self.events[i];
            insert_key_exec(&mut keys, (e.vid, e.pid));
            proof {
                let t = evs.take(i + 1);
                assert(t.drop_last() =~= evs.take(i as int));
                assert(t.last() == e@);
            }
            i = i + 1;
        }
        assert(evs.take(self.events@.len() as int) =~= evs);
        let mut out: Vec<Claim> = Vec::new();
        let mut j: usize = 0;
        while j < keys.len()
            invariant
                j <= keys@.len(),
                evs == views(self.events@),
                keys@ == device_keys(evs),
                views(out@) == keys_claims(evs, keys@.take(j as int), self.locator@),
            decreases keys.len() - j,
        {
            let k = keys[j];
            let ghost before = views(out@);
            match aggregate_exec(self.events, k) {
                None => {},
                Some((first, last, name)) => {
                    let d = usb_device_key_of(k);
                    out.push(time_claim(&d, Attribute::FirstConnected, first, SourceKind::MacosUnifiedLog, &self.locator));
                    out.push(time_claim(&d, Attribute::LastConnected, last, SourceKind::MacosUnifiedLog, &self.locator));
                    if !name.as_str().is_empty() {
                        out.push(text_claim(&d, Attribute::VolumeName, &name, SourceKind::MacosUnifiedLog, &self.locator));
                    }
                },
            }
            proof {
                let t = keys@.take(j + 1);
                assert(t.drop_last() =~= keys@.take(j as int));
                assert(views(out@) =~= before + pair_claims(evs, k, self.locator@));
            }
            j = j + 1;
        }
        assert(keys@.take(keys@.len() as int) =~= keys@);
        out
    }
}

/// Decode the USB enumeration events of a `log show --style json` export's bytes, in
/// entry order: none when the bytes are not a JSON array.
pub fn parse_unified_log(json: &[u8]) -> (r: Vec<UsbEnumeration>)
    requires
        !unified_log_unsplittable(json_document(json@)),
    ensures
        views(r@) == unified_log_events(json_document(json@)),
{
    let doc = read_json(json);
    match &doc {
        Some(d) => events_of_log(Some(d)),
        None => events_of_log(None),
    }
}

/// Decode the USB enumeration events of a unified-log export's bytes, or `None` when an
/// enumeration's timestamp carries an offset that cannot be rewritten to RFC 3339.
pub fn read_unified_log(json: &[u8]) -> (r: Option<Vec<UsbEnumeration>>)
    ensures
        r.is_some() == !unified_log_unsplittable(json_document(json@)),
        r.is_some() ==> views(r.unwrap()@) == unified_log_events(json_document(json@)),
{
    let doc = read_json(json);
    let ok = match &doc {
        Some(d) => unified_log_is_splittable(Some(d)),
        None => unified_log_is_splittable(None),
    };
    if ok {
        Some(parse_unified_log(json))
    } else {
        None
    }
}

} // verus!
