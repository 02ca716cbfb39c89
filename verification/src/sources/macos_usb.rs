//! Adapter: a macOS `system_profiler SPUSBDataType -json` capture → claims. The capture
//! is the live IORegistry USB tree (hubs and the devices under them), so it witnesses
//! the devices attached at capture time, with their names and whether they expose
//! mass storage.
use crate::json::{json_get, json_str, JsonValue};
use crate::model::{Attribute, Claim, ClaimView, SourceKind, ValueView};
use crate::order::views;
use crate::scan::{is_space, parse_radix16_u16, radix16_u16, trim_start};
use crate::source::HistorySource;
use crate::sources::driver_framework::str_in;
use crate::sources::shared::{claim_of, text_claim};
use crate::text::{chars_of, has_prefix, owned};
use crate::readers::{json_document, read_json};
use vstd::prelude::*;

verus! {

/// A USB device from the profiler tree.
#[derive(Debug, Clone, PartialEq, Eq)]
pub struct MacUsbDevice {
    /// `serial_num`, when reported.
    pub serial: Option<String>,
    /// `_name` (empty when absent).
    pub name: String,
    /// The vendor id, parsed from `vendor_id` (`0x0781  (SanDisk Corporation)`).
    pub vid: Option<u16>,
    /// The product id, parsed from `product_id`.
    pub pid: Option<u16>,
    /// `manufacturer`, when reported.
    pub manufacturer: Option<String>,
    /// The device exposes mass-storage media (a `Media` array).
    pub is_mass_storage: bool,
}

/// The mathematical content of a [`MacUsbDevice`].
pub struct MacUsbDeviceView {
    pub serial: Option<Seq<char>>,
    pub name: Seq<char>,
    pub vid: Option<u16>,
    pub pid: Option<u16>,
    pub manufacturer: Option<Seq<char>>,
    pub is_mass_storage: bool,
}

impl View for MacUsbDevice {
    type V = MacUsbDeviceView;

    open spec fn view(&self) -> MacUsbDeviceView {
        MacUsbDeviceView {
            serial: match self.serial {
                Some(s) => Some(s@),
                None => None,
            },
            name: self.name@,
            vid: self.vid,
            pid: self.pid,
            manufacturer: match self.manufacturer {
                Some(m) => Some(m@),
                None => None,
            },
            is_mass_storage: self.is_mass_storage,
        }
    }
}

/// The characters of `t` up to its first whitespace.
pub open spec fn up_to_space(t: Seq<char>) -> Seq<char>
    decreases t.len(),
{
    if t.len() == 0 || is_space(t[0]) {
        Seq::empty()
    } else {
        seq![t[0]] + up_to_space(t.drop_first())
    }
}

/// The first whitespace-separated token of `s` (`split_whitespace().next()`).
pub open spec fn first_token(s: Seq<char>) -> Option<Seq<char>> {
    let t = trim_start(s);
    if t.len() == 0 {
        None
    } else {
        Some(up_to_space(t))
    }
}

/// A hex id: the first token of the text, which must start `0x` or `0X`, read as a
/// 16-bit hexadecimal number.
pub open spec fn hex_id(s: Option<Seq<char>>) -> Option<u16> {
    match s {
        None => None,
        Some(s) => match first_token(s) {
            None => None,
            Some(tok) => if has_prefix(tok, "0x"@) || has_prefix(tok, "0X"@) {
                radix16_u16(tok.skip(2))
            } else {
                None
            },
        },
    }
}

/// The first whitespace-separated token of `s`.
fn first_token_of(s: &Vec<char>) -> (r: Option<Vec<char>>)
    ensures
        r.is_some() == first_token(s@).is_some(),
        r.is_some() ==> r.unwrap()@ == first_token(s@).unwrap(),
{
    let mut lo: usize = 0;
    assert(s@.skip(0) =~= s@);
    while lo < s.len() && crate::scan::space(s[lo])
        invariant
            lo <= s.len(),
            trim_start(s@) == trim_start(s@.skip(lo as int)),
        decreases s.len() - lo,
    {
        assert(s@.skip(lo as int).drop_first() =~= s@.skip(lo + 1));
        lo = lo + 1;
    }
    let ghost t = s@.skip(lo as int);
    assert(trim_start(t) == t);
    if lo == s.len() {
        assert(t.len() == 0);
        return None;
    }
    let mut hi = lo;
    while hi < s.len() && !crate::scan::space(s[hi])
        invariant
            lo <= hi <= s.len(),
            t == s@.skip(lo as int),
            up_to_space(t) == s@.subrange(lo as int, hi as int) + up_to_space(s@.skip(hi as int)),
        decreases s.len() - hi,
    {
        assert(s@.skip(hi as int).drop_first() =~= s@.skip(hi + 1));
        assert(s@.subrange(lo as int, hi + 1) =~= s@.subrange(lo as int, hi as int) + seq![s@[hi as int]]);
        hi = hi + 1;
    }
    assert(up_to_space(s@.skip(hi as int)) =~= Seq::<char>::empty());
    let tok = crate::scan::slice_chars(s, lo, hi);
    assert(tok@ =~= up_to_space(t));
    Some(tok)
}

/// Parse a profiler hex id (`0x0781  (SanDisk Corporation)`) to its 16-bit value.
pub fn parse_hex_id(s: Option<&str>) -> (r: Option<u16>)
    ensures
        r == hex_id(match s { Some(x) => Some(x@), None => None }),
{
    let text = match s {
        Some(x) => chars_of(x),
        None => return None,
    };
    let tok = match first_token_of(&text) {
        Some(t) => t,
        None => return None,
    };
    if tok.len() >= 2 && tok[0] == '0' && (tok[1] == 'x' || tok[1] == 'X') {
        let hex = crate::scan::slice_chars(&tok, 2, tok.len());
        assert(hex@ =~= tok@.skip(2));
        assert(has_prefix(tok@, "0x"@) || has_prefix(tok@, "0X"@)) by {
            reveal_strlit("0x");
            reveal_strlit("0X");
            if tok@[1] == 'x' {
                assert(tok@.take(2) =~= "0x"@);
            } else {
                assert(tok@.take(2) =~= "0X"@);
            }
        }
        parse_radix16_u16(&hex)
    } else {
        proof {
            reveal_strlit("0x");
            reveal_strlit("0X");
            if has_prefix(tok@, "0x"@) {
                assert(tok@.take(2)[0] == '0' && tok@.take(2)[1] == 'x');
            }
            if has_prefix(tok@, "0X"@) {
                assert(tok@.take(2)[0] == '0' && tok@.take(2)[1] == 'X');
            }
        }
        None
    }
}

/// The device a profiler node describes: any node with a product id or a serial.
pub open spec fn node_device(node: JsonValue) -> Seq<MacUsbDeviceView> {
    if json_get(node, "product_id"@).is_some() || json_get(node, "serial_num"@).is_some() {
        seq![
            MacUsbDeviceView {
                serial: json_str(json_get(node, "serial_num"@)),
                name: match json_str(json_get(node, "_name"@)) {
                    Some(n) => n,
                    None => Seq::empty(),
                },
                vid: hex_id(json_str(json_get(node, "vendor_id"@))),
                pid: hex_id(json_str(json_get(node, "product_id"@))),
                manufacturer: json_str(json_get(node, "manufacturer"@)),
                is_mass_storage: json_get(node, "Media"@) matches Some(JsonValue::Array(_)),
            },
        ]
    } else {
        Seq::empty()
    }
}

/// The devices of a node and everything under it, in pre-order.
pub open spec fn walk_node(node: JsonValue) -> Seq<MacUsbDeviceView>
    decreases node,
{
    node_device(node) + match node {
        JsonValue::Object(entries) => walk_members(entries@),
        _ => Seq::empty(),
    }
}

/// The devices under the first `_items` member (an array of child nodes).
pub open spec fn walk_members(entries: Seq<(String, JsonValue)>) -> Seq<MacUsbDeviceView>
    decreases entries,
{
    if entries.len() == 0 {
        Seq::empty()
    } else if entries[0].0@ == "_items"@ {
        match entries[0].1 {
            JsonValue::Array(children) => walk_list(children@),
            _ => Seq::empty(),
        }
    } else {
        walk_members(entries.drop_first())
    }
}

/// The devices of a list of nodes, in order.
pub open spec fn walk_list(nodes: Seq<JsonValue>) -> Seq<MacUsbDeviceView>
    decreases nodes,
{
    if nodes.len() == 0 {
        Seq::empty()
    } else {
        walk_node(nodes[0]) + walk_list(nodes.drop_first())
    }
}

/// The text of a member of `node`.
fn str_field(node: &JsonValue, key: &str) -> (r: Option<String>)
    ensures
        r.is_some() == json_str(json_get(*node, key@)).is_some(),
        r.is_some() ==> r.unwrap()@ == json_str(json_get(*node, key@)).unwrap(),
{
    str_in(node.get(key))
}

/// The hex id in a member of `node`.
fn hex_field(node: &JsonValue, key: &str) -> (r: Option<u16>)
    ensures
        r == hex_id(json_str(json_get(*node, key@))),
{
    match node.get(key) {
        Some(v) => parse_hex_id(v.as_str()),
        None => None,
    }
}

/// Append the devices of `node` and everything under it, in pre-order.
#[verifier::loop_isolation(false)]
fn walk(node: &JsonValue, out: &mut Vec<MacUsbDevice>)
    ensures
        views(final(out)@) == views(old(out)@) + walk_node(*node),
    decreases node,
{
    let ghost before = views(out@);
    if node.get("product_id").is_some() || node.get("serial_num").is_some() {
        let name = match str_field(node, "_name") {
            Some(n) => n,
            None => String::new(),
        };
        let is_mass_storage = match node.get("Media") {
            Some(JsonValue::Array(_)) => true,
            _ => false,
        };
        out.push(
            MacUsbDevice {
                serial: str_field(node, "serial_num"),
                name,
                vid: hex_field(node, "vendor_id"),
                pid: hex_field(node, "product_id"),
                manufacturer: str_field(node, "manufacturer"),
                is_mass_storage,
            },
        );
    }
    let ghost mid = views(out@);
    assert(mid =~= before + node_device(*node));
    match node {
        JsonValue::Object(entries) => {
            let mut i: usize = 0;
            assert(entries@.skip(0) =~= entries@);
            while i < entries.len()
                invariant
                    i <= entries@.len(),
                    views(out@) == mid,
                    walk_members(entries@) == walk_members(entries@.skip(i as int)),
                decreases entries.len() - i,
            {
                assert(entries@.skip(i as int).drop_first() =~= entries@.skip(i + 1));
                assert(entries@.skip(i as int)[0] == entries@[i as int]);
                if crate::text::same_text_str(entries[i].0.as_str(), "_items") {
                    match &entries[i].1 {
                        JsonValue::Array(children) => {
                            let mut j: usize = 0;
                            assert(children@.skip(0) =~= children@);
                            while j < children.len()
                                invariant
                                    j <= children@.len(),
                                    views(out@) + walk_list(children@.skip(j as int)) == mid + walk_list(children@),
                                decreases children.len() - j,
                            {
                                assert(children@.skip(j as int).drop_first() =~= children@.skip(j + 1));
                                assert(children@.skip(j as int)[0] == children@[j as int]);
                                let ghost at = views(out@);
                                proof {
                                    assert(decreases_to!(*node => entries@[i as int].1));
                                    assert(decreases_to!(entries@[i as int].1 => children@[j as int]));
                                }
                                walk(&children[j], out);
                                assert(views(out@) + walk_list(children@.skip(j + 1)) =~= at + walk_list(children@.skip(j as int)));
                                j = j + 1;
                            }
                            assert(children@.skip(j as int) =~= Seq::<JsonValue>::empty());
                            assert(views(out@) =~= mid + walk_list(children@));
                        },
                        _ => {},
                    }
                    assert(views(out@) =~= before + walk_node(*node));
                    return;
                }
                i = i + 1;
            }
            assert(entries@.skip(i as int) =~= Seq::<(String, JsonValue)>::empty());
        },
        _ => {},
    }
    assert(views(out@) =~= before + walk_node(*node));
}

/// The devices of a profiler capture: every node under each top-level
/// `SPUSBDataType` bus that carries a product id or a serial, in pre-order. `None` (a
/// capture that was not JSON) or a capture without that key yields nothing.
pub open spec fn profiler_devices(doc: Option<JsonValue>) -> Seq<MacUsbDeviceView> {
    match doc {
        Some(root) => match json_get(root, "SPUSBDataType"@) {
            Some(JsonValue::Array(items)) => walk_list(items@),
            _ => Seq::empty(),
        },
        None => Seq::empty(),
    }
}

/// Decode the USB devices of a `system_profiler SPUSBDataType -json` capture (`None`
/// when the capture did not parse as JSON).
pub fn devices_of_profile(doc: Option<&JsonValue>) -> (r: Vec<MacUsbDevice>)
    ensures
        views(r@) == profiler_devices(match doc { Some(d) => Some(*d), None => None }),
{
    let mut out: Vec<MacUsbDevice> = Vec::new();
    let root = match doc {
        Some(d) => d,
        None => return out,
    };
    match root.get("SPUSBDataType") {
        Some(JsonValue::Array(items)) => {
            let mut j: usize = 0;
            assert(items@.skip(0) =~= items@);
            assert(views(out@) =~= Seq::<MacUsbDeviceView>::empty());
            while j < items.len()
                invariant
                    j <= items@.len(),
                    views(out@) + walk_list(items@.skip(j as int)) == walk_list(items@),
                decreases items.len() - j,
            {
                assert(items@.skip(j as int).drop_first() =~= items@.skip(j + 1));
                assert(items@.skip(j as int)[0] == items@[j as int]);
                let ghost at = views(out@);
                walk(&items[j], &mut out);
                assert(views(out@) + walk_list(items@.skip(j + 1)) =~= at + walk_list(items@.skip(j as int)));
                j = j + 1;
            }
            assert(items@.skip(j as int) =~= Seq::<JsonValue>::empty());
            assert(views(out@) =~= walk_list(items@));
        },
        _ => {},
    }
    out
}

/// The claims of one device, keyed by its serial (else its name): its name when
/// non-empty, and a `MassStorage` device class when it exposes media.
pub open spec fn mac_device_claims(d: MacUsbDeviceView, locator: Seq<char>) -> Seq<ClaimView> {
    let key = match d.serial {
        Some(s) => s,
        None => d.name,
    };
    (if d.name.len() > 0 {
        seq![claim_of(key, Attribute::VolumeName, ValueView::Text(d.name), SourceKind::MacosUsb, locator)]
    } else {
        Seq::empty()
    }) + if d.is_mass_storage {
        seq![claim_of(key, Attribute::DeviceClass, ValueView::Text("MassStorage"@), SourceKind::MacosUsb, locator)]
    } else {
        Seq::empty()
    }
}

/// The claims of the devices, in order.
pub open spec fn mac_usb_claims(devices: Seq<MacUsbDeviceView>, locator: Seq<char>) -> Seq<ClaimView>
    decreases devices.len(),
{
    if devices.len() == 0 {
        Seq::empty()
    } else {
        mac_usb_claims(devices.drop_last(), locator) + mac_device_claims(devices.last(), locator)
    }
}

/// A [`HistorySource`] over decoded profiler devices.
pub struct MacUsbSource<'a> {
    devices: &'a [MacUsbDevice],
    locator: String,
}

impl<'a> MacUsbSource<'a> {
    /// The devices this source reads.
    pub closed spec fn devices(&self) -> Seq<MacUsbDeviceView> {
        views(self.devices@)
    }

    /// The locator of the capture.
    pub closed spec fn capture(&self) -> Seq<char> {
        self.locator@
    }

    /// Wrap decoded devices with the capture's locator.
    pub fn new(devices: &'a [MacUsbDevice], locator: &str) -> (r: Self)
        ensures
            r.devices() == views(devices@),
            r.capture() == locator@,
    {
        MacUsbSource { devices, locator: owned(locator) }
    }
}

impl<'a> HistorySource for MacUsbSource<'a> {
    open spec fn claim_views(&self) -> Seq<ClaimView> {
        mac_usb_claims(self.devices(), self.capture())
    }

    /// Per device, keyed by its serial (else its name): a `VolumeName` claim for a
    /// non-empty name and a `MassStorage` `DeviceClass` claim for a media device.
    fn claims(&self) -> (r: Vec<Claim>) {
        let mut out: Vec<Claim> = Vec::new();
        let mut i: usize = 0;
        while i < self.devices.len()
            invariant
                i <= self.devices@.len(),
                views(out@) == mac_usb_claims(views(self.devices@).take(i as int), self.locator@),
            decreases self.devices.len() - i,
        {
            let dev = &self.devices[i];
            let ghost before = views(out@);
            let device = match &dev.serial {
                Some(s) => s.clone(),
                None => dev.name.clone(),
            };
            if !dev.name.as_str().is_empty() {
                out.push(text_claim(&device, Attribute::VolumeName, &dev.name, SourceKind::MacosUsb, &self.locator));
            }
            if dev.is_mass_storage {
                let class = owned("MassStorage");
                out.push(text_claim(&device, Attribute::DeviceClass, &class, SourceKind::MacosUsb, &self.locator));
            }
            proof {
                let t = views(self.devices@).take(i + 1);
                assert(t.drop_last() =~= views(self.devices@).take(i as int));
                assert(t.last() == dev@);
                assert(views(out@) =~= before + mac_device_claims(dev@, self.locator@));
            }
            i = i + 1;
        }
        assert(views(self.devices@).take(self.devices@.len() as int) =~= views(self.devices@));
        out
    }
}

/// Decode the USB devices of a `system_profiler SPUSBDataType -json` capture's bytes:
/// none when the bytes are not JSON.
pub fn parse_system_profiler(json: &[u8]) -> (r: Vec<MacUsbDevice>)
    ensures
        views(r@) == profiler_devices(json_document(json@)),
{
    let doc = read_json(json);
    match &doc {
        Some(d) => devices_of_profile(Some(d)),
        None => devices_of_profile(None),
    }
}

} // verus!
