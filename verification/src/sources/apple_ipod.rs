//! Adapter: macOS `com.apple.iPod.plist` → claims. Finder/iTunes record every iOS device
//! (iPhone, iPad, iPod) that synced with the Mac under `Devices`, with its serial,
//! model and last connection time.
use crate::model::{Attribute, Claim, ClaimView, SourceKind, ValueView};
use crate::order::views;
use crate::source::HistorySource;
use crate::sources::shared::{claim_of, text_claim, time_claim};
use crate::text::{owned, push_str, same_text_str};
use crate::readers::{plist_document, read_plist};
use vstd::prelude::*;

verus! {

/// A plist date, as its distance from the Unix epoch.
#[derive(Debug, Clone, Copy, PartialEq, Eq)]
pub struct PlistDate {
    /// The date lies before 1970-01-01T00:00:00Z.
    pub before_epoch: bool,
    /// Whole seconds between the date and the epoch.
    pub seconds: u64,
}

/// A decoded property-list value: what the adapter reads of it. A dictionary keeps its
/// entries in file order; keys are unique.
#[derive(Debug)]
pub enum PlistValue {
    Dictionary(Vec<(String, PlistValue)>),
    String(String),
    Date(PlistDate),
    /// Any other value (array, boolean, data, number, uid).
    Other,
}

/// The value of the first entry named `key`.
pub open spec fn plist_entry(entries: Seq<(String, PlistValue)>, key: Seq<char>) -> Option<PlistValue>
    decreases entries.len(),
{
    if entries.len() == 0 {
        None
    } else if entries[0].0@ == key {
        Some(entries[0].1)
    } else {
        plist_entry(entries.drop_first(), key)
    }
}

/// The text of a string entry.
pub open spec fn plist_text(entries: Seq<(String, PlistValue)>, key: Seq<char>) -> Option<Seq<char>> {
    match plist_entry(entries, key) {
        Some(PlistValue::String(s)) => Some(s@),
        _ => None,
    }
}

/// Epoch seconds of a date; a date before the epoch saturates to 0.
pub open spec fn date_seconds(d: PlistDate) -> i64 {
    if d.before_epoch {
        0
    } else {
        d.seconds as i64
    }
}

/// Epoch seconds of a date; a date before the epoch saturates to 0.
pub fn system_time_to_epoch(d: PlistDate) -> (r: i64)
    ensures
        r == date_seconds(d),
{
    if d.before_epoch {
        0
    } else {
        #[verifier::truncate]
        let s = d.seconds as i64;
        s
    }
}

/// An iOS device recorded in the plist.
#[derive(Debug, Clone, PartialEq, Eq)]
pub struct AppleDevice {
    /// `Serial Number`, when recorded.
    pub serial: Option<String>,
    /// `ID` (the UDID), else the entry's key.
    pub id: String,
    /// `Product Type` (e.g. `iPad14,6`), else `Device Class` (e.g. `iPhone`).
    pub model: Option<String>,
    /// `Connected`, epoch seconds UTC.
    pub last_connected: Option<i64>,
}

/// The mathematical content of an [`AppleDevice`].
pub struct AppleDeviceView {
    pub serial: Option<Seq<char>>,
    pub id: Seq<char>,
    pub model: Option<Seq<char>>,
    pub last_connected: Option<i64>,
}

impl View for AppleDevice {
    type V = AppleDeviceView;

    open spec fn view(&self) -> AppleDeviceView {
        AppleDeviceView {
            serial: match self.serial {
                Some(s) => Some(s@),
                None => None,
            },
            id: self.id@,
            model: match self.model {
                Some(m) => Some(m@),
                None => None,
            },
            last_connected: self.last_connected,
        }
    }
}

/// The device an entry of `Devices` describes, when the entry is a dictionary.
pub open spec fn device_of(key: Seq<char>, entry: PlistValue) -> Option<AppleDeviceView> {
    match entry {
        PlistValue::Dictionary(d) => Some(
            AppleDeviceView {
                serial: plist_text(d@, "Serial Number"@),
                id: match plist_text(d@, "ID"@) {
                    Some(id) => id,
                    None => key,
                },
                model: match plist_text(d@, "Product Type"@) {
                    Some(m) => Some(m),
                    None => plist_text(d@, "Device Class"@),
                },
                last_connected: match plist_entry(d@, "Connected"@) {
                    Some(PlistValue::Date(t)) => Some(date_seconds(t)),
                    _ => None,
                },
            },
        ),
        _ => None,
    }
}

/// The devices of the entries of `Devices`, in file order.
pub open spec fn devices_of(entries: Seq<(String, PlistValue)>) -> Seq<AppleDeviceView>
    decreases entries.len(),
{
    if entries.len() == 0 {
        Seq::empty()
    } else {
        devices_of(entries.drop_last()) + match device_of(entries.last().0@, entries.last().1) {
            Some(d) => seq![d],
            None => Seq::empty(),
        }
    }
}

/// The devices of a `com.apple.iPod.plist` (`None` when the file did not parse as a
/// plist): the dictionaries under the root's `Devices` dictionary.
pub open spec fn ipod_devices(root: Option<PlistValue>) -> Seq<AppleDeviceView> {
    match root {
        Some(PlistValue::Dictionary(top)) => match plist_entry(top@, "Devices"@) {
            Some(PlistValue::Dictionary(devs)) => devices_of(devs@),
            _ => Seq::empty(),
        },
        _ => Seq::empty(),
    }
}

/// The first entry named `key`.
fn entry<'a>(entries: &'a Vec<(String, PlistValue)>, key: &str) -> (r: Option<&'a PlistValue>)
    ensures
        r.is_some() == plist_entry(entries@, key@).is_some(),
        r.is_some() ==> *r.unwrap() == plist_entry(entries@, key@).unwrap(),
{
    let mut i: usize = 0;
    assert(entries@.skip(0) =~= entries@);
    while i < entries.len()
        invariant
            i <= entries@.len(),
            plist_entry(entries@, key@) == plist_entry(entries@.skip(i as int), key@),
        decreases entries.len() - i,
    {
        assert(entries@.skip(i as int).drop_first() =~= entries@.skip(i + 1));
        assert(entries@.skip(i as int)[0] == entries@[i as int]);
        if same_text_str(entries[i].0.as_str(), key) {
            return Some(&entries[i].1);
        }
        i = i + 1;
    }
    assert(entries@.skip(i as int) =~= Seq::<(String, PlistValue)>::empty());
    None
}

/// The text of a string entry.
fn text_entry(entries: &Vec<(String, PlistValue)>, key: &str) -> (r: Option<String>)
    ensures
        r.is_some() == plist_text(entries@, key@).is_some(),
        r.is_some() ==> r.unwrap()@ == plist_text(entries@, key@).unwrap(),
{
    match entry(entries, key) {
        Some(PlistValue::String(s)) => Some(s.clone()),
        _ => None,
    }
}

/// The device an entry of `Devices` describes, when the entry is a dictionary.
fn device_entry(key: &String, value: &PlistValue) -> (r: Option<AppleDevice>)
    ensures
        r.is_some() == device_of(key@, *value).is_some(),
        r.is_some() ==> r.unwrap()@ == device_of(key@, *value).unwrap(),
{
    match value {
        PlistValue::Dictionary(d) => {
            let id = match text_entry(d, "ID") {
                Some(id) => id,
                None => key.clone(),
            };
            let model = match text_entry(d, "Product Type") {
                Some(m) => Some(m),
                None => text_entry(d, "Device Class"),
            };
            let last_connected = match entry(d, "Connected") {
                Some(PlistValue::Date(t)) => Some(system_time_to_epoch(*t)),
                _ => None,
            };
            Some(AppleDevice { serial: text_entry(d, "Serial Number"), id, model, last_connected })
        },
        _ => None,
    }
}

/// Decode the iOS devices of a `com.apple.iPod.plist` (`None` when the file did not
/// parse as a plist), in file order. A file without a `Devices` dictionary yields none;
/// an entry that is not a dictionary is skipped.
pub fn devices_of_plist(root: Option<&PlistValue>) -> (r: Vec<AppleDevice>)
    ensures
        views(r@) == ipod_devices(match root { Some(x) => Some(*x), None => None }),
{
    let mut out: Vec<AppleDevice> = Vec::new();
    let top = match root {
        Some(PlistValue::Dictionary(top)) => top,
        _ => return out,
    };
    let devs = match entry(top, "Devices") {
        Some(PlistValue::Dictionary(devs)) => devs,
        _ => return out,
    };
    let mut i: usize = 0;
    while i < devs.len()
        invariant
            i <= devs@.len(),
            views(out@) == devices_of(devs@.take(i as int)),
        decreases devs.len() - i,
    {
        let ghost before = views(out@);
        if let Some(d) = device_entry(&devs[i].0, &devs[i].1) {
            out.push(d);
        }
        proof {
            let t = devs@.take(i + 1);
            assert(t.drop_last() =~= devs@.take(i as int));
            assert(views(out@) =~= devices_of(t));
        }
        i = i + 1;
    }
    assert(devs@.take(devs@.len() as int) =~= devs@);
    out
}

/// The claims of one device, keyed by its serial (else its id) and located at
/// `<file>#Devices/<id>`: its last connection, then its model as the volume name.
pub open spec fn apple_device_claims(d: AppleDeviceView, file: Seq<char>) -> Seq<ClaimView> {
    let key = match d.serial {
        Some(s) => s,
        None => d.id,
    };
    let loc = file + "#Devices/"@ + d.id;
    (match d.last_connected {
        Some(when) => seq![claim_of(key, Attribute::LastConnected, ValueView::Timestamp(when), SourceKind::AppleIPod, loc)],
        None => Seq::empty(),
    }) + match d.model {
        Some(m) => seq![claim_of(key, Attribute::VolumeName, ValueView::Text(m), SourceKind::AppleIPod, loc)],
        None => Seq::empty(),
    }
}

/// The claims of the devices, in order.
pub open spec fn apple_claims(devices: Seq<AppleDeviceView>, file: Seq<char>) -> Seq<ClaimView>
    decreases devices.len(),
{
    if devices.len() == 0 {
        Seq::empty()
    } else {
        apple_claims(devices.drop_last(), file) + apple_device_claims(devices.last(), file)
    }
}

/// A [`HistorySource`] over decoded iOS devices.
pub struct AppleIPodSource<'a> {
    devices: &'a [AppleDevice],
    locator: String,
}

impl<'a> AppleIPodSource<'a> {
    /// The devices this source reads.
    pub closed spec fn devices(&self) -> Seq<AppleDeviceView> {
        views(self.devices@)
    }

    /// The locator of the plist file.
    pub closed spec fn file(&self) -> Seq<char> {
        self.locator@
    }

    /// Wrap decoded devices with the plist file's locator.
    pub fn new(devices: &'a [AppleDevice], locator: &str) -> (r: Self)
        ensures
            r.devices() == views(devices@),
            r.file() == locator@,
    {
        AppleIPodSource { devices, locator: owned(locator) }
    }
}

impl<'a> HistorySource for AppleIPodSource<'a> {
    open spec fn claim_views(&self) -> Seq<ClaimView> {
        apple_claims(self.devices(), self.file())
    }

    /// Per device, keyed by its serial (else its id): `LastConnected` when recorded and
    /// its model as `VolumeName` when recorded.
    fn claims(&self) -> (r: Vec<Claim>) {
        let mut out: Vec<Claim> = Vec::new();
        let mut i: usize = 0;
        while i < self.devices.len()
            invariant
                i <= self.devices@.len(),
                views(out@) == apple_claims(views(self.devices@).take(i as int), self.locator@),
            decreases self.devices.len() - i,
        {
            let dev = &self.devices[i];
            let ghost before = views(out@);
            let device = match &dev.serial {
                Some(s) => s.clone(),
                None => dev.id.clone(),
            };
            let mut locator = String::new();
            push_str(&mut locator, self.locator.as_str());
            push_str(&mut locator, "#Devices/");
            push_str(&mut locator, dev.id.as_str());
            if let Some(when) = dev.last_connected {
                out.push(time_claim(&device, Attribute::LastConnected, when, SourceKind::AppleIPod, &locator));
            }
            if let Some(model) = &dev.model {
                out.push(text_claim(&device, Attribute::VolumeName, model, SourceKind::AppleIPod, &locator));
            }
            proof {
                let t = views(self.devices@).take(i + 1);
                assert(t.drop_last() =~= views(self.devices@).take(i as int));
                assert(t.last() == dev@);
                assert(views(out@) =~= before + apple_device_claims(dev@, self.locator@));
            }
            i = i + 1;
        }
        assert(views(self.devices@).take(self.devices@.len() as int) =~= views(self.devices@));
        out
    }
}

/// Decode the iOS devices of a `com.apple.iPod.plist` file's bytes, in file order:
/// none when the bytes are not a property list.
pub fn parse_ipod_plist(bytes: &[u8]) -> (r: Vec<AppleDevice>)
    ensures
        views(r@) == ipod_devices(plist_document(bytes@)),
{
    let root = read_plist(bytes);
    match &root {
        Some(v) => devices_of_plist(Some(v)),
        None => devices_of_plist(None),
    }
}

} // verus!
