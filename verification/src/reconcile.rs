//! Volume-serial reconciliation: attribute volume-keyed claims (LNK/jump-list file
//! access, drive-letter facts) to the physical device that carries that identity.
use crate::model::{Attribute, Claim, ClaimView, DeviceKey, Value, ValueView};
use crate::order::{views, Rank, ViewOrder};
use crate::text::{chars_of, hex_fixed, push_char, push_hex, push_str};
use vstd::prelude::*;

verus! {

/// Claim `c` is a physical device asserting that it carries identity `id`: a volume
/// serial or drive letter whose value is `id`, reported under a different key.
pub open spec fn asserts_carrying(c: ClaimView, id: Seq<char>) -> bool {
    &&& (c.attribute == Attribute::VolumeSerial || c.attribute == Attribute::DriveLetter)
    &&& c.value == ValueView::Text(id)
    &&& c.device != id
}

/// Device `d` carries identity `id` according to some claim.
pub open spec fn carries(claims: Seq<ClaimView>, id: Seq<char>, d: Seq<char>) -> bool {
    exists|j: int| 0 <= j < claims.len() && asserts_carrying(#[trigger] claims[j], id) && claims[j].device == d
}

/// `d` is the one and only device carrying `id`.
pub open spec fn sole_carrier(claims: Seq<ClaimView>, id: Seq<char>, d: Seq<char>) -> bool {
    carries(claims, id, d) && forall|e: Seq<char>| carries(claims, id, e) ==> e == d
}

/// The claim after reconciliation: re-keyed onto the sole carrier of its key, if any.
pub open spec fn reconciled(claims: Seq<ClaimView>, c: ClaimView) -> ClaimView {
    if exists|d: Seq<char>| sole_carrier(claims, c.device, d) {
        ClaimView { device: choose|d: Seq<char>| sole_carrier(claims, c.device, d), ..c }
    } else {
        c
    }
}

/// Whether `c` asserts carrying `id` (executable).
fn is_carrying(c: &Claim, id: &String) -> (r: bool)
    ensures
        r == asserts_carrying(c@, id@),
{
    let attr_ok = match c.attribute {
        Attribute::VolumeSerial | Attribute::DriveLetter => true,
        _ => false,
    };
    if !attr_ok {
        return false;
    }
    match &c.value {
        Value::Text(t) => *t == *id && !(c.device.0 == *id),
        Value::Timestamp(_) => false,
    }
}

/// The sole physical carrier of identity `id`, when exactly one device carries it.
fn find_sole_carrier(claims: &[Claim], id: &String) -> (r: Option<String>)
    ensures
        r matches Some(d) ==> sole_carrier(views(claims@), id@, d@),
        r is None ==> !exists|d: Seq<char>| sole_carrier(views(claims@), id@, d),
{
    let ghost cs = views(claims@);
    let mut first: Option<String> = None;
    let mut ambiguous = false;
    let mut i: usize = 0;
    while i < claims.len()
        invariant
            i <= claims.len(),
            cs == views(claims@),
            first is None ==> !ambiguous && forall|e: Seq<char>| !carries(cs.take(i as int), id@, e),
            first matches Some(f) ==> carries(cs.take(i as int), id@, f@),
            !ambiguous ==> (first matches Some(f) ==> forall|e: Seq<char>|
                carries(cs.take(i as int), id@, e) ==> e == f@),
            ambiguous ==> (first matches Some(f) && exists|e: Seq<char>|
                carries(cs.take(i as int), id@, e) && e != f@),
        decreases claims.len() - i,
    {
        let ghost pre = cs.take(i as int);
        let ghost post = cs.take(i + 1);
        assert(post[i as int] == cs[i as int]);
        assert(cs[i as int] == claims@[i as int]@);
        assert forall|e: Seq<char>| carries(pre, id@, e) implies carries(post, id@, e) by {
            let j = choose|j: int| 0 <= j < pre.len() && asserts_carrying(#[trigger] pre[j], id@) && pre[j].device == e;
            assert(post[j] == pre[j]);
        }
        assert forall|e: Seq<char>| carries(post, id@, e) implies carries(pre, id@, e) || (asserts_carrying(cs[i as int], id@) && cs[i as int].device == e) by {
            let j = choose|j: int| 0 <= j < post.len() && asserts_carrying(#[trigger] post[j], id@) && post[j].device == e;
            if j < i {
                assert(pre[j] == post[j]);
            }
        }
        if is_carrying(&claims[i], id) {
            assert(carries(post, id@, cs[i as int].device));
            match &first {
                None => {
                    first = Some(claims[i].device.0.clone());
                },
                Some(f) => {
                    if !(*f == claims[i].device.0) {
                        ambiguous = true;
                    }
                },
            }
        }
        i = i + 1;
    }
    assert(cs.take(claims.len() as int) =~= cs);
    if ambiguous {
        None
    } else {
        first
    }
}

/// Re-key volume-pseudo-device claims to the unique physical device that carries the
/// identity: when exactly one physical device reports carrying the claim's key (as a
/// volume serial or drive letter under a different key), the claim moves onto that
/// device. Ambiguous and unmatched claims are left unchanged; order is preserved.
pub fn reconcile_volume_serials(claims: &[Claim]) -> (r: Vec<Claim>)
    ensures
        r@.len() == claims@.len(),
        forall|i: int| 0 <= i < claims@.len() ==> (#[trigger] r@[i])@ == reconciled(views(claims@), claims@[i]@),
{
    let ghost cs = views(claims@);
    let mut out: Vec<Claim> = Vec::new();
    let mut i: usize = 0;
    while i < claims.len()
        invariant
            i <= claims.len(),
            cs == views(claims@),
            out@.len() == i,
            forall|k: int| 0 <= k < i ==> (#[trigger] out@[k])@ == reconciled(cs, claims@[k]@),
        decreases claims.len() - i,
    {
        let mut c = claims[i].duplicate();
        match find_sole_carrier(claims, &claims[i].device.0) {
            Some(d) => {
                proof {
                    let dv = d@;
                    assert(sole_carrier(cs, claims@[i as int]@.device, dv));
                    let chosen = choose|x: Seq<char>| sole_carrier(cs, claims@[i as int]@.device, x);
                    assert(sole_carrier(cs, claims@[i as int]@.device, chosen));
                    assert(carries(cs, claims@[i as int]@.device, chosen));
                    assert(chosen == dv);
                }
                c.device = DeviceKey(d);
            },
            None => {},
        }
        out.push(c);
        i = i + 1;
    }
    out
}

/// A `MountedDevices` MBR volume record: a drive letter or volume GUID bound to the
/// disk signature and partition offset of the volume it names.
#[derive(Debug, Clone, PartialEq, Eq)]
pub struct MountedVolume {
    /// The drive letter (`E`), for a `\DosDevices\E:` entry.
    pub drive_letter: Option<char>,
    /// The volume GUID (`{...}`), for a `\??\Volume{...}` entry.
    pub volume_guid: Option<String>,
    /// The MBR disk signature of the disk holding the volume.
    pub disk_signature: u32,
    /// The byte offset of the volume's partition on that disk.
    pub partition_offset: u64,
}

/// The mathematical content of a [`MountedVolume`].
pub struct MountedVolumeView {
    pub drive_letter: Option<char>,
    pub volume_guid: Option<Seq<char>>,
    pub disk_signature: u32,
    pub partition_offset: u64,
}

impl View for MountedVolume {
    type V = MountedVolumeView;

    open spec fn view(&self) -> MountedVolumeView {
        MountedVolumeView {
            drive_letter: self.drive_letter,
            volume_guid: match self.volume_guid {
                Some(g) => Some(g@),
                None => None,
            },
            disk_signature: self.disk_signature,
            partition_offset: self.partition_offset,
        }
    }
}

/// The media identity of a disk: `disk-` and its signature in eight hex digits.
pub open spec fn disk_identity(signature: u32) -> Seq<char> {
    seq!['d', 'i', 's', 'k', '-'] + hex_fixed(signature as nat, 8)
}

/// `name` is one of the identifiers this record binds to its volume: its drive letter
/// (`E:`), its volume GUID, or its disk's media identity.
pub open spec fn names_volume(v: MountedVolumeView, name: Seq<char>) -> bool {
    ||| (v.drive_letter matches Some(l) && name == seq![l, ':'])
    ||| (v.volume_guid matches Some(g) && name == g)
    ||| name == disk_identity(v.disk_signature)
}

/// The canonical key of the volume at (`sig`, `off`): the volume GUID of the last
/// record for it that carries one.
pub open spec fn group_canon(vols: Seq<MountedVolumeView>, sig: u32, off: u64) -> Option<Seq<char>>
    decreases vols.len(),
{
    if vols.len() == 0 {
        None
    } else if vols.last().disk_signature == sig && vols.last().partition_offset == off
        && vols.last().volume_guid is Some {
        vols.last().volume_guid
    } else {
        group_canon(vols.drop_last(), sig, off)
    }
}

/// Volume key order: by disk signature, then partition offset.
pub open spec fn key_before(a: (u32, u64), b: (u32, u64)) -> bool {
    a.0 < b.0 || (a.0 == b.0 && a.1 < b.1)
}

/// `name` names a volume at `key` that has a canonical key.
pub open spec fn bridged_at(vols: Seq<MountedVolumeView>, name: Seq<char>, key: (u32, u64)) -> bool {
    &&& exists|j: int|
        0 <= j < vols.len() && names_volume(#[trigger] vols[j], name) && vols[j].disk_signature
            == key.0 && vols[j].partition_offset == key.1
    &&& group_canon(vols, key.0, key.1) is Some
}

/// `key` is the greatest volume key under which `name` is bridged.
pub open spec fn best_bridge(vols: Seq<MountedVolumeView>, name: Seq<char>, key: (u32, u64)) -> bool {
    bridged_at(vols, name, key) && forall|k: (u32, u64)| bridged_at(vols, name, k) ==> !key_before(key, k)
}

/// The claim after canonicalization: re-keyed onto the volume GUID of the greatest
/// bridged volume its key names, if any.
pub open spec fn canonicalized(vols: Seq<MountedVolumeView>, c: ClaimView) -> ClaimView {
    if exists|k: (u32, u64)| best_bridge(vols, c.device, k) {
        let k = choose|k: (u32, u64)| best_bridge(vols, c.device, k);
        ClaimView { device: group_canon(vols, k.0, k.1)->0, ..c }
    } else {
        c
    }
}

/// The canonical key of the volume at (`sig`, `off`), computed.
fn find_group_canon(volumes: &[MountedVolume], sig: u32, off: u64) -> (r: Option<String>)
    ensures
        r matches Some(g) ==> group_canon(views(volumes@), sig, off) == Some(g@),
        r is None ==> group_canon(views(volumes@), sig, off) is None,
{
    let ghost vs = views(volumes@);
    let mut found: Option<String> = None;
    let mut i: usize = 0;
    while i < volumes.len()
        invariant
            i <= volumes.len(),
            vs == views(volumes@),
            found matches Some(g) ==> group_canon(vs.take(i as int), sig, off) == Some(g@),
            found is None ==> group_canon(vs.take(i as int), sig, off) is None,
        decreases volumes.len() - i,
    {
        assert(vs.take(i + 1).drop_last() =~= vs.take(i as int));
        assert(vs.take(i + 1).last() == volumes@[i as int]@);
        let v = &volumes[i];
        if v.disk_signature == sig && v.partition_offset == off {
            match &v.volume_guid {
                Some(g) => {
                    found = Some(g.clone());
                },
                None => {},
            }
        }
        i = i + 1;
    }
    assert(vs.take(volumes.len() as int) =~= vs);
    found
}

/// Whether `name` names the volume of record `v`.
fn record_names(v: &MountedVolume, name: &Vec<char>) -> (r: bool)
    ensures
        r == names_volume(v@, name@),
{
    if let Some(l) = v.drive_letter {
        if name.len() == 2 && name[0] == l && name[1] == ':' {
            assert(name@ =~= seq![l, ':']);
            return true;
        }
    }
    if let Some(g) = &v.volume_guid {
        let gv = chars_of(g.as_str());
        if crate::order::rank_char_vecs(&gv, name) == Rank::Same {
            return true;
        }
    }
    let mut ident = String::new();
    push_str(&mut ident, "disk-");
    push_hex(&mut ident, v.disk_signature as u64, 8);
    proof {
        reveal_strlit("disk-");
        assert(ident@ =~= disk_identity(v.disk_signature));
    }
    let iv = chars_of(ident.as_str());
    let same = crate::order::rank_char_vecs(&iv, name) == Rank::Same;
    proof {
        if same {
        } else {
            if let Some(l) = v.drive_letter {
                if name@ == seq![l, ':'] {
                    assert(name@.len() == 2);
                    assert(name@[0] == l);
                    assert(name@[1] == ':');
                }
            }
        }
    }
    same
}

/// Unify claims keyed by a drive letter, a volume GUID or a disk's media identity that
/// name the same volume (the `MountedDevices` MBR bridge: records sharing a disk signature
/// and partition offset are one volume) onto that volume's canonical key, its volume GUID.
/// Order-preserving; a key with no bridged volume GUID is left unchanged.
pub fn canonicalize_mounted_volumes(claims: &[Claim], volumes: &[MountedVolume]) -> (r: Vec<Claim>)
    ensures
        r@.len() == claims@.len(),
        forall|i: int| 0 <= i < claims@.len() ==> (#[trigger] r@[i])@ == canonicalized(views(volumes@), claims@[i]@),
{
    let ghost vs = views(volumes@);
    let mut out: Vec<Claim> = Vec::new();
    let mut i: usize = 0;
    while i < claims.len()
        invariant
            i <= claims.len(),
            vs == views(volumes@),
            out@.len() == i,
            forall|k: int| 0 <= k < i ==> (#[trigger] out@[k])@ == canonicalized(vs, claims@[k]@),
        decreases claims.len() - i,
    {
        let name = chars_of(claims[i].device.0.as_str());
        let ghost nv = claims@[i as int]@.device;
        let mut best: Option<(u32, u64)> = None;
        let mut j: usize = 0;
        while j < volumes.len()
            invariant
                j <= volumes.len(),
                vs == views(volumes@),
                name@ == nv,
                best matches Some(k) ==> bridged_at(vs, nv, k),
                forall|k: (u32, u64)| #[trigger] bridged_at(vs, nv, k) && (exists|m: int| 0 <= m < j && names_volume(vs[m], nv) && vs[m].disk_signature == k.0 && vs[m].partition_offset == k.1)
                    ==> (best matches Some(b) && !key_before(b, k)),
            decreases volumes.len() - j,
        {
            let v = &volumes[j];
            assert(vs[j as int] == v@);
            if record_names(v, &name) {
                let key = (v.disk_signature, v.partition_offset);
                if find_group_canon(volumes, key.0, key.1).is_some() {
                    assert(bridged_at(vs, nv, key));
                    let better = match best {
                        None => true,
                        Some(b) => b.0 < key.0 || (b.0 == key.0 && b.1 < key.1),
                    };
                    if better {
                        best = Some(key);
                    }
                }
            }
            j = j + 1;
        }
        let mut c = claims[i].duplicate();
        match best {
            Some(b) => {
                let canon = find_group_canon(volumes, b.0, b.1);
                match canon {
                    Some(g) => {
                        proof {
                            assert(best_bridge(vs, nv, b));
                            let k = choose|k: (u32, u64)| best_bridge(vs, nv, k);
                            assert(!key_before(k, b) && !key_before(b, k));
                            assert(k == b);
                        }
                        c.device = DeviceKey(g);
                    },
                    None => {},
                }
            },
            None => {
                proof {
                    assert forall|k: (u32, u64)| !best_bridge(vs, nv, k) by {
                        if bridged_at(vs, nv, k) {
                            let m = choose|m: int| 0 <= m < vs.len() && names_volume(#[trigger] vs[m], nv) && vs[m].disk_signature == k.0 && vs[m].partition_offset == k.1;
                            assert(m < volumes.len());
                        }
                    }
                }
            },
        }
        out.push(c);
        i = i + 1;
    }
    out
}

/// Reconciliation never guesses: a pseudo-identity that two different devices carry is
/// left where it was.
pub proof fn law_ambiguous_identity_is_left_alone(claims: Seq<ClaimView>, c: ClaimView, d1: Seq<char>, d2: Seq<char>)
    requires
        carries(claims, c.device, d1),
        carries(claims, c.device, d2),
        d1 != d2,
    ensures
        reconciled(claims, c) == c,
{
    if exists|d: Seq<char>| sole_carrier(claims, c.device, d) {
        let d = choose|d: Seq<char>| sole_carrier(claims, c.device, d);
        assert(d1 == d && d2 == d);
    }
}

/// Re-keying moves a claim between devices and changes nothing else: its attribute,
/// value and provenance are kept, whichever pass re-keys it.
pub proof fn law_rekeying_keeps_the_evidence(claims: Seq<ClaimView>, vols: Seq<MountedVolumeView>, c: ClaimView)
    ensures
        reconciled(claims, c).attribute == c.attribute,
        reconciled(claims, c).value == c.value,
        reconciled(claims, c).provenance == c.provenance,
        canonicalized(vols, c).attribute == c.attribute,
        canonicalized(vols, c).value == c.value,
        canonicalized(vols, c).provenance == c.provenance,
{
}

} // verus!
