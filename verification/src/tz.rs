//! Timezone normalization — correct host-local timestamps to UTC.
use crate::model::{is_local_clock, Claim, ClaimView, SourceKind, Value, ValueView};
use crate::order::views;
use vstd::prelude::*;

verus! {

/// The claim as it reads once a host at `offset` seconds from UTC is corrected for:
/// a local-clock timestamp moves by `-offset`; anything else is unchanged.
pub open spec fn normalized(c: ClaimView, offset: int) -> ClaimView {
    if is_local_clock(c.provenance.source) {
        match c.value {
            ValueView::Timestamp(t) => ClaimView { value: ValueView::Timestamp((t - offset) as i64), ..c },
            ValueView::Text(_) => c,
        }
    } else {
        c
    }
}

/// Every local-clock timestamp stays within `i64` after the shift.
pub open spec fn shift_fits(claims: Seq<ClaimView>, offset: int) -> bool {
    forall|i: int|
        0 <= i < claims.len() && is_local_clock(#[trigger] claims[i].provenance.source) ==> match claims[i].value {
            ValueView::Timestamp(t) => i64::MIN <= t - offset <= i64::MAX,
            ValueView::Text(_) => true,
        }
}

/// Shift every local-clock timestamp claim to UTC by the host's UTC offset in seconds
/// (true UTC = stored − offset). UTC-clock claims and text values are left untouched.
pub fn normalize_local_clocks(claims: &mut [Claim], host_utc_offset_secs: i64)
    requires
        shift_fits(views(old(claims)@), host_utc_offset_secs as int),
    ensures
        final(claims)@.len() == old(claims)@.len(),
        forall|i: int|
            0 <= i < old(claims)@.len() ==> (#[trigger] final(claims)@[i])@ == normalized(
                old(claims)@[i]@,
                host_utc_offset_secs as int,
            ),
{
    let ghost initial = claims@;
    let mut i: usize = 0;
    while i < claims.len()
        invariant
            i <= claims.len(),
            claims@.len() == initial.len(),
            shift_fits(views(initial), host_utc_offset_secs as int),
            forall|k: int| 0 <= k < i ==> (#[trigger] claims@[k])@ == normalized(initial[k]@, host_utc_offset_secs as int),
            forall|k: int| i <= k < claims@.len() ==> #[trigger] claims@[k] == initial[k],
        decreases claims.len() - i,
    {
        if claims[i].provenance.source.clock_is_local() {
            if let Value::Timestamp(secs) = claims[i].value {
                assert(views(initial)[i as int] == initial[i as int]@);
                claims[i].value = Value::Timestamp(secs - host_utc_offset_secs);
            }
        }
        i = i + 1;
    }
}

/// Correcting for an offset and then for its negation gives every claim back as it
/// was: the shift loses nothing, so a mistaken host offset can be undone.
pub proof fn law_opposite_offsets_cancel(c: ClaimView, offset: int)
    requires
        match c.value {
            ValueView::Timestamp(t) => i64::MIN <= t - offset <= i64::MAX,
            ValueView::Text(_) => true,
        },
    ensures
        normalized(normalized(c, offset), -offset) == c,
{
}

/// A host-local clock and a UTC clock that saw the same instant agree once the local
/// one is corrected: a local reading of `utc + offset` becomes `utc`.
pub proof fn law_local_reading_lines_up_with_utc(c: ClaimView, utc: i64, offset: int)
    requires
        is_local_clock(c.provenance.source),
        c.value == ValueView::Timestamp((utc + offset) as i64),
        i64::MIN <= utc + offset <= i64::MAX,
    ensures
        normalized(c, offset).value == ValueView::Timestamp(utc),
{
}

/// Only the two sources that write host-local wall-clock time move: a setupapi or Linux
/// kernel-log timestamp is shifted back by the offset, and every other claim (registry,
/// event-log, link and image times are already UTC) and every text value is left exactly
/// as it was.
pub proof fn law_only_local_logs_shift(c: ClaimView, offset: int)
    ensures
        c.provenance.source != SourceKind::SetupApi && c.provenance.source != SourceKind::LinuxKernelLog
            ==> normalized(c, offset) == c,
        (c.provenance.source == SourceKind::SetupApi || c.provenance.source == SourceKind::LinuxKernelLog)
            ==> match c.value {
            ValueView::Timestamp(t) => i64::MIN <= t - offset <= i64::MAX ==> normalized(c, offset) == (
            ClaimView { value: ValueView::Timestamp((t - offset) as i64), ..c }),
            ValueView::Text(_) => normalized(c, offset) == c,
        },
{
}

} // verus!
