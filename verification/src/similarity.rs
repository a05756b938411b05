//! Identity and similarity of content.
use vstd::prelude::*;
use crate::entry::ContentId;
use crate::path::bytes_equal;

verus! {

/// The similarity of identical content, in hundredths of a percent.
pub const FULL_SIMILARITY: u32 = 10000;

/// The share of unchanged units among `total` units of which `changed`
/// differ, in hundredths of a percent and rounded down. More changed units
/// than there are units count as all of them; nothing is fully similar to
/// nothing.
pub open spec fn similarity_of(changed: nat, total: nat) -> nat {
    if total == 0 {
        10000
    } else if changed >= total {
        0
    } else {
        (((total - changed) * 10000) / (total as int)) as nat
    }
}

/// Whether two ids name the same content: equal ids do, by the way content
/// is addressed.
pub fn identical(a: &ContentId, b: &ContentId) -> (r: bool)
    ensures
        r == (a@ == b@),
{
    bytes_equal(a.bytes.as_slice(), b.bytes.as_slice())
}

/// The similarity of two pieces of content of which `changed_units` out of
/// `total_units` differ.
pub fn similarity(changed_units: usize, total_units: usize) -> (r: u32)
    ensures
        r == similarity_of(changed_units as nat, total_units as nat),
        r <= FULL_SIMILARITY,
{
    if total_units == 0 {
        return FULL_SIMILARITY;
    }
    if changed_units >= total_units {
        return 0;
    }
    let kept: u128 = (total_units - changed_units) as u128;
    let total: u128 = total_units as u128;
    assert(kept * 10000 <= 0xffff_ffff_ffff_ffff * 10000) by (nonlinear_arith)
        requires
            kept <= 0xffff_ffff_ffff_ffff,
    ;
    assert((kept * 10000) / (total as int) <= 10000) by (nonlinear_arith)
        requires
            0 <= kept <= total,
            total > 0,
    ;
    let share: u128 = kept * 10000 / total;
    share as u32
}

} // verus!
