use vstd::prelude::*;

verus! {

/// The zero-based offset that a reference names among `count` tuples:
/// positive references count from 1 at the start, negative ones back from
/// the end.
pub open spec fn offset_of(reference: int, count: int) -> int {
    if reference > 0 {
        reference - 1
    } else {
        count + reference
    }
}

/// The offset a reference resolves to, or `None` where the reference is zero,
/// names no existing tuple, or gives an offset that an element record
/// cannot hold.
pub open spec fn resolved(reference: int, count: int) -> Option<u16> {
    let offset = offset_of(reference, count);
    if reference != 0 && 0 <= offset < count && offset <= u16::MAX {
        Some(offset as u16)
    } else {
        None
    }
}

/// Resolves a signed, 1-based-or-relative reference into an offset among the
/// `count` tuples parsed so far.
pub fn resolve_index(reference: i64, count: usize) -> (r: Option<u16>)
    ensures
        r == resolved(reference as int, count as int),
{
    if reference == 0 {
        None
    } else if reference > 0 {
        let offset = (reference - 1) as u64;
        if offset < count as u64 && offset <= u16::MAX as u64 {
            Some(offset as u16)
        } else {
            None
        }
    } else {
        let back: u64 = if reference == i64::MIN {
            9223372036854775808u64
        } else {
            (-reference) as u64
        };
        if back <= count as u64 && count as u64 - back <= u16::MAX as u64 {
            Some((count as u64 - back) as u16)
        } else {
            None
        }
    }
}

/// Among `n` tuples, reference `n` and reference `-1` name the same tuple,
/// reference `1` names offset 0 whenever a tuple exists, and reference `0`
/// names none.
pub proof fn lemma_index_resolution(n: int)
    requires
        n >= 0,
    ensures
        resolved(n, n) == resolved(-1, n),
        n >= 1 ==> resolved(1, n) == Some(0u16),
        resolved(0, n) is None,
{
}

} // verus!
