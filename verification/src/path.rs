//! Byte-wise ordering of repository-relative paths.
use vstd::prelude::*;

verus! {

/// The outcome of comparing two paths.
#[derive(Clone, Copy, Debug, PartialEq, Eq, Structural)]
pub enum PathOrder {
    Less,
    Equal,
    Greater,
}

/// Orders two paths by their length alone.
pub open spec fn length_order(a: Seq<u8>, b: Seq<u8>) -> PathOrder {
    if a.len() < b.len() {
        PathOrder::Less
    } else if a.len() == b.len() {
        PathOrder::Equal
    } else {
        PathOrder::Greater
    }
}

/// Orders two paths that agree on every byte before `i`: the first byte at
/// which they differ decides, and if one runs out first, the length does.
pub open spec fn path_order_from(a: Seq<u8>, b: Seq<u8>, i: int) -> PathOrder
    decreases a.len() - i,
{
    if i < 0 || i >= a.len() || i >= b.len() {
        length_order(a, b)
    } else if a[i] < b[i] {
        PathOrder::Less
    } else if a[i] > b[i] {
        PathOrder::Greater
    } else {
        path_order_from(a, b, i + 1)
    }
}

/// The order of two paths: bytes of the common prefix first, then the length.
pub open spec fn path_order(a: Seq<u8>, b: Seq<u8>) -> PathOrder {
    path_order_from(a, b, 0)
}

/// `a` sorts strictly before `b`.
pub open spec fn path_lt(a: Seq<u8>, b: Seq<u8>) -> bool {
    path_order(a, b) == PathOrder::Less
}

proof fn lemma_equal_from(a: Seq<u8>, b: Seq<u8>, i: int)
    requires
        0 <= i,
        forall|k: int| 0 <= k < i && k < a.len() && k < b.len() ==> a[k] == b[k],
    ensures
        path_order_from(a, b, i) == PathOrder::Equal <==> a == b,
    decreases a.len() - i,
{
    if i >= a.len() || i >= b.len() {
        if a.len() == b.len() {
            assert(a =~= b);
        }
    } else if a[i] == b[i] {
        lemma_equal_from(a, b, i + 1);
    }
}

proof fn lemma_flip_from(a: Seq<u8>, b: Seq<u8>, i: int)
    requires
        0 <= i,
    ensures
        path_order_from(a, b, i) == PathOrder::Less <==> path_order_from(b, a, i)
            == PathOrder::Greater,
        path_order_from(a, b, i) == PathOrder::Equal <==> path_order_from(b, a, i)
            == PathOrder::Equal,
    decreases a.len() - i,
{
    if i >= a.len() || i >= b.len() {
    } else if a[i] == b[i] {
        lemma_flip_from(a, b, i + 1);
    }
}

proof fn lemma_trans_from(a: Seq<u8>, b: Seq<u8>, c: Seq<u8>, i: int)
    requires
        0 <= i,
        path_order_from(a, b, i) == PathOrder::Less,
        path_order_from(b, c, i) == PathOrder::Less,
    ensures
        path_order_from(a, c, i) == PathOrder::Less,
    decreases a.len() - i,
{
    if i >= a.len() || i >= b.len() || i >= c.len() {
    } else if a[i] == b[i] && b[i] == c[i] {
        lemma_trans_from(a, b, c, i + 1);
    }
}

/// Two paths compare as equal exactly when they are the same bytes.
pub proof fn lemma_path_order_equal(a: Seq<u8>, b: Seq<u8>)
    ensures
        path_order(a, b) == PathOrder::Equal <==> a == b,
{
    lemma_equal_from(a, b, 0);
}

/// Swapping the arguments swaps `Less` and `Greater`.
pub proof fn lemma_path_order_flip(a: Seq<u8>, b: Seq<u8>)
    ensures
        path_order(a, b) == PathOrder::Less <==> path_order(b, a) == PathOrder::Greater,
        path_order(a, b) == PathOrder::Equal <==> path_order(b, a) == PathOrder::Equal,
{
    lemma_flip_from(a, b, 0);
}

/// The strict order on paths is transitive.
pub proof fn lemma_path_lt_transitive(a: Seq<u8>, b: Seq<u8>, c: Seq<u8>)
    requires
        path_lt(a, b),
        path_lt(b, c),
    ensures
        path_lt(a, c),
{
    lemma_trans_from(a, b, c, 0);
}

/// Compares two paths: the bytes they have in common first, then their lengths.
pub fn compare_paths(a: &[u8], b: &[u8]) -> (r: PathOrder)
    ensures
        r == path_order(a@, b@),
{
    let mut i: usize = 0;
    while i < a.len() && i < b.len()
        invariant
            i <= a.len(),
            i <= b.len(),
            path_order_from(a@, b@, i as int) == path_order(a@, b@),
        decreases a.len() - i,
    {
        if a[i] < b[i] {
            return PathOrder::Less;
        }
        if a[i] > b[i] {
            return PathOrder::Greater;
        }
        i += 1;
    }
    if a.len() < b.len() {
        PathOrder::Less
    } else if a.len() == b.len() {
        PathOrder::Equal
    } else {
        PathOrder::Greater
    }
}

/// Whether two byte strings hold the same bytes.
pub fn bytes_equal(a: &[u8], b: &[u8]) -> (r: bool)
    ensures
        r == (a@ == b@),
{
    if a.len() != b.len() {
        return false;
    }
    let mut i: usize = 0;
    while i < a.len()
        invariant
            a.len() == b.len(),
            i <= a.len(),
            forall|k: int| 0 <= k < i ==> a@[k] == b@[k],
        decreases a.len() - i,
    {
        if a[i] != b[i] {
            return false;
        }
        i += 1;
    }
    assert(a@ =~= b@);
    true
}

/// Copies a byte string into a buffer of its own.
pub fn copy_bytes(src: &[u8]) -> (r: Vec<u8>)
    ensures
        r@ == src@,
{
    let mut out: Vec<u8> = Vec::new();
    let mut i: usize = 0;
    while i < src.len()
        invariant
            i <= src.len(),
            out@ == src@.take(i as int),
        decreases src.len() - i,
    {
        out.push(src[i]);
        assert(src@.take(i + 1) =~= src@.take(i as int).push(src@[i as int]));
        i += 1;
    }
    assert(src@.take(src@.len() as int) =~= src@);
    out
}

} // verus!
