//! Small verified helpers on byte vectors.

use vstd::prelude::*;

verus! {

/// Compare two byte strings for equality.
pub fn bytes_eq(a: &[u8], b: &[u8]) -> (r: bool)
    ensures
        r == (a@ == b@),
{
    if a.len() != b.len() {
        assert(a@ != b@) by {
            assert(a@.len() != b@.len());
        }
        return false;
    }
    let n = a.len();
    let mut i: usize = 0;
    while i < n
        invariant
            n == a@.len() && n == b@.len() && i <= n,
            forall|j: int| 0 <= j < i ==> a@[j] == b@[j],
        decreases n - i,
    {
        if a[i] != b[i] {
            return false;
        }
        i = i + 1;
    }
    assert(a@ =~= b@);
    true
}

/// Copy a byte vector.
pub fn clone_bytes(v: &Vec<u8>) -> (r: Vec<u8>)
    ensures
        r@ == v@,
{
    let mut out: Vec<u8> = Vec::new();
    let n = v.len();
    let mut i: usize = 0;
    while i < n
        invariant
            n == v@.len() && i <= n,
            out@ == v@.take(i as int),
        decreases n - i,
    {
        out.push(v[i]);
        assert(out@ =~= v@.take(i as int + 1));
        i = i + 1;
    }
    assert(v@.take(n as int) =~= v@);
    out
}

/// Append a byte slice to a growing buffer.
pub fn push_bytes(out: &mut Vec<u8>, b: &[u8])
    ensures
        final(out)@ == old(out)@ + b@,
{
    let n = b.len();
    let mut i: usize = 0;
    while i < n
        invariant
            n == b@.len() && i <= n,
            out@ == old(out)@ + b@.take(i as int),
        decreases n - i,
    {
        out.push(b[i]);
        assert(out@ =~= old(out)@ + b@.take(i as int + 1));
        i = i + 1;
    }
    assert(old(out)@ + b@.take(n as int) =~= old(out)@ + b@);
}

/// Pushing onto a vector pushes the element's view onto the vector's
/// deep view.
pub proof fn lemma_vec_deep_push<T: DeepView>(v1: Vec<T>, v2: Vec<T>, x: T)
    requires
        v2@ == v1@.push(x),
    ensures
        v2.deep_view() == v1.deep_view().push(x.deep_view()),
{
    assert forall|k: int| 0 <= k < v2@.len() implies v2.deep_view()[k] == v1.deep_view().push(
        x.deep_view(),
    )[k] by {
        assert(v2.deep_view()[k] == v2@[k].deep_view());
        if k < v1@.len() {
            assert(v2@[k] == v1@[k]);
            assert(v1.deep_view()[k] == v1@[k].deep_view());
        } else {
            assert(v2@[k] == x);
        }
    }
    assert(v2.deep_view() =~= v1.deep_view().push(x.deep_view()));
}

} // verus!
