//! Helpers for environment names and values, which are byte strings that are
//! not guaranteed to be valid text.

use vstd::prelude::*;

verus! {

/// View of an optional byte string as an optional sequence.
pub open spec fn opt_view(o: Option<Vec<u8>>) -> Option<Seq<u8>> {
    match o {
        Option::Some(v) => Option::Some(v@),
        Option::None => Option::None,
    }
}

/// Byte-string equality.
pub fn bytes_eq(a: &Vec<u8>, b: &Vec<u8>) -> (r: bool)
    ensures
        r == (a@ == b@),
{
    if a.len() != b.len() {
        assert(a@ != b@) by {
            assert(a@.len() != b@.len());
        }
        return false;
    }
    let mut i: usize = 0;
    while i < a.len()
        invariant
            i <= a.len(),
            a@.len() == b@.len(),
            forall|j: int| 0 <= j < i ==> a@[j] == b@[j],
        decreases a.len() - i,
    {
        if a[i] != b[i] {
            return false;
        }
        i = i + 1;
    }
    proof {
        assert(a@ =~= b@);
    }
    true
}

/// Equality of optional byte strings.
pub fn opt_bytes_eq(a: &Option<Vec<u8>>, b: &Option<Vec<u8>>) -> (r: bool)
    ensures
        r == (opt_view(*a) == opt_view(*b)),
{
    match (a, b) {
        (Option::Some(x), Option::Some(y)) => bytes_eq(x, y),
        (Option::None, Option::None) => true,
        _ => false,
    }
}

/// An owned copy of a byte string, equal to the original.
pub fn copy_bytes(v: &Vec<u8>) -> (r: Vec<u8>)
    ensures
        r@ == v@,
{
    let mut r: Vec<u8> = Vec::new();
    let mut i: usize = 0;
    while i < v.len()
        invariant
            i <= v.len(),
            r@ == v@.take(i as int),
        decreases v.len() - i,
    {
        r.push(v[i]);
        proof {
            assert(v@.take(i as int + 1) =~= v@.take(i as int).push(v@[i as int]));
        }
        i = i + 1;
    }
    proof {
        assert(v@.take(v@.len() as int) =~= v@);
    }
    r
}

/// An owned copy of an optional borrowed byte string, equal to the original.
pub fn copy_opt_ref(o: Option<&Vec<u8>>) -> (r: Option<Vec<u8>>)
    ensures
        opt_view(r) == match o {
            Option::Some(v) => Option::Some(v@),
            Option::None => Option::None::<Seq<u8>>,
        },
{
    match o {
        Option::Some(v) => Option::Some(copy_bytes(v)),
        Option::None => Option::None,
    }
}

/// An owned copy of an optional byte string, equal to the original.
pub fn copy_opt_bytes(o: &Option<Vec<u8>>) -> (r: Option<Vec<u8>>)
    ensures
        opt_view(r) == opt_view(*o),
{
    match o {
        Option::Some(v) => Option::Some(copy_bytes(v)),
        Option::None => Option::None,
    }
}

} // verus!
