//! The order of fixed-width byte strings (addresses, hashes): byte by byte,
//! which is the order of their big-endian values, and sorted lists without
//! repeats.
use vstd::prelude::*;

use crate::abi::{be_value, byte_base};
use crate::types::{Address, H256};

verus! {

proof fn lemma_byte_base_pos(k: nat)
    ensures
        byte_base(k) > 0,
    decreases k,
{
    if k > 0 {
        lemma_byte_base_pos((k - 1) as nat);
    }
}

/// A big-endian value is below `256^len`.
pub proof fn lemma_be_bound(y: Seq<u8>)
    ensures
        be_value(y) < byte_base(y.len()),
    decreases y.len(),
{
    if y.len() > 0 {
        let p = y.drop_last();
        lemma_be_bound(p);
        let q = byte_base(p.len());
        assert(be_value(p) * 256 + y.last() < q * 256) by (nonlinear_arith)
            requires
                be_value(p) < q,
                y.last() < 256,
        ;
    }
}

/// The value of a concatenation: the front shifted past the back.
pub proof fn lemma_be_concat(x: Seq<u8>, y: Seq<u8>)
    ensures
        be_value(x + y) == be_value(x) * byte_base(y.len()) + be_value(y),
    decreases y.len(),
{
    if y.len() == 0 {
        assert(x + y =~= x);
        assert(byte_base(0) == 1);
        assert(be_value(y) == 0);
    } else {
        let p = y.drop_last();
        lemma_be_concat(x, p);
        assert((x + y).drop_last() =~= x + p);
        assert((x + y).last() == y.last());
        let bx = be_value(x);
        let q = byte_base(p.len());
        assert((bx * q + be_value(p)) * 256 + y.last() == bx * (q * 256) + (be_value(p) * 256 + y.last()))
            by (nonlinear_arith);
        assert(be_value(x + y) == be_value(x + p) * 256 + y.last());
        assert(be_value(y) == be_value(p) * 256 + y.last());
        assert(byte_base(y.len()) == q * 256);
    }
}

/// Equal-length byte strings with equal values are equal.
pub proof fn lemma_be_injective(a: Seq<u8>, b: Seq<u8>)
    requires
        a.len() == b.len(),
        be_value(a) == be_value(b),
    ensures
        a == b,
    decreases a.len(),
{
    if a.len() > 0 {
        let pa = a.drop_last();
        let pb = b.drop_last();
        assert(be_value(pa) == be_value(pb) && a.last() == b.last()) by (nonlinear_arith)
            requires
                be_value(pa) * 256 + a.last() == be_value(pb) * 256 + b.last(),
                a.last() < 256,
                b.last() < 256,
        ;
        lemma_be_injective(pa, pb);
        assert(a =~= pa.push(a.last()));
        assert(b =~= pb.push(b.last()));
    } else {
        assert(a =~= b);
    }
}

/// Equal-length byte strings that first differ at `k` are ordered as their
/// bytes at `k` are.
proof fn lemma_first_difference(a: Seq<u8>, b: Seq<u8>, k: int)
    requires
        a.len() == b.len(),
        0 <= k < a.len(),
        a.subrange(0, k) == b.subrange(0, k),
        a[k] < b[k],
    ensures
        be_value(a) < be_value(b),
{
    let n = a.len() as int;
    let pa = a.subrange(0, k + 1);
    let pb = b.subrange(0, k + 1);
    let ra = a.subrange(k + 1, n);
    let rb = b.subrange(k + 1, n);
    assert(a =~= pa + ra);
    assert(b =~= pb + rb);
    lemma_be_concat(pa, ra);
    lemma_be_concat(pb, rb);
    lemma_be_bound(ra);
    lemma_byte_base_pos(ra.len());
    assert(pa.drop_last() =~= a.subrange(0, k));
    assert(pb.drop_last() =~= b.subrange(0, k));
    let x = be_value(pa);
    let y = be_value(pb);
    assert(x < y);
    let m = byte_base(ra.len());
    assert(x * m + be_value(ra) < y * m + be_value(rb)) by (nonlinear_arith)
        requires
            x < y,
            be_value(ra) < m,
            m > 0,
    ;
}

/// Byte-wise order of two equally long byte strings: whether `a` comes
/// before `b`.
pub fn bytes_less(a: &[u8], b: &[u8]) -> (r: bool)
    requires
        a@.len() == b@.len(),
    ensures
        r == (be_value(a@) < be_value(b@)),
{
    let n = a.len();
    let mut i: usize = 0;
    while i < n
        invariant
            n == a@.len(),
            n == b@.len(),
            i <= n,
            a@.subrange(0, i as int) == b@.subrange(0, i as int),
        decreases n - i,
    {
        if a[i] != b[i] {
            proof {
                if a[i as int] < b[i as int] {
                    lemma_first_difference(a@, b@, i as int);
                } else {
                    lemma_first_difference(b@, a@, i as int);
                }
            }
            return a[i] < b[i];
        }
        assert(a@.subrange(0, i + 1) =~= a@.subrange(0, i as int).push(a@[i as int]));
        assert(b@.subrange(0, i + 1) =~= b@.subrange(0, i as int).push(b@[i as int]));
        i = i + 1;
    }
    assert(a@ =~= a@.subrange(0, n as int));
    assert(b@ =~= b@.subrange(0, n as int));
    false
}

/// Each entry is strictly before the next.
pub open spec fn strictly_sorted(s: Seq<Seq<u8>>) -> bool {
    forall|i: int, j: int| 0 <= i < j < s.len() ==> be_value(#[trigger] s[i]) < be_value(#[trigger] s[j])
}

pub open spec fn address_seq(v: Seq<Address>) -> Seq<Seq<u8>> {
    v.map_values(|a: Address| a@)
}

pub open spec fn hash_seq(v: Seq<H256>) -> Seq<Seq<u8>> {
    v.map_values(|h: H256| h@)
}

/// Puts an address in its place in a sorted list, unless it is there.
pub fn insert_address(v: &mut Vec<Address>, a: Address)
    requires
        strictly_sorted(address_seq(old(v)@)),
    ensures
        strictly_sorted(address_seq(final(v)@)),
        address_seq(final(v)@).to_set() == address_seq(old(v)@).to_set().insert(a@),
{
    let ghost s0 = address_seq(v@);
    let mut p: usize = 0;
    while p < v.len() && bytes_less(v[p].0.as_slice(), a.0.as_slice())
        invariant
            p <= v@.len(),
            s0 == address_seq(v@),
            strictly_sorted(s0),
            forall|i: int| 0 <= i < p ==> be_value(#[trigger] s0[i]) < be_value(a@),
        decreases v@.len() - p,
    {
        p = p + 1;
    }
    if p < v.len() && v[p].same(&a) {
        proof {
            assert(s0[p as int] == a@);
            assert(s0.to_set().insert(a@) =~= s0.to_set());
        }
        return;
    }
    let ghost before = v@;
    proof {
        if p < v@.len() {
            assert(s0[p as int] == v@[p as int]@);
            assert(!(be_value(s0[p as int]) < be_value(a@)));
            if be_value(s0[p as int]) == be_value(a@) {
                lemma_be_injective(s0[p as int], a@);
            }
        }
    }
    v.insert(p, a);
    proof {
        let s1 = address_seq(v@);
        assert(s1 =~= s0.insert(p as int, a@));
        assert forall|i: int, j: int| 0 <= i < j < s1.len() implies be_value(#[trigger] s1[i]) < be_value(
            #[trigger] s1[j],
        ) by {
            if j < p {
            } else if j == p {
            } else if i < p {
                assert(s1[j] == s0[j - 1]);
                if p < s0.len() {
                    assert(be_value(s0[p as int]) <= be_value(s0[j - 1]));
                }
            } else if i == p {
                assert(s1[j] == s0[j - 1]);
                assert(be_value(s0[p as int]) <= be_value(s0[j - 1]));
            } else {
                assert(s1[i] == s0[i - 1]);
                assert(s1[j] == s0[j - 1]);
            }
        }
        assert(s1.to_set() =~= s0.to_set().insert(a@)) by {
            assert forall|x: Seq<u8>| s1.to_set().contains(x) implies s0.to_set().insert(a@).contains(x) by {
                let k = choose|k: int| 0 <= k < s1.len() && s1[k] == x;
                if k < p {
                    assert(s0[k] == x);
                } else if k > p {
                    assert(s0[k - 1] == x);
                }
            }
            assert forall|x: Seq<u8>| s0.to_set().insert(a@).contains(x) implies s1.to_set().contains(x) by {
                if x == a@ {
                    assert(s1[p as int] == x);
                } else {
                    let k = choose|k: int| 0 <= k < s0.len() && s0[k] == x;
                    if k < p {
                        assert(s1[k] == x);
                    } else {
                        assert(s1[k + 1] == x);
                    }
                }
            }
        }
    }
}

/// Puts a hash in its place in a sorted list, unless it is there.
pub fn insert_hash(v: &mut Vec<H256>, h: H256)
    requires
        strictly_sorted(hash_seq(old(v)@)),
    ensures
        strictly_sorted(hash_seq(final(v)@)),
        hash_seq(final(v)@).to_set() == hash_seq(old(v)@).to_set().insert(h@),
{
    let ghost s0 = hash_seq(v@);
    let mut p: usize = 0;
    while p < v.len() && bytes_less(v[p].0.as_slice(), h.0.as_slice())
        invariant
            p <= v@.len(),
            s0 == hash_seq(v@),
            strictly_sorted(s0),
            forall|i: int| 0 <= i < p ==> be_value(#[trigger] s0[i]) < be_value(h@),
        decreases v@.len() - p,
    {
        p = p + 1;
    }
    if p < v.len() && v[p].same(&h) {
        proof {
            assert(s0[p as int] == h@);
            assert(s0.to_set().insert(h@) =~= s0.to_set());
        }
        return;
    }
    proof {
        if p < v@.len() {
            assert(s0[p as int] == v@[p as int]@);
            if be_value(s0[p as int]) == be_value(h@) {
                lemma_be_injective(s0[p as int], h@);
            }
        }
    }
    v.insert(p, h);
    proof {
        let s1 = hash_seq(v@);
        assert(s1 =~= s0.insert(p as int, h@));
        assert forall|i: int, j: int| 0 <= i < j < s1.len() implies be_value(#[trigger] s1[i]) < be_value(
            #[trigger] s1[j],
        ) by {
            if j < p {
            } else if j == p {
            } else if i < p {
                assert(s1[j] == s0[j - 1]);
                if p < s0.len() {
                    assert(be_value(s0[p as int]) <= be_value(s0[j - 1]));
                }
            } else if i == p {
                assert(s1[j] == s0[j - 1]);
                assert(be_value(s0[p as int]) <= be_value(s0[j - 1]));
            } else {
                assert(s1[i] == s0[i - 1]);
                assert(s1[j] == s0[j - 1]);
            }
        }
        assert(s1.to_set() =~= s0.to_set().insert(h@)) by {
            assert forall|x: Seq<u8>| s1.to_set().contains(x) implies s0.to_set().insert(h@).contains(x) by {
                let k = choose|k: int| 0 <= k < s1.len() && s1[k] == x;
                if k < p {
                    assert(s0[k] == x);
                } else if k > p {
                    assert(s0[k - 1] == x);
                }
            }
            assert forall|x: Seq<u8>| s0.to_set().insert(h@).contains(x) implies s1.to_set().contains(x) by {
                if x == h@ {
                    assert(s1[p as int] == x);
                } else {
                    let k = choose|k: int| 0 <= k < s0.len() && s0[k] == x;
                    if k < p {
                        assert(s1[k] == x);
                    } else {
                        assert(s1[k + 1] == x);
                    }
                }
            }
        }
    }
}

} // verus!
