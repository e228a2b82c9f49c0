//! Facts about byte sequences laid out one after another: where a piece
//! occurs in a larger sequence, and what a concatenation of pieces holds.

use vstd::prelude::*;
use crate::bytes::le16;
use crate::bytes::le32;

verus! {

/// `t` occurs in `s` starting at position `a`.
pub open spec fn occurs(s: Seq<u8>, a: int, t: Seq<u8>) -> bool {
    &&& 0 <= a
    &&& a + t.len() <= s.len()
    &&& s.subrange(a, a + t.len()) == t
}

/// The pieces of `ss` written one after another.
pub open spec fn flatten(ss: Seq<Seq<u8>>) -> Seq<u8>
    decreases ss.len(),
{
    if ss.len() == 0 {
        seq![]
    } else {
        flatten(ss.drop_last()) + ss.last()
    }
}

/// The total length of the first `i` pieces of `ss`: where piece `i` starts in `flatten(ss)`.
pub open spec fn prefix_len(ss: Seq<Seq<u8>>, i: int) -> int
    decreases i,
{
    if i <= 0 {
        0
    } else {
        prefix_len(ss, i - 1) + ss[i - 1].len()
    }
}

/// The little-endian bytes of the 16-bit value `x`.
pub open spec fn u16_bytes(x: u16) -> Seq<u8> {
    seq![(x & 0xff) as u8, (x >> 8) as u8]
}

/// The little-endian bytes of the 32-bit value `x`.
pub open spec fn u32_bytes(x: u32) -> Seq<u8> {
    seq![(x & 0xff) as u8, ((x >> 8) & 0xff) as u8, ((x >> 16) & 0xff) as u8, (x >> 24) as u8]
}

pub proof fn lemma_occurs_concat(x: Seq<u8>, y: Seq<u8>)
    ensures
        occurs(x + y, 0, x),
        occurs(x + y, x.len() as int, y),
{
    assert((x + y).subrange(0, x.len() as int) =~= x);
    assert((x + y).subrange(x.len() as int, (x.len() + y.len()) as int) =~= y);
}

pub proof fn lemma_occurs_trans(s: Seq<u8>, a: int, t: Seq<u8>, b: int, u: Seq<u8>)
    requires
        occurs(s, a, t),
        occurs(t, b, u),
    ensures
        occurs(s, a + b, u),
{
    assert(s.subrange(a + b, a + b + u.len()) =~= u) by {
        assert forall|k: int| 0 <= k < u.len() implies s.subrange(a + b, a + b + u.len())[k] == u[k] by {
            assert(t[b + k] == s.subrange(a, a + t.len())[b + k]);
            assert(u[k] == t.subrange(b, b + u.len())[k]);
        }
    }
}

pub proof fn lemma_occurs_index(s: Seq<u8>, a: int, t: Seq<u8>, k: int)
    requires
        occurs(s, a, t),
        0 <= k < t.len(),
    ensures
        s[a + k] == t[k],
{
    assert(t[k] == s.subrange(a, a + t.len())[k]);
}

pub proof fn lemma_occurs_le32(s: Seq<u8>, a: int, t: Seq<u8>, k: int)
    requires
        occurs(s, a, t),
        0 <= k,
        k + 4 <= t.len(),
    ensures
        le32(s, a + k) == le32(t, k),
{
    lemma_occurs_index(s, a, t, k);
    lemma_occurs_index(s, a, t, k + 1);
    lemma_occurs_index(s, a, t, k + 2);
    lemma_occurs_index(s, a, t, k + 3);
}

pub proof fn lemma_occurs_le16(s: Seq<u8>, a: int, t: Seq<u8>, k: int)
    requires
        occurs(s, a, t),
        0 <= k,
        k + 2 <= t.len(),
    ensures
        le16(s, a + k) == le16(t, k),
{
    lemma_occurs_index(s, a, t, k);
    lemma_occurs_index(s, a, t, k + 1);
}

pub proof fn lemma_u32_bytes(x: u32)
    ensures
        u32_bytes(x).len() == 4,
        le32(u32_bytes(x), 0) == x,
{
    let b0 = (x & 0xff) as u8;
    let b1 = ((x >> 8) & 0xff) as u8;
    let b2 = ((x >> 16) & 0xff) as u8;
    let b3 = (x >> 24) as u8;
    assert(b0 as int + b1 as int * 256 + (b2 as int + b3 as int * 256) * 65536 == x as int)
        by (bit_vector)
        requires
            b0 == (x & 0xff) as u8,
            b1 == ((x >> 8) & 0xff) as u8,
            b2 == ((x >> 16) & 0xff) as u8,
            b3 == (x >> 24) as u8,
    ;
}

pub proof fn lemma_u16_bytes(x: u16)
    ensures
        u16_bytes(x).len() == 2,
        le16(u16_bytes(x), 0) == x,
{
    let b0 = (x & 0xff) as u8;
    let b1 = (x >> 8) as u8;
    assert(b0 as int + b1 as int * 256 == x as int) by (bit_vector)
        requires
            b0 == (x & 0xff) as u8,
            b1 == (x >> 8) as u8,
    ;
}

pub proof fn lemma_prefix_len_drop_last(ss: Seq<Seq<u8>>, i: int)
    requires
        ss.len() > 0,
        i <= ss.len() - 1,
    ensures
        prefix_len(ss.drop_last(), i) == prefix_len(ss, i),
    decreases i,
{
    if i > 0 {
        lemma_prefix_len_drop_last(ss, i - 1);
    }
}

pub proof fn lemma_prefix_len_mono(ss: Seq<Seq<u8>>, i: int, j: int)
    requires
        0 <= i <= j <= ss.len(),
    ensures
        0 <= prefix_len(ss, i) <= prefix_len(ss, j),
    decreases j,
{
    if j > i {
        lemma_prefix_len_mono(ss, i, j - 1);
    } else if i > 0 {
        lemma_prefix_len_mono(ss, 0, i - 1);
    }
}

pub proof fn lemma_prefix_len_uniform(ss: Seq<Seq<u8>>, c: int, i: int)
    requires
        0 <= i <= ss.len(),
        forall|k: int| 0 <= k < ss.len() ==> #[trigger] ss[k].len() == c,
    ensures
        prefix_len(ss, i) == c * i,
    decreases i,
{
    if i > 0 {
        lemma_prefix_len_uniform(ss, c, i - 1);
        assert(ss[i - 1].len() == c);
        assert(c * i == c * (i - 1) + c) by (nonlinear_arith);
        assert(prefix_len(ss, i) == prefix_len(ss, i - 1) + ss[i - 1].len());
    } else {
        assert(c * i == 0) by (nonlinear_arith)
            requires
                i == 0,
        ;
    }
}

pub proof fn lemma_flatten_len(ss: Seq<Seq<u8>>)
    ensures
        flatten(ss).len() == prefix_len(ss, ss.len() as int),
    decreases ss.len(),
{
    if ss.len() > 0 {
        lemma_flatten_len(ss.drop_last());
        lemma_prefix_len_drop_last(ss, ss.len() - 1);
    }
}

pub proof fn lemma_flatten_occurs(ss: Seq<Seq<u8>>, i: int)
    requires
        0 <= i < ss.len(),
    ensures
        occurs(flatten(ss), prefix_len(ss, i), ss[i]),
    decreases ss.len(),
{
    let init = ss.drop_last();
    lemma_flatten_len(init);
    lemma_prefix_len_drop_last(ss, ss.len() - 1);
    lemma_occurs_concat(flatten(init), ss.last());
    if i == ss.len() - 1 {
    } else {
        lemma_flatten_occurs(init, i);
        lemma_prefix_len_drop_last(ss, i);
        lemma_occurs_trans(flatten(ss), 0, flatten(init), prefix_len(ss, i), ss[i]);
    }
}

pub proof fn lemma_prefix_len_take(ss: Seq<Seq<u8>>, j: int, k: int)
    requires
        0 <= k <= j <= ss.len(),
    ensures
        prefix_len(ss.take(j), k) == prefix_len(ss, k),
    decreases k,
{
    if k > 0 {
        lemma_prefix_len_take(ss, j, k - 1);
        assert(ss.take(j)[k - 1] == ss[k - 1]);
    }
}

pub proof fn lemma_flatten_take_step(ss: Seq<Seq<u8>>, i: int)
    requires
        0 <= i < ss.len(),
    ensures
        flatten(ss.take(i + 1)) == flatten(ss.take(i)) + ss[i],
        flatten(ss.take(i)).len() == prefix_len(ss, i),
        flatten(ss.take(i + 1)).len() == prefix_len(ss, i + 1),
{
    assert(ss.take(i + 1).drop_last() =~= ss.take(i));
    assert(ss.take(i + 1).last() == ss[i]);
    lemma_flatten_len(ss.take(i));
    lemma_flatten_len(ss.take(i + 1));
    lemma_prefix_len_take(ss, i, i);
    lemma_prefix_len_take(ss, i + 1, i + 1);
}

pub proof fn lemma_flatten_take_all(ss: Seq<Seq<u8>>)
    ensures
        flatten(ss.take(ss.len() as int)) == flatten(ss),
        flatten(ss.take(0)) == Seq::<u8>::empty(),
{
    assert(ss.take(ss.len() as int) =~= ss);
    assert(ss.take(0) =~= Seq::<Seq<u8>>::empty());
}

} // verus!
