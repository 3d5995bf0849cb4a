//! The index artifact: the stored vectors in position order, each component
//! as four little-endian bytes. The dimension is kept beside it, not in it.
use crate::annoy::{items_wf, MAX_ITEMS};
use vstd::prelude::*;

verus! {

/// The four little-endian bytes of `x`.
pub open spec fn le_bytes(x: u32) -> Seq<u8> {
    seq![(x % 256) as u8, ((x / 256) % 256) as u8, ((x / 65536) % 256) as u8, (x / 16777216) as u8]
}

/// The bytes of one vector: its components in order.
pub open spec fn encode_vector(v: Seq<u32>) -> Seq<u8>
    decreases v.len(),
{
    if v.len() == 0 {
        Seq::empty()
    } else {
        encode_vector(v.drop_last()) + le_bytes(v.last())
    }
}

/// The bytes of a sequence of vectors: the vectors in order.
pub open spec fn encode_items(items: Seq<Seq<u32>>) -> Seq<u8>
    decreases items.len(),
{
    if items.len() == 0 {
        Seq::empty()
    } else {
        encode_items(items.drop_last()) + encode_vector(items.last())
    }
}

proof fn lemma_le_bytes_of(b0: u8, b1: u8, b2: u8, b3: u8)
    ensures
        le_bytes((b0 + b1 * 256 + b2 * 65536 + b3 * 16777216) as u32) == seq![b0, b1, b2, b3],
{
    let x = b0 + b1 * 256 + b2 * 65536 + b3 * 16777216;
    assert(x % 256 == b0) by (nonlinear_arith)
        requires
            x == b0 + b1 * 256 + b2 * 65536 + b3 * 16777216,
            0 <= b0 < 256,
    ;
    assert(x / 256 == b1 + b2 * 256 + b3 * 65536) by (nonlinear_arith)
        requires
            x == b0 + b1 * 256 + b2 * 65536 + b3 * 16777216,
            0 <= b0 < 256,
    ;
    assert(x / 65536 == b2 + b3 * 256) by (nonlinear_arith)
        requires
            x == b0 + b1 * 256 + b2 * 65536 + b3 * 16777216,
            0 <= b0 < 256,
            0 <= b1 < 256,
    ;
    assert(x / 16777216 == b3) by (nonlinear_arith)
        requires
            x == b0 + b1 * 256 + b2 * 65536 + b3 * 16777216,
            0 <= b0 < 256,
            0 <= b1 < 256,
            0 <= b2 < 256,
    ;
    assert((b1 + b2 * 256 + b3 * 65536) % 256 == b1) by (nonlinear_arith)
        requires
            0 <= b1 < 256,
            0 <= b2,
            0 <= b3,
    ;
    assert((b2 + b3 * 256) % 256 == b2) by (nonlinear_arith)
        requires
            0 <= b2 < 256,
            0 <= b3,
    ;
    assert(le_bytes(x as u32) =~= seq![b0, b1, b2, b3]);
}

proof fn lemma_encode_vector_len(v: Seq<u32>)
    ensures
        encode_vector(v).len() == 4 * v.len(),
    decreases v.len(),
{
    if v.len() > 0 {
        lemma_encode_vector_len(v.drop_last());
    }
}

proof fn lemma_encode_items_len(items: Seq<Seq<u32>>, dimension: int)
    requires
        forall|i: int| 0 <= i < items.len() ==> #[trigger] items[i].len() == dimension,
    ensures
        encode_items(items).len() == 4 * dimension * items.len(),
    decreases items.len(),
{
    if items.len() > 0 {
        lemma_encode_items_len(items.drop_last(), dimension);
        lemma_encode_vector_len(items.last());
        assert(4 * dimension * items.len() == 4 * dimension * (items.len() - 1) + 4 * dimension)
            by (nonlinear_arith);
    }
}

proof fn lemma_le_bytes_injective(x: u32, y: u32)
    requires
        le_bytes(x) == le_bytes(y),
    ensures
        x == y,
{
    assert(le_bytes(x)[0] == le_bytes(y)[0]);
    assert(le_bytes(x)[1] == le_bytes(y)[1]);
    assert(le_bytes(x)[2] == le_bytes(y)[2]);
    assert(le_bytes(x)[3] == le_bytes(y)[3]);
    assert(x == y) by (bit_vector)
        requires
            x % 256 == y % 256,
            (x / 256) % 256 == (y / 256) % 256,
            (x / 65536) % 256 == (y / 65536) % 256,
            x / 16777216 == y / 16777216,
    ;
}

proof fn lemma_encode_vector_injective(u: Seq<u32>, v: Seq<u32>)
    requires
        u.len() == v.len(),
        encode_vector(u) == encode_vector(v),
    ensures
        u == v,
    decreases u.len(),
{
    if u.len() > 0 {
        let k = 4 * (u.len() - 1);
        lemma_encode_vector_len(u.drop_last());
        lemma_encode_vector_len(v.drop_last());
        let e = encode_vector(u);
        assert(e.subrange(0, k) =~= encode_vector(u.drop_last()));
        assert(e.subrange(0, k) =~= encode_vector(v.drop_last()));
        assert(e.subrange(k, k + 4) =~= le_bytes(u.last()));
        assert(e.subrange(k, k + 4) =~= le_bytes(v.last()));
        lemma_encode_vector_injective(u.drop_last(), v.drop_last());
        lemma_le_bytes_injective(u.last(), v.last());
        assert(u =~= u.drop_last().push(u.last()));
        assert(v =~= v.drop_last().push(v.last()));
    }
}

proof fn lemma_encode_items_injective(a: Seq<Seq<u32>>, b: Seq<Seq<u32>>, dimension: int)
    requires
        a.len() == b.len(),
        forall|i: int| 0 <= i < a.len() ==> #[trigger] a[i].len() == dimension,
        forall|i: int| 0 <= i < b.len() ==> #[trigger] b[i].len() == dimension,
        encode_items(a) == encode_items(b),
    ensures
        a == b,
    decreases a.len(),
{
    if a.len() > 0 {
        let pa = a.drop_last();
        let pb = b.drop_last();
        assert forall|i: int| 0 <= i < pa.len() implies #[trigger] pa[i].len() == dimension by {
            assert(pa[i] == a[i]);
        }
        assert forall|i: int| 0 <= i < pb.len() implies #[trigger] pb[i].len() == dimension by {
            assert(pb[i] == b[i]);
        }
        lemma_encode_items_len(pa, dimension);
        lemma_encode_items_len(pb, dimension);
        lemma_encode_vector_len(a.last());
        lemma_encode_vector_len(b.last());
        let k = 4 * dimension * pa.len();
        let e = encode_items(a);
        assert(a.last().len() == dimension);
        assert(b.last().len() == dimension);
        assert(e.subrange(0, k) =~= encode_items(pa));
        assert(e.subrange(0, k) =~= encode_items(pb));
        assert(e.subrange(k, e.len() as int) =~= encode_vector(a.last()));
        assert(e.subrange(k, e.len() as int) =~= encode_vector(b.last()));
        lemma_encode_items_injective(pa, pb, dimension);
        lemma_encode_vector_injective(a.last(), b.last());
        assert(a =~= pa.push(a.last()));
        assert(b =~= pb.push(b.last()));
    }
}

/// Two sequences of vectors of one dimension with the same artifact are
/// equal: loading the artifact that `save` wrote gives back exactly the
/// vectors that were saved.
pub proof fn lemma_artifact_round_trip(a: Seq<Seq<u32>>, b: Seq<Seq<u32>>, dimension: int)
    requires
        dimension > 0,
        forall|i: int| 0 <= i < a.len() ==> #[trigger] a[i].len() == dimension,
        forall|i: int| 0 <= i < b.len() ==> #[trigger] b[i].len() == dimension,
        encode_items(a) == encode_items(b),
    ensures
        a == b,
{
    lemma_encode_items_len(a, dimension);
    lemma_encode_items_len(b, dimension);
    assert(a.len() == b.len()) by (nonlinear_arith)
        requires
            4 * dimension * a.len() == 4 * dimension * b.len(),
            dimension > 0,
    ;
    lemma_encode_items_injective(a, b, dimension);
}

/// The artifact of `items`.
pub fn encode(items: &Vec<Vec<u32>>) -> (r: Vec<u8>)
    ensures
        r@ == encode_items(items@.map_values(|v: Vec<u32>| v@)),
{
    let ghost all = items@.map_values(|v: Vec<u32>| v@);
    let mut out: Vec<u8> = Vec::new();
    let mut i: usize = 0;
    while i < items.len()
        invariant
            i <= items@.len(),
            all == items@.map_values(|v: Vec<u32>| v@),
            out@ == encode_items(all.subrange(0, i as int)),
        decreases items@.len() - i,
    {
        let v = &items[i];
        let ghost start = out@;
        let mut j: usize = 0;
        while j < v.len()
            invariant
                j <= v@.len(),
                out@ == start + encode_vector(v@.subrange(0, j as int)),
            decreases v@.len() - j,
        {
            let x = v[j];
            out.push((x % 256) as u8);
            out.push(((x / 256) % 256) as u8);
            out.push(((x / 65536) % 256) as u8);
            out.push((x / 16777216) as u8);
            proof {
                let next = v@.subrange(0, j + 1);
                assert(next.drop_last() =~= v@.subrange(0, j as int));
                assert(out@ =~= start + encode_vector(next));
            }
            j = j + 1;
        }
        proof {
            let next = all.subrange(0, i + 1);
            assert(next.drop_last() =~= all.subrange(0, i as int));
            assert(v@.subrange(0, v@.len() as int) =~= v@);
            assert(out@ =~= encode_items(next));
        }
        i = i + 1;
    }
    assert(all.subrange(0, items@.len() as int) =~= all);
    out
}

/// The vectors of `dimension` components whose artifact is `bytes`, if the
/// length of `bytes` is a whole number of such vectors and that number fits
/// an index.
pub fn decode(bytes: &[u8], dimension: usize) -> (r: Option<Vec<Vec<u32>>>)
    requires
        0 < dimension <= 0x7fff_ffff,
    ensures
        r is Some <==> (bytes@.len() as int % (4 * dimension as int) == 0 && bytes@.len() as int / (4
            * dimension as int) <= MAX_ITEMS),
        r is Some ==> items_wf(dimension as int, r->Some_0@.map_values(|v: Vec<u32>| v@))
            && encode_items(r->Some_0@.map_values(|v: Vec<u32>| v@)) == bytes@ && r->Some_0@.len()
            == bytes@.len() as int / (4 * dimension as int),
{
    let len = bytes.len() as u64;
    let wide: u64 = 4 * (dimension as u64);
    if len % wide != 0 || len / wide > MAX_ITEMS as u64 {
        return None;
    }
    let count: usize = (len / wide) as usize;
    proof {
        vstd::arithmetic::div_mod::lemma_fundamental_div_mod(len as int, wide as int);
        assert(len == count * wide) by (nonlinear_arith)
            requires
                len == wide * (len / wide) + len % wide,
                len % wide == 0,
                count == len / wide,
        ;
        if count > 0 {
            assert(wide <= count * wide) by (nonlinear_arith)
                requires
                    count >= 1,
                    wide > 0,
            ;
            assert(wide <= usize::MAX);
        }
    }
    let chunk: usize = if count == 0 {
        0
    } else {
        wide as usize
    };
    assert(count as int * chunk as int == bytes@.len()) by {
        assert(len as int == bytes@.len());
        assert(len as int == count as int * wide as int);
        if count > 0 {
            assert(chunk as int == wide as int);
            assert(count as int * chunk as int == count as int * wide as int);
            assert(count as int * chunk as int == bytes@.len());
        } else {
            assert(count as int * chunk as int == 0);
            assert(count as int * wide as int == 0) by (nonlinear_arith)
                requires
                    count == 0,
            ;
            assert(count as int * chunk as int == bytes@.len());
        }
    }
    let mut items: Vec<Vec<u32>> = Vec::new();
    let mut off: usize = 0;
    let mut i: usize = 0;
    while i < count
        invariant
            count > 0 ==> chunk == 4 * dimension,
            0 < dimension,
            count as int * chunk as int == bytes@.len(),
            count <= MAX_ITEMS,
            i <= count,
            off == i * chunk,
            off <= bytes@.len(),
            items@.len() == i,
            forall|k: int| 0 <= k < i ==> (#[trigger] items@[k])@.len() == dimension,
            encode_items(items@.map_values(|v: Vec<u32>| v@)) == bytes@.subrange(0, off as int),
        decreases count - i,
    {
        proof {
            assert((i + 1) * chunk == i * chunk + chunk) by (nonlinear_arith);
            assert((i + 1) * chunk <= count * chunk) by (nonlinear_arith)
                requires
                    i + 1 <= count,
                    chunk > 0,
            ;
        }
        let mut v: Vec<u32> = Vec::new();
        let mut pos: usize = off;
        let mut j: usize = 0;
        while j < dimension
            invariant
                chunk == 4 * dimension,
                off + chunk <= bytes@.len(),
                j <= dimension,
                pos == off + 4 * j,
                v@.len() == j,
                encode_vector(v@) == bytes@.subrange(off as int, pos as int),
            decreases dimension - j,
        {
            let b0 = bytes[pos];
            let b1 = bytes[pos + 1];
            let b2 = bytes[pos + 2];
            let b3 = bytes[pos + 3];
            let x: u32 = (b0 as u32) + (b1 as u32) * 256 + (b2 as u32) * 65536 + (b3 as u32)
                * 16777216;
            let ghost prev = v@;
            v.push(x);
            proof {
                lemma_le_bytes_of(b0, b1, b2, b3);
                assert(v@.drop_last() =~= prev);
                assert(bytes@.subrange(pos as int, pos + 4) =~= seq![b0, b1, b2, b3]);
                assert(bytes@.subrange(off as int, pos + 4) =~= bytes@.subrange(off as int, pos as int)
                    + bytes@.subrange(pos as int, pos + 4));
            }
            pos = pos + 4;
            j = j + 1;
        }
        let ghost prev_items = items@;
        items.push(v);
        proof {
            let views = items@.map_values(|w: Vec<u32>| w@);
            assert(views.drop_last() =~= prev_items.map_values(|w: Vec<u32>| w@));
            assert(bytes@.subrange(0, off + chunk) =~= bytes@.subrange(0, off as int)
                + bytes@.subrange(off as int, off + chunk));
        }
        off = off + chunk;
        i = i + 1;
    }
    proof {
        assert(bytes@.subrange(0, off as int) =~= bytes@);
        let views = items@.map_values(|w: Vec<u32>| w@);
        assert forall|k: int| 0 <= k < views.len() implies #[trigger] views[k].len() == dimension by {
            assert(items@[k]@.len() == dimension);
        }
    }
    Some(items)
}

} // verus!
