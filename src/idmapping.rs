//! An index addressed by external ids: a vector index together with the
//! two-way mapping between external ids and the index's positions.
use crate::annoy::{
    artifact_fits, result_bound, AnnoyIndex, AnnoyIndexBuilder, Distance, MAX_ITEMS,
};
use crate::artifact::encode_items;
use crate::err::Error;
use crate::rank::is_top;
use crate::text::{
    decimal, i64_text_value, lemma_text_lines_step, push_decimal, line_bytes, line_end, lossy_text, parse_i64, text_lines,
    text_of,
};
use std::collections::HashMap;
use vstd::prelude::*;

verus! {

broadcast use vstd::std_specs::hash::group_hash_axioms;

/// `ids` lists the external id at each position, each id once, and `map`
/// sends each of those ids to its position and holds nothing else.
pub open spec fn mapping_wf(ids: Seq<i64>, map: Map<i64, i32>) -> bool {
    &&& ids.no_duplicates()
    &&& ids.len() <= MAX_ITEMS
    &&& forall|k: i64| #[trigger] map.contains_key(k) <==> ids.contains(k)
    &&& forall|k: i64| #[trigger]
        map.contains_key(k) ==> 0 <= map[k] < ids.len() && ids[map[k] as int] == k
}

/// The vector stored under external id `id`.
pub open spec fn item_vector(ids: Seq<i64>, items: Seq<Seq<u32>>, id: i64) -> Option<Seq<u32>> {
    if ids.contains(id) {
        Some(items[ids.index_of(id)])
    } else {
        None
    }
}

/// Putting a vector under an external id that is not yet stored, and then
/// building, gives that same vector back for that id.
pub proof fn lemma_put_build_get_round_trip(b: MappingIndexBuilder, id: i64, v: Seq<u32>)
    requires
        b.wf(),
        !b.ids().contains(id),
    ensures
        item_vector(b.ids().push(id), b.items().push(v), id) == Some(v),
{
    let ids = b.ids().push(id);
    let last = b.ids().len() as int;
    assert(ids[last] == id);
    assert(ids.contains(id));
    let i = ids.index_of(id);
    if i != last {
        assert(b.ids()[i] == id);
    }
}

pub open spec fn opt_view(o: Option<Vec<u32>>) -> Option<Seq<u32>> {
    match o {
        Some(v) => Some(v@),
        None => None,
    }
}

/// `out_ids` and `out_d` are the external ids and distances of the best
/// `n` positions under `d`, best first.
pub open spec fn nearest_answer(
    ids: Seq<i64>,
    d: Seq<u32>,
    n: nat,
    out_ids: Seq<i64>,
    out_d: Seq<u32>,
) -> bool {
    exists|pos: Seq<usize>|
        #[trigger] is_top(d, n, pos) && pos.len() == out_ids.len() && pos.len() == out_d.len()
            && forall|j: int|
            0 <= j < pos.len() ==> out_ids[j] == ids[#[trigger] pos[j] as int] && out_d[j]
                == d[pos[j] as int]
}

/// The external id that a line of the mapping artifact writes.
pub open spec fn line_id(l: Seq<u8>) -> Option<i64> {
    i64_text_value(l)
}

/// Every line writes an id.
pub open spec fn all_parse(ls: Seq<Seq<u8>>) -> bool {
    forall|i: int| 0 <= i < ls.len() ==> (#[trigger] line_id(ls[i])) is Some
}

/// Line `i` is the first line that writes no id.
pub open spec fn first_unparsed(ls: Seq<Seq<u8>>, i: int) -> bool {
    &&& 0 <= i < ls.len()
    &&& line_id(ls[i]) is None
    &&& forall|j: int| 0 <= j < i ==> (#[trigger] line_id(ls[j])) is Some
}

/// Position `i` holds an id that an earlier position holds.
pub open spec fn id_repeats(ids: Seq<i64>, i: int) -> bool {
    exists|j: int| 0 <= j < i && #[trigger] ids[j] == ids[i]
}

/// Line `i` writes an id that an earlier line wrote.
pub open spec fn repeats(ls: Seq<Seq<u8>>, i: int) -> bool {
    exists|j: int| 0 <= j < i && #[trigger] line_id(ls[j]) == line_id(ls[i])
}

/// Line `i` is the first line that repeats an earlier line's id.
pub open spec fn first_repeat(ls: Seq<Seq<u8>>, i: int) -> bool {
    &&& 0 <= i < ls.len()
    &&& repeats(ls, i)
    &&& forall|j: int| 0 <= j < i ==> !#[trigger] repeats(ls, j)
}

/// No line repeats an earlier line's id.
pub open spec fn no_repeats(ls: Seq<Seq<u8>>) -> bool {
    forall|i: int| 0 <= i < ls.len() ==> !#[trigger] repeats(ls, i)
}

/// A line that writes no id has a first such line before or at it.
pub proof fn lemma_first_unparsed_exists(ls: Seq<Seq<u8>>, i: int)
    requires
        0 <= i < ls.len(),
        line_id(ls[i]) is None,
    ensures
        exists|f: int| #[trigger] first_unparsed(ls, f),
    decreases i,
{
    if forall|j: int| 0 <= j < i ==> (#[trigger] line_id(ls[j])) is Some {
        assert(first_unparsed(ls, i));
    } else {
        let j = choose|j: int| 0 <= j < i && (#[trigger] line_id(ls[j])) is None;
        lemma_first_unparsed_exists(ls, j);
    }
}

/// A line that repeats an id has a first such line before or at it.
pub proof fn lemma_first_repeat_exists(ls: Seq<Seq<u8>>, i: int)
    requires
        0 <= i < ls.len(),
        repeats(ls, i),
    ensures
        exists|f: int| #[trigger] first_repeat(ls, f),
    decreases i,
{
    if forall|j: int| 0 <= j < i ==> !#[trigger] repeats(ls, j) {
        assert(first_repeat(ls, i));
    } else {
        let j = choose|j: int| 0 <= j < i && #[trigger] repeats(ls, j);
        lemma_first_repeat_exists(ls, j);
    }
}

/// The text `"<lines> ids for <vectors> vectors"`.
pub open spec fn count_message(lines: nat, vectors: nat) -> Seq<u8> {
    decimal(lines) + seq![32u8, 105, 100, 115, 32, 102, 111, 114, 32] + decimal(vectors) + seq![
        32u8,
        118,
        101,
        99,
        116,
        111,
        114,
        115,
    ]
}

/// An index being filled under external ids.
#[derive(Debug)]
pub struct MappingIndexBuilder {
    index: AnnoyIndexBuilder,
    map: HashMap<i64, i32>,
    inverse_map: Vec<i64>,
}

/// A built index under external ids; read-only.
#[derive(Debug, PartialEq, Eq)]
pub struct MappingIndex {
    index: AnnoyIndex,
    map: HashMap<i64, i32>,
    inverse_map: Vec<i64>,
}

proof fn lemma_push_mapping(ids: Seq<i64>, map: Map<i64, i32>, id: i64)
    requires
        mapping_wf(ids, map),
        !ids.contains(id),
        ids.len() < MAX_ITEMS,
    ensures
        mapping_wf(ids.push(id), map.insert(id, ids.len() as i32)),
{
    let ids2 = ids.push(id);
    let map2 = map.insert(id, ids.len() as i32);
    assert(ids2[ids.len() as int] == id);
    assert forall|k: i64| #[trigger] map2.contains_key(k) <==> ids2.contains(k) by {
        if k != id {
            if ids2.contains(k) {
                let w = choose|w: int| 0 <= w < ids2.len() && ids2[w] == k;
                assert(ids[w] == k);
            }
            if ids.contains(k) {
                let w = choose|w: int| 0 <= w < ids.len() && ids[w] == k;
                assert(ids2[w] == k);
            }
        }
    }
    assert forall|k: i64| #[trigger]
        map2.contains_key(k) implies 0 <= map2[k] < ids2.len() && ids2[map2[k] as int] == k by {
        if k != id {
            assert(ids2[map[k] as int] == ids[map[k] as int]);
        }
    }
    assert(ids2.no_duplicates()) by {
        assert forall|i: int, j: int|
            0 <= i < ids2.len() && 0 <= j < ids2.len() && i != j implies ids2[i] != ids2[j] by {
            if i == ids.len() as int {
                assert(ids2[j] == ids[j]);
            } else if j == ids.len() as int {
                assert(ids2[i] == ids[i]);
            }
        }
    }
}

impl MappingIndexBuilder {
    /// The external id at each position, so far.
    pub closed spec fn ids(&self) -> Seq<i64> {
        self.inverse_map@
    }

    /// The vector at each position, so far.
    pub closed spec fn items(&self) -> Seq<Seq<u32>> {
        self.index.items()
    }

    pub closed spec fn dim(&self) -> int {
        self.index.dim()
    }

    pub closed spec fn metric(&self) -> Distance {
        self.index.metric()
    }

    pub closed spec fn wf(&self) -> bool {
        &&& self.index.wf()
        &&& mapping_wf(self.inverse_map@, self.map@)
        &&& self.inverse_map@.len() == self.index.items().len()
    }

    /// An empty builder for vectors with `dimension` components.
    pub fn new(dimension: i32, distance: Distance) -> (r: Self)
        requires
            dimension > 0,
        ensures
            r.wf(),
            r.dim() == dimension,
            r.metric() == distance,
            r.ids() == Seq::<i64>::empty(),
            r.items() == Seq::<Seq<u32>>::empty(),
    {
        let index = AnnoyIndexBuilder::new(dimension, distance);
        let map = HashMap::new();
        let inverse_map = Vec::new();
        let r = MappingIndexBuilder { index, map, inverse_map };
        assert(r.ids() =~= Seq::<i64>::empty());
        r
    }

    /// Stores `vector` under the external id `item`, at the next position.
    /// Fails with `KeyAlreadyPresent`, changing nothing, if `item` is
    /// already stored.
    pub fn put(&mut self, item: i64, vector: &[u32]) -> (r: Result<(), Error>)
        requires
            old(self).wf(),
            vector@.len() == old(self).dim(),
            old(self).ids().len() < MAX_ITEMS,
        ensures
            final(self).wf(),
            old(self).ids().contains(item) ==> r is Err && r->Err_0 == Error::KeyAlreadyPresent
                && *final(self) == *old(self),
            !old(self).ids().contains(item) ==> r is Ok && final(self).ids() == old(
                self,
            ).ids().push(item) && final(self).items() == old(self).items().push(vector@)
                && final(self).dim() == old(self).dim() && final(self).metric() == old(
                self,
            ).metric(),
    {
        if self.map.contains_key(&item) {
            Err(Error::KeyAlreadyPresent)
        } else {
            proof {
                lemma_push_mapping(self.inverse_map@, self.map@, item);
            }
            let id = self.index.add_item(vector);
            self.map.insert(item, id);
            self.inverse_map.push(item);
            Ok(())
        }
    }

    /// Builds the index; `n_tree` as for `AnnoyIndexBuilder::build`.
    pub fn build(self, n_tree: Option<i32>) -> (r: MappingIndex)
        requires
            self.wf(),
        ensures
            r.wf(),
            r.ids() == self.ids(),
            r.items() == self.items(),
            r.dim() == self.dim(),
            r.metric() == self.metric(),
            r.trees() == n_tree,
    {
        MappingIndex { index: self.index.build(n_tree), map: self.map, inverse_map: self.inverse_map }
    }
}

/// The text of `count_message(lines, vectors)`.
fn count_text(lines: usize, vectors: usize) -> (r: String)
    ensures
        r@ == lossy_text(count_message(lines as nat, vectors as nat)),
{
    let mut out: Vec<u8> = Vec::new();
    push_decimal(&mut out, lines as u64);
    out.push(32);
    out.push(105);
    out.push(100);
    out.push(115);
    out.push(32);
    out.push(102);
    out.push(111);
    out.push(114);
    out.push(32);
    push_decimal(&mut out, vectors as u64);
    out.push(32);
    out.push(118);
    out.push(101);
    out.push(99);
    out.push(116);
    out.push(111);
    out.push(114);
    out.push(115);
    assert(out@ =~= count_message(lines as nat, vectors as nat));
    text_of(out.as_slice())
}

/// Line `j` of `b`.
fn nth_line(b: &[u8], j: usize) -> (r: Vec<u8>)
    requires
        j < text_lines(b@).len(),
    ensures
        r@ == text_lines(b@)[j as int],
{
    let ghost total = text_lines(b@).len() as int;
    let mut count: usize = 0;
    let mut start: usize = 0;
    assert(b@.subrange(0, b@.len() as int) =~= b@);
    assert(text_lines(b@).subrange(0, total) =~= text_lines(b@));
    while start < b.len()
        invariant
            start <= b@.len(),
            count <= j < total,
            total == text_lines(b@).len(),
            text_lines(b@).subrange(count as int, total) == text_lines(
                b@.subrange(start as int, b@.len() as int),
            ),
        decreases b@.len() - start,
    {
        let e = line_end(b, start);
        proof {
            lemma_text_lines_step(b@, start as int, e as int);
            assert(text_lines(b@)[count as int] == text_lines(b@).subrange(count as int, total)[0]);
        }
        if count == j {
            return line_bytes(b, start, e);
        }
        proof {
            let rest = text_lines(b@).subrange(count as int, total);
            assert(text_lines(b@).subrange(count + 1, total) =~= rest.subrange(1, rest.len() as int));
        }
        if e < b.len() {
            proof {
                let rest = text_lines(b@).subrange(count as int, total);
                assert(rest.subrange(1, rest.len() as int) =~= text_lines(
                    b@.subrange(e + 1, b@.len() as int),
                ));
            }
            start = e + 1;
        } else {
            proof {
                assert(b@.subrange(e as int, b@.len() as int) =~= Seq::<u8>::empty());
            }
            start = e;
        }
        count = count + 1;
    }
    proof {
        assert(b@.subrange(start as int, b@.len() as int) =~= Seq::<u8>::empty());
        assert(text_lines(b@).subrange(count as int, total).len() == 0);
    }
    Vec::new()
}

/// Reads the mapping artifact's lines as ids, failing at the first line that
/// writes none.
fn parse_lines(b: &[u8]) -> (r: Result<Vec<i64>, Error>)
    ensures
        all_parse(text_lines(b@)) ==> r is Ok,
        forall|i: int| #[trigger]
            first_unparsed(text_lines(b@), i) ==> r is Err && r->Err_0 is ParsingError
                && r->Err_0->ParsingError_0@ == lossy_text(text_lines(b@)[i]),
        r is Ok ==> r->Ok_0@.len() == text_lines(b@).len() && forall|i: int|
            0 <= i < r->Ok_0@.len() ==> Some(#[trigger] r->Ok_0@[i]) == line_id(text_lines(b@)[i]),
{
    let ghost all = text_lines(b@);
    let mut ids: Vec<i64> = Vec::new();
    let mut start: usize = 0;
    let ghost mut done: Seq<Seq<u8>> = Seq::empty();
    assert(b@.subrange(0, b@.len() as int) =~= b@);
    while start < b.len()
        invariant
            start <= b@.len(),
            all == text_lines(b@),
            all == done + text_lines(b@.subrange(start as int, b@.len() as int)),
            ids@.len() == done.len(),
            forall|i: int| 0 <= i < done.len() ==> Some(#[trigger] ids@[i]) == line_id(done[i]),
        decreases b@.len() - start,
    {
        let e = line_end(b, start);
        proof {
            lemma_text_lines_step(b@, start as int, e as int);
        }
        let line = line_bytes(b, start, e);
        let ghost i = done.len() as int;
        proof {
            assert(all[i] == line@);
            assert forall|j: int| 0 <= j < i implies (#[trigger] line_id(all[j])) is Some by {
                assert(all[j] == done[j]);
                assert(Some(ids@[j]) == line_id(done[j]));
            }
        }
        match parse_i64(line.as_slice()) {
            None => {
                assert(first_unparsed(all, i));
                assert forall|i2: int| #[trigger] first_unparsed(all, i2) implies i2 == i by {
                    if i2 < i {
                        assert(line_id(all[i2]) is Some);
                    } else if i2 > i {
                        assert(line_id(all[i]) is Some);
                    }
                }
                return Err(Error::ParsingError(text_of(line.as_slice())));
            },
            Some(id) => {
                ids.push(id);
                proof {
                    let done2 = done.push(line@);
                    assert forall|j: int| 0 <= j < done2.len() implies Some(#[trigger] ids@[j])
                        == line_id(done2[j]) by {
                        if j < i {
                            assert(done2[j] == done[j]);
                        }
                    }
                    done = done2;
                }
            },
        }
        if e < b.len() {
            proof {
                assert(all =~= done + text_lines(b@.subrange(e + 1, b@.len() as int)));
            }
            start = e + 1;
        } else {
            proof {
                assert(b@.subrange(e as int, b@.len() as int) =~= Seq::<u8>::empty());
                assert(all =~= done + text_lines(b@.subrange(e as int, b@.len() as int)));
            }
            start = e;
        }
    }
    proof {
        assert(b@.subrange(start as int, b@.len() as int) =~= Seq::<u8>::empty());
        assert(all =~= done);
        assert forall|i: int| #[trigger] first_unparsed(all, i) implies false by {
            assert(Some(ids@[i]) == line_id(done[i]));
        }
    }
    Ok(ids)
}

/// The map from each id to its position, or the first position whose id
/// an earlier position holds.
fn index_ids(ids: &Vec<i64>) -> (r: Result<HashMap<i64, i32>, usize>)
    requires
        ids@.len() <= MAX_ITEMS,
    ensures
        r is Ok ==> mapping_wf(ids@, r->Ok_0@),
        r is Ok ==> forall|i: int| 0 <= i < ids@.len() ==> !#[trigger] id_repeats(ids@, i),
        r is Err ==> r->Err_0 < ids@.len() && id_repeats(ids@, r->Err_0 as int) && forall|i: int|
            0 <= i < r->Err_0 ==> !#[trigger] id_repeats(ids@, i),
{
    let mut map: HashMap<i64, i32> = HashMap::new();
    let mut i: usize = 0;
    assert(ids@.subrange(0, 0) =~= Seq::<i64>::empty());
    while i < ids.len()
        invariant
            i <= ids@.len() <= MAX_ITEMS,
            mapping_wf(ids@.subrange(0, i as int), map@),
            forall|k: int| 0 <= k < i ==> !#[trigger] id_repeats(ids@, k),
        decreases ids@.len() - i,
    {
        let id = ids[i];
        let ghost pre = ids@.subrange(0, i as int);
        if map.contains_key(&id) {
            proof {
                let w = choose|w: int| 0 <= w < pre.len() && pre[w] == id;
                assert(ids@[w] == ids@[i as int]);
            }
            return Err(i);
        }
        proof {
            assert(!id_repeats(ids@, i as int)) by {
                if id_repeats(ids@, i as int) {
                    let w = choose|w: int| 0 <= w < i && #[trigger] ids@[w] == ids@[i as int];
                    assert(pre[w] == id);
                }
            }
            lemma_push_mapping(pre, map@, id);
            assert(pre.push(id) =~= ids@.subrange(0, i + 1));
        }
        map.insert(id, i as i32);
        i = i + 1;
    }
    assert(ids@.subrange(0, i as int) =~= ids@);
    Ok(map)
}

impl MappingIndex {
    /// The external id at each position.
    pub closed spec fn ids(&self) -> Seq<i64> {
        self.inverse_map@
    }

    /// The vector at each position.
    pub closed spec fn items(&self) -> Seq<Seq<u32>> {
        self.index.items()
    }

    pub closed spec fn dim(&self) -> int {
        self.index.dim()
    }

    pub closed spec fn metric(&self) -> Distance {
        self.index.metric()
    }

    pub closed spec fn trees(&self) -> Option<i32> {
        self.index.trees()
    }

    pub closed spec fn wf(&self) -> bool {
        &&& self.index.wf()
        &&& mapping_wf(self.inverse_map@, self.map@)
        &&& self.inverse_map@.len() == self.index.items().len()
    }

    #[verifier::type_invariant]
    closed spec fn inv(&self) -> bool {
        self.wf()
    }

    /// The external ids of the `n` items nearest to a query, nearest first,
    /// and their distances; `distances[i]` is the distance from the query to
    /// the item at position `i`.
    pub fn get_nns_by_distances(&self, distances: &Vec<u32>, n: i32, search_k: Option<i32>) -> (r: (
        Vec<i64>,
        Vec<u32>,
    ))
        requires
            distances@.len() == self.items().len(),
        ensures
            nearest_answer(self.ids(), distances@, result_bound(n), r.0@, r.1@),
    {
        proof {
            use_type_invariant(self);
        }
        let (positions, dists) = self.index.get_nns_by_distances(distances, n, search_k);
        let ghost pos = positions@.map_values(|p: i32| p as usize);
        let mut out: Vec<i64> = Vec::new();
        let mut j: usize = 0;
        while j < positions.len()
            invariant
                j <= positions@.len(),
                positions@.len() == dists@.len(),
                is_top(distances@, result_bound(n), pos),
                pos == positions@.map_values(|p: i32| p as usize),
                forall|k: int| 0 <= k < positions@.len() ==> 0 <= #[trigger] positions@[k],
                self.wf(),
                distances@.len() == self.items().len(),
                out@.len() == j,
                forall|k: int| 0 <= k < j ==> #[trigger] out@[k] == self.ids()[pos[k] as int],
            decreases positions@.len() - j,
        {
            let p = positions[j];
            assert(pos[j as int] == p as usize);
            assert(pos[j as int] < distances@.len());
            out.push(self.inverse_map[p as usize]);
            j = j + 1;
        }
        assert(is_top(distances@, result_bound(n), pos));
        (out, dists)
    }

    /// The vector stored under external id `item`, if it is mapped.
    pub fn get_item_vector(&self, item: i64) -> (r: Option<Vec<u32>>)
        ensures
            opt_view(r) == item_vector(self.ids(), self.items(), item),
            r is Some ==> r->Some_0@.len() == self.dim(),
    {
        proof {
            use_type_invariant(self);
            self.index.lemma_wf();
        }
        match self.map.get(&item) {
            None => None,
            Some(pos) => {
                proof {
                    let ids = self.ids();
                    let i = ids.index_of(item);
                    assert(ids[*pos as int] == item);
                    assert(ids.contains(item));
                    assert(ids[i] == item);
                    assert(i == *pos as int);
                }
                self.index.get_item(*pos)
            },
        }
    }

    pub fn dimension(&self) -> (r: i32)
        ensures
            r == self.dim(),
            r > 0,
    {
        proof {
            use_type_invariant(self);
            self.index.lemma_wf();
        }
        self.index.dimension()
    }

    pub fn distance(&self) -> (r: &Distance)
        ensures
            *r == self.metric(),
    {
        self.index.distance()
    }

    /// The stored vectors, by position.
    pub fn vectors(&self) -> (r: &Vec<Vec<u32>>)
        ensures
            r@.map_values(|v: Vec<u32>| v@) == self.items(),
    {
        self.index.vectors()
    }

    /// The number of stored items.
    pub fn len(&self) -> (r: i32)
        ensures
            r == self.items().len(),
            r == self.ids().len(),
    {
        proof {
            use_type_invariant(self);
        }
        self.index.len()
    }

    /// Reads an index from its two artifacts: `index_bytes`, the stored
    /// vectors, and `mapping_bytes`, the external id at each position, one per
    /// line. The index artifact must hold a whole number of vectors
    /// (`InvalidIndex`). Every line of the mapping is then parsed, and the first
    /// that writes no id fails the load with `ParsingError` of that line. Only
    /// then are the lines counted against the vectors, and the first line
    /// that repeats an earlier id found; both fail with `ParsingError` too.
    pub fn load(index_bytes: &[u8], mapping_bytes: &[u8], dimension: i32, distance: Distance) -> (r:
        Result<MappingIndex, Error>)
        requires
            dimension > 0,
        ensures
            ({
                let ls = text_lines(mapping_bytes@);
                let count = index_bytes@.len() as int / (4 * dimension);
                let fits = artifact_fits(index_bytes@.len() as int, dimension as int);
                &&& !fits ==> r is Err && r->Err_0 == Error::InvalidIndex(
                    index_bytes@.len() as usize,
                )
                &&& fits ==> (forall|i: int| #[trigger]
                    first_unparsed(ls, i) ==> r is Err && r->Err_0 is ParsingError
                        && r->Err_0->ParsingError_0@ == lossy_text(ls[i]))
                &&& fits && all_parse(ls) && ls.len() != count ==> r is Err && r->Err_0 is ParsingError
                    && r->Err_0->ParsingError_0@ == lossy_text(
                    count_message(ls.len(), count as nat),
                )
                &&& fits && all_parse(ls) && ls.len() == count ==> (forall|i: int| #[trigger]
                    first_repeat(ls, i) ==> r is Err && r->Err_0 is ParsingError
                        && r->Err_0->ParsingError_0@ == lossy_text(ls[i]))
                &&& fits && all_parse(ls) && ls.len() == count && no_repeats(ls) ==> r is Ok
                &&& r is Ok ==> {
                    let m = r->Ok_0;
                    &&& m.wf()
                    &&& m.dim() == dimension
                    &&& m.metric() == distance
                    &&& m.trees() == None::<i32>
                    &&& encode_items(m.items()) == index_bytes@
                    &&& m.items().len() == count
                    &&& forall|i: int|
                        0 <= i < m.items().len() ==> (#[trigger] m.items()[i]).len() == dimension
                    &&& m.ids().len() == ls.len()
                    &&& forall|i: int|
                        0 <= i < ls.len() ==> Some(#[trigger] m.ids()[i]) == line_id(ls[i])
                }
            }),
    {
        let mut index = AnnoyIndexBuilder::new(dimension, distance).build(None);
        match index.load(index_bytes) {
            Err(e) => {
                return Err(e);
            },
            Ok(()) => {},
        }
        let ghost ls = text_lines(mapping_bytes@);
        let ids = match parse_lines(mapping_bytes) {
            Err(e) => {
                return Err(e);
            },
            Ok(ids) => ids,
        };
        proof {
            assert forall|i: int| 0 <= i < ls.len() implies (#[trigger] line_id(ls[i])) is Some by {
                assert(Some(ids@[i]) == line_id(ls[i]));
            }
            assert forall|i: int| #[trigger] first_unparsed(ls, i) implies false by {
                assert(line_id(ls[i]) is Some);
            }
        }
        let items = index.len();
        if ids.len() != items as usize {
            return Err(Error::ParsingError(count_text(ids.len(), items as usize)));
        }
        proof {
            assert forall|i: int| 0 <= i < ls.len() implies #[trigger] repeats(ls, i) == id_repeats(
                ids@,
                i,
            ) by {
                if repeats(ls, i) {
                    let j = choose|j: int| 0 <= j < i && #[trigger] line_id(ls[j]) == line_id(ls[i]);
                    assert(Some(ids@[j]) == line_id(ls[j]));
                    assert(Some(ids@[i]) == line_id(ls[i]));
                    assert(ids@[j] == ids@[i]);
                }
                if id_repeats(ids@, i) {
                    let j = choose|j: int| 0 <= j < i && #[trigger] ids@[j] == ids@[i];
                    assert(Some(ids@[j]) == line_id(ls[j]));
                    assert(Some(ids@[i]) == line_id(ls[i]));
                }
            }
        }
        match index_ids(&ids) {
            Err(j) => {
                proof {
                    assert(repeats(ls, j as int));
                    assert(first_repeat(ls, j as int));
                    assert forall|i2: int| #[trigger] first_repeat(ls, i2) implies i2 == j by {
                        if i2 < j {
                            assert(!id_repeats(ids@, i2));
                        } else if i2 > j {
                            assert(!repeats(ls, j as int));
                        }
                    }
                }
                let line = nth_line(mapping_bytes, j);
                Err(Error::ParsingError(text_of(line.as_slice())))
            },
            Ok(map) => {
                proof {
                    assert forall|i: int| 0 <= i < ls.len() implies !#[trigger] repeats(ls, i) by {
                        assert(!id_repeats(ids@, i));
                    }
                }
                proof {
                    index.lemma_wf();
                }
                Ok(MappingIndex { index, map, inverse_map: ids })
            },
        }
    }
}

} // verus!
