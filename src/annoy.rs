//! The vector index: a positional store of fixed-width vectors that is
//! filled once, built, and then only read.
//!
//! Vector components and distances are held as the bit patterns of IEEE-754
//! single precision values, so that what is stored is returned bit for bit.
use crate::artifact::{decode, encode, encode_items};
use crate::err::Error;
use crate::rank::{is_top, top_positions};
use vstd::prelude::*;
use vstd::slice::slice_to_vec;

verus! {

/// The distance under which an index ranks its items; fixed when the index is
/// created.
#[derive(Debug, Clone, Copy, PartialEq, Eq, Structural)]
pub enum Distance {
    Angular,
    Euclidean,
    Manhattan,
}

/// The largest number of items an index can hold: positions are `i32`.
pub const MAX_ITEMS: usize = 0x7fff_ffff;

/// The stored vectors, in position order.
#[derive(Debug, PartialEq, Eq)]
pub struct AnnoyIndexRaw {
    dimension: i32,
    items: Vec<Vec<u32>>,
}

impl View for AnnoyIndexRaw {
    type V = Seq<Seq<u32>>;

    closed spec fn view(&self) -> Seq<Seq<u32>> {
        self.items@.map_values(|v: Vec<u32>| v@)
    }
}

/// Every vector of `items` has `dimension` components, and positions fit `i32`.
pub open spec fn items_wf(dimension: int, items: Seq<Seq<u32>>) -> bool {
    &&& dimension > 0
    &&& items.len() <= MAX_ITEMS
    &&& forall|i: int| 0 <= i < items.len() ==> #[trigger] items[i].len() == dimension
}

impl AnnoyIndexRaw {
    pub closed spec fn dim(&self) -> int {
        self.dimension as int
    }

    pub closed spec fn wf(&self) -> bool {
        items_wf(self.dimension as int, self@)
    }

    fn new(dimension: i32) -> (r: AnnoyIndexRaw)
        requires
            dimension > 0,
        ensures
            r.wf(),
            r.dim() == dimension,
            r@ == Seq::<Seq<u32>>::empty(),
    {
        let r = AnnoyIndexRaw { dimension, items: Vec::new() };
        assert(r@ =~= Seq::<Seq<u32>>::empty());
        r
    }

    fn len(&self) -> (r: usize)
        ensures
            r == self@.len(),
    {
        self.items.len()
    }

    fn push(&mut self, v: Vec<u32>)
        requires
            old(self).wf(),
            v@.len() == old(self).dim(),
            old(self)@.len() < MAX_ITEMS,
        ensures
            final(self).wf(),
            final(self).dim() == old(self).dim(),
            final(self)@ == old(self)@.push(v@),
    {
        let ghost before = self.items@;
        self.items.push(v);
        assert(self@ =~= old(self)@.push(v@)) by {
            assert(self.items@ == before.push(v));
        }
    }

    fn get(&self, i: usize) -> (r: Vec<u32>)
        requires
            i < self@.len(),
        ensures
            r@ == self@[i as int],
    {
        slice_to_vec(self.items[i].as_slice())
    }

    fn replace_items(&mut self, items: Vec<Vec<u32>>)
        requires
            items_wf(old(self).dim(), items@.map_values(|v: Vec<u32>| v@)),
        ensures
            final(self).wf(),
            final(self).dim() == old(self).dim(),
            final(self)@ == items@.map_values(|v: Vec<u32>| v@),
    {
        self.items = items;
    }

    fn items(&self) -> (r: &Vec<Vec<u32>>)
        ensures
            r@.map_values(|v: Vec<u32>| v@) == self@,
    {
        &self.items
    }
}

/// An index being filled: items may be added until it is built.
#[derive(Debug)]
pub struct AnnoyIndexBuilder {
    dimension: i32,
    distance: Distance,
    raw: AnnoyIndexRaw,
}

/// A built index: read-only from here on.
#[derive(Debug, PartialEq, Eq)]
pub struct AnnoyIndex {
    dimension: i32,
    distance: Distance,
    tree_count: Option<i32>,
    raw: AnnoyIndexRaw,
}

impl AnnoyIndexBuilder {
    pub closed spec fn dim(&self) -> int {
        self.dimension as int
    }

    pub closed spec fn metric(&self) -> Distance {
        self.distance
    }

    /// The vectors added so far, by position.
    pub closed spec fn items(&self) -> Seq<Seq<u32>> {
        self.raw@
    }

    pub closed spec fn wf(&self) -> bool {
        &&& self.raw.wf()
        &&& self.raw.dim() == self.dimension
    }

    /// A builder for an index of vectors with `dimension` components.
    pub fn new(dimension: i32, distance: Distance) -> (r: AnnoyIndexBuilder)
        requires
            dimension > 0,
        ensures
            r.wf(),
            r.dim() == dimension,
            r.metric() == distance,
            r.items() == Seq::<Seq<u32>>::empty(),
    {
        let raw = AnnoyIndexRaw::new(dimension);
        AnnoyIndexBuilder { dimension, distance, raw }
    }

    /// Appends `v` and returns its position, the number of items before it.
    pub fn add_item(&mut self, v: &[u32]) -> (r: i32)
        requires
            old(self).wf(),
            v@.len() == old(self).dim(),
            old(self).items().len() < MAX_ITEMS,
        ensures
            final(self).wf(),
            final(self).dim() == old(self).dim(),
            final(self).metric() == old(self).metric(),
            final(self).items() == old(self).items().push(v@),
            r == old(self).items().len(),
    {
        let position = self.raw.len();
        self.raw.push(slice_to_vec(v));
        position as i32
    }

    /// Finishes the index. `n_tree` is recorded as its tree count; `None`
    /// leaves the choice to the index.
    pub fn build(self, n_tree: Option<i32>) -> (r: AnnoyIndex)
        requires
            self.wf(),
        ensures
            r.wf(),
            r.dim() == self.dim(),
            r.metric() == self.metric(),
            r.items() == self.items(),
            r.trees() == n_tree,
    {
        AnnoyIndex {
            distance: self.distance,
            dimension: self.dimension,
            raw: self.raw,
            tree_count: n_tree,
        }
    }

    pub fn dimension(&self) -> (r: i32)
        ensures
            r == self.dim(),
    {
        self.dimension
    }

    pub fn distance(&self) -> (r: &Distance)
        ensures
            *r == self.metric(),
    {
        &self.distance
    }
}

/// An index artifact of `len` bytes holds a whole number of vectors of
/// `dimension` components, and no more than an index can hold.
pub open spec fn artifact_fits(len: int, dimension: int) -> bool {
    &&& len % (4 * dimension) == 0
    &&& len / (4 * dimension) <= MAX_ITEMS
}

/// The number of results a request for `n` may hold.
pub open spec fn result_bound(n: i32) -> nat {
    if n < 0 {
        0
    } else {
        n as nat
    }
}

impl AnnoyIndex {
    pub closed spec fn dim(&self) -> int {
        self.dimension as int
    }

    pub closed spec fn metric(&self) -> Distance {
        self.distance
    }

    pub closed spec fn trees(&self) -> Option<i32> {
        self.tree_count
    }

    /// The stored vectors, by position.
    pub closed spec fn items(&self) -> Seq<Seq<u32>> {
        self.raw@
    }

    pub closed spec fn wf(&self) -> bool {
        &&& self.raw.wf()
        &&& self.raw.dim() == self.dimension
    }

    /// What a well-formed index holds: a positive dimension, at most
    /// `MAX_ITEMS` vectors, each of that dimension.
    pub proof fn lemma_wf(&self)
        requires
            self.wf(),
        ensures
            items_wf(self.dim(), self.items()),
    {
    }

    pub fn dimension(&self) -> (r: i32)
        ensures
            r == self.dim(),
    {
        self.dimension
    }

    pub fn distance(&self) -> (r: &Distance)
        ensures
            *r == self.metric(),
    {
        &self.distance
    }

    pub fn tree_count(&self) -> (r: Option<i32>)
        ensures
            r == self.trees(),
    {
        self.tree_count
    }

    /// The number of stored items.
    pub fn len(&self) -> (r: i32)
        requires
            self.wf(),
        ensures
            r == self.items().len(),
    {
        self.raw.len() as i32
    }

    pub fn is_empty(&self) -> (r: bool)
        requires
            self.wf(),
        ensures
            r == (self.items().len() == 0),
    {
        self.raw.len() == 0
    }

    /// The vector stored at position `item`, if there is one.
    pub fn get_item(&self, item: i32) -> (r: Option<Vec<u32>>)
        requires
            self.wf(),
        ensures
            0 <= item < self.items().len() ==> r is Some && r->Some_0@ == self.items()[item as int],
            !(0 <= item < self.items().len()) ==> r is None,
    {
        if item < 0 || item as usize >= self.raw.len() {
            None
        } else {
            Some(self.raw.get(item as usize))
        }
    }

    /// The positions of the `n` items nearest to a query, nearest first, and
    /// their distances. `distances[i]` is the distance from the query to the
    /// item at position `i`. Every item is examined, so any budget
    /// `search_k` is met.
    pub fn get_nns_by_distances(&self, distances: &Vec<u32>, n: i32, search_k: Option<i32>) -> (r: (
        Vec<i32>,
        Vec<u32>,
    ))
        requires
            self.wf(),
            distances@.len() == self.items().len(),
        ensures
            r.0@.len() == r.1@.len(),
            is_top(distances@, result_bound(n), r.0@.map_values(|p: i32| p as usize)),
            forall|j: int| 0 <= j < r.0@.len() ==> 0 <= #[trigger] r.0@[j],
            forall|j: int| 0 <= j < r.1@.len() ==> #[trigger] r.1@[j] == distances@[r.0@[j] as int],
    {
        let count: usize = if n < 0 {
            0
        } else {
            n as usize
        };
        let top = top_positions(distances, count);
        let mut positions: Vec<i32> = Vec::new();
        let mut dists: Vec<u32> = Vec::new();
        let mut j: usize = 0;
        while j < top.len()
            invariant
                j <= top@.len(),
                is_top(distances@, count as nat, top@),
                distances@.len() <= MAX_ITEMS,
                positions@.len() == j,
                dists@.len() == j,
                forall|i: int| 0 <= i < j ==> #[trigger] positions@[i] as usize == top@[i],
                forall|i: int| 0 <= i < j ==> 0 <= #[trigger] positions@[i],
                forall|i: int| 0 <= i < j ==> #[trigger] dists@[i] == distances@[top@[i] as int],
            decreases top@.len() - j,
        {
            let p = top[j];
            positions.push(p as i32);
            dists.push(distances[p]);
            j = j + 1;
        }
        assert(positions@.map_values(|p: i32| p as usize) =~= top@);
        (positions, dists)
    }

    /// The positions of the `n` items nearest to the item at position
    /// `item`, nearest first, and their distances; `None` if there is no such
    /// item. `distances[i]` is the distance from that item's vector to the
    /// item at position `i`.
    pub fn get_nns_by_item(
        &self,
        item: i32,
        n: i32,
        search_k: Option<i32>,
        distances: &Vec<u32>,
    ) -> (r: Option<(Vec<i32>, Vec<u32>)>)
        requires
            self.wf(),
            distances@.len() == self.items().len(),
        ensures
            !(0 <= item < self.items().len()) ==> r is None,
            0 <= item < self.items().len() ==> r is Some && r->Some_0.0@.len() == r->Some_0.1@.len()
                && is_top(distances@, result_bound(n), r->Some_0.0@.map_values(|p: i32| p as usize))
                && (forall|j: int| 0 <= j < r->Some_0.0@.len() ==> 0 <= #[trigger] r->Some_0.0@[j])
                && (forall|j: int|
                0 <= j < r->Some_0.1@.len() ==> #[trigger] r->Some_0.1@[j] == distances@[r->Some_0.0@[j] as int]),
    {
        if item < 0 || item as usize >= self.raw.len() {
            None
        } else {
            Some(self.get_nns_by_distances(distances, n, search_k))
        }
    }

    /// The stored vectors, by position.
    pub fn vectors(&self) -> (r: &Vec<Vec<u32>>)
        ensures
            r@.map_values(|v: Vec<u32>| v@) == self.items(),
    {
        self.raw.items()
    }

    /// The index artifact: the stored vectors in position order.
    pub fn save(&self) -> (r: Vec<u8>)
        ensures
            r@ == encode_items(self.items()),
    {
        encode(self.raw.items())
    }

    /// Replaces the stored vectors with those of the index artifact `bytes`.
    /// Fails, changing nothing, if `bytes` is not a whole number of vectors of
    /// this index's dimension.
    pub fn load(&mut self, bytes: &[u8]) -> (r: Result<(), Error>)
        requires
            old(self).wf(),
        ensures
            final(self).wf(),
            final(self).dim() == old(self).dim(),
            final(self).metric() == old(self).metric(),
            final(self).trees() == old(self).trees(),
            artifact_fits(bytes@.len() as int, old(self).dim()) ==> r is Ok && encode_items(
                final(self).items(),
            ) == bytes@ && final(self).items().len() == bytes@.len() as int / (4 * old(self).dim()),
            !artifact_fits(bytes@.len() as int, old(self).dim()) ==> r is Err && r->Err_0
                == Error::InvalidIndex(bytes@.len() as usize) && *final(self) == *old(self),
    {
        match decode(bytes, self.dimension as usize) {
            Some(items) => {
                self.raw.replace_items(items);
                Ok(())
            },
            None => Err(Error::InvalidIndex(bytes.len())),
        }
    }
}

} // verus!
