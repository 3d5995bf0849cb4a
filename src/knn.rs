//! The serving core: loading and publishing named indexes, and answering
//! searches against them.
//!
//! Distances between vectors are floating-point arithmetic and are computed
//! by the caller: a search takes the distance from its query to each stored
//! item, by position, and ranks them here.
use crate::annoy::{artifact_fits, result_bound, Distance, MAX_ITEMS};
use crate::artifact::encode_items;
use crate::idmapping::{
    all_parse, item_vector, lemma_first_repeat_exists,
    lemma_first_unparsed_exists, line_id, nearest_answer, no_repeats, opt_view, repeats,
    MappingIndex,
};
use crate::knn_err::Error;
use crate::rank::{is_top, order_key, ranks_before};
use crate::registry::{
    lookup, new_registry, no_entries, published, reader_of, refresh, refreshed, stage_replace,
    staged, KnnMapRead, KnnMapWrite, Snapshot,
};
use crate::text::{int_text_value, lossy_text, parse_i64, text_lines, text_of};
use std::sync::Arc;
use vstd::prelude::*;

verus! {

/// The dimension that a dimension artifact writes: a positive `i32` and
/// nothing else.
pub open spec fn dimension_value(text: Seq<u8>) -> Option<i32> {
    match int_text_value(text) {
        Some(v) => if 0 < v <= i32::MAX {
            Some(v as i32)
        } else {
            None
        },
        None => None,
    }
}

/// The index artifacts load under `dimension`: the bytes fill whole
/// vectors, every mapping line writes an id, there is one line per vector,
/// and no id is written twice.
pub open spec fn artifacts_load(index: Seq<u8>, mapping: Seq<u8>, dimension: int) -> bool {
    &&& artifact_fits(index.len() as int, dimension)
    &&& all_parse(text_lines(mapping))
    &&& text_lines(mapping).len() == index.len() as int / (4 * dimension)
    &&& no_repeats(text_lines(mapping))
}

/// `snap` is the index that the artifacts load as: of `dimension`, with the
/// mapping's ids, and with the vectors whose artifact is `index`.
pub open spec fn loaded_as(snap: Snapshot, index: Seq<u8>, mapping: Seq<u8>, dimension: int) -> bool {
    &&& snap.0 == dimension
    &&& snap.1 == mapping_ids(mapping)
    &&& encode_items(snap.2) == index
    &&& forall|i: int| 0 <= i < snap.2.len() ==> (#[trigger] snap.2[i]).len() == dimension
}

/// The ids that a mapping artifact lists, by position.
pub open spec fn mapping_ids(mapping: Seq<u8>) -> Seq<i64> {
    text_lines(mapping).map_values(|l: Seq<u8>| line_id(l)->Some_0)
}

/// Of every answer to a search: as many ids as distances, no more than were
/// asked for, and distances that never decrease.
pub proof fn lemma_answer_sorted(
    ids: Seq<i64>,
    d: Seq<u32>,
    n: nat,
    out_ids: Seq<i64>,
    out_d: Seq<u32>,
)
    requires
        nearest_answer(ids, d, n, out_ids, out_d),
    ensures
        out_ids.len() == out_d.len(),
        out_ids.len() <= n,
        forall|a: int, b: int|
            0 <= a < b < out_d.len() ==> order_key(#[trigger] out_d[a]) <= order_key(
                #[trigger] out_d[b],
            ),
{
    let pos = choose|pos: Seq<usize>|
        #[trigger] is_top(d, n, pos) && pos.len() == out_ids.len() && pos.len() == out_d.len()
            && forall|j: int|
            0 <= j < pos.len() ==> out_ids[j] == ids[#[trigger] pos[j] as int] && out_d[j]
                == d[pos[j] as int];
    assert forall|a: int, b: int| 0 <= a < b < out_d.len() implies order_key(
        #[trigger] out_d[a],
    ) <= order_key(#[trigger] out_d[b]) by {
        assert(ranks_before(d, pos[a] as int, pos[b] as int));
        assert(out_d[a] == d[pos[a] as int]);
        assert(out_d[b] == d[pos[b] as int]);
    }
}

/// A load under `name` into a refreshed registry leaves every other name
/// published as it was.
pub proof fn lemma_load_keeps_other_names(
    before: KnnMapWrite,
    after: KnnMapWrite,
    name: Seq<char>,
    snap: Snapshot,
    other: Seq<char>,
)
    requires
        refreshed(before),
        published(after) == staged(before).insert(name, snap),
        other != name,
    ensures
        published(after).contains_key(other) == published(before).contains_key(other),
        published(before).contains_key(other) ==> published(after)[other] == published(
            before,
        )[other],
{
}

/// One result of a search.
#[derive(Debug, Clone, Copy, PartialEq, Eq, Structural)]
pub struct ResponseItem {
    pub id: i64,
    /// The bit pattern of the distance.
    pub distance: u32,
}

/// The answer to a search.
#[derive(Debug, Clone, PartialEq, Eq)]
pub struct SearchResponse {
    pub result_count: i32,
    pub items: Vec<ResponseItem>,
}

/// A search by query vector.
#[derive(Debug, Clone, PartialEq, Eq)]
pub struct SearchRequest {
    pub index_name: String,
    /// The bit patterns of the query's components.
    pub vector: Vec<u32>,
    pub result_count: i32,
    pub search_k: i32,
}

/// A search by the external id of a stored vector.
#[derive(Debug, Clone, PartialEq, Eq)]
pub struct SearchByIdRequest {
    pub index_name: String,
    pub external_id: i64,
    pub result_count: i32,
    pub search_k: i32,
}

/// A request to load the artifacts under `path` as the index `index_name`.
#[derive(Debug, Clone, PartialEq, Eq)]
pub struct LoadRequest {
    pub index_name: String,
    pub path: String,
}

/// `resp` holds the ids and distances in order, and their number.
pub open spec fn response_of(ids: Seq<i64>, d: Seq<u32>, resp: SearchResponse) -> bool {
    &&& resp.items@.len() == ids.len()
    &&& resp.result_count == ids.len()
    &&& forall|j: int|
        0 <= j < ids.len() ==> (#[trigger] resp.items@[j]).id == ids[j] && resp.items@[j].distance
            == d[j]
}

/// The readers' side of the registry of named indexes.
#[derive(Clone)]
pub struct Knn {
    pub index_read: KnnMapRead,
}

impl Knn {
    /// The index artifact's name under an index directory.
    pub const INDEX_FILE_NAME: &'static str = "index";

    /// The mapping artifact's name under an index directory.
    pub const MAPPING_FILE_NAME: &'static str = "mapping";

    /// The dimension artifact's name under an index directory.
    pub const DIMENSION_FILE_NAME: &'static str = "dimension";

    /// An empty registry: its readers' side, and its single writer.
    pub fn new() -> (r: (Knn, KnnMapWrite))
        ensures
            published(r.1) == no_entries(),
            staged(r.1) == no_entries(),
    {
        let w = new_registry();
        let r = reader_of(&w);
        (Knn { index_read: r }, w)
    }

    /// Reads the dimension artifact: a positive `i32` written in decimal,
    /// with nothing around it.
    pub fn parse_dimension(text: &[u8]) -> (r: Result<i32, Error>)
        ensures
            dimension_value(text@) is Some ==> r is Ok && r->Ok_0 == dimension_value(text@)->Some_0,
            dimension_value(text@) is None ==> r is Err && r->Err_0 is ParsingError
                && r->Err_0->ParsingError_0@ == lossy_text(text@),
    {
        match parse_i64(text) {
            Some(v) => {
                if 0 < v && v <= 0x7fff_ffff {
                    Ok(v as i32)
                } else {
                    Err(Error::ParsingError(text_of(text)))
                }
            },
            None => Err(Error::ParsingError(text_of(text))),
        }
    }

    /// Loads an index from its three artifacts and publishes it under
    /// `name`, replacing what was published there. The index is built in full
    /// before it is published; readers see the old index or the new one. On
    /// any error nothing is published.
    pub fn load(
        index_write: &mut KnnMapWrite,
        name: &str,
        dimension_text: &[u8],
        index_bytes: &[u8],
        mapping_bytes: &[u8],
    ) -> (r: Result<(), Error>)
        ensures
            dimension_value(dimension_text@) is None ==> r is Err && r->Err_0 is ParsingError
                && r->Err_0->ParsingError_0@ == lossy_text(dimension_text@),
            dimension_value(dimension_text@) is Some ==> (r is Ok <==> artifacts_load(
                index_bytes@,
                mapping_bytes@,
                dimension_value(dimension_text@)->Some_0 as int,
            )),
            r is Err && dimension_value(dimension_text@) is Some ==> r->Err_0 is IndexError,
            r is Err ==> *final(index_write) == *old(index_write),
            r is Ok ==> published(*final(index_write)).contains_key(name@) && loaded_as(
                published(*final(index_write))[name@],
                index_bytes@,
                mapping_bytes@,
                dimension_value(dimension_text@)->Some_0 as int,
            ),
            r is Ok ==> published(*final(index_write)) == staged(*old(index_write)).insert(
                name@,
                published(*final(index_write))[name@],
            ),
            r is Ok && refreshed(*old(index_write)) ==> published(*final(index_write)) == published(
                *old(index_write),
            ).insert(name@, published(*final(index_write))[name@]),
            r is Ok ==> refreshed(*final(index_write)),
    {
        let dimension = match Knn::parse_dimension(dimension_text) {
            Ok(d) => d,
            Err(e) => {
                return Err(e);
            },
        };
        let index = match MappingIndex::load(
            index_bytes,
            mapping_bytes,
            dimension,
            Distance::Euclidean,
        ) {
            Ok(index) => index,
            Err(e) => {
                return Err(Error::IndexError(e));
            },
        };
        proof {
            let ls = text_lines(mapping_bytes@);
            if !all_parse(ls) {
                let i = choose|i: int| 0 <= i < ls.len() && (#[trigger] line_id(ls[i])) is None;
                lemma_first_unparsed_exists(ls, i);
            }
            if !no_repeats(ls) {
                let i = choose|i: int| 0 <= i < ls.len() && #[trigger] repeats(ls, i);
                lemma_first_repeat_exists(ls, i);
            }
            assert(index.ids() =~= mapping_ids(mapping_bytes@));
        }
        stage_replace(index_write, name.to_owned(), Arc::new(index));
        refresh(index_write);
        Ok(())
    }

    /// Checks a query's length against the index's dimension before any work
    /// is dispatched.
    pub fn check_dimension(index: &MappingIndex, vector_len: usize) -> (r: Result<(), Error>)
        ensures
            vector_len == index.dim() ==> r is Ok,
            vector_len != index.dim() ==> r is Err && r->Err_0 == Error::DimensionError(
                index.dim() as usize,
                vector_len,
            ),
    {
        let dimension = index.dimension() as usize;
        if vector_len != dimension {
            Err(Error::DimensionError(dimension, vector_len))
        } else {
            Ok(())
        }
    }

    /// Searches `index` for the `n` items nearest to `vector`, given the
    /// distance from `vector` to each item by position; `k` is the search
    /// budget. Fails with `DimensionError` if `vector` has the wrong length.
    pub fn search(index: &MappingIndex, vector: &[u32], distances: &Vec<u32>, k: i32, n: i32) -> (r:
        Result<(Vec<i64>, Vec<u32>), Error>)
        requires
            distances@.len() == index.items().len(),
        ensures
            vector@.len() != index.dim() ==> r is Err && r->Err_0 == Error::DimensionError(
                index.dim() as usize,
                vector@.len() as usize,
            ),
            vector@.len() == index.dim() ==> r is Ok && nearest_answer(
                index.ids(),
                distances@,
                result_bound(n),
                r->Ok_0.0@,
                r->Ok_0.1@,
            ),
            r is Ok ==> r->Ok_0.0@.len() == r->Ok_0.1@.len() && r->Ok_0.0@.len() <= result_bound(n),
            r is Ok ==> forall|a: int, b: int|
                0 <= a < b < r->Ok_0.1@.len() ==> order_key(#[trigger] r->Ok_0.1@[a]) <= order_key(
                    #[trigger] r->Ok_0.1@[b],
                ),
    {
        match Knn::check_dimension(index, vector.len()) {
            Err(e) => Err(e),
            Ok(()) => {
                let res = index.get_nns_by_distances(distances, n, Some(k));
                proof {
                    lemma_answer_sorted(index.ids(), distances@, result_bound(n), res.0@, res.1@);
                }
                Ok(res)
            },
        }
    }

    /// The index published under `name`, as this reader sees the registry
    /// now.
    pub fn get_index(&self, name: &str) -> (r: Result<Arc<MappingIndex>, Error>)
        ensures
            r is Err ==> r->Err_0 is NoIndexLoaded && r->Err_0->NoIndexLoaded_0@ == name@,
    {
        Knn::get_index2(&self.index_read, name)
    }

    /// The index published under `name`, as `map` sees the registry now;
    /// `NoIndexLoaded` if there is none.
    pub fn get_index2(map: &KnnMapRead, name: &str) -> (r: Result<Arc<MappingIndex>, Error>)
        ensures
            r is Err ==> r->Err_0 is NoIndexLoaded && r->Err_0->NoIndexLoaded_0@ == name@,
    {
        Knn::index_or_error(lookup(map, name), name)
    }

    /// The outcome of a registry lookup for `name`: the index found, or
    /// `NoIndexLoaded`.
    pub fn index_or_error(found: Option<Arc<MappingIndex>>, name: &str) -> (r: Result<
        Arc<MappingIndex>,
        Error,
    >)
        ensures
            found is Some ==> r is Ok && r->Ok_0 == found->Some_0,
            found is None ==> r is Err && r->Err_0 is NoIndexLoaded && r->Err_0->NoIndexLoaded_0@
                == name@,
    {
        match found {
            Some(index) => Ok(index),
            None => Err(Error::NoIndexLoaded(name.to_owned())),
        }
    }

    /// The index that a search by vector runs against, given what a lookup
    /// of its name found: `NoIndexLoaded` if nothing, `DimensionError` if the
    /// query has the wrong length. Nothing is searched on either error.
    pub fn prepare_search(found: Option<Arc<MappingIndex>>, request: &SearchRequest) -> (r: Result<
        Arc<MappingIndex>,
        Error,
    >)
        ensures
            found is None ==> r is Err && r->Err_0 is NoIndexLoaded && r->Err_0->NoIndexLoaded_0@
                == request.index_name@,
            found is Some && request.vector@.len() != found->Some_0.dim() ==> r is Err && r->Err_0
                == Error::DimensionError(found->Some_0.dim() as usize, request.vector@.len() as usize),
            found is Some && request.vector@.len() == found->Some_0.dim() ==> r is Ok && r->Ok_0
                == found->Some_0,
    {
        let index = match Knn::index_or_error(found, request.index_name.as_str()) {
            Ok(i) => i,
            Err(e) => {
                return Err(e);
            },
        };
        match Knn::check_dimension(&index, request.vector.len()) {
            Err(e) => Err(e),
            Ok(()) => Ok(index),
        }
    }

    /// The index and the query vector of a search by id, given what a lookup
    /// of the index name found: `NoIndexLoaded` if nothing,
    /// `NoProductVectorFound` if the id is not mapped.
    pub fn prepare_search_by_id(found: Option<Arc<MappingIndex>>, request: &SearchByIdRequest) -> (r:
        Result<(Arc<MappingIndex>, Vec<u32>), Error>)
        ensures
            found is None ==> r is Err && r->Err_0 is NoIndexLoaded && r->Err_0->NoIndexLoaded_0@
                == request.index_name@,
            found is Some && item_vector(
                found->Some_0.ids(),
                found->Some_0.items(),
                request.external_id,
            ) is None ==> r is Err && r->Err_0 == Error::NoProductVectorFound(request.external_id),
            found is Some && item_vector(
                found->Some_0.ids(),
                found->Some_0.items(),
                request.external_id,
            ) is Some ==> r is Ok && r->Ok_0.0 == found->Some_0 && Some(r->Ok_0.1@) == item_vector(
                found->Some_0.ids(),
                found->Some_0.items(),
                request.external_id,
            ) && r->Ok_0.1@.len() == found->Some_0.dim(),
    {
        let index = match Knn::index_or_error(found, request.index_name.as_str()) {
            Ok(i) => i,
            Err(e) => {
                return Err(e);
            },
        };
        match Knn::query_vector(&index, request.external_id) {
            Err(e) => Err(e),
            Ok(v) => Ok((index, v)),
        }
    }

    /// Resolves a search by vector against the registry as this reader sees
    /// it now; see `prepare_search`.
    pub fn resolve_search(&self, request: &SearchRequest) -> (r: Result<Arc<MappingIndex>, Error>)
        ensures
            r is Ok ==> request.vector@.len() == r->Ok_0.dim(),
            r is Err ==> (r->Err_0 is NoIndexLoaded && r->Err_0->NoIndexLoaded_0@
                == request.index_name@) || r->Err_0 is DimensionError,
    {
        Knn::prepare_search(lookup(&self.index_read, request.index_name.as_str()), request)
    }

    /// Resolves a search by id against the registry as this reader sees it
    /// now; see `prepare_search_by_id`.
    pub fn resolve_search_by_id(&self, request: &SearchByIdRequest) -> (r: Result<
        (Arc<MappingIndex>, Vec<u32>),
        Error,
    >)
        ensures
            r is Ok ==> Some(r->Ok_0.1@) == item_vector(
                r->Ok_0.0.ids(),
                r->Ok_0.0.items(),
                request.external_id,
            ),
            r is Err ==> (r->Err_0 is NoIndexLoaded && r->Err_0->NoIndexLoaded_0@
                == request.index_name@) || r->Err_0 == Error::NoProductVectorFound(
                request.external_id,
            ),
    {
        Knn::prepare_search_by_id(lookup(&self.index_read, request.index_name.as_str()), request)
    }

    /// The vector stored under external id `id`.
    pub fn get_vector(index: &MappingIndex, id: i64) -> (r: Option<Vec<u32>>)
        ensures
            opt_view(r) == item_vector(index.ids(), index.items(), id),
    {
        index.get_item_vector(id)
    }

    /// The query vector of a search by id: the vector stored under `id`, or
    /// `NoProductVectorFound`.
    pub fn query_vector(index: &MappingIndex, id: i64) -> (r: Result<Vec<u32>, Error>)
        ensures
            item_vector(index.ids(), index.items(), id) is None ==> r is Err && r->Err_0
                == Error::NoProductVectorFound(id),
            item_vector(index.ids(), index.items(), id) is Some ==> r is Ok && Some(r->Ok_0@)
                == item_vector(index.ids(), index.items(), id) && r->Ok_0@.len() == index.dim(),
    {
        match index.get_item_vector(id) {
            Some(v) => Ok(v),
            None => Err(Error::NoProductVectorFound(id)),
        }
    }

    /// The response listing `ids` with their `distances`, in order.
    pub fn create_response_from_vectors(ids: &[i64], distances: &[u32]) -> (r: SearchResponse)
        requires
            ids@.len() == distances@.len(),
            ids@.len() <= MAX_ITEMS,
        ensures
            response_of(ids@, distances@, r),
    {
        let mut items: Vec<ResponseItem> = Vec::new();
        let mut i: usize = 0;
        while i < ids.len()
            invariant
                i <= ids@.len(),
                ids@.len() == distances@.len(),
                items@.len() == i,
                forall|j: int|
                    0 <= j < i ==> (#[trigger] items@[j]).id == ids@[j] && items@[j].distance
                        == distances@[j],
            decreases ids@.len() - i,
        {
            items.push(ResponseItem { id: ids[i], distance: distances[i] });
            i = i + 1;
        }
        SearchResponse { result_count: ids.len() as i32, items }
    }

    /// Answers a search by query vector against `index`, given the distance
    /// from the request's vector to each item by position.
    pub fn search2(index: &MappingIndex, request: &SearchRequest, distances: &Vec<u32>) -> (r:
        Result<SearchResponse, Error>)
        requires
            distances@.len() == index.items().len(),
        ensures
            request.vector@.len() != index.dim() ==> r is Err && r->Err_0 == Error::DimensionError(
                index.dim() as usize,
                request.vector@.len() as usize,
            ),
            request.vector@.len() == index.dim() ==> r is Ok && (exists|ids: Seq<i64>, d: Seq<u32>|
                nearest_answer(index.ids(), distances@, result_bound(request.result_count), ids, d)
                    && #[trigger] response_of(ids, d, r->Ok_0)),
    {
        match Knn::search(
            index,
            request.vector.as_slice(),
            distances,
            request.search_k,
            request.result_count,
        ) {
            Err(e) => Err(e),
            Ok((ids, d)) => {
                proof {
                    lemma_answer_sorted(
                        index.ids(),
                        distances@,
                        result_bound(request.result_count),
                        ids@,
                        d@,
                    );
                }
                let resp = Knn::create_response_from_vectors(ids.as_slice(), d.as_slice());
                assert(nearest_answer(
                    index.ids(),
                    distances@,
                    result_bound(request.result_count),
                    ids@,
                    d@,
                ));
                let r: Result<SearchResponse, Error> = Ok(resp);
                assert(response_of(ids@, d@, r->Ok_0));
                r
            },
        }
    }

    /// Answers a search by external id against `index`, given the distance
    /// from the vector stored under that id to each item by position.
    pub fn search_id(index: &MappingIndex, request: &SearchByIdRequest, distances: &Vec<u32>) -> (r:
        Result<SearchResponse, Error>)
        requires
            distances@.len() == index.items().len(),
        ensures
            item_vector(index.ids(), index.items(), request.external_id) is None ==> r is Err
                && r->Err_0 == Error::NoProductVectorFound(request.external_id),
            item_vector(index.ids(), index.items(), request.external_id) is Some ==> r is Ok && (
            exists|ids: Seq<i64>, d: Seq<u32>|
                nearest_answer(index.ids(), distances@, result_bound(request.result_count), ids, d)
                    && #[trigger] response_of(ids, d, r->Ok_0)),
    {
        let v = match Knn::query_vector(index, request.external_id) {
            Ok(v) => v,
            Err(e) => {
                return Err(e);
            },
        };
        match Knn::search(index, v.as_slice(), distances, request.search_k, request.result_count) {
            Err(e) => Err(e),
            Ok((ids, d)) => {
                proof {
                    lemma_answer_sorted(
                        index.ids(),
                        distances@,
                        result_bound(request.result_count),
                        ids@,
                        d@,
                    );
                }
                let resp = Knn::create_response_from_vectors(ids.as_slice(), d.as_slice());
                assert(nearest_answer(
                    index.ids(),
                    distances@,
                    result_bound(request.result_count),
                    ids@,
                    d@,
                ));
                let r: Result<SearchResponse, Error> = Ok(resp);
                assert(response_of(ids@, d@, r->Ok_0));
                r
            },
        }
    }
}

} // verus!
