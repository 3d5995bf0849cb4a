use knn_serving::annoy::{AnnoyIndexBuilder, Distance};
use knn_serving::artifact::{decode, encode};
use knn_serving::err;
use knn_serving::idmapping::{MappingIndex, MappingIndexBuilder};
use knn_serving::knn::{Knn, SearchByIdRequest, SearchRequest};
use knn_serving::knn_err::Error;
use knn_serving::rank::{distance_order_key, top_positions};
use knn_serving::text::{parse_i64, text_of};

fn bits(v: &[f32]) -> Vec<u32> {
    v.iter().map(|x| x.to_bits()).collect()
}

fn floats(v: &[u32]) -> Vec<f32> {
    v.iter().map(|b| f32::from_bits(*b)).collect()
}

fn euclidean(a: &[f32], b: &[f32]) -> f32 {
    a.iter().zip(b).map(|(x, y)| (x - y) * (x - y)).sum::<f32>().sqrt()
}

/// Distances from `q` to every item of `index`, by position, given the
/// vectors in position order.
fn distances(items: &[Vec<f32>], q: &[f32]) -> Vec<u32> {
    items.iter().map(|v| euclidean(v, q).to_bits()).collect()
}

fn unit_vectors() -> Vec<Vec<f32>> {
    vec![vec![1.0, 0.0, 0.0], vec![0.0, 1.0, 0.0], vec![0.0, 0.0, 1.0]]
}

fn unit_index(ids: &[i64]) -> MappingIndex {
    let mut b = MappingIndexBuilder::new(3, Distance::Euclidean);
    for (id, v) in ids.iter().zip(unit_vectors()) {
        b.put(*id, &bits(&v)).unwrap();
    }
    b.build(None)
}

fn index_artifact(items: &[Vec<f32>]) -> Vec<u8> {
    let v: Vec<Vec<u32>> = items.iter().map(|x| bits(x)).collect();
    encode(&v)
}

#[test]
fn end_to_end_unit_vectors() {
    let index = unit_index(&[10, 20, 30]);
    let q = [1.0, 0.0, 0.0];
    let d = distances(&unit_vectors(), &q);
    let (ids, ds) = Knn::search(&index, &bits(&q), &d, 100, 1).unwrap();
    assert_eq!(ids, vec![10]);
    assert_eq!(floats(&ds), vec![0.0]);
}

#[test]
fn search_results_sorted_and_bounded() {
    let items: Vec<Vec<f32>> = (0..50)
        .map(|i| vec![(i * 7 % 13) as f32, (i * 3 % 11) as f32, (i % 5) as f32])
        .collect();
    let mut b = MappingIndexBuilder::new(3, Distance::Euclidean);
    for (i, v) in items.iter().enumerate() {
        b.put(1000 + i as i64, &bits(v)).unwrap();
    }
    let index = b.build(Some(4));
    let q = [3.0, 2.0, 1.0];
    let d = distances(&items, &q);
    for n in [-1, 0, 1, 7, 50, 80] {
        let (ids, ds) = Knn::search(&index, &bits(&q), &d, 10, n).unwrap();
        assert_eq!(ids.len(), ds.len());
        assert!(ids.len() as i32 <= n.max(0));
        assert_eq!(ids.len(), (n.max(0) as usize).min(50));
        let fs = floats(&ds);
        for w in fs.windows(2) {
            assert!(w[0] <= w[1]);
        }
        for (id, dist) in ids.iter().zip(fs.iter()) {
            assert_eq!(euclidean(&items[(*id - 1000) as usize], &q), *dist);
        }
    }
}

#[test]
fn put_duplicate_key_changes_nothing() {
    let mut b = MappingIndexBuilder::new(2, Distance::Euclidean);
    b.put(7, &bits(&[1.0, 2.0])).unwrap();
    b.put(8, &bits(&[3.0, 4.0])).unwrap();
    let r = b.put(7, &bits(&[5.0, 6.0]));
    assert!(matches!(r, Err(err::Error::KeyAlreadyPresent)));
    let index = b.build(None);
    assert_eq!(index.len(), 2);
    assert_eq!(index.get_item_vector(7).map(|v| floats(&v)), Some(vec![1.0, 2.0]));
    assert_eq!(index.get_item_vector(8).map(|v| floats(&v)), Some(vec![3.0, 4.0]));
}

#[test]
fn put_then_get_round_trip_bits() {
    let v = vec![f32::from_bits(0x7fc0_0001), -0.0, 1.5e-42, f32::MAX];
    let mut b = MappingIndexBuilder::new(4, Distance::Angular);
    b.put(-5, &bits(&v)).unwrap();
    let index = b.build(Some(3));
    assert_eq!(index.get_item_vector(-5), Some(bits(&v)));
    assert_eq!(index.get_item_vector(6), None);
}

#[test]
fn search_wrong_dimension() {
    let index = unit_index(&[1, 2, 3]);
    let d = distances(&unit_vectors(), &[1.0, 0.0, 0.0]);
    let r = Knn::search(&index, &bits(&[1.0, 0.0]), &d, 10, 1);
    assert!(matches!(r, Err(Error::DimensionError(3, 2))));
    assert!(matches!(Knn::check_dimension(&index, 4), Err(Error::DimensionError(3, 4))));
    assert!(Knn::check_dimension(&index, 3).is_ok());
}

#[test]
fn unknown_index_name() {
    let (knn, _w) = Knn::new();
    match knn.get_index("missing") {
        Err(Error::NoIndexLoaded(name)) => assert_eq!(name, "missing"),
        _ => panic!("expected NoIndexLoaded"),
    }
}

#[test]
fn load_publishes_and_bad_dimension_keeps_entry() {
    let (knn, mut w) = Knn::new();
    let idx = index_artifact(&unit_vectors());
    Knn::load(&mut w, "A", b"3", &idx, b"10\n20\n30\n").unwrap();
    let a = knn.get_index("A").unwrap();
    assert_eq!(a.len(), 3);
    assert_eq!(a.get_item_vector(20).map(|v| floats(&v)), Some(vec![0.0, 1.0, 0.0]));

    let r = Knn::load(&mut w, "A", b"three", &idx, b"1\n2\n3\n");
    match r {
        Err(Error::ParsingError(s)) => assert_eq!(s, "three"),
        _ => panic!("expected ParsingError"),
    }
    let a2 = knn.get_index("A").unwrap();
    assert!(a2.get_item_vector(10).is_some());
    assert!(a2.get_item_vector(1).is_none());

    Knn::load(&mut w, "A", b"3", &idx, b"1\n2\n3").unwrap();
    let a3 = knn.get_index("A").unwrap();
    assert!(a3.get_item_vector(1).is_some());
    assert!(a3.get_item_vector(10).is_none());
    // a snapshot taken before the swap still answers from the old data
    assert!(a.get_item_vector(10).is_some());
}

#[test]
fn load_index_errors() {
    let (_knn, mut w) = Knn::new();
    let idx = index_artifact(&unit_vectors());
    assert!(matches!(
        Knn::load(&mut w, "B", b"3", &idx[..7], b"1\n2\n3\n"),
        Err(Error::IndexError(err::Error::InvalidIndex(7)))
    ));
    fn parsing_error(r: Result<(), Error>) -> String {
        match r {
            Err(Error::IndexError(err::Error::ParsingError(s))) => s,
            _ => panic!("expected ParsingError"),
        }
    }
    assert_eq!(parsing_error(Knn::load(&mut w, "B", b"3", &idx, b"1\n2\n")), "2 ids for 3 vectors");
    assert_eq!(parsing_error(Knn::load(&mut w, "B", b"3", &idx, b"1\n2\n+1\n")), "+1");
    assert_eq!(parsing_error(Knn::load(&mut w, "B", b"3", &idx, b"1\nx2\n3\n")), "x2");
    // a line that does not parse is reported before a wrong line count
    assert_eq!(parsing_error(Knn::load(&mut w, "B", b"3", &idx, b"1\n1\nx\n4\n")), "x");
    // and before an id written twice
    assert_eq!(parsing_error(Knn::load(&mut w, "B", b"3", &idx, b"7\n7\ny\n")), "y");
    // with all lines parsed, the count is checked before repeats
    assert_eq!(parsing_error(Knn::load(&mut w, "B", b"3", &idx, b"7\n7\n")), "2 ids for 3 vectors");
    assert!(Knn::new().0.get_index("B").is_err());
    assert!(matches!(Knn::parse_dimension(b"0"), Err(Error::ParsingError(_))));
    assert!(matches!(Knn::parse_dimension(b"-3"), Err(Error::ParsingError(_))));
    assert!(matches!(Knn::parse_dimension(b"3\n"), Err(Error::ParsingError(_))));
    assert!(matches!(Knn::parse_dimension(b"2147483648"), Err(Error::ParsingError(_))));
    assert_eq!(Knn::parse_dimension(b"+40").unwrap(), 40);
}

#[test]
fn mapping_load_with_crlf_lines() {
    let idx = index_artifact(&unit_vectors());
    let m = MappingIndex::load(&idx, b"5\r\n-6\r\n7", 3, Distance::Euclidean).unwrap();
    assert_eq!(m.dimension(), 3);
    assert_eq!(m.get_item_vector(-6).map(|v| floats(&v)), Some(vec![0.0, 1.0, 0.0]));
    assert_eq!(m.get_item_vector(7).map(|v| floats(&v)), Some(vec![0.0, 0.0, 1.0]));
}

#[test]
fn search_requests_build_responses() {
    let index = unit_index(&[10, 20, 30]);
    let q = [0.0, 0.0, 1.0];
    let req = SearchRequest {
        index_name: "A".to_string(),
        vector: bits(&q),
        result_count: 2,
        search_k: 10,
    };
    let resp = Knn::search2(&index, &req, &distances(&unit_vectors(), &q)).unwrap();
    assert_eq!(resp.result_count, 2);
    assert_eq!(resp.items[0].id, 30);
    assert_eq!(f32::from_bits(resp.items[0].distance), 0.0);
    assert_eq!(resp.items[1].id, 10);
    assert_eq!(f32::from_bits(resp.items[1].distance), 2.0f32.sqrt());

    let by_id = SearchByIdRequest {
        index_name: "A".to_string(),
        external_id: 20,
        result_count: 1,
        search_k: 10,
    };
    let v = Knn::query_vector(&index, 20).unwrap();
    let resp = Knn::search_id(&index, &by_id, &distances(&unit_vectors(), &floats(&v))).unwrap();
    assert_eq!(resp.result_count, 1);
    assert_eq!(resp.items[0].id, 20);

    let missing = SearchByIdRequest { external_id: 99, ..by_id };
    assert!(matches!(
        Knn::search_id(&index, &missing, &distances(&unit_vectors(), &q)),
        Err(Error::NoProductVectorFound(99))
    ));
    assert!(matches!(Knn::query_vector(&index, 99), Err(Error::NoProductVectorFound(99))));
    let resp = Knn::create_response_from_vectors(&[4, 5], &[1, 2]);
    assert_eq!(resp.result_count, 2);
    assert_eq!((resp.items[1].id, resp.items[1].distance), (5, 2));
}

#[test]
fn ranking_ties_and_bounds() {
    let d = bits(&[2.0, 1.0, 2.0, 0.5, 1.0]);
    assert_eq!(top_positions(&d, 3), vec![3, 1, 4]);
    assert_eq!(top_positions(&d, 10), vec![3, 1, 4, 0, 2]);
    assert_eq!(top_positions(&d, 0), Vec::<usize>::new());
    assert_eq!(top_positions(&Vec::new(), 4), Vec::<usize>::new());
    let d2 = bits(&[-1.0, 0.0, -2.0, 3.0]);
    assert_eq!(top_positions(&d2, 4), vec![2, 0, 1, 3]);
    assert!(distance_order_key((-1.0f32).to_bits()) < distance_order_key(0.0f32.to_bits()));
    assert!(distance_order_key(1.0f32.to_bits()) < distance_order_key(2.5f32.to_bits()));
    assert_eq!(distance_order_key(0.0f32.to_bits()), 0x8000_0000);
}

#[test]
fn artifact_codec() {
    let items = vec![vec![1, 0x0403_0201], vec![0xffff_ffff, 7]];
    let bytes = encode(&items);
    assert_eq!(bytes, vec![1, 0, 0, 0, 1, 2, 3, 4, 255, 255, 255, 255, 7, 0, 0, 0]);
    assert_eq!(decode(&bytes, 2), Some(items));
    assert_eq!(decode(&bytes, 3), None);
    assert_eq!(decode(&[], 5), Some(vec![]));

    let mut b = AnnoyIndexBuilder::new(2, Distance::Manhattan);
    b.add_item(&[1, 2]);
    let index = b.build(Some(5));
    let mut other = AnnoyIndexBuilder::new(2, Distance::Manhattan).build(None);
    assert!(matches!(other.load(&[1, 2, 3]), Err(err::Error::InvalidIndex(3))));
    assert!(other.is_empty());
    other.load(&index.save()).unwrap();
    assert_eq!(other.get_item(0), Some(vec![1, 2]));
    assert_eq!(other.len(), 1);
    assert_eq!(index.tree_count(), Some(5));
    assert_eq!(index.distance(), &Distance::Manhattan);
}

#[test]
fn integer_text() {
    assert_eq!(parse_i64(b"42"), Some(42));
    assert_eq!(parse_i64(b"+42"), Some(42));
    assert_eq!(parse_i64(b"-42"), Some(-42));
    assert_eq!(parse_i64(b"-0"), Some(0));
    assert_eq!(parse_i64(b"9223372036854775807"), Some(i64::MAX));
    assert_eq!(parse_i64(b"-9223372036854775808"), Some(i64::MIN));
    assert_eq!(parse_i64(b"9223372036854775808"), None);
    assert_eq!(parse_i64(b"123456789012345678901234567890"), None);
    assert_eq!(parse_i64(b""), None);
    assert_eq!(parse_i64(b"-"), None);
    assert_eq!(parse_i64(b" 1"), None);
    assert_eq!(parse_i64(b"1 "), None);
    assert_eq!(parse_i64(b"1a"), None);
    assert_eq!(text_of(b"abc"), "abc");
}

#[test]
fn load_keeps_other_names() {
    let (knn, mut w) = Knn::new();
    let idx = index_artifact(&unit_vectors());
    Knn::load(&mut w, "A", b"3", &idx, b"1\n2\n3\n").unwrap();
    Knn::load(&mut w, "B", b"3", &idx, b"4\n5\n6\n").unwrap();
    Knn::load(&mut w, "A", b"3", &idx, b"7\n8\n9\n").unwrap();
    let b = knn.get_index("B").unwrap();
    assert_eq!(b.get_item_vector(5).map(|v| floats(&v)), Some(vec![0.0, 1.0, 0.0]));
    let a = knn.get_index("A").unwrap();
    assert!(a.get_item_vector(8).is_some());
    assert!(a.get_item_vector(2).is_none());
}

#[test]
fn error_status_codes() {
    assert_eq!(Error::NoIndexLoaded("x".to_string()).status(), 404);
    assert_eq!(Error::NoProductVectorFound(3).status(), 404);
    assert_eq!(Error::NotFound.status(), 404);
    assert_eq!(Error::DimensionError(3, 2).status(), 400);
    assert_eq!(Error::ParsingError("x".to_string()).status(), 400);
    assert_eq!(Error::IndexError(err::Error::KeyAlreadyPresent).status(), 400);
    assert_eq!(Error::CancelledFuture.status(), 500);
}

#[test]
fn error_messages() {
    assert_eq!(Error::NoIndexLoaded("x".to_string()).message(), "No index loaded for x");
    assert_eq!(
        Error::DimensionError(3, 12).message(),
        "Dimension does not match expected 3 got 12"
    );
    assert_eq!(Error::CancelledFuture.message(), "Operation has been cancelled");
    assert_eq!(Error::ParsingError("ab".to_string()).message(), "Error parsing ab");
    assert_eq!(Error::NoProductVectorFound(-907).message(), "-907");
    assert_eq!(Error::NoProductVectorFound(i64::MIN).message(), "-9223372036854775808");
    assert_eq!(Error::NotFound.message(), "Not found");
    assert_eq!(
        Error::IndexError(err::Error::KeyAlreadyPresent).message(),
        "Key is already present in the index"
    );
    assert_eq!(err::Error::InvalidPath.message(), "Path is Invalid");
    assert_eq!(err::Error::ParsingError("q".to_string()).message(), "Unable to parse q");
    assert_eq!(
        err::Error::InvalidIndex(70).message(),
        "Index artifact of 70 bytes is not a whole number of vectors"
    );
}

#[test]
fn resolve_requests() {
    let (knn, mut w) = Knn::new();
    let req = SearchRequest {
        index_name: "nope".to_string(),
        vector: bits(&[1.0, 0.0, 0.0]),
        result_count: 1,
        search_k: 10,
    };
    match knn.resolve_search(&req) {
        Err(Error::NoIndexLoaded(name)) => assert_eq!(name, "nope"),
        _ => panic!("expected NoIndexLoaded"),
    }
    let by_id = SearchByIdRequest {
        index_name: "nope".to_string(),
        external_id: 2,
        result_count: 1,
        search_k: 10,
    };
    assert!(matches!(knn.resolve_search_by_id(&by_id), Err(Error::NoIndexLoaded(_))));
    let idx = index_artifact(&unit_vectors());
    Knn::load(&mut w, "A", b"3", &idx, b"1\n2\n3\n").unwrap();
    let short = SearchRequest { index_name: "A".to_string(), vector: bits(&[1.0]), ..req.clone() };
    assert!(matches!(knn.resolve_search(&short), Err(Error::DimensionError(3, 1))));
    let good = SearchRequest { index_name: "A".to_string(), ..req };
    assert_eq!(knn.resolve_search(&good).unwrap().len(), 3);
    let (_, v) = knn
        .resolve_search_by_id(&SearchByIdRequest { index_name: "A".to_string(), ..by_id.clone() })
        .unwrap();
    assert_eq!(floats(&v), vec![0.0, 1.0, 0.0]);
    let missing = SearchByIdRequest { index_name: "A".to_string(), external_id: 9, ..by_id };
    assert!(matches!(knn.resolve_search_by_id(&missing), Err(Error::NoProductVectorFound(9))));
    assert!(matches!(Knn::prepare_search(None, &good_name_request()), Err(Error::NoIndexLoaded(_))));
}

fn good_name_request() -> SearchRequest {
    SearchRequest { index_name: "A".to_string(), vector: vec![], result_count: 0, search_k: 0 }
}
