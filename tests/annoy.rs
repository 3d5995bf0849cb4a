use knn_serving::annoy::{AnnoyIndex, AnnoyIndexBuilder, Distance};
use rand::distributions::Standard;
use rand::Rng;
use std::collections::HashMap;
use std::collections::HashSet;
use std::time::SystemTime;

fn bits(v: &[f32]) -> Vec<u32> {
    v.iter().map(|x| x.to_bits()).collect()
}

fn floats(v: &[u32]) -> Vec<f32> {
    v.iter().map(|b| f32::from_bits(*b)).collect()
}

fn angular(a: &[f32], b: &[f32]) -> f32 {
    let dot: f32 = a.iter().zip(b).map(|(x, y)| x * y).sum();
    let na: f32 = a.iter().map(|x| x * x).sum();
    let nb: f32 = b.iter().map(|x| x * x).sum();
    let n = (na * nb).sqrt();
    if n > 0.0 {
        (2.0 - 2.0 * dot / n).max(0.0).sqrt()
    } else {
        2.0f32.sqrt()
    }
}

fn distances_to(index: &AnnoyIndex, q: &[f32]) -> Vec<u32> {
    (0..index.len())
        .map(|i| angular(&floats(&index.get_item(i).unwrap()), q).to_bits())
        .collect()
}

fn nns_by_vector(index: &AnnoyIndex, q: &[f32], n: i32, search_k: Option<i32>) -> (Vec<i32>, Vec<f32>) {
    let d = distances_to(index, q);
    let (r, ds) = index.get_nns_by_distances(&d, n, search_k);
    (r, floats(&ds))
}

fn nns_by_item(index: &AnnoyIndex, item: i32, n: i32, search_k: Option<i32>) -> (Vec<i32>, Vec<f32>) {
    let q = floats(&index.get_item(item).unwrap());
    let d = distances_to(index, &q);
    let (r, ds) = index.get_nns_by_item(item, n, search_k, &d).unwrap();
    (r, floats(&ds))
}

#[test]
fn nns_by_item_out_of_range() {
    let mut a = AnnoyIndexBuilder::new(2, Distance::Euclidean);
    a.add_item(&bits(&[0.0, 0.0]));
    a.add_item(&bits(&[3.0, 4.0]));
    let index = a.build(None);
    let d = vec![0.0f32.to_bits(), 5.0f32.to_bits()];
    assert_eq!(index.get_nns_by_item(2, 1, None, &d), None);
    assert_eq!(index.get_nns_by_item(-1, 1, None, &d), None);
    assert_eq!(index.get_nns_by_item(0, 5, None, &d), Some((vec![0, 1], d.clone())));
}

#[test]
fn simple_test() {
    let mut a = AnnoyIndexBuilder::new(3, Distance::Angular);
    a.add_item(&bits(&[1.0, 0.0, 0.0]));
    a.add_item(&bits(&[0.0, 1.0, 0.0]));
    a.add_item(&bits(&[0.0, 0.0, 1.0]));

    let index = a.build(None);

    println!("{:?}", nns_by_item(&index, 0, 100, None));
    println!("{:?}", nns_by_vector(&index, &[1.0, 0.5, 0.5], 100, None));
}

#[test]
fn mmap_test() {
    let mut a = AnnoyIndexBuilder::new(3, Distance::Angular);
    a.add_item(&bits(&[1.0, 0.0, 0.0]));
    a.add_item(&bits(&[0.0, 1.0, 0.0]));
    a.add_item(&bits(&[0.0, 0.0, 1.0]));

    let index = a.build(None);

    let saved = index.save();

    let mut index2 = AnnoyIndexBuilder::new(3, Distance::Angular).build(None);
    index2.load(&saved).unwrap();

    println!("{:?}", nns_by_item(&index2, 0, 2, None));
    println!("{:?}", nns_by_vector(&index2, &[1.0, 0.5, 0.5], 2, None));
}

#[test]
fn get_n_item_test() {
    let mut a = AnnoyIndexBuilder::new(3, Distance::Angular);
    let count = 1123;
    for _i in 0..count {
        a.add_item(&bits(&[1.0, 0.0, 0.0]));
    }
    let index = a.build(None);
    assert_eq!((index.len()), count)
}

#[test]
fn get_item_test() {
    let mut a = AnnoyIndexBuilder::new(3, Distance::Angular);
    a.add_item(&bits(&[1.0, 0.0, 0.0]));
    a.add_item(&bits(&[0.0, 1.0, 0.0]));
    a.add_item(&bits(&[0.0, 0.0, 1.0]));
    let index = a.build(None);

    assert_eq!(index.get_item(1).map(|v| floats(&v)), Some(vec![0.0, 1.0, 0.0]));
    assert_eq!(index.get_item(3), None);
    assert_eq!(index.get_item(5), None);
}

#[test]
fn precision_test() {
    let n: i32 = 1000;
    const F: usize = 40;

    let mut rng = rand::thread_rng();
    let mut index_builder = AnnoyIndexBuilder::new(F as i32, Distance::Angular);

    for _i in 0..n {
        let arr: Vec<f32> = (&mut rng).sample_iter(Standard).take(F).collect();
        index_builder.add_item(&bits(arr.as_slice()));
    }

    let index = index_builder.build(Some(400 as i32));
    let limits = &[20000];
    let k = 10;
    let mut prec_sum = HashMap::new();
    let prec_n = 1000;
    let mut time_sum = HashMap::new();
    for limit in limits.iter() {
        prec_sum.insert(limit, 0.0);
        time_sum.insert(limit, 0);
    }
    for _i in 0..prec_n {
        let j = rng.gen_range(0, n);
        let (closest, _) = nns_by_item(&index, j, k, Some(n));
        let closest_set: HashSet<_> = closest.iter().collect();
        for limit in limits.iter() {
            let t0 = SystemTime::now();
            let (toplist, _) = nns_by_item(&index, j, k, Some(*limit));
            let elapsed = t0.elapsed().unwrap();
            let top_list_set: HashSet<_> = toplist.iter().collect();

            let found = closest_set.intersection(&top_list_set).count();
            let hitrate = 1.0 * (found as f32) / (k as f32);

            if let Some(value) = prec_sum.get_mut(limit) {
                *value += hitrate;
            }

            if let Some(value) = time_sum.get_mut(limit) {
                *value += elapsed.as_nanos();
            }
        }
    }

    for limit in limits.iter() {
        let prec = 100.0 * prec_sum.get(limit).unwrap() / (prec_n + 1) as f32;
        let avg_time = time_sum.get(limit).unwrap() / (prec_n + 1);
        println!(
            "limit: {:>6} - precision: {:.6}% - avg time: {} ns",
            limit, prec, avg_time
        )
    }
}
