use raytracer::hits::{hit, media_at, sort_order};

/// Order key of a ray parameter: orders as `t` does, non-negative exactly
/// when `t` has its sign bit clear.
fn key(t: f64) -> i64 {
    let b = t.to_bits() as i64;
    if b < 0 {
        b ^ i64::MAX
    } else {
        b
    }
}

fn keys(ts: &[f64]) -> Vec<i64> {
    ts.iter().map(|t| key(*t)).collect()
}

#[test]
fn hit_all_positive() {
    let xs = keys(&[1., 2.]);
    assert_eq!(hit(&xs), Some(0));
}

#[test]
fn hit_some_negative() {
    let xs = keys(&[-1., 1.]);
    assert_eq!(hit(&xs), Some(1));
}

#[test]
fn hit_all_negative() {
    let xs = keys(&[-2., -1.]);
    assert_eq!(hit(&xs), None);
}

#[test]
fn hit_lowest_non_negative() {
    let xs = keys(&[5., 7., -3., 2.]);
    assert_eq!(hit(&xs), Some(3));
}

#[test]
fn hit_empty_list() {
    assert_eq!(hit(&[]), None);
}

#[test]
fn hit_counts_zero_as_visible() {
    let xs = keys(&[-0.5, 0.0, 3.0]);
    assert_eq!(hit(&xs), Some(1));
}

#[test]
fn hit_skips_negative_zero() {
    let xs = keys(&[-0.0, 3.0]);
    assert_eq!(hit(&xs), Some(1));
}

#[test]
fn hit_takes_first_of_equal_keys() {
    assert_eq!(hit(&[4, 9, 4, 2, 2]), Some(3));
}

#[test]
fn keys_follow_the_order_of_t() {
    let ts = [-7.5, -1.0, -1e-9, -0.0, 0.0, 1e-9, 0.5, 2.0, 1e9];
    for w in ts.windows(2) {
        assert!(key(w[0]) < key(w[1]));
    }
}

#[test]
fn intersect_world() {
    // A unit sphere and one scaled by 0.5, both at the origin, seen from
    // (0, 0, -5) along +z: each object's hits come in turn.
    let ts = [4., 6., 4.5, 5.5];
    let order = sort_order(&keys(&ts));
    assert_eq!(order.len(), 4);
    assert_eq!(ts[order[0]], 4.);
    assert_eq!(ts[order[1]], 4.5);
    assert_eq!(ts[order[2]], 5.5);
    assert_eq!(ts[order[3]], 6.);
}

#[test]
fn sort_order_is_stable() {
    assert_eq!(sort_order(&[3, 1, 3, 1, 2]), vec![1, 3, 4, 0, 2]);
}

#[test]
fn sort_order_of_nothing() {
    assert_eq!(sort_order(&[]), Vec::<usize>::new());
}

#[test]
fn sort_order_keeps_sorted_input() {
    assert_eq!(sort_order(&[-4, 0, 0, 8]), vec![0, 1, 2, 3]);
}

fn refractive_index(medium: Option<usize>, indices: &[f64]) -> f64 {
    match medium {
        Some(o) => indices[o],
        None => 1.0,
    }
}

#[test]
fn n1_n2_at_intersections() {
    // Three glass spheres: A scaled by 2 (index 1.5), B moved to z = -0.25
    // (2.0), C moved to z = 0.25 (2.5), crossed from (0, 0, -4) along +z.
    let indices = [1.5, 2.0, 2.5];
    let objects = [0, 1, 2, 1, 2, 0];
    let n1s = vec![1.0, 1.5, 2.0, 2.5, 2.5, 1.5];
    let n2s = vec![1.5, 2.0, 2.5, 2.5, 1.5, 1.0];

    for i in 0..objects.len() {
        let (leaving, entering) = media_at(&objects, i);
        assert_eq!(refractive_index(leaving, &indices), n1s[i]);
        assert_eq!(refractive_index(entering, &indices), n2s[i]);
    }
}

#[test]
fn media_of_a_lone_intersection() {
    assert_eq!(media_at(&[7], 0), (None, Some(7)));
}

#[test]
fn media_leaving_an_inner_object() {
    // Entered 0, then 1; the next crossing of 0 leaves 0 while still in 1.
    assert_eq!(media_at(&[0, 1, 0, 1], 2), (Some(1), Some(1)));
    assert_eq!(media_at(&[0, 1, 0, 1], 3), (Some(1), None));
}
