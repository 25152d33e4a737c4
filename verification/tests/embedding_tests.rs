use cearch::embedding::blob_to_embedding;
use cearch::embedding::check_embedding;
use cearch::embedding::distance_sq;
use cearch::embedding::embedding_to_blob;
use cearch::embedding::COMPONENT_LIMIT;

#[test]
fn distance_is_exact_squared_euclidean() {
    let a: Vec<i64> = vec![0, 0];
    let b: Vec<i64> = vec![3, 4];
    assert_eq!(distance_sq(&a, &b), 25);
    assert_eq!(distance_sq(&b, &a), 25);
    assert_eq!(distance_sq(&a, &a), 0);
    let c: Vec<i64> = vec![-3, 4];
    assert_eq!(distance_sq(&a, &c), 25);
}

#[test]
fn distance_of_empty_vectors_is_zero() {
    let a: Vec<i64> = vec![];
    assert_eq!(distance_sq(&a, &a), 0);
}

#[test]
fn component_bounds_are_enforced() {
    assert!(check_embedding(&vec![0, COMPONENT_LIMIT, -COMPONENT_LIMIT]));
    assert!(!check_embedding(&vec![COMPONENT_LIMIT + 1]));
    assert!(!check_embedding(&vec![-COMPONENT_LIMIT - 1]));
    assert!(check_embedding(&vec![]));
}

#[test]
fn blob_round_trips() {
    let v: Vec<i64> = vec![0, 1, -1, 1000, -1000, COMPONENT_LIMIT, -COMPONENT_LIMIT];
    let blob = embedding_to_blob(&v);
    assert_eq!(blob.len(), 8 * v.len());
    let back = blob_to_embedding(blob.as_slice(), v.len());
    assert_eq!(back, Some(v));
}

#[test]
fn blob_of_wrong_length_is_rejected() {
    let v: Vec<i64> = vec![1, 2, 3];
    let blob = embedding_to_blob(&v);
    assert_eq!(blob_to_embedding(blob.as_slice(), 2), None);
    assert_eq!(blob_to_embedding(blob.as_slice(), 4), None);
}

#[test]
fn blob_with_out_of_range_component_is_rejected() {
    let blob: Vec<u8> = vec![0xff; 8];
    assert_eq!(blob_to_embedding(blob.as_slice(), 1), None);
}
