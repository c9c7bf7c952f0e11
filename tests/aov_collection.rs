use bevy_cryotheum::aov_collection::{AovCollection, AovCollectionMut, AovVec};

#[test]
fn insert_fills_the_gap_and_reads_back() {
    let mut v: AovVec<u32, 3> = Vec::new();
    assert_eq!(v.aov_insert(1, &2, 7), None);
    assert_eq!(v.len(), 3);
    assert_eq!(v.aov_get(1, &2), Some(&7));
    assert!(v.aov_contains(1, &2));
    assert!(!v.aov_contains(0, &2));
    assert_eq!(v.aov_get(1, &0), None);
    assert_eq!(v.aov_get_array(&1), Some(&[None, None, None]));
    assert_eq!(v.aov_get_array(&5), None);
    assert_eq!(v.aov_insert(1, &2, 8), Some(7));
    *v.aov_get_mut(1, &2).unwrap() = 9;
    assert_eq!(v.aov_get(1, &2), Some(&9));
    assert!(v.aov_get_mut(0, &2).is_none());
}

#[test]
fn remove_trims_empty_arrays_at_the_end() {
    let mut v: AovVec<u32, 2> = Vec::new();
    v.aov_insert(0, &0, 1);
    v.aov_insert(0, &3, 4);
    assert_eq!(v.len(), 4);
    assert_eq!(v.aov_remove(0, &3), Some(4));
    assert_eq!(v.len(), 1);
    assert_eq!(v.aov_remove(1, &0), None);
    assert_eq!(v.aov_remove(0, &9), None);
}

#[test]
fn remove_array_keeps_keys_in_place() {
    let mut v: AovVec<u32, 2> = Vec::new();
    v.aov_insert(0, &0, 1);
    v.aov_insert(1, &1, 2);
    v.aov_insert(0, &2, 3);
    assert_eq!(v.aov_remove_array(&1), Some([None, Some(2)]));
    assert_eq!(v.len(), 3);
    assert_eq!(v.aov_remove_array(&2), Some([Some(3), None]));
    assert_eq!(v.len(), 1);
    assert_eq!(v.aov_remove_array(&5), None);
    let mut e: AovVec<u32, 2> = Vec::new();
    assert_eq!(e.aov_remove_array(&0), None);
}
