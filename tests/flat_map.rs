use fui::collection::ObservableCollection;
use fui::flat_map::{ObservableCollectionFlatMap, ObservableCollectionFlatMapExt};
use fui::observable_vec::ObservableVec;
use fui::vec_diff::VecDiff;

fn expand(s: char) -> Vec<i32> {
    match s {
        'A' => vec![1, 2],
        'B' => vec![3],
        'C' => vec![4, 5],
        'D' => vec![6, 7, 8],
        'E' => vec![],
        _ => vec![0],
    }
}

fn contents(fm: &ObservableCollectionFlatMap<i32>) -> Vec<i32> {
    let mut r = Vec::new();
    for i in 0..fm.len() {
        r.push(fm.get(i).unwrap());
    }
    r
}

fn two_item_map() -> (ObservableVec<char>, ObservableCollectionFlatMap<i32>) {
    let source = ObservableVec::from_vec(vec!['A', 'B']);
    let fm = source.flat_map(&expand);
    (source, fm)
}

#[test]
fn flat_map_concatenates_in_source_order() {
    let (_source, fm) = two_item_map();
    assert_eq!(contents(&fm), vec![1, 2, 3]);
    assert_eq!(fm.len(), 3);
    assert_eq!(fm.sub_collection_count(), 2);
    assert_eq!(fm.get(3), None);
}

#[test]
fn source_insert_expands_new_item_in_place() {
    let (mut source, mut fm) = two_item_map();
    let d = source.insert(1, 'C');
    let (out, key) = fm.apply_source_diff(d, &expand);
    assert_eq!(
        out,
        vec![
            VecDiff::InsertAt { index: 2, value: 4 },
            VecDiff::InsertAt { index: 3, value: 5 }
        ]
    );
    assert!(key.is_some());
    assert_eq!(contents(&fm), vec![1, 2, 4, 5, 3]);
}

#[test]
fn source_remove_reports_removals_highest_first() {
    let (mut source, mut fm) = two_item_map();
    let d = source.insert(1, 'C');
    fm.apply_source_diff(d, &expand);
    let d = source.remove(0);
    let (out, key) = fm.apply_source_diff(d, &expand);
    assert_eq!(
        out,
        vec![VecDiff::RemoveAt { index: 1 }, VecDiff::RemoveAt { index: 0 }]
    );
    assert_eq!(key, None);
    assert_eq!(contents(&fm), vec![4, 5, 3]);
}

#[test]
fn sub_collection_insert_lands_at_its_offset() {
    let (_source, mut fm) = two_item_map();
    let key_b = fm.sub_collection_key(1).unwrap();
    let out = fm.handle_sub_diff(key_b, VecDiff::InsertAt { index: 0, value: 9 });
    assert_eq!(out, vec![VecDiff::InsertAt { index: 2, value: 9 }]);
    assert_eq!(contents(&fm), vec![1, 2, 9, 3]);
}

#[test]
fn sub_collection_remove_and_clear() {
    let (_source, mut fm) = two_item_map();
    let key_a = fm.sub_collection_key(0).unwrap();
    let key_b = fm.sub_collection_key(1).unwrap();
    let out = fm.handle_sub_diff(key_a, VecDiff::RemoveAt { index: 1 });
    assert_eq!(out, vec![VecDiff::RemoveAt { index: 1 }]);
    assert_eq!(contents(&fm), vec![1, 3]);
    let out = fm.handle_sub_diff(key_b, VecDiff::InsertAt { index: 1, value: 4 });
    assert_eq!(out, vec![VecDiff::InsertAt { index: 2, value: 4 }]);
    assert_eq!(contents(&fm), vec![1, 3, 4]);
    let out = fm.handle_sub_diff(key_b, VecDiff::Clear);
    assert_eq!(
        out,
        vec![VecDiff::RemoveAt { index: 2 }, VecDiff::RemoveAt { index: 1 }]
    );
    assert_eq!(contents(&fm), vec![1]);
    assert_eq!(fm.sub_collection_count(), 2);
    // the emptied sub-collection keeps its place
    let out = fm.handle_sub_diff(key_b, VecDiff::InsertAt { index: 0, value: 7 });
    assert_eq!(out, vec![VecDiff::InsertAt { index: 1, value: 7 }]);
    assert_eq!(contents(&fm), vec![1, 7]);
}

#[test]
fn source_clear_emits_single_clear() {
    let mut source = ObservableVec::from_vec(vec!['A', 'B', 'C']);
    let mut fm = source.flat_map(&expand);
    assert_eq!(contents(&fm), vec![1, 2, 3, 4, 5]);
    let d = source.clear();
    let (out, key) = fm.apply_source_diff(d, &expand);
    assert_eq!(out, vec![VecDiff::Clear]);
    assert_eq!(key, None);
    assert_eq!(fm.len(), 0);
    assert_eq!(fm.sub_collection_count(), 0);
}

#[test]
fn removed_sub_collection_no_longer_affects_output() {
    let (mut source, mut fm) = two_item_map();
    let key_a = fm.sub_collection_key(0).unwrap();
    let d = source.remove(0);
    fm.apply_source_diff(d, &expand);
    assert_eq!(contents(&fm), vec![3]);
    let out = fm.handle_sub_diff(key_a, VecDiff::InsertAt { index: 0, value: 42 });
    assert!(out.is_empty());
    let out = fm.handle_sub_diff(key_a, VecDiff::Clear);
    assert!(out.is_empty());
    assert_eq!(contents(&fm), vec![3]);
}

#[test]
fn empty_sub_collection_is_tracked() {
    let mut source = ObservableVec::from_vec(vec!['E', 'B']);
    let mut fm = source.flat_map(&expand);
    assert_eq!(contents(&fm), vec![3]);
    assert_eq!(fm.sub_collection_count(), 2);
    let key_e = fm.sub_collection_key(0).unwrap();
    let out = fm.handle_sub_diff(key_e, VecDiff::InsertAt { index: 0, value: 5 });
    assert_eq!(out, vec![VecDiff::InsertAt { index: 0, value: 5 }]);
    assert_eq!(contents(&fm), vec![5, 3]);
    let d = source.push('E');
    let (out, _) = fm.apply_source_diff(d, &expand);
    assert!(out.is_empty());
    assert_eq!(fm.sub_collection_count(), 3);
}

#[test]
fn handle_source_diff_takes_mapped_contents() {
    let mut fm: ObservableCollectionFlatMap<i32> = ObservableCollectionFlatMap::new();
    let (out, key) = fm.handle_source_diff(VecDiff::InsertAt { index: 0, value: vec![10, 20] });
    assert_eq!(
        out,
        vec![
            VecDiff::InsertAt { index: 0, value: 10 },
            VecDiff::InsertAt { index: 1, value: 20 }
        ]
    );
    assert_eq!(key, fm.sub_collection_key(0));
    let (out, _) = fm.handle_source_diff(VecDiff::InsertAt { index: 0, value: vec![5] });
    assert_eq!(out, vec![VecDiff::InsertAt { index: 0, value: 5 }]);
    assert_eq!(contents(&fm), vec![5, 10, 20]);
    let (out, _) = fm.handle_source_diff(VecDiff::RemoveAt { index: 1 });
    assert_eq!(
        out,
        vec![VecDiff::RemoveAt { index: 2 }, VecDiff::RemoveAt { index: 1 }]
    );
    assert_eq!(contents(&fm), vec![5]);
}

#[test]
fn keys_stay_distinct_and_follow_their_sub_collection() {
    let (mut source, mut fm) = two_item_map();
    let key_a = fm.sub_collection_key(0).unwrap();
    let key_b = fm.sub_collection_key(1).unwrap();
    assert_ne!(key_a, key_b);
    let d = source.insert(0, 'D');
    let (_, key_d) = fm.apply_source_diff(d, &expand);
    let key_d = key_d.unwrap();
    assert_ne!(key_d, key_a);
    assert_ne!(key_d, key_b);
    assert_eq!(fm.sub_collection_key(1), Some(key_a));
    assert_eq!(fm.sub_collection_key(2), Some(key_b));
    assert_eq!(contents(&fm), vec![6, 7, 8, 1, 2, 3]);
    // B moved from offset 2 to offset 5
    let out = fm.handle_sub_diff(key_b, VecDiff::RemoveAt { index: 0 });
    assert_eq!(out, vec![VecDiff::RemoveAt { index: 5 }]);
}

/// Applies a mixed run of source and sub-collection changes, keeping a plain
/// model of every sub-collection and a mirror that only sees the reported
/// changes; after every step both agree with the flat map.
#[test]
fn flattened_output_tracks_every_change() {
    let mut source = ObservableVec::from_vec(vec!['A', 'B', 'C']);
    let mut fm = source.flat_map(&expand);
    let mut model: Vec<Vec<i32>> = vec![vec![1, 2], vec![3], vec![4, 5]];
    let mut mirror = ObservableVec::from_vec(contents(&fm));

    fn check(fm: &ObservableCollectionFlatMap<i32>, model: &Vec<Vec<i32>>, mirror: &ObservableVec<i32>) {
        let flat: Vec<i32> = model.iter().flatten().copied().collect();
        let total: usize = model.iter().map(|s| s.len()).sum();
        assert_eq!(fm.len(), total);
        assert_eq!(contents(fm), flat);
        let mut start = 0;
        for sub in model {
            for (j, v) in sub.iter().enumerate() {
                assert_eq!(fm.get(start + j), Some(*v));
            }
            start += sub.len();
        }
        let mirrored: Vec<i32> = (0..mirror.len()).map(|i| mirror.get(i).unwrap()).collect();
        assert_eq!(mirrored, flat);
    }

    let steps: Vec<(usize, VecDiff<i32>)> = vec![
        (1, VecDiff::InsertAt { index: 1, value: 30 }),
        (0, VecDiff::RemoveAt { index: 0 }),
        (2, VecDiff::Clear),
        (2, VecDiff::InsertAt { index: 0, value: 50 }),
        (1, VecDiff::InsertAt { index: 0, value: 31 }),
    ];
    for (slot, d) in steps {
        let key = fm.sub_collection_key(slot).unwrap();
        match &d {
            VecDiff::Clear => model[slot].clear(),
            VecDiff::InsertAt { index, value } => model[slot].insert(*index, *value),
            VecDiff::RemoveAt { index } => {
                model[slot].remove(*index);
            }
        }
        for out in fm.handle_sub_diff(key, d) {
            mirror.apply(out);
        }
        check(&fm, &model, &mirror);
    }

    let d = source.insert(1, 'D');
    model.insert(1, vec![6, 7, 8]);
    for out in fm.apply_source_diff(d, &expand).0 {
        mirror.apply(out);
    }
    check(&fm, &model, &mirror);

    let d = source.remove(2);
    model.remove(2);
    for out in fm.apply_source_diff(d, &expand).0 {
        mirror.apply(out);
    }
    check(&fm, &model, &mirror);

    let key = fm.sub_collection_key(2).unwrap();
    model[2].insert(1, 99);
    for out in fm.handle_sub_diff(key, VecDiff::InsertAt { index: 1, value: 99 }) {
        mirror.apply(out);
    }
    check(&fm, &model, &mirror);

    let d = source.clear();
    model.clear();
    for out in fm.apply_source_diff(d, &expand).0 {
        mirror.apply(out);
    }
    check(&fm, &model, &mirror);
}

#[test]
fn flat_map_subscribers_in_registration_order() {
    let (_source, mut fm) = two_item_map();
    let s1 = fm.on_changed().unwrap();
    let s2 = fm.on_changed().unwrap();
    assert_ne!(s1, s2);
    assert_eq!(fm.subscribers(), vec![s1, s2]);
}

#[test]
fn flat_map_of_flat_map() {
    let (mut source, mut inner) = two_item_map();
    let tens = |x: i32| vec![x, x * 10];
    let mut outer = inner.flat_map(&tens);
    assert_eq!(contents(&outer), vec![1, 10, 2, 20, 3, 30]);
    let d = source.push('C');
    let (out, _) = inner.apply_source_diff(d, &expand);
    assert_eq!(out.len(), 2);
    assert_eq!(contents(&inner), vec![1, 2, 3, 4, 5]);
    for d in out {
        outer.apply_source_diff(d, &tens);
    }
    assert_eq!(contents(&outer), vec![1, 10, 2, 20, 3, 30, 4, 40, 5, 50]);
    let key_a = inner.sub_collection_key(0).unwrap();
    for d in inner.handle_sub_diff(key_a, VecDiff::Clear) {
        outer.apply_source_diff(d, &tens);
    }
    assert_eq!(contents(&outer), vec![3, 30, 4, 40, 5, 50]);
}
