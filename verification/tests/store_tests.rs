use person_service::store::PersonStore;

fn names(s: &PersonStore) -> Vec<(u64, Vec<u8>)> {
    s.list_all().into_iter().map(|p| (p.id, p.name)).collect()
}

#[test]
fn seeded_contents() {
    let s = PersonStore::seeded();
    assert_eq!(names(&s), vec![(0, b"Jim".to_vec()), (1, b"Joe".to_vec())]);
}

#[test]
fn empty_store_first_id_is_zero() {
    let mut s = PersonStore::empty();
    let p = s.add(b"First".to_vec());
    assert_eq!(p.id, 0);
    assert_eq!(names(&s), vec![(0, b"First".to_vec())]);
}

#[test]
fn add_then_find_returns_new_record() {
    let mut s = PersonStore::seeded();
    let p = s.add(b"X".to_vec());
    assert_eq!(p.id, 2);
    let found = s.find_by_id(2).expect("the added record must be found");
    assert_eq!(found.id, 2);
    assert_eq!(found.name, b"X".to_vec());
}

#[test]
fn delete_then_get_is_not_found() {
    let mut s = PersonStore::seeded();
    assert!(s.delete_by_id(0));
    assert!(s.find_by_id(0).is_none());
    assert_eq!(names(&s), vec![(1, b"Joe".to_vec())]);
}

#[test]
fn delete_missing_reports_not_found() {
    let mut s = PersonStore::seeded();
    assert!(!s.delete_by_id(7));
    assert_eq!(names(&s).len(), 2);
}

#[test]
fn update_preserves_id_and_changes_name() {
    let mut s = PersonStore::seeded();
    let p = s.update_by_id(1, b"Y".to_vec()).expect("id 1 exists");
    assert_eq!(p.id, 1);
    assert_eq!(p.name, b"Y".to_vec());
    let found = s.find_by_id(1).unwrap();
    assert_eq!(found.id, 1);
    assert_eq!(found.name, b"Y".to_vec());
}

#[test]
fn update_missing_reports_not_found() {
    let mut s = PersonStore::seeded();
    assert!(s.update_by_id(9, b"Y".to_vec()).is_none());
    assert_eq!(names(&s), vec![(0, b"Jim".to_vec()), (1, b"Joe".to_vec())]);
}

#[test]
fn many_adds_grow_by_n_with_distinct_ids() {
    let mut s = PersonStore::seeded();
    let before = names(&s).len();
    let n = 10;
    for k in 0..n {
        s.add(format!("person-{}", k).into_bytes());
    }
    let all = names(&s);
    assert_eq!(all.len(), before + n);
    for i in 0..all.len() {
        for j in 0..all.len() {
            if i != j {
                assert_ne!(all[i].0, all[j].0);
            }
        }
    }
}

#[test]
fn repeated_reads_are_identical() {
    let mut s = PersonStore::seeded();
    s.add(b"Sam".to_vec());
    let first = names(&s);
    let second = names(&s);
    assert_eq!(first, second);
}

#[test]
fn seed_add_delete_scenario() {
    let mut s = PersonStore::seeded();
    let p = s.add(b"Sam".to_vec());
    assert_eq!(p.id, 2);
    assert!(s.delete_by_id(0));
    assert_eq!(names(&s), vec![(1, b"Joe".to_vec()), (2, b"Sam".to_vec())]);
    assert!(s.find_by_id(0).is_none());
}

#[test]
fn deleting_the_last_record_reuses_its_id() {
    // The allocation policy is last-inserted id plus one, so deleting the
    // newest record and adding again hands the same id out once more.
    let mut s = PersonStore::seeded();
    assert!(s.delete_by_id(1));
    let p = s.add(b"Z".to_vec());
    assert_eq!(p.id, 1);
    assert_eq!(names(&s), vec![(0, b"Jim".to_vec()), (1, b"Z".to_vec())]);
}
