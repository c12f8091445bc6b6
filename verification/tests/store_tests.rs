use deskflow::errors::StoreError;
use deskflow::reading_list::{Article, MergePolicy, Properties, ReadingInfo, ReadingList};
use deskflow::store::{
    choose_next, ingest_and_refresh, load_records, save_records, temp_path_for, DiskModel,
};

fn rec(id: &str, url: &str, read: bool, weight: i32) -> ReadingList {
    ReadingList {
        id: id.to_string(),
        url: url.to_string(),
        did_i_read_it: read,
        priority: weight,
    }
}

fn art(id: &str, url: &str, read: bool) -> Article {
    Article {
        id: id.to_string(),
        url: url.to_string(),
        properties: Properties { reading_info: ReadingInfo { read_it: read } },
    }
}

#[test]
fn temp_path_is_a_sibling_of_the_target() {
    assert_eq!(temp_path_for("data/reading_list.csv"), "data/reading_list.csv.tmp");
}

#[test]
fn save_then_load_round_trips() {
    let mut disk = DiskModel { target: None, temp: None };
    let records = vec![rec("a", "u1", false, 100), rec("b,c", "u\"2\"", true, 50)];
    save_records(&mut disk, &records, true, true).unwrap();
    let loaded = load_records(&disk).unwrap();
    assert_eq!(loaded.len(), 2);
    assert_eq!(loaded[0].id, "a");
    assert_eq!(loaded[1].id, "b,c");
    assert_eq!(loaded[1].url, "u\"2\"");
    assert_eq!(loaded[1].priority, 50);
}

#[test]
fn load_of_absent_file_is_store_unavailable() {
    let disk = DiskModel { target: None, temp: None };
    let r = load_records(&disk);
    assert!(matches!(r, Err(StoreError::StoreUnavailable)));
}

#[test]
fn failed_write_step_leaves_previous_content_readable() {
    // a deterministic failure of the temporary-file write
    let mut disk = DiskModel { target: None, temp: None };
    let old_records = vec![rec("a", "u1", false, 100)];
    save_records(&mut disk, &old_records, true, true).unwrap();
    let old_content = disk.target.clone().unwrap();

    let new_records = vec![rec("b", "u2", true, 50)];
    let r = save_records(&mut disk, &new_records, false, true);
    assert!(matches!(r, Err(StoreError::PersistenceFailure)));
    assert_eq!(disk.target.as_ref().unwrap(), &old_content);

    let loaded = load_records(&disk).unwrap();
    assert_eq!(loaded.len(), 1);
    assert_eq!(loaded[0].id, "a");
    assert_eq!(loaded[0].priority, 100);
}

#[test]
fn failed_rename_step_leaves_previous_content_readable() {
    let mut disk = DiskModel { target: None, temp: None };
    let old_records = vec![rec("a", "u1", false, 100)];
    save_records(&mut disk, &old_records, true, true).unwrap();

    let new_records = vec![rec("b", "u2", true, 50)];
    let r = save_records(&mut disk, &new_records, true, false);
    assert!(matches!(r, Err(StoreError::PersistenceFailure)));

    let loaded = load_records(&disk).unwrap();
    assert_eq!(loaded.len(), 1);
    assert_eq!(loaded[0].id, "a");
}

#[test]
fn ingest_merges_and_persists() {
    let mut disk = DiskModel { target: None, temp: None };
    save_records(&mut disk, &vec![rec("a", "u1", false, 100)], true, true).unwrap();

    let batch = vec![art("a", "u1", true), art("b", "u2", false)];
    ingest_and_refresh(&mut disk, &batch, MergePolicy::Promote, true, true).unwrap();

    let loaded = load_records(&disk).unwrap();
    assert_eq!(loaded.len(), 2);
    assert_eq!(loaded[0].id, "a");
    assert!(loaded[0].did_i_read_it);
    assert_eq!(loaded[0].priority, 100);
    assert_eq!(loaded[1].id, "b");
    assert!(!loaded[1].did_i_read_it);
    assert_eq!(loaded[1].priority, 100);
}

#[test]
fn ingest_into_absent_store_fails_without_mutation() {
    let mut disk = DiskModel { target: None, temp: None };
    let r = ingest_and_refresh(&mut disk, &vec![art("a", "u", false)], MergePolicy::Promote, true, true);
    assert!(matches!(r, Err(StoreError::StoreUnavailable)));
    assert!(disk.target.is_none());
}

#[test]
fn ingest_of_malformed_store_fails_without_mutation() {
    let mut disk = DiskModel { target: Some("id,url,read,weight\nbroken\n".to_string()), temp: None };
    let r = ingest_and_refresh(&mut disk, &vec![art("a", "u", false)], MergePolicy::Promote, true, true);
    assert!(matches!(r, Err(StoreError::MalformedRecord { row: 1 })));
    assert_eq!(disk.target.as_ref().unwrap(), "id,url,read,weight\nbroken\n");
}

#[test]
fn choose_next_on_empty_store_fails_with_no_selectable_record() {
    let mut disk = DiskModel { target: None, temp: None };
    save_records(&mut disk, &Vec::new(), true, true).unwrap();
    let r = choose_next(&mut disk, true, true);
    assert!(matches!(r, Err(StoreError::NoSelectableRecord)));
}

#[test]
fn choose_next_decays_and_persists_the_chosen_record() {
    let mut disk = DiskModel { target: None, temp: None };
    save_records(&mut disk, &vec![rec("a", "u-a", false, 100), rec("z", "u-z", true, 0)], true, true)
        .unwrap();
    let url = choose_next(&mut disk, true, true).unwrap();
    assert_eq!(url, "u-a");
    let loaded = load_records(&disk).unwrap();
    assert_eq!(loaded[0].priority, 99);
    assert_eq!(loaded[1].priority, 0);
}

#[test]
fn choose_next_persistence_failure_leaves_store_untouched() {
    let mut disk = DiskModel { target: None, temp: None };
    save_records(&mut disk, &vec![rec("a", "u-a", false, 100)], true, true).unwrap();
    let before = disk.target.clone().unwrap();
    let r = choose_next(&mut disk, true, false);
    assert!(matches!(r, Err(StoreError::PersistenceFailure)));
    assert_eq!(disk.target.as_ref().unwrap(), &before);
    let loaded = load_records(&disk).unwrap();
    assert_eq!(loaded[0].priority, 100);
}

#[test]
fn error_messages_are_distinct() {
    let errors = [
        StoreError::ConfigurationError,
        StoreError::StoreUnavailable,
        StoreError::MalformedRecord { row: 3 },
        StoreError::NoSelectableRecord,
        StoreError::PersistenceFailure,
    ];
    for i in 0..errors.len() {
        for j in (i + 1)..errors.len() {
            assert_ne!(errors[i].message(), errors[j].message());
        }
    }
}
