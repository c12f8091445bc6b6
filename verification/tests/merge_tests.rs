use deskflow::reading_list::{
    update_reading_list, Article, MergePolicy, Properties, ReadingInfo, ReadingList,
};

fn rec(id: &str, url: &str, read: bool, weight: i32) -> ReadingList {
    ReadingList {
        id: id.to_string(),
        url: url.to_string(),
        did_i_read_it: read,
        priority: weight,
    }
}

fn art(id: &str, url: &str, read: bool) -> Article {
    Article {
        id: id.to_string(),
        url: url.to_string(),
        properties: Properties { reading_info: ReadingInfo { read_it: read } },
    }
}

#[test]
fn insert_unread_gets_weight_100() {
    let merged = update_reading_list(Vec::new(), &vec![art("a", "u1", false)], MergePolicy::Promote);
    assert_eq!(merged.len(), 1);
    assert_eq!(merged[0].id, "a");
    assert_eq!(merged[0].url, "u1");
    assert!(!merged[0].did_i_read_it);
    assert_eq!(merged[0].priority, 100);
}

#[test]
fn insert_read_gets_weight_50() {
    let merged = update_reading_list(Vec::new(), &vec![art("b", "u2", true)], MergePolicy::Promote);
    assert_eq!(merged.len(), 1);
    assert!(merged[0].did_i_read_it);
    assert_eq!(merged[0].priority, 50);
}

#[test]
fn merge_known_id_keeps_weight() {
    // store [{id:"a", url:"u1", read:false, weight:100}]; merge [{id:"a", url:"u1", read:true}]
    let existing = vec![rec("a", "u1", false, 100)];
    let merged = update_reading_list(existing, &vec![art("a", "u1", true)], MergePolicy::Promote);
    assert_eq!(merged.len(), 1);
    assert_eq!(merged[0].id, "a");
    assert!(merged[0].did_i_read_it);
    assert_eq!(merged[0].priority, 100);
}

#[test]
fn merge_known_id_keeps_weight_under_overwrite() {
    let existing = vec![rec("a", "u1", false, 73)];
    let merged = update_reading_list(existing, &vec![art("a", "u1", true)], MergePolicy::Overwrite);
    assert_eq!(merged.len(), 1);
    assert!(merged[0].did_i_read_it);
    assert_eq!(merged[0].priority, 73);
}

#[test]
fn promote_policy_never_reverts_read() {
    let existing = vec![rec("a", "u1", true, 50)];
    let merged = update_reading_list(existing, &vec![art("a", "u1", false)], MergePolicy::Promote);
    assert!(merged[0].did_i_read_it);
    assert_eq!(merged[0].priority, 50);
}

#[test]
fn overwrite_policy_takes_latest_read() {
    let existing = vec![rec("a", "u1", true, 50)];
    let merged = update_reading_list(existing, &vec![art("a", "u1", false)], MergePolicy::Overwrite);
    assert!(!merged[0].did_i_read_it);
    assert_eq!(merged[0].priority, 50);
}

#[test]
fn records_absent_from_batch_are_retained_unchanged() {
    let existing = vec![rec("a", "u1", false, 100), rec("b", "u2", true, 42)];
    let merged = update_reading_list(existing, &vec![art("c", "u3", false)], MergePolicy::Promote);
    assert_eq!(merged.len(), 3);
    assert_eq!(merged[0].id, "a");
    assert_eq!(merged[0].priority, 100);
    assert!(!merged[0].did_i_read_it);
    assert_eq!(merged[1].id, "b");
    assert_eq!(merged[1].priority, 42);
    assert!(merged[1].did_i_read_it);
    assert_eq!(merged[2].id, "c");
    assert_eq!(merged[2].priority, 100);
}

#[test]
fn ids_stay_unique_over_a_sequence_of_merges() {
    let mut store: Vec<ReadingList> = Vec::new();
    let batches = vec![
        vec![art("a", "u1", false), art("b", "u2", true)],
        vec![art("b", "u2", false), art("c", "u3", false)],
        vec![art("a", "u1", true), art("c", "u3", true), art("d", "u4", false)],
        vec![art("a", "u1", true), art("a", "u1", false)],
    ];
    for batch in &batches {
        store = update_reading_list(store, batch, MergePolicy::Promote);
        for i in 0..store.len() {
            for j in (i + 1)..store.len() {
                assert_ne!(store[i].id, store[j].id);
            }
        }
    }
    assert_eq!(store.len(), 4);
}

#[test]
fn merge_does_not_touch_url_of_known_record() {
    let existing = vec![rec("a", "old-url", false, 100)];
    let merged =
        update_reading_list(existing, &vec![art("a", "new-url", true)], MergePolicy::Promote);
    assert_eq!(merged[0].url, "old-url");
}
