use deskflow::errors::StoreError;
use deskflow::reading_list::ReadingList;
use deskflow::select::{choose_article_at, compute_total_weight, randomly_choose_article};

fn rec(id: &str, url: &str, read: bool, weight: i32) -> ReadingList {
    ReadingList {
        id: id.to_string(),
        url: url.to_string(),
        did_i_read_it: read,
        priority: weight,
    }
}

#[test]
fn empty_store_yields_no_selectable_record() {
    let mut records: Vec<ReadingList> = Vec::new();
    let r = randomly_choose_article(&mut records);
    assert!(matches!(r, Err(StoreError::NoSelectableRecord)));
    assert!(records.is_empty());
}

#[test]
fn all_zero_weights_yield_no_selectable_record() {
    let mut records = vec![rec("a", "u1", false, 0), rec("b", "u2", true, 0)];
    let r = randomly_choose_article(&mut records);
    assert!(matches!(r, Err(StoreError::NoSelectableRecord)));
    assert_eq!(records[0].priority, 0);
    assert_eq!(records[1].priority, 0);
}

#[test]
fn zero_weight_record_is_never_selected() {
    // store holds weights {100, 0}; selection runs 1000 times
    for _ in 0..1000 {
        let mut records = vec![rec("a", "u-a", false, 100), rec("z", "u-z", true, 0)];
        let url = randomly_choose_article(&mut records).unwrap();
        assert_eq!(url, "u-a");
        assert_eq!(records[0].priority, 99);
        assert_eq!(records[1].priority, 0);
    }
}

#[test]
fn negative_weight_record_is_never_selected() {
    for _ in 0..500 {
        let mut records = vec![rec("n", "u-n", false, -5), rec("p", "u-p", false, 3)];
        let url = randomly_choose_article(&mut records).unwrap();
        assert_eq!(url, "u-p");
        assert_eq!(records[0].priority, -5);
        assert_eq!(records[1].priority, 2);
    }
}

#[test]
fn decay_is_exactly_one_and_touches_only_the_chosen_record() {
    let mut records = vec![
        rec("a", "u-a", false, 5),
        rec("b", "u-b", true, 7),
        rec("c", "u-c", false, 11),
    ];
    let before: Vec<i32> = records.iter().map(|r| r.priority).collect();
    let url = randomly_choose_article(&mut records).unwrap();
    let mut decayed = 0;
    for i in 0..records.len() {
        if records[i].priority == before[i] - 1 {
            decayed += 1;
            assert_eq!(records[i].url, url);
        } else {
            assert_eq!(records[i].priority, before[i]);
        }
    }
    assert_eq!(decayed, 1);
}

#[test]
fn total_weight_counts_only_positive_weights() {
    let records = vec![
        rec("a", "u", false, 10),
        rec("b", "u", false, 0),
        rec("c", "u", false, -4),
        rec("d", "u", false, 7),
    ];
    assert_eq!(compute_total_weight(&records), 17);
}

#[test]
fn slots_map_to_records_in_order() {
    // weights 2 and 3: slots 0..2 belong to "a", slots 2..5 to "b"
    for (slot, expect) in [(0u128, "u-a"), (1, "u-a"), (2, "u-b"), (4, "u-b")] {
        let mut records = vec![rec("a", "u-a", false, 2), rec("b", "u-b", false, 3)];
        let url = choose_article_at(&mut records, slot);
        assert_eq!(url, expect);
    }
}

#[test]
fn repeated_selection_exhausts_weights_then_fails() {
    let mut records = vec![rec("a", "u-a", false, 3), rec("b", "u-b", false, 2)];
    for _ in 0..5 {
        assert!(randomly_choose_article(&mut records).is_ok());
    }
    assert_eq!(records[0].priority, 0);
    assert_eq!(records[1].priority, 0);
    let r = randomly_choose_article(&mut records);
    assert!(matches!(r, Err(StoreError::NoSelectableRecord)));
}
