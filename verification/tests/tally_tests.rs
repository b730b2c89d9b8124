use zenoh_mcp::tally::KeyTally;

fn rows(t: &KeyTally) -> Vec<(String, Option<String>, u64)> {
    t.entries().iter().map(|e| (e.key.clone(), e.ros_type.clone(), e.samples)).collect()
}

#[test]
fn tally_counts_by_readable_key_in_order() {
    let mut t = KeyTally::new();
    t.record("0/kuka/pose/geometry_msgs::msg::dds_::PoseStamped_/RIHS01_aa");
    t.record("0/chatter/std_msgs::msg::dds_::String_/RIHS01_bb");
    t.record("0/kuka/pose/geometry_msgs::msg::dds_::PoseStamped_/RIHS01_aa");
    t.record("demo/test");
    assert_eq!(
        rows(&t),
        vec![
            ("0/chatter".to_string(), Some("std_msgs/String".to_string()), 1),
            ("0/kuka/pose".to_string(), Some("geometry_msgs/PoseStamped".to_string()), 2),
            ("demo/test".to_string(), None, 1),
        ]
    );
    assert_eq!(t.total(), 4);
}

#[test]
fn tally_keeps_type_of_first_sample() {
    let mut t = KeyTally::new();
    t.record("0/topic");
    t.record("0/topic/std_msgs::msg::dds_::Bool_/RIHS01_x");
    assert_eq!(rows(&t), vec![("0/topic".to_string(), None, 2)]);
}

#[test]
fn tally_orders_like_string_ord() {
    let mut t = KeyTally::new();
    for k in ["b", "a/b", "a", "é", "Z", "a/"] {
        t.record(k);
    }
    let keys: Vec<String> = t.entries().iter().map(|e| e.key.clone()).collect();
    let mut sorted = keys.clone();
    sorted.sort();
    assert_eq!(keys, sorted);
    assert_eq!(keys, vec!["Z", "a", "a/", "a/b", "b", "é"]);
}

#[test]
fn empty_tally() {
    let t = KeyTally::new();
    assert!(t.entries().is_empty());
    assert_eq!(t.total(), 0);
}
