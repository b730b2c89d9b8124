use zenoh_mcp::key::{ros_type, short_key};

const POSE_KEY: &str =
    "0/kuka/pose/geometry_msgs::msg::dds_::PoseStamped_/RIHS01_10f3786d7d40fd2b";

#[test]
fn ros_type_of_rmw_zenoh_key() {
    assert_eq!(ros_type(POSE_KEY), Some("geometry_msgs/PoseStamped".to_string()));
}

#[test]
fn ros_type_of_plain_key_is_none() {
    assert_eq!(ros_type("demo/test"), None);
    assert_eq!(ros_type(""), None);
    assert_eq!(ros_type("@/3e68be0d/router"), None);
}

#[test]
fn ros_type_keeps_name_without_trailing_underscore() {
    assert_eq!(ros_type("0/chatter/std_msgs::msg::dds_::String"), Some("std_msgs/String".to_string()));
}

#[test]
fn ros_type_strips_only_one_underscore() {
    assert_eq!(ros_type("pkg::msg::dds_::Name__"), Some("pkg/Name_".to_string()));
}

#[test]
fn ros_type_needs_package_and_name() {
    assert_eq!(ros_type("0/::msg::dds_::Name_"), None);
    assert_eq!(ros_type("0/pkg::msg::dds_::_"), None);
    assert_eq!(ros_type("0/pkg::msg::dds_::"), None);
}

#[test]
fn ros_type_takes_first_segment_that_names_a_type() {
    assert_eq!(
        ros_type("::msg::dds_::X_/a::msg::dds_::B_/c::msg::dds_::D_"),
        Some("a/B".to_string())
    );
}

#[test]
fn ros_type_splits_at_first_marker() {
    assert_eq!(
        ros_type("p::msg::dds_::A::msg::dds_::B_"),
        Some("p/A::msg::dds_::B".to_string())
    );
}

#[test]
fn ros_type_handles_non_ascii() {
    assert_eq!(ros_type("0/thé/pkg_é::msg::dds_::Nämé_/RIHS01_x"), Some("pkg_é/Nämé".to_string()));
}

#[test]
fn short_key_drops_type_and_hash() {
    assert_eq!(short_key(POSE_KEY), "0/kuka/pose");
}

#[test]
fn short_key_keeps_plain_key() {
    assert_eq!(short_key("demo/test"), "demo/test");
    assert_eq!(short_key("a//b/"), "a//b/");
    assert_eq!(short_key(""), "");
}

#[test]
fn short_key_stops_at_hash_segment() {
    assert_eq!(short_key("0/chatter/RIHS01_abc/more"), "0/chatter");
}

#[test]
fn short_key_keeps_whole_key_when_tag_comes_first() {
    let key = "std_msgs::msg::dds_::String_/RIHS01_ab";
    assert_eq!(short_key(key), key);
    assert_eq!(short_key("RIHS01_ab/x"), "RIHS01_ab/x");
}

#[test]
fn short_key_stops_at_unusable_type_tag() {
    assert_eq!(short_key("0/topic/::msg::dds_::X_/tail"), "0/topic");
}

#[test]
fn short_key_is_idempotent_on_examples() {
    for key in [POSE_KEY, "demo/test", "std_msgs::msg::dds_::String_/x", "", "a/RIHS01_/b"] {
        let once = short_key(key);
        assert_eq!(short_key(&once), once);
    }
}

#[test]
fn composed_key_gives_back_topic_and_type() {
    let topic = "42/robot/arm/joint_states";
    let key = format!("{topic}/sensor_msgs::msg::dds_::JointState_/RIHS01_0011aabb");
    assert_eq!(ros_type(&key), Some("sensor_msgs/JointState".to_string()));
    assert_eq!(short_key(&key), topic);
}
