use serde_json::Value;
use zenoh_mcp::decode::{decode_untyped, decode_value, message_kind, reply_error_text, sample_record, Decoded, MessageKind};

const KINDS: [MessageKind; 12] = [
    MessageKind::StdString,
    MessageKind::StdBool,
    MessageKind::StdInt32,
    MessageKind::StdInt64,
    MessageKind::StdFloat32,
    MessageKind::StdFloat64,
    MessageKind::PoseStamped,
    MessageKind::TwistStamped,
    MessageKind::Pose,
    MessageKind::Twist,
    MessageKind::JointState,
    MessageKind::Log,
];

fn json(text: &str) -> Value {
    serde_json::from_str(text).unwrap()
}

#[test]
fn every_kind_is_found_by_its_name() {
    for k in KINDS {
        assert_eq!(message_kind(k.ros_name()), Some(k));
    }
}

#[test]
fn message_kind_table() {
    assert_eq!(message_kind("std_msgs/String"), Some(MessageKind::StdString));
    assert_eq!(message_kind("geometry_msgs/PoseStamped"), Some(MessageKind::PoseStamped));
    assert_eq!(message_kind("sensor_msgs/JointState"), Some(MessageKind::JointState));
    assert_eq!(message_kind("rcl_interfaces/Log"), Some(MessageKind::Log));
}

#[test]
fn message_kind_of_unknown_type_is_none() {
    assert_eq!(message_kind("sensor_msgs/Imu"), None);
    assert_eq!(message_kind("std_msgs/string"), None);
    assert_eq!(message_kind("std_msgs/String "), None);
    assert_eq!(message_kind(""), None);
}

#[test]
fn decoded_message_is_returned() {
    let v = json(r#"{"data":"hi"}"#);
    match decode_value(Some("std_msgs/String"), &[0, 1, 0, 0], Some(v.clone())) {
        Decoded::Message(m) => assert_eq!(m, v),
        other => panic!("unexpected {other:?}"),
    }
}

#[test]
fn undecoded_type_gives_preview() {
    match decode_value(Some("sensor_msgs/Imu"), &[0x00, 0x01, 0xab], None) {
        Decoded::Undecoded { ros_type, bytes, hex } => {
            assert_eq!(ros_type, "sensor_msgs/Imu");
            assert_eq!(bytes, 3);
            assert_eq!(hex, "0001ab");
        }
        other => panic!("unexpected {other:?}"),
    }
}

#[test]
fn json_payload_is_parsed() {
    match decode_value(None, br#"{"a": [1, 2], "b": null}"#, None) {
        Decoded::Json(v) => assert_eq!(v, json(r#"{"a":[1,2],"b":null}"#)),
        other => panic!("unexpected {other:?}"),
    }
    match decode_value(None, b" 42 ", None) {
        Decoded::Json(v) => assert_eq!(v, json("42")),
        other => panic!("unexpected {other:?}"),
    }
}

#[test]
fn text_payload_stays_text() {
    match decode_value(None, "hello wörld".as_bytes(), None) {
        Decoded::Text(s) => assert_eq!(s, "hello wörld"),
        other => panic!("unexpected {other:?}"),
    }
    match decode_value(None, b"", None) {
        Decoded::Text(s) => assert_eq!(s, ""),
        other => panic!("unexpected {other:?}"),
    }
    match decode_value(None, b"{\"a\": 1} trailing", None) {
        Decoded::Text(s) => assert_eq!(s, "{\"a\": 1} trailing"),
        other => panic!("unexpected {other:?}"),
    }
}

#[test]
fn binary_payload_gives_preview() {
    match decode_value(None, &[0xff, 0xfe, 0x00], None) {
        Decoded::Binary { bytes, hex } => {
            assert_eq!(bytes, 3);
            assert_eq!(hex, "fffe00");
        }
        other => panic!("unexpected {other:?}"),
    }
}

#[test]
fn message_is_ignored_without_type() {
    match decode_value(None, b"plain", Some(json("1"))) {
        Decoded::Text(s) => assert_eq!(s, "plain"),
        other => panic!("unexpected {other:?}"),
    }
}

#[test]
fn untyped_prefers_json_then_text_then_binary() {
    match decode_untyped(b"x", Some("x"), Some(json("true"))) {
        Decoded::Json(v) => assert_eq!(v, json("true")),
        other => panic!("unexpected {other:?}"),
    }
    match decode_untyped(b"x", Some("x"), None) {
        Decoded::Text(s) => assert_eq!(s, "x"),
        other => panic!("unexpected {other:?}"),
    }
    match decode_untyped(&[0x80], None, None) {
        Decoded::Binary { bytes, hex } => {
            assert_eq!(bytes, 1);
            assert_eq!(hex, "80");
        }
        other => panic!("unexpected {other:?}"),
    }
}

#[test]
fn sample_record_of_ros_key() {
    let key = "0/kuka/pose/geometry_msgs::msg::dds_::PoseStamped_/RIHS01_10f3";
    let r = sample_record(key, "Put", &[1, 2], None);
    assert_eq!(r.key, "0/kuka/pose");
    assert_eq!(r.ros_type, Some("geometry_msgs/PoseStamped".to_string()));
    assert_eq!(r.kind, "Put");
    match r.value {
        Decoded::Undecoded { ros_type, bytes, hex } => {
            assert_eq!(ros_type, "geometry_msgs/PoseStamped");
            assert_eq!(bytes, 2);
            assert_eq!(hex, "0102");
        }
        other => panic!("unexpected {other:?}"),
    }
}

#[test]
fn sample_record_of_plain_key() {
    let r = sample_record("demo/test", "Delete", b"[1]", None);
    assert_eq!(r.key, "demo/test");
    assert_eq!(r.ros_type, None);
    assert_eq!(r.kind, "Delete");
    match r.value {
        Decoded::Json(v) => assert_eq!(v, json("[1]")),
        other => panic!("unexpected {other:?}"),
    }
}

#[test]
fn reply_error_text_falls_back() {
    assert_eq!(reply_error_text(Some("no such key".to_string())), "no such key");
    assert_eq!(reply_error_text(None), "<binary error>");
}

#[test]
fn message_under_type_without_decoder_is_not_used() {
    match decode_value(Some("sensor_msgs/Imu"), &[0x0a], Some(json("{}"))) {
        Decoded::Undecoded { ros_type, bytes, hex } => {
            assert_eq!(ros_type, "sensor_msgs/Imu");
            assert_eq!(bytes, 1);
            assert_eq!(hex, "0a");
        }
        other => panic!("unexpected {other:?}"),
    }
}
