//! Turning a payload into a structured value: ROS messages whose type is known,
//! JSON or plain text, or a hex preview of opaque bytes.

use vstd::prelude::*;
use vstd::utf8::{valid_utf8, decode_utf8};
use vstd::string::StringSliceAdditionalSpecFns;
use serde_json::Value;
use crate::text::{chars_of, chars_equal};
use crate::hex::hex_preview_of;
use crate::key::{ros_type_of, short_key_of};
use crate::session::opt_string_view;

pub use crate::key::{ros_type, short_key};
pub use crate::hex::hex_preview;

verus! {

broadcast use vstd::utf8::encode_utf8_decode_utf8;

#[verifier::external_type_specification]
#[verifier::external_body]
pub struct ExJsonValue(serde_json::Value);

/// The ROS message types that have a decoder.
#[derive(Clone, Copy, Debug, PartialEq, Eq, Structural)]
pub enum MessageKind {
    StdString,
    StdBool,
    StdInt32,
    StdInt64,
    StdFloat32,
    StdFloat64,
    PoseStamped,
    TwistStamped,
    Pose,
    Twist,
    JointState,
    Log,
}

/// The ROS type name of a message kind.
pub open spec fn ros_name_of(k: MessageKind) -> Seq<char> {
    match k {
        MessageKind::StdString => "std_msgs/String"@,
        MessageKind::StdBool => "std_msgs/Bool"@,
        MessageKind::StdInt32 => "std_msgs/Int32"@,
        MessageKind::StdInt64 => "std_msgs/Int64"@,
        MessageKind::StdFloat32 => "std_msgs/Float32"@,
        MessageKind::StdFloat64 => "std_msgs/Float64"@,
        MessageKind::PoseStamped => "geometry_msgs/PoseStamped"@,
        MessageKind::TwistStamped => "geometry_msgs/TwistStamped"@,
        MessageKind::Pose => "geometry_msgs/Pose"@,
        MessageKind::Twist => "geometry_msgs/Twist"@,
        MessageKind::JointState => "sensor_msgs/JointState"@,
        MessageKind::Log => "rcl_interfaces/Log"@,
    }
}

/// The message kind whose ROS type name is `ros`, if any.
pub open spec fn kind_of_ros(ros: Seq<char>) -> Option<MessageKind> {
    if ros == "std_msgs/String"@ {
        Some(MessageKind::StdString)
    } else if ros == "std_msgs/Bool"@ {
        Some(MessageKind::StdBool)
    } else if ros == "std_msgs/Int32"@ {
        Some(MessageKind::StdInt32)
    } else if ros == "std_msgs/Int64"@ {
        Some(MessageKind::StdInt64)
    } else if ros == "std_msgs/Float32"@ {
        Some(MessageKind::StdFloat32)
    } else if ros == "std_msgs/Float64"@ {
        Some(MessageKind::StdFloat64)
    } else if ros == "geometry_msgs/PoseStamped"@ {
        Some(MessageKind::PoseStamped)
    } else if ros == "geometry_msgs/TwistStamped"@ {
        Some(MessageKind::TwistStamped)
    } else if ros == "geometry_msgs/Pose"@ {
        Some(MessageKind::Pose)
    } else if ros == "geometry_msgs/Twist"@ {
        Some(MessageKind::Twist)
    } else if ros == "sensor_msgs/JointState"@ {
        Some(MessageKind::JointState)
    } else if ros == "rcl_interfaces/Log"@ {
        Some(MessageKind::Log)
    } else {
        None
    }
}

impl MessageKind {
    /// The ROS type name, such as `geometry_msgs/PoseStamped`.
    pub fn ros_name(&self) -> (r: &'static str)
        ensures
            r@ == ros_name_of(*self),
    {
        match self {
            MessageKind::StdString => "std_msgs/String",
            MessageKind::StdBool => "std_msgs/Bool",
            MessageKind::StdInt32 => "std_msgs/Int32",
            MessageKind::StdInt64 => "std_msgs/Int64",
            MessageKind::StdFloat32 => "std_msgs/Float32",
            MessageKind::StdFloat64 => "std_msgs/Float64",
            MessageKind::PoseStamped => "geometry_msgs/PoseStamped",
            MessageKind::TwistStamped => "geometry_msgs/TwistStamped",
            MessageKind::Pose => "geometry_msgs/Pose",
            MessageKind::Twist => "geometry_msgs/Twist",
            MessageKind::JointState => "sensor_msgs/JointState",
            MessageKind::Log => "rcl_interfaces/Log",
        }
    }
}

fn names(cs: &Vec<char>, lit: &str) -> (b: bool)
    ensures
        b == (cs@ == lit@),
{
    chars_equal(cs, &chars_of(lit))
}

/// The message kind that decodes the ROS type `ros`, if there is one.
pub fn message_kind(ros: &str) -> (r: Option<MessageKind>)
    ensures
        r == kind_of_ros(ros@),
{
    let cs = chars_of(ros);
    if names(&cs, "std_msgs/String") {
        Some(MessageKind::StdString)
    } else if names(&cs, "std_msgs/Bool") {
        Some(MessageKind::StdBool)
    } else if names(&cs, "std_msgs/Int32") {
        Some(MessageKind::StdInt32)
    } else if names(&cs, "std_msgs/Int64") {
        Some(MessageKind::StdInt64)
    } else if names(&cs, "std_msgs/Float32") {
        Some(MessageKind::StdFloat32)
    } else if names(&cs, "std_msgs/Float64") {
        Some(MessageKind::StdFloat64)
    } else if names(&cs, "geometry_msgs/PoseStamped") {
        Some(MessageKind::PoseStamped)
    } else if names(&cs, "geometry_msgs/TwistStamped") {
        Some(MessageKind::TwistStamped)
    } else if names(&cs, "geometry_msgs/Pose") {
        Some(MessageKind::Pose)
    } else if names(&cs, "geometry_msgs/Twist") {
        Some(MessageKind::Twist)
    } else if names(&cs, "sensor_msgs/JointState") {
        Some(MessageKind::JointState)
    } else if names(&cs, "rcl_interfaces/Log") {
        Some(MessageKind::Log)
    } else {
        None
    }
}

/// Every built-in message kind is found again from its own ROS type name: the
/// names are distinct. Names of different lengths differ; of the names of
/// equal length, `Int32`/`Int64`, `Float32`/`Float64` and `Pose`/`Log`
/// differ at one character.
#[verifier::spinoff_prover]
pub proof fn message_kind_by_name(k: MessageKind)
    ensures
        kind_of_ros(ros_name_of(k)) == Some(k),
{
    reveal_strlit("std_msgs/String");
    reveal_strlit("std_msgs/Bool");
    reveal_strlit("std_msgs/Int32");
    reveal_strlit("std_msgs/Int64");
    reveal_strlit("std_msgs/Float32");
    reveal_strlit("std_msgs/Float64");
    reveal_strlit("geometry_msgs/PoseStamped");
    reveal_strlit("geometry_msgs/TwistStamped");
    reveal_strlit("geometry_msgs/Pose");
    reveal_strlit("geometry_msgs/Twist");
    reveal_strlit("sensor_msgs/JointState");
    reveal_strlit("rcl_interfaces/Log");
    assert("std_msgs/String"@.len() == 15);
    assert("std_msgs/Bool"@.len() == 13);
    assert("std_msgs/Int32"@.len() == 14);
    assert("std_msgs/Int64"@.len() == 14);
    assert("std_msgs/Float32"@.len() == 16);
    assert("std_msgs/Float64"@.len() == 16);
    assert("geometry_msgs/PoseStamped"@.len() == 25);
    assert("geometry_msgs/TwistStamped"@.len() == 26);
    assert("geometry_msgs/Pose"@.len() == 18);
    assert("geometry_msgs/Twist"@.len() == 19);
    assert("sensor_msgs/JointState"@.len() == 22);
    assert("rcl_interfaces/Log"@.len() == 18);
    assert("std_msgs/Int64"@[12] != "std_msgs/Int32"@[12]);
    assert("std_msgs/Float64"@[14] != "std_msgs/Float32"@[14]);
    assert("rcl_interfaces/Log"@[0] != "geometry_msgs/Pose"@[0]);
}

/// The decoder table, entry by entry: each ROS type name chooses the message
/// kind of that very name (`std_msgs/Int32` the `Int32` decoder, and so on),
/// and each kind is named by its ROS type.
#[verifier::spinoff_prover]
pub proof fn message_kind_table()
    ensures
        kind_of_ros("std_msgs/String"@) == Some(MessageKind::StdString),
        kind_of_ros("std_msgs/Bool"@) == Some(MessageKind::StdBool),
        kind_of_ros("std_msgs/Int32"@) == Some(MessageKind::StdInt32),
        kind_of_ros("std_msgs/Int64"@) == Some(MessageKind::StdInt64),
        kind_of_ros("std_msgs/Float32"@) == Some(MessageKind::StdFloat32),
        kind_of_ros("std_msgs/Float64"@) == Some(MessageKind::StdFloat64),
        kind_of_ros("geometry_msgs/PoseStamped"@) == Some(MessageKind::PoseStamped),
        kind_of_ros("geometry_msgs/TwistStamped"@) == Some(MessageKind::TwistStamped),
        kind_of_ros("geometry_msgs/Pose"@) == Some(MessageKind::Pose),
        kind_of_ros("geometry_msgs/Twist"@) == Some(MessageKind::Twist),
        kind_of_ros("sensor_msgs/JointState"@) == Some(MessageKind::JointState),
        kind_of_ros("rcl_interfaces/Log"@) == Some(MessageKind::Log),
        ros_name_of(MessageKind::StdString) == "std_msgs/String"@,
        ros_name_of(MessageKind::StdBool) == "std_msgs/Bool"@,
        ros_name_of(MessageKind::StdInt32) == "std_msgs/Int32"@,
        ros_name_of(MessageKind::StdInt64) == "std_msgs/Int64"@,
        ros_name_of(MessageKind::StdFloat32) == "std_msgs/Float32"@,
        ros_name_of(MessageKind::StdFloat64) == "std_msgs/Float64"@,
        ros_name_of(MessageKind::PoseStamped) == "geometry_msgs/PoseStamped"@,
        ros_name_of(MessageKind::TwistStamped) == "geometry_msgs/TwistStamped"@,
        ros_name_of(MessageKind::Pose) == "geometry_msgs/Pose"@,
        ros_name_of(MessageKind::Twist) == "geometry_msgs/Twist"@,
        ros_name_of(MessageKind::JointState) == "sensor_msgs/JointState"@,
        ros_name_of(MessageKind::Log) == "rcl_interfaces/Log"@,
{
    reveal_strlit("std_msgs/String");
    reveal_strlit("std_msgs/Bool");
    reveal_strlit("std_msgs/Int32");
    reveal_strlit("std_msgs/Int64");
    reveal_strlit("std_msgs/Float32");
    reveal_strlit("std_msgs/Float64");
    reveal_strlit("geometry_msgs/PoseStamped");
    reveal_strlit("geometry_msgs/TwistStamped");
    reveal_strlit("geometry_msgs/Pose");
    reveal_strlit("geometry_msgs/Twist");
    reveal_strlit("sensor_msgs/JointState");
    reveal_strlit("rcl_interfaces/Log");
    assert("std_msgs/String"@.len() == 15);
    assert("std_msgs/Bool"@.len() == 13);
    assert("std_msgs/Int32"@.len() == 14);
    assert("std_msgs/Int64"@.len() == 14);
    assert("std_msgs/Float32"@.len() == 16);
    assert("std_msgs/Float64"@.len() == 16);
    assert("geometry_msgs/PoseStamped"@.len() == 25);
    assert("geometry_msgs/TwistStamped"@.len() == 26);
    assert("geometry_msgs/Pose"@.len() == 18);
    assert("geometry_msgs/Twist"@.len() == 19);
    assert("sensor_msgs/JointState"@.len() == 22);
    assert("rcl_interfaces/Log"@.len() == 18);
    assert("std_msgs/Int64"@[12] != "std_msgs/Int32"@[12]);
    assert("std_msgs/Float64"@[14] != "std_msgs/Float32"@[14]);
    assert("rcl_interfaces/Log"@[0] != "geometry_msgs/Pose"@[0]);
}

/// A payload turned into structured form.
#[derive(Debug)]
pub enum Decoded {
    /// A ROS message decoded by its type's decoder.
    Message(Value),
    /// A payload under a ROS type tag that no decoder read.
    Undecoded { ros_type: String, bytes: usize, hex: String },
    /// Text that is JSON, parsed.
    Json(Value),
    /// Text that is not JSON.
    Text(String),
    /// Bytes that are not UTF-8.
    Binary { bytes: usize, hex: String },
}

/// What `serde_json::from_str::<Value>` gives for `text`: the parsed value, or
/// nothing when `text` is not one JSON value with only whitespace around it.
/// The parse depends on the text alone.
pub uninterp spec fn json_parse(text: Seq<char>) -> Option<Value>;

/// `std::str::from_utf8`: the payload as text when it is valid UTF-8, and
/// nothing otherwise; the text has exactly the payload's bytes.
#[verifier::external_body]
fn utf8_text(raw: &[u8]) -> (r: Option<&str>)
    ensures
        r is Some <==> valid_utf8(raw@),
        r matches Some(t) ==> t.spec_bytes() == raw@,
{
    std::str::from_utf8(raw).ok()
}

/// `serde_json::from_str::<serde_json::Value>`: the parsed value when `text`
/// is one JSON value with nothing but whitespace around it, and nothing
/// otherwise (the error is dropped); the result is named `json_parse`.
#[verifier::external_body]
fn parse_json(text: &str) -> (r: Option<Value>)
    ensures
        r == json_parse(text@),
{
    serde_json::from_str::<serde_json::Value>(text).ok()
}

/// `d` is the preview form of an undecodable payload under the type `ros`.
pub open spec fn is_undecoded(d: Decoded, ros: Seq<char>, raw: Seq<u8>) -> bool {
    d matches Decoded::Undecoded { ros_type, bytes, hex } && ros_type@ == ros && bytes == raw.len()
        && hex@ == hex_preview_of(raw)
}

/// `d` is the preview form of a payload that is not text.
pub open spec fn is_binary(d: Decoded, raw: Seq<u8>) -> bool {
    d matches Decoded::Binary { bytes, hex } && bytes == raw.len() && hex@ == hex_preview_of(raw)
}

/// What a payload without a ROS type becomes, given its text (if it is UTF-8)
/// and the JSON value parsed from that text (if it parses).
pub open spec fn untyped_result(d: Decoded, raw: Seq<u8>, text: Option<Seq<char>>, json: Option<Value>) -> bool {
    match text {
        Some(t) => match json {
            Some(v) => d == Decoded::Json(v),
            None => d matches Decoded::Text(s) && s@ == t,
        },
        None => is_binary(d, raw),
    }
}

/// What a payload becomes: under a ROS type that is one of the message kinds,
/// the decoded message when one is given; under any other type, or without a
/// decoded message, a preview; without a type, parsed JSON, text, or a preview.
pub open spec fn decoded_as(d: Decoded, ros: Option<Seq<char>>, raw: Seq<u8>, message: Option<Value>) -> bool {
    match ros {
        Some(rt) => match (kind_of_ros(rt), message) {
            (Some(_), Some(v)) => d == Decoded::Message(v),
            _ => is_undecoded(d, rt, raw),
        },
        None => if valid_utf8(raw) {
            let t = decode_utf8(raw);
            match json_parse(t) {
                Some(v) => d == Decoded::Json(v),
                None => d matches Decoded::Text(s) && s@ == t,
            }
        } else {
            is_binary(d, raw)
        },
    }
}

/// The view of an optional string slice.
pub open spec fn opt_str_view(s: Option<&str>) -> Option<Seq<char>> {
    match s {
        Some(t) => Some(t@),
        None => None,
    }
}

/// A payload without a ROS type, given its text (when it is UTF-8) and the
/// JSON parsed from that text (when it parses): JSON first, then text, then a
/// hex preview of the bytes.
pub fn decode_untyped(raw: &[u8], text: Option<&str>, json: Option<Value>) -> (d: Decoded)
    ensures
        untyped_result(d, raw@, opt_str_view(text), json),
{
    match text {
        Some(t) => match json {
            Some(v) => Decoded::Json(v),
            None => Decoded::Text(t.to_owned()),
        },
        None => Decoded::Binary { bytes: raw.len(), hex: hex_preview(raw) },
    }
}

/// Decode a payload given the ROS type inferred from its key, if any, and the
/// message that the type's decoder read from it, if it has a decoder and it
/// read one: that message when the type is one of the message kinds; a preview
/// under any other type or when no message was read; without a type, the
/// payload as JSON, then as text, then as a hex preview.
pub fn decode_value(ros: Option<&str>, raw: &[u8], message: Option<Value>) -> (d: Decoded)
    ensures
        decoded_as(d, opt_str_view(ros), raw@, message),
{
    match ros {
        Some(rt) => match (message_kind(rt), message) {
            (Some(_), Some(v)) => Decoded::Message(v),
            _ => Decoded::Undecoded {
                ros_type: rt.to_owned(),
                bytes: raw.len(),
                hex: hex_preview(raw),
            },
        },
        None => {
            let text = utf8_text(raw);
            let json = match text {
                Some(t) => parse_json(t),
                None => None,
            };
            decode_untyped(raw, text, json)
        },
    }
}

/// One sample or reply in structured form.
pub struct SampleRecord {
    /// The readable form of its key.
    pub key: String,
    /// The ROS type its key names, if any.
    pub ros_type: Option<String>,
    /// The sample kind (`Put` or `Delete`).
    pub kind: String,
    /// The payload, decoded.
    pub value: Decoded,
}

/// The structured record of one sample under `key` of the given kind, with the
/// payload `raw` and the message that the decoder of the key's ROS type read
/// from it, if the key names a type with a decoder and it read one.
pub fn sample_record(key: &str, kind: &str, raw: &[u8], message: Option<Value>) -> (r: SampleRecord)
    ensures
        r.key@ == short_key_of(key@),
        opt_string_view(r.ros_type) == ros_type_of(key@),
        r.kind@ == kind@,
        decoded_as(r.value, ros_type_of(key@), raw@, message),
{
    let rt = ros_type(key);
    let value = match &rt {
        Some(t) => decode_value(Some(t.as_str()), raw, message),
        None => decode_value(None, raw, message),
    };
    SampleRecord { key: short_key(key), ros_type: rt, kind: kind.to_owned(), value }
}

/// The text shown for a reply that carries a query error, given its payload as
/// text when the payload is UTF-8: that text, or `<binary error>`.
pub fn reply_error_text(body: Option<String>) -> (r: String)
    ensures
        r@ == match body {
            Some(b) => b@,
            None => "<binary error>"@,
        },
{
    match body {
        Some(b) => b,
        None => "<binary error>".to_owned(),
    }
}

/// Every byte count a decoded payload carries is the length of the whole
/// payload, however long it is; only the hex preview is cut.
pub proof fn byte_counts_are_payload_length(
    d: Decoded,
    ros: Option<Seq<char>>,
    raw: Seq<u8>,
    message: Option<Value>,
)
    requires
        decoded_as(d, ros, raw, message),
    ensures
        d matches Decoded::Undecoded { bytes, .. } ==> bytes == raw.len(),
        d matches Decoded::Binary { bytes, .. } ==> bytes == raw.len(),
        d matches Decoded::Undecoded { ros_type, .. } ==> ros == Some(ros_type@),
        d matches Decoded::Binary { hex, .. } ==> hex@ == hex_preview_of(raw),
        d matches Decoded::Undecoded { hex, .. } ==> hex@ == hex_preview_of(raw),
{
}

/// A payload without a ROS type that is not text carries its whole length.
pub proof fn untyped_byte_count_is_payload_length(
    d: Decoded,
    raw: Seq<u8>,
    text: Option<Seq<char>>,
    json: Option<Value>,
)
    requires
        untyped_result(d, raw, text, json),
    ensures
        d matches Decoded::Binary { bytes, .. } ==> bytes == raw.len(),
        text is None ==> d is Binary,
{
}

} // verus!
