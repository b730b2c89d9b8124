//! `rmw_zenoh` key expressions: the ROS type they carry and their readable form.
//!
//! A key such as `0/kuka/pose/geometry_msgs::msg::dds_::PoseStamped_/RIHS01_…` is a
//! domain, a topic, a type tag `pkg::msg::dds_::Name_` and a type hash.

use vstd::prelude::*;
use crate::text::{chars_of, string_from_chars, sub_chars, extend_chars, matches_at};

verus! {

/// Length of the type marker `::msg::dds_::`.
pub const TAG_LEN: usize = 13;

/// The marker inside a key segment that names a message type.
pub open spec fn type_tag() -> Seq<char> {
    seq![':', ':', 'm', 's', 'g', ':', ':', 'd', 'd', 's', '_', ':', ':']
}

/// The prefix of the segment that holds the type hash.
pub open spec fn hash_prefix() -> Seq<char> {
    seq!['R', 'I', 'H', 'S', '0', '1', '_']
}

/// Index of the first `/` of `s` at or after `from`, or the length of `s`.
pub open spec fn next_slash(s: Seq<char>, from: int) -> int
    decreases s.len() - from,
{
    if from < 0 || from >= s.len() {
        s.len() as int
    } else if s[from] == '/' {
        from
    } else {
        next_slash(s, from + 1)
    }
}

/// The next `/` comes at or after `from`, and nothing before it is a `/`.
pub proof fn lemma_next_slash(s: Seq<char>, from: int)
    requires
        0 <= from <= s.len(),
    ensures
        from <= next_slash(s, from) <= s.len(),
        forall|k: int| from <= k < next_slash(s, from) ==> s[k] != '/',
        next_slash(s, from) < s.len() ==> s[next_slash(s, from)] == '/',
    decreases s.len() - from,
{
    if from < s.len() && s[from] != '/' {
        lemma_next_slash(s, from + 1);
    }
}

/// The `/`-separated segments of `s` that start at `from` (a segment start).
pub open spec fn segments_from(s: Seq<char>, from: int) -> Seq<Seq<char>>
    decreases s.len() - from,
{
    if from < 0 || from > s.len() {
        seq![]
    } else {
        let end = next_slash(s, from);
        proof {
            lemma_next_slash(s, from);
        }
        if end >= s.len() {
            seq![s.subrange(from, s.len() as int)]
        } else {
            seq![s.subrange(from, end)] + segments_from(s, end + 1)
        }
    }
}

/// The segments of `s` as `str::split('/')` yields them: never empty, and
/// empty segments where two separators meet or at either end.
pub open spec fn split_slash(s: Seq<char>) -> Seq<Seq<char>> {
    segments_from(s, 0)
}

/// The segments joined back with `/` between them (`[..].join("/")`).
pub open spec fn join_slash(segs: Seq<Seq<char>>) -> Seq<char>
    decreases segs.len(),
{
    if segs.len() == 0 {
        seq![]
    } else if segs.len() == 1 {
        segs[0]
    } else {
        join_slash(segs.drop_last()) + seq!['/'] + segs.last()
    }
}

/// First position at or after `from` where the type marker occurs in `s`.
pub open spec fn tag_from(s: Seq<char>, from: int) -> Option<int>
    decreases s.len() - from,
{
    if from < 0 || from + type_tag().len() > s.len() {
        None
    } else if s.subrange(from, from + type_tag().len()) == type_tag() {
        Some(from)
    } else {
        tag_from(s, from + 1)
    }
}

/// A marker position found is a real occurrence at or after `from`.
pub proof fn lemma_tag_from(s: Seq<char>, from: int)
    requires
        0 <= from,
    ensures
        tag_from(s, from) matches Some(i) ==> {
            &&& from <= i
            &&& i + type_tag().len() <= s.len()
            &&& s.subrange(i, i + type_tag().len()) == type_tag()
        },
    decreases s.len() - from,
{
    if from + type_tag().len() <= s.len() && s.subrange(from, from + type_tag().len()) != type_tag() {
        lemma_tag_from(s, from + 1);
    }
}

/// First position of the type marker in a segment (`str::find`).
pub open spec fn tag_position(seg: Seq<char>) -> Option<int> {
    tag_from(seg, 0)
}

/// `rest` without one trailing `_`, if it has one (`strip_suffix('_').unwrap_or(rest)`).
pub open spec fn strip_underscore(rest: Seq<char>) -> Seq<char> {
    if rest.len() > 0 && rest.last() == '_' {
        rest.drop_last()
    } else {
        rest
    }
}

/// The ROS type `pkg/Name` named by one segment `pkg::msg::dds_::Name_`: the text
/// before the first marker is the package, the text after it, less one trailing
/// `_`, is the name, and neither may be empty.
pub open spec fn segment_ros_type(seg: Seq<char>) -> Option<Seq<char>> {
    match tag_position(seg) {
        Some(i) => {
            let pkg = seg.take(i);
            let name = strip_underscore(seg.skip(i + type_tag().len()));
            if pkg.len() > 0 && name.len() > 0 {
                Some(pkg + seq!['/'] + name)
            } else {
                None
            }
        },
        None => None,
    }
}

/// The type named by the first segment that names one.
pub open spec fn first_ros_type(segs: Seq<Seq<char>>) -> Option<Seq<char>>
    decreases segs.len(),
{
    if segs.len() == 0 {
        None
    } else {
        match segment_ros_type(segs[0]) {
            Some(t) => Some(t),
            None => first_ros_type(segs.drop_first()),
        }
    }
}

/// The ROS type that a key carries, if any.
pub open spec fn ros_type_of(key: Seq<char>) -> Option<Seq<char>> {
    first_ros_type(split_slash(key))
}

/// A segment that ends the readable part of a key: it holds the type marker,
/// or it starts with the type-hash prefix.
pub open spec fn is_stop_segment(seg: Seq<char>) -> bool {
    ||| tag_position(seg) is Some
    ||| (seg.len() >= hash_prefix().len() && seg.take(hash_prefix().len() as int) == hash_prefix())
}

/// The segments before the first stop segment.
pub open spec fn kept_segments(segs: Seq<Seq<char>>) -> Seq<Seq<char>>
    decreases segs.len(),
{
    if segs.len() == 0 || is_stop_segment(segs[0]) {
        seq![]
    } else {
        seq![segs[0]] + kept_segments(segs.drop_first())
    }
}

/// The readable form of a key: its segments up to the type tag or hash, joined
/// with `/`; the key itself when no segment comes before them.
pub open spec fn short_key_of(key: Seq<char>) -> Seq<char> {
    let kept = kept_segments(split_slash(key));
    if kept.len() == 0 {
        key
    } else {
        join_slash(kept)
    }
}

fn type_tag_chars() -> (v: Vec<char>)
    ensures
        v@ == type_tag(),
{
    let v = vec![':', ':', 'm', 's', 'g', ':', ':', 'd', 'd', 's', '_', ':', ':'];
    assert(v@ =~= type_tag());
    v
}

fn hash_prefix_chars() -> (v: Vec<char>)
    ensures
        v@ == hash_prefix(),
{
    let v = vec!['R', 'I', 'H', 'S', '0', '1', '_'];
    assert(v@ =~= hash_prefix());
    v
}

/// Position of the first type marker in `seg`.
fn find_tag(seg: &Vec<char>) -> (r: Option<usize>)
    ensures
        match r {
            Some(i) => tag_position(seg@) == Some(i as int),
            None => tag_position(seg@) is None,
        },
{
    let tag = type_tag_chars();
    let mut i: usize = 0;
    while i <= seg.len() && seg.len() - i >= TAG_LEN
        invariant
            i <= seg.len() + 1,
            tag@ == type_tag(),
            tag_position(seg@) == tag_from(seg@, i as int),
        decreases seg.len() + 1 - i,
    {
        if matches_at(seg, i, &tag) {
            return Some(i);
        }
        i += 1;
    }
    None
}

/// The type named by one segment (see `segment_ros_type`).
fn segment_type(seg: &Vec<char>) -> (r: Option<Vec<char>>)
    ensures
        match r {
            Some(t) => segment_ros_type(seg@) == Some(t@),
            None => segment_ros_type(seg@) is None,
        },
{
    match find_tag(seg) {
        None => None,
        Some(i) => {
            proof {
                lemma_tag_from(seg@, 0);
                assert(i + TAG_LEN <= seg.len());
            }
            let pkg = sub_chars(seg, 0, i);
            let mut name = sub_chars(seg, i + TAG_LEN, seg.len());
            if name.len() > 0 && name[name.len() - 1] == '_' {
                name.pop();
            }
            if pkg.len() > 0 && name.len() > 0 {
                let mut t = pkg;
                t.push('/');
                extend_chars(&mut t, &name);
                Some(t)
            } else {
                None
            }
        },
    }
}

/// The ROS message type named by a `rmw_zenoh` key:
/// `0/kuka/pose/geometry_msgs::msg::dds_::PoseStamped_/RIHS01_…` gives
/// `geometry_msgs/PoseStamped`.
pub fn ros_type(key: &str) -> (r: Option<String>)
    ensures
        match r {
            Some(t) => ros_type_of(key@) == Some(t@),
            None => ros_type_of(key@) is None,
        },
{
    let cs = chars_of(key);
    let n = cs.len();
    let mut start: usize = 0;
    loop
        invariant
            start <= n,
            n == cs@.len(),
            cs@ == key@,
            ros_type_of(key@) == first_ros_type(segments_from(cs@, start as int)),
        decreases n - start,
    {
        let mut end = start;
        while end < n && cs[end] != '/'
            invariant
                start <= end <= n,
                n == cs@.len(),
                next_slash(cs@, start as int) == next_slash(cs@, end as int),
            decreases n - end,
        {
            end += 1;
        }
        let seg = sub_chars(&cs, start, end);
        let ghost segs = segments_from(cs@, start as int);
        assert(segs[0] == seg@);
        match segment_type(&seg) {
            Some(t) => {
                return Some(string_from_chars(&t));
            },
            None => {},
        }
        if end >= n {
            assert(segs.drop_first() =~= Seq::<Seq<char>>::empty());
            assert(first_ros_type(Seq::<Seq<char>>::empty()) is None);
            return None;
        }
        assert(segs.drop_first() =~= segments_from(cs@, end + 1));
        start = end + 1;
    }
}

/// Whether `seg` ends the readable part of a key (see `is_stop_segment`).
fn stop_segment(seg: &Vec<char>, hash: &Vec<char>) -> (b: bool)
    requires
        hash@ == hash_prefix(),
    ensures
        b == is_stop_segment(seg@),
{
    let tagged = find_tag(seg).is_some();
    let hashed = matches_at(seg, 0, hash);
    assert(hashed == (seg@.len() >= hash_prefix().len() && seg@.take(hash_prefix().len() as int) == hash_prefix()));
    tagged || hashed
}

/// The readable part of a key: the segments before the type tag and the type
/// hash, joined with `/` (`0/kuka/pose/<type>/<hash>` gives `0/kuka/pose`); the
/// whole key when nothing comes before them.
pub fn short_key(key: &str) -> (r: String)
    ensures
        r@ == short_key_of(key@),
{
    let cs = chars_of(key);
    let hash = hash_prefix_chars();
    let n = cs.len();
    let mut start: usize = 0;
    let mut out: Vec<char> = Vec::new();
    let mut any_kept = false;
    let ghost mut done: Seq<Seq<char>> = seq![];
    loop
        invariant_except_break
            kept_segments(split_slash(key@)) == done + kept_segments(segments_from(cs@, start as int)),
        invariant
            start <= n,
            n == cs@.len(),
            cs@ == key@,
            hash@ == hash_prefix(),
            any_kept == (done.len() > 0),
            out@ == join_slash(done),
        ensures
            kept_segments(split_slash(key@)) == done,
        decreases n - start,
    {
        let mut end = start;
        while end < n && cs[end] != '/'
            invariant
                start <= end <= n,
                n == cs@.len(),
                next_slash(cs@, start as int) == next_slash(cs@, end as int),
            decreases n - end,
        {
            end += 1;
        }
        let seg = sub_chars(&cs, start, end);
        let ghost segs = segments_from(cs@, start as int);
        assert(segs[0] == seg@);
        if stop_segment(&seg, &hash) {
            assert(kept_segments(segs) =~= Seq::<Seq<char>>::empty());
            assert(done + Seq::<Seq<char>>::empty() =~= done);
            break;
        }
        if any_kept {
            out.push('/');
        }
        extend_chars(&mut out, &seg);
        proof {
            let nd = done.push(seg@);
            assert(nd.drop_last() =~= done);
            assert(kept_segments(segs) =~= seq![seg@] + kept_segments(segs.drop_first()));
            assert(done + kept_segments(segs) =~= nd + kept_segments(segs.drop_first()));
            if done.len() == 0 {
                assert(out@ =~= join_slash(nd));
            }
            done = nd;
        }
        any_kept = true;
        if end >= n {
            assert(segs.drop_first() =~= Seq::<Seq<char>>::empty());
            assert(kept_segments(Seq::<Seq<char>>::empty()) =~= Seq::<Seq<char>>::empty());
            assert(done.drop_last() + Seq::<Seq<char>>::empty() =~= done.drop_last());
            break;
        }
        assert(segs.drop_first() =~= segments_from(cs@, end + 1));
        start = end + 1;
    }
    assert(kept_segments(split_slash(key@)) == done);
    if !any_kept {
        string_from_chars(&cs)
    } else {
        string_from_chars(&out)
    }
}

} // verus!
