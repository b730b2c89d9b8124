//! Laws of key decoding: splitting and joining undo each other, the readable
//! form of a key is stable, and a key composed the way `rmw_zenoh` composes it
//! gives back its topic and its type.

use vstd::prelude::*;
use crate::key::{
    next_slash, lemma_next_slash, segments_from, split_slash, join_slash, kept_segments,
    is_stop_segment, short_key_of, type_tag, hash_prefix, tag_from, tag_position,
    segment_ros_type, first_ros_type, ros_type_of, strip_underscore,
};

verus! {

/// `s` holds no `/`.
pub open spec fn slash_free(s: Seq<char>) -> bool {
    forall|i: int| 0 <= i < s.len() ==> s[i] != '/'
}

proof fn lemma_segments_nonempty(s: Seq<char>, from: int)
    requires
        0 <= from <= s.len(),
    ensures
        segments_from(s, from).len() >= 1,
{
    lemma_next_slash(s, from);
}

proof fn lemma_next_slash_shift(s: Seq<char>, from: int, k: int)
    requires
        0 <= from <= s.len(),
        0 <= k <= s.len() - from,
    ensures
        next_slash(s, from + k) == from + next_slash(s.skip(from), k),
    decreases s.len() - from - k,
{
    if from + k < s.len() && s[from + k] != '/' {
        lemma_next_slash_shift(s, from, k + 1);
    }
}

/// The segments that start at `from` are those of the rest of `s`.
proof fn lemma_segments_shift(s: Seq<char>, from: int)
    requires
        0 <= from <= s.len(),
    ensures
        segments_from(s, from) == split_slash(s.skip(from)),
    decreases s.len() - from,
{
    let t = s.skip(from);
    lemma_next_slash_shift(s, from, 0);
    lemma_next_slash(s, from);
    lemma_next_slash(t, 0);
    let ns = next_slash(s, from);
    let nt = next_slash(t, 0);
    assert(ns == from + nt);
    if ns >= s.len() {
        assert(s.subrange(from, s.len() as int) =~= t.subrange(0, t.len() as int));
    } else {
        assert(s.subrange(from, ns) =~= t.subrange(0, nt));
        lemma_segments_shift(s, ns + 1);
        lemma_segments_shift(t, nt + 1);
        assert(s.skip(ns + 1) =~= t.skip(nt + 1));
    }
}

/// A piece without `/` is one segment.
proof fn lemma_split_single(x: Seq<char>)
    requires
        slash_free(x),
    ensures
        split_slash(x) == seq![x],
{
    lemma_next_slash(x, 0);
    assert(x.subrange(0, x.len() as int) =~= x);
}

/// A piece without `/` followed by `/` is the first segment.
proof fn lemma_split_cons(x: Seq<char>, y: Seq<char>)
    requires
        slash_free(x),
    ensures
        split_slash(x + seq!['/'] + y) == seq![x] + split_slash(y),
{
    let s = x + seq!['/'] + y;
    lemma_next_slash(s, 0);
    let k = next_slash(s, 0);
    if k < x.len() {
        assert(s[k] == x[k]);
    }
    assert(s[x.len() as int] == '/');
    assert(k == x.len());
    assert(s.subrange(0, k) =~= x);
    lemma_segments_shift(s, k + 1);
    assert(s.skip(k + 1) =~= y);
}

proof fn lemma_join_cons(a: Seq<char>, rest: Seq<Seq<char>>)
    requires
        rest.len() >= 1,
    ensures
        join_slash(seq![a] + rest) == a + seq!['/'] + join_slash(rest),
    decreases rest.len(),
{
    let all = seq![a] + rest;
    if rest.len() == 1 {
        assert(all.drop_last() =~= seq![a]);
        assert(join_slash(seq![a]) == a);
    } else {
        assert(all.drop_last() =~= seq![a] + rest.drop_last());
        lemma_join_cons(a, rest.drop_last());
        assert(all.last() == rest.last());
    }
}

/// Every segment of a split holds no `/`.
proof fn lemma_segments_slash_free(s: Seq<char>, from: int)
    requires
        0 <= from <= s.len(),
    ensures
        forall|i: int| 0 <= i < segments_from(s, from).len() ==> slash_free(
            #[trigger] segments_from(s, from)[i],
        ),
    decreases s.len() - from,
{
    lemma_next_slash(s, from);
    let e = next_slash(s, from);
    if e < s.len() {
        lemma_segments_slash_free(s, e + 1);
        let segs = segments_from(s, from);
        assert forall|i: int| 0 <= i < segs.len() implies slash_free(#[trigger] segs[i]) by {
            if i > 0 {
                assert(segs[i] == segments_from(s, e + 1)[i - 1]);
            }
        }
    }
}

/// Joining the segments of `s` with `/` gives `s` back.
pub proof fn join_split_inverse(s: Seq<char>)
    ensures
        join_slash(split_slash(s)) == s,
    decreases s.len(),
{
    lemma_next_slash(s, 0);
    let k = next_slash(s, 0);
    if k >= s.len() {
        lemma_split_single(s);
    } else {
        let x = s.take(k);
        let y = s.skip(k + 1);
        assert(s =~= x + seq!['/'] + y);
        lemma_split_cons(x, y);
        lemma_segments_nonempty(y, 0);
        lemma_join_cons(x, split_slash(y));
        join_split_inverse(y);
    }
}

/// Splitting a `/`-join of pieces without `/` gives the pieces back.
pub proof fn split_join_inverse(segs: Seq<Seq<char>>)
    requires
        segs.len() >= 1,
        forall|i: int| 0 <= i < segs.len() ==> slash_free(#[trigger] segs[i]),
    ensures
        split_slash(join_slash(segs)) == segs,
    decreases segs.len(),
{
    if segs.len() == 1 {
        lemma_split_single(segs[0]);
        assert(seq![segs[0]] =~= segs);
    } else {
        let rest = segs.drop_first();
        assert(segs =~= seq![segs[0]] + rest);
        lemma_join_cons(segs[0], rest);
        assert forall|i: int| 0 <= i < rest.len() implies slash_free(#[trigger] rest[i]) by {
            assert(rest[i] == segs[i + 1]);
        }
        split_join_inverse(rest);
        lemma_split_cons(segs[0], join_slash(rest));
    }
}

proof fn lemma_kept_prefix(segs: Seq<Seq<char>>)
    ensures
        kept_segments(segs).len() <= segs.len(),
        forall|i: int| 0 <= i < kept_segments(segs).len() ==> {
            &&& #[trigger] kept_segments(segs)[i] == segs[i]
            &&& !is_stop_segment(segs[i])
        },
    decreases segs.len(),
{
    if segs.len() > 0 && !is_stop_segment(segs[0]) {
        lemma_kept_prefix(segs.drop_first());
        let k = kept_segments(segs);
        assert forall|i: int| 0 <= i < k.len() implies {
            &&& #[trigger] k[i] == segs[i]
            &&& !is_stop_segment(segs[i])
        } by {
            if i > 0 {
                assert(k[i] == kept_segments(segs.drop_first())[i - 1]);
            }
        }
    }
}

proof fn lemma_kept_all(segs: Seq<Seq<char>>)
    requires
        forall|i: int| 0 <= i < segs.len() ==> !is_stop_segment(#[trigger] segs[i]),
    ensures
        kept_segments(segs) == segs,
    decreases segs.len(),
{
    if segs.len() > 0 {
        let rest = segs.drop_first();
        assert forall|i: int| 0 <= i < rest.len() implies !is_stop_segment(#[trigger] rest[i]) by {
            assert(rest[i] == segs[i + 1]);
        }
        lemma_kept_all(rest);
        assert(seq![segs[0]] + rest =~= segs);
    }
}

/// The readable form of a key is its own readable form.
pub proof fn short_key_idempotent(key: Seq<char>)
    ensures
        short_key_of(short_key_of(key)) == short_key_of(key),
{
    let segs = split_slash(key);
    let kept = kept_segments(segs);
    if kept.len() > 0 {
        lemma_kept_prefix(segs);
        lemma_segments_slash_free(key, 0);
        assert forall|i: int| 0 <= i < kept.len() implies slash_free(#[trigger] kept[i]) by {
            assert(kept[i] == segs[i]);
        }
        split_join_inverse(kept);
        assert forall|i: int| 0 <= i < kept.len() implies !is_stop_segment(#[trigger] kept[i]) by {
            assert(kept[i] == segs[i]);
        }
        lemma_kept_all(kept);
    }
}

/// A key whose segments are all readable is its own readable form.
pub proof fn short_key_keeps_plain_key(key: Seq<char>)
    requires
        forall|i: int| 0 <= i < split_slash(key).len() ==> !is_stop_segment(
            #[trigger] split_slash(key)[i],
        ),
    ensures
        short_key_of(key) == key,
{
    lemma_kept_all(split_slash(key));
    lemma_segments_nonempty(key, 0);
    join_split_inverse(key);
}

/// `s` holds no `:`.
pub open spec fn colon_free(s: Seq<char>) -> bool {
    forall|i: int| 0 <= i < s.len() ==> s[i] != ':'
}

/// The segment `pkg::msg::dds_::Name_` that `rmw_zenoh` writes for the type `pkg/Name`.
pub open spec fn type_segment(pkg: Seq<char>, name: Seq<char>) -> Seq<char> {
    pkg + type_tag() + name + seq!['_']
}

proof fn lemma_tag_found(s: Seq<char>, from: int, p: int)
    requires
        0 <= from <= p,
        p + type_tag().len() <= s.len(),
        s.subrange(p, p + type_tag().len()) == type_tag(),
        forall|i: int| from <= i < p ==> s[i] != ':',
    ensures
        tag_from(s, from) == Some(p),
    decreases p - from,
{
    if from < p {
        assert(s.subrange(from, from + type_tag().len())[0] != type_tag()[0]);
        lemma_tag_found(s, from + 1, p);
    }
}

proof fn lemma_type_segment(pkg: Seq<char>, name: Seq<char>)
    requires
        pkg.len() > 0,
        colon_free(pkg),
        name.len() > 0,
    ensures
        segment_ros_type(type_segment(pkg, name)) == Some(pkg + seq!['/'] + name),
        is_stop_segment(type_segment(pkg, name)),
{
    let seg = type_segment(pkg, name);
    let p = pkg.len() as int;
    assert(seg.subrange(p, p + type_tag().len()) =~= type_tag());
    lemma_tag_found(seg, 0, p);
    assert(seg.take(p) =~= pkg);
    assert(seg.skip(p + type_tag().len()) =~= name + seq!['_']);
    assert((name + seq!['_']).drop_last() =~= name);
}

proof fn lemma_first_ros_type_skip(a: Seq<Seq<char>>, b: Seq<Seq<char>>)
    requires
        forall|i: int| 0 <= i < a.len() ==> !is_stop_segment(#[trigger] a[i]),
    ensures
        first_ros_type(a + b) == first_ros_type(b),
    decreases a.len(),
{
    if a.len() > 0 {
        let rest = a.drop_first();
        assert forall|i: int| 0 <= i < rest.len() implies !is_stop_segment(#[trigger] rest[i]) by {
            assert(rest[i] == a[i + 1]);
        }
        lemma_first_ros_type_skip(rest, b);
        assert((a + b)[0] == a[0]);
        assert((a + b).drop_first() =~= rest + b);
    } else {
        assert(a + b =~= b);
    }
}

proof fn lemma_kept_until_stop(a: Seq<Seq<char>>, b: Seq<Seq<char>>)
    requires
        forall|i: int| 0 <= i < a.len() ==> !is_stop_segment(#[trigger] a[i]),
        b.len() > 0,
        is_stop_segment(b[0]),
    ensures
        kept_segments(a + b) == a,
    decreases a.len(),
{
    if a.len() > 0 {
        let rest = a.drop_first();
        assert forall|i: int| 0 <= i < rest.len() implies !is_stop_segment(#[trigger] rest[i]) by {
            assert(rest[i] == a[i + 1]);
        }
        lemma_kept_until_stop(rest, b);
        assert((a + b)[0] == a[0]);
        assert((a + b).drop_first() =~= rest + b);
        assert(seq![a[0]] + rest =~= a);
    } else {
        assert(a + b =~= b);
        assert(kept_segments(a + b) =~= a);
    }
}

/// A key that `rmw_zenoh` composes from topic segments, the type segment of
/// `pkg/name` and a type hash names the type `pkg/name`, and its readable form
/// is the topic: decoding a key gives back what it was built from.
pub proof fn composed_key_decodes(
    topic: Seq<Seq<char>>,
    pkg: Seq<char>,
    name: Seq<char>,
    hash: Seq<char>,
)
    requires
        topic.len() >= 1,
        forall|i: int| 0 <= i < topic.len() ==> slash_free(#[trigger] topic[i]),
        forall|i: int| 0 <= i < topic.len() ==> !is_stop_segment(#[trigger] topic[i]),
        pkg.len() > 0,
        slash_free(pkg),
        colon_free(pkg),
        name.len() > 0,
        slash_free(name),
        slash_free(hash),
    ensures
        ros_type_of(join_slash(topic + seq![type_segment(pkg, name), hash_prefix() + hash]))
            == Some(pkg + seq!['/'] + name),
        short_key_of(join_slash(topic + seq![type_segment(pkg, name), hash_prefix() + hash]))
            == join_slash(topic),
{
    let tseg = type_segment(pkg, name);
    let hseg = hash_prefix() + hash;
    let tail = seq![tseg, hseg];
    let all = topic + tail;
    assert(slash_free(tseg)) by {
        assert forall|i: int| 0 <= i < tseg.len() implies tseg[i] != '/' by {
            if i < pkg.len() {
                assert(tseg[i] == pkg[i]);
            } else if i < pkg.len() + type_tag().len() {
                assert(tseg[i] == type_tag()[i - pkg.len()]);
            } else if i < pkg.len() + type_tag().len() + name.len() {
                assert(tseg[i] == name[i - pkg.len() - type_tag().len()]);
            }
        }
    }
    assert(slash_free(hseg)) by {
        assert forall|i: int| 0 <= i < hseg.len() implies hseg[i] != '/' by {
            if i >= hash_prefix().len() {
                assert(hseg[i] == hash[i - hash_prefix().len()]);
            }
        }
    }
    assert forall|i: int| 0 <= i < all.len() implies slash_free(#[trigger] all[i]) by {
        if i < topic.len() {
            assert(all[i] == topic[i]);
        } else if i == topic.len() {
            assert(all[i] == tseg);
        } else {
            assert(all[i] == hseg);
        }
    }
    split_join_inverse(all);
    lemma_type_segment(pkg, name);
    lemma_first_ros_type_skip(topic, tail);
    assert(tail.drop_first() =~= seq![hseg]);
    lemma_kept_until_stop(topic, tail);
}

} // verus!
