//! Distinct keys seen while listening, in key order, each with the ROS type of
//! its first sample and how many samples it had.

use vstd::prelude::*;
use crate::key::{short_key, ros_type, short_key_of, ros_type_of};
use crate::text::{chars_of, chars_equal};
use crate::session::opt_string_view;

verus! {

/// The order of `String`'s `Ord` (its UTF-8 bytes compared in turn), which is
/// the order of code points compared in turn: a proper prefix comes first.
pub open spec fn chars_lt(a: Seq<char>, b: Seq<char>) -> bool
    decreases a.len(),
{
    if b.len() == 0 {
        false
    } else if a.len() == 0 {
        true
    } else if a[0] != b[0] {
        (a[0] as u32) < (b[0] as u32)
    } else {
        chars_lt(a.drop_first(), b.drop_first())
    }
}

/// No key comes before itself.
pub proof fn chars_lt_irreflexive(a: Seq<char>)
    ensures
        !chars_lt(a, a),
    decreases a.len(),
{
    if a.len() > 0 {
        chars_lt_irreflexive(a.drop_first());
    }
}

/// The order is transitive.
pub proof fn chars_lt_transitive(a: Seq<char>, b: Seq<char>, c: Seq<char>)
    requires
        chars_lt(a, b),
        chars_lt(b, c),
    ensures
        chars_lt(a, c),
    decreases a.len(),
{
    if a.len() > 0 && a[0] == b[0] && b[0] == c[0] {
        chars_lt_transitive(a.drop_first(), b.drop_first(), c.drop_first());
    }
}

/// Of two different keys, one comes first.
pub proof fn chars_lt_total(a: Seq<char>, b: Seq<char>)
    requires
        a != b,
    ensures
        chars_lt(a, b) || chars_lt(b, a),
    decreases a.len(),
{
    if a.len() > 0 && b.len() > 0 {
        if a[0] == b[0] {
            if a.drop_first() == b.drop_first() {
                assert(a =~= seq![a[0]] + a.drop_first());
                assert(b =~= seq![b[0]] + b.drop_first());
                assert(a == b);
            }
            chars_lt_total(a.drop_first(), b.drop_first());
        } else {
            let u = a[0] as u32;
            let w = b[0] as u32;
            vstd::utf8::char_u32_cast(a[0], u);
            vstd::utf8::char_u32_cast(b[0], w);
            assert(u != w);
        }
    } else if a.len() == 0 && b.len() == 0 {
        assert(a =~= b);
    }
}

/// The order is `String`'s: two keys that agree up to position `i` and differ
/// there are ordered by the code points at `i`, whatever follows.
pub proof fn chars_lt_first_difference(a: Seq<char>, b: Seq<char>, i: int)
    requires
        0 <= i < a.len(),
        i < b.len(),
        a.take(i) == b.take(i),
        a[i] != b[i],
    ensures
        chars_lt(a, b) == ((a[i] as u32) < (b[i] as u32)),
    decreases i,
{
    if i > 0 {
        assert(a[0] == a.take(i)[0] && b[0] == b.take(i)[0]);
        assert(a.drop_first().take(i - 1) =~= a.take(i).drop_first());
        assert(b.drop_first().take(i - 1) =~= b.take(i).drop_first());
        chars_lt_first_difference(a.drop_first(), b.drop_first(), i - 1);
    }
}

/// A proper prefix comes before the longer key, as in `String`'s order.
pub proof fn chars_lt_prefix(a: Seq<char>, b: Seq<char>)
    requires
        a.len() < b.len(),
        b.take(a.len() as int) == a,
    ensures
        chars_lt(a, b),
    decreases a.len(),
{
    if a.len() > 0 {
        assert(a[0] == b.take(a.len() as int)[0]);
        assert(b.drop_first().take(a.len() - 1) =~= a.drop_first());
        chars_lt_prefix(a.drop_first(), b.drop_first());
    }
}

/// Whether `a` comes before `b` (see `chars_lt`).
fn chars_less(a: &Vec<char>, b: &Vec<char>) -> (r: bool)
    ensures
        r == chars_lt(a@, b@),
{
    let mut i: usize = 0;
    assert(a@.skip(0) =~= a@);
    assert(b@.skip(0) =~= b@);
    while i < a.len() && i < b.len()
        invariant
            i <= a.len(),
            i <= b.len(),
            chars_lt(a@, b@) == chars_lt(a@.skip(i as int), b@.skip(i as int)),
        decreases a.len() - i,
    {
        if a[i] != b[i] {
            return (a[i] as u32) < (b[i] as u32);
        }
        assert(a@.skip(i as int).drop_first() =~= a@.skip(i + 1));
        assert(b@.skip(i as int).drop_first() =~= b@.skip(i + 1));
        i += 1;
    }
    i < b.len()
}

/// What a tally holds about one key: the key, the ROS type of its first sample,
/// and how many samples it had.
pub type KeyEntry = (Seq<char>, Option<Seq<char>>, u64);

/// One distinct key of a tally.
pub struct KeyCount {
    pub key: String,
    pub ros_type: Option<String>,
    pub samples: u64,
}

impl View for KeyCount {
    type V = KeyEntry;

    open spec fn view(&self) -> KeyEntry {
        (self.key@, opt_string_view(self.ros_type), self.samples)
    }
}

/// Keys strictly ascending: each key once, in `String` order.
pub open spec fn keys_ascending(s: Seq<KeyEntry>) -> bool {
    forall|i: int, j: int| 0 <= i < j < s.len() ==> chars_lt(s[i].0, s[j].0)
}

/// The samples of all keys together.
pub open spec fn sample_total(s: Seq<KeyEntry>) -> int
    decreases s.len(),
{
    if s.len() == 0 {
        0
    } else {
        sample_total(s.drop_last()) + s.last().2
    }
}

/// How many keys come before `k`: where `k` is, or where it goes.
pub open spec fn position_for(s: Seq<KeyEntry>, k: Seq<char>) -> int
    decreases s.len(),
{
    if s.len() == 0 || !chars_lt(s[0].0, k) {
        0
    } else {
        1 + position_for(s.drop_first(), k)
    }
}

/// The tally after one more sample under the key `k` whose ROS type is `rt`:
/// a key already there counts one more sample and keeps its type; a new key
/// takes its place in order with one sample and the type `rt`.
pub open spec fn after_record(s: Seq<KeyEntry>, k: Seq<char>, rt: Option<Seq<char>>) -> Seq<KeyEntry> {
    let i = position_for(s, k);
    if i < s.len() && s[i].0 == k {
        s.update(i, (k, s[i].1, (s[i].2 + 1) as u64))
    } else {
        s.insert(i, (k, rt, 1u64))
    }
}

proof fn lemma_position(s: Seq<KeyEntry>, k: Seq<char>)
    requires
        keys_ascending(s),
    ensures
        0 <= position_for(s, k) <= s.len(),
        forall|j: int| 0 <= j < position_for(s, k) ==> chars_lt(#[trigger] s[j].0, k),
        forall|j: int| position_for(s, k) <= j < s.len() ==> !chars_lt(#[trigger] s[j].0, k),
    decreases s.len(),
{
    if s.len() > 0 {
        let t = s.drop_first();
        assert(keys_ascending(t)) by {
            assert forall|i: int, j: int| 0 <= i < j < t.len() implies chars_lt(t[i].0, t[j].0) by {
                assert(t[i] == s[i + 1] && t[j] == s[j + 1]);
            }
        }
        lemma_position(t, k);
        if chars_lt(s[0].0, k) {
            assert forall|j: int| 0 <= j < position_for(s, k) implies chars_lt(#[trigger] s[j].0, k) by {
                if j > 0 {
                    assert(s[j] == t[j - 1]);
                }
            }
            assert forall|j: int| position_for(s, k) <= j < s.len() implies !chars_lt(#[trigger] s[j].0, k) by {
                assert(s[j] == t[j - 1]);
            }
        } else {
            assert forall|j: int| 0 <= j < s.len() implies !chars_lt(#[trigger] s[j].0, k) by {
                if j > 0 && chars_lt(s[j].0, k) {
                    chars_lt_transitive(s[0].0, s[j].0, k);
                }
            }
        }
    }
}

proof fn lemma_position_skip(s: Seq<KeyEntry>, k: Seq<char>, i: int)
    requires
        0 <= i < s.len(),
        chars_lt(s[i].0, k),
    ensures
        position_for(s.skip(i), k) == 1 + position_for(s.skip(i + 1), k),
{
    assert(s.skip(i).drop_first() =~= s.skip(i + 1));
}

proof fn lemma_total_update(s: Seq<KeyEntry>, i: int, x: KeyEntry)
    requires
        0 <= i < s.len(),
    ensures
        sample_total(s.update(i, x)) == sample_total(s) - s[i].2 + x.2,
    decreases s.len(),
{
    let u = s.update(i, x);
    if i < s.len() - 1 {
        assert(u.drop_last() =~= s.drop_last().update(i, x));
        lemma_total_update(s.drop_last(), i, x);
    } else {
        assert(u.drop_last() =~= s.drop_last());
    }
}

proof fn lemma_total_insert(s: Seq<KeyEntry>, i: int, x: KeyEntry)
    requires
        0 <= i <= s.len(),
    ensures
        sample_total(s.insert(i, x)) == sample_total(s) + x.2,
    decreases s.len(),
{
    let u = s.insert(i, x);
    if i < s.len() {
        assert(u.drop_last() =~= s.drop_last().insert(i, x));
        lemma_total_insert(s.drop_last(), i, x);
    } else {
        assert(u.drop_last() =~= s);
    }
}

proof fn lemma_total_nonneg(s: Seq<KeyEntry>)
    ensures
        sample_total(s) >= 0,
    decreases s.len(),
{
    if s.len() > 0 {
        lemma_total_nonneg(s.drop_last());
    }
}

proof fn lemma_count_le_total(s: Seq<KeyEntry>, i: int)
    requires
        0 <= i < s.len(),
    ensures
        s[i].2 <= sample_total(s),
    decreases s.len(),
{
    lemma_total_nonneg(s.drop_last());
    if i < s.len() - 1 {
        lemma_count_le_total(s.drop_last(), i);
    }
}

/// Where a recorded key goes: keys before its place come before it, and when
/// it is new, it is in no entry and comes before every key from its place on;
/// either way the keys stay strictly ascending.
proof fn lemma_record_order(s: Seq<KeyEntry>, k: Seq<char>, rt: Option<Seq<char>>)
    requires
        keys_ascending(s),
    ensures
        ({
            let p = position_for(s, k);
            &&& 0 <= p <= s.len()
            &&& forall|j: int| 0 <= j < p ==> chars_lt(#[trigger] s[j].0, k)
            &&& !(p < s.len() && s[p].0 == k) ==> {
                &&& forall|j: int| p <= j < s.len() ==> chars_lt(k, #[trigger] s[j].0)
                &&& forall|j: int| 0 <= j < s.len() ==> (#[trigger] s[j]).0 != k
            }
        }),
        keys_ascending(after_record(s, k, rt)),
{
    lemma_position(s, k);
    let p = position_for(s, k);
    let t = after_record(s, k, rt);
    chars_lt_irreflexive(k);
    if p < s.len() && s[p].0 == k {
        assert forall|a: int, b: int| 0 <= a < b < t.len() implies chars_lt(t[a].0, t[b].0) by {
            assert(t[a].0 == s[a].0 && t[b].0 == s[b].0);
        }
    } else {
        if p < s.len() {
            chars_lt_total(k, s[p].0);
        }
        assert forall|j: int| p <= j < s.len() implies chars_lt(k, #[trigger] s[j].0) by {
            if j > p {
                chars_lt_transitive(k, s[p].0, s[j].0);
            }
        }
        assert forall|j: int| 0 <= j < s.len() implies (#[trigger] s[j]).0 != k by {
            if j >= p {
                assert(chars_lt(k, s[j].0));
            } else {
                assert(chars_lt(s[j].0, k));
            }
        }
        assert forall|a: int, b: int| 0 <= a < b < t.len() implies chars_lt(t[a].0, t[b].0) by {
            if b < p {
                assert(t[a] == s[a] && t[b] == s[b]);
            } else if b == p {
                assert(t[a] == s[a]);
            } else if a < p {
                assert(t[a] == s[a] && t[b] == s[b - 1]);
                chars_lt_transitive(t[a].0, k, t[b].0);
            } else if a == p {
                assert(t[b] == s[b - 1]);
            } else {
                assert(t[a] == s[a - 1] && t[b] == s[b - 1]);
            }
        }
    }
}

/// Recording keeps the keys strictly ascending and every count positive, and
/// adds exactly one sample.
proof fn lemma_after_record(s: Seq<KeyEntry>, k: Seq<char>, rt: Option<Seq<char>>)
    requires
        keys_ascending(s),
        forall|i: int| 0 <= i < s.len() ==> #[trigger] s[i].2 >= 1,
        sample_total(s) < u64::MAX,
    ensures
        keys_ascending(after_record(s, k, rt)),
        forall|i: int| 0 <= i < after_record(s, k, rt).len() ==> #[trigger] after_record(s, k, rt)[i].2 >= 1,
        sample_total(after_record(s, k, rt)) == sample_total(s) + 1,
{
    lemma_record_order(s, k, rt);
    let p = position_for(s, k);
    let t = after_record(s, k, rt);
    if p < s.len() && s[p].0 == k {
        lemma_count_le_total(s, p);
        lemma_total_update(s, p, (k, s[p].1, (s[p].2 + 1) as u64));
    } else {
        lemma_total_insert(s, p, (k, rt, 1u64));
        assert forall|i: int| 0 <= i < t.len() implies #[trigger] t[i].2 >= 1 by {
            if i < p {
                assert(t[i] == s[i]);
            } else if i > p {
                assert(t[i] == s[i - 1]);
            }
        }
    }
}

/// The tally of the samples that arrived under `keys`, in arrival order.
pub open spec fn tally_of(keys: Seq<Seq<char>>) -> Seq<KeyEntry>
    decreases keys.len(),
{
    if keys.len() == 0 {
        seq![]
    } else {
        after_record(tally_of(keys.drop_last()), short_key_of(keys.last()), ros_type_of(keys.last()))
    }
}

/// How many of `keys` have the readable form `k`.
pub open spec fn samples_under(keys: Seq<Seq<char>>, k: Seq<char>) -> int
    decreases keys.len(),
{
    if keys.len() == 0 {
        0
    } else {
        samples_under(keys.drop_last(), k) + if short_key_of(keys.last()) == k {
            1int
        } else {
            0int
        }
    }
}

/// The ROS type of the first of `keys` whose readable form is `k`.
pub open spec fn first_type_under(keys: Seq<Seq<char>>, k: Seq<char>) -> Option<Seq<char>>
    decreases keys.len(),
{
    if keys.len() == 0 {
        None
    } else if samples_under(keys.drop_last(), k) > 0 {
        first_type_under(keys.drop_last(), k)
    } else {
        ros_type_of(keys.last())
    }
}

/// The tally describes exactly what arrived: its keys are the readable forms
/// of the keys, each with the type of its first sample and its sample count.
pub open spec fn tally_describes(t: Seq<KeyEntry>, keys: Seq<Seq<char>>) -> bool {
    &&& keys_ascending(t)
    &&& forall|i: int| 0 <= i < t.len() ==> (#[trigger] t[i]).2 == samples_under(keys, t[i].0)
        && t[i].1 == first_type_under(keys, t[i].0)
    &&& forall|k: Seq<char>| samples_under(keys, k) > 0 <==> exists|i: int| 0 <= i < t.len() && (#[trigger] t[i]).0 == k
}

proof fn lemma_samples_bound(keys: Seq<Seq<char>>, k: Seq<char>)
    ensures
        0 <= samples_under(keys, k) <= keys.len(),
    decreases keys.len(),
{
    if keys.len() > 0 {
        lemma_samples_bound(keys.drop_last(), k);
    }
}

/// A key of an ascending tally sits at one place only.
proof fn lemma_unique_key(s: Seq<KeyEntry>, i: int, j: int)
    requires
        keys_ascending(s),
        0 <= i < s.len(),
        0 <= j < s.len(),
        s[i].0 == s[j].0,
    ensures
        i == j,
{
    if i != j {
        chars_lt_irreflexive(s[i].0);
    }
}

/// Counting samples key by key: after every arrival the tally describes
/// exactly the keys that arrived, so `zenoh_list_keys` reports each distinct
/// readable key once, with the number of samples under it and the type of
/// the first.
pub proof fn tally_counts_samples(keys: Seq<Seq<char>>)
    requires
        keys.len() < u64::MAX,
    ensures
        tally_describes(tally_of(keys), keys),
    decreases keys.len(),
{
    if keys.len() > 0 {
        let prev = keys.drop_last();
        let s = tally_of(prev);
        let k = short_key_of(keys.last());
        let rt = ros_type_of(keys.last());
        let t = tally_of(keys);
        tally_counts_samples(prev);
        lemma_record_order(s, k, rt);
        let p = position_for(s, k);
        assert(t == after_record(s, k, rt));
        if p < s.len() && s[p].0 == k {
            lemma_samples_bound(prev, k);
            assert(t == s.update(p, (k, s[p].1, (s[p].2 + 1) as u64)));
            assert forall|i: int| 0 <= i < t.len() implies (#[trigger] t[i]).2 == samples_under(keys, t[i].0)
                && t[i].1 == first_type_under(keys, t[i].0) by {
                if i != p {
                    assert(t[i] == s[i]);
                    if s[i].0 == k {
                        lemma_unique_key(s, i, p);
                    }
                } else {
                    assert(samples_under(prev, k) > 0);
                }
            }
            assert forall|k2: Seq<char>| samples_under(keys, k2) > 0 <==> exists|i: int| 0 <= i < t.len() && (#[trigger] t[i]).0 == k2 by {
                if samples_under(keys, k2) > 0 {
                    if k2 == k {
                        assert(t[p].0 == k2);
                    } else {
                        assert(samples_under(prev, k2) > 0);
                        let i = choose|i: int| 0 <= i < s.len() && (#[trigger] s[i]).0 == k2;
                        assert(t[i].0 == k2);
                    }
                }
                if exists|i: int| 0 <= i < t.len() && (#[trigger] t[i]).0 == k2 {
                    let i = choose|i: int| 0 <= i < t.len() && (#[trigger] t[i]).0 == k2;
                    assert(s[i].0 == k2);
                }
            }
        } else {
            assert(t == s.insert(p, (k, rt, 1u64)));
            assert(samples_under(prev, k) == 0) by {
                lemma_samples_bound(prev, k);
                if samples_under(prev, k) > 0 {
                    let i = choose|i: int| 0 <= i < s.len() && (#[trigger] s[i]).0 == k;
                    assert(s[i].0 != k);
                }
            }
            assert forall|i: int| 0 <= i < t.len() implies (#[trigger] t[i]).2 == samples_under(keys, t[i].0)
                && t[i].1 == first_type_under(keys, t[i].0) by {
                if i < p {
                    assert(t[i] == s[i]);
                } else if i > p {
                    assert(t[i] == s[i - 1]);
                }
            }
            assert forall|k2: Seq<char>| samples_under(keys, k2) > 0 <==> exists|i: int| 0 <= i < t.len() && (#[trigger] t[i]).0 == k2 by {
                if samples_under(keys, k2) > 0 {
                    if k2 == k {
                        assert(t[p].0 == k2);
                    } else {
                        assert(samples_under(prev, k2) > 0);
                        let i = choose|i: int| 0 <= i < s.len() && (#[trigger] s[i]).0 == k2;
                        if i < p {
                            assert(t[i].0 == k2);
                        } else {
                            assert(t[i + 1].0 == k2);
                        }
                    }
                }
                if exists|i: int| 0 <= i < t.len() && (#[trigger] t[i]).0 == k2 {
                    let i = choose|i: int| 0 <= i < t.len() && (#[trigger] t[i]).0 == k2;
                    if i < p {
                        assert(s[i].0 == k2);
                    } else if i > p {
                        assert(s[i - 1].0 == k2);
                    }
                }
            }
        }

    }
}

/// The distinct keys seen while listening, like a `BTreeMap` from key to the
/// ROS type of its first sample and its sample count.
pub struct KeyTally {
    entries: Vec<KeyCount>,
    total: u64,
}

impl View for KeyTally {
    type V = Seq<KeyEntry>;

    closed spec fn view(&self) -> Seq<KeyEntry> {
        self.entries@.map_values(|e: KeyCount| e@)
    }
}

impl KeyTally {
    /// How many samples have been recorded.
    pub closed spec fn total_of(&self) -> nat {
        self.total as nat
    }

    /// Keys strictly ascending, each with at least one sample, and the samples
    /// of all keys adding up to the samples recorded.
    pub open spec fn wf(&self) -> bool {
        &&& keys_ascending(self@)
        &&& forall|i: int| 0 <= i < self@.len() ==> #[trigger] self@[i].2 >= 1
        &&& sample_total(self@) == self.total_of()
    }

    /// A tally with no keys.
    pub fn new() -> (t: Self)
        ensures
            t.wf(),
            t@ == Seq::<KeyEntry>::empty(),
            t.total_of() == 0,
    {
        let t = KeyTally { entries: Vec::new(), total: 0 };
        assert(t@ =~= Seq::<KeyEntry>::empty());
        t
    }

    /// How many samples have been recorded.
    pub fn total(&self) -> (n: u64)
        ensures
            n == self.total_of(),
    {
        self.total
    }

    /// The keys in order, each with its ROS type and sample count.
    pub fn entries(&self) -> (r: &Vec<KeyCount>)
        ensures
            r@.map_values(|e: KeyCount| e@) == self@,
    {
        &self.entries
    }

    /// Record one sample that arrived under `key`: it counts under the key's
    /// readable form, which keeps the ROS type of its first sample.
    pub fn record(&mut self, key: &str)
        requires
            old(self).wf(),
            old(self).total_of() < u64::MAX,
        ensures
            final(self).wf(),
            final(self)@ == after_record(old(self)@, short_key_of(key@), ros_type_of(key@)),
            final(self).total_of() == old(self).total_of() + 1,
    {
        let ghost s = self@;
        let sk = short_key(key);
        let rt = ros_type(key);
        let skc = chars_of(sk.as_str());
        let ghost k = sk@;
        proof {
            lemma_position(s, k);
        }
        let n = self.entries.len();
        let mut i: usize = 0;
        let mut searching = true;
        assert(s.skip(0) =~= s);
        while searching && i < n
            invariant
                i <= n,
                n == self.entries.len(),
                self@ == s,
                skc@ == k,
                searching ==> position_for(s, k) == i + position_for(s.skip(i as int), k),
                !searching ==> position_for(s, k) == i,
            decreases n - i + (if searching { 1int } else { 0int }),
        {
            let ek = chars_of(self.entries[i].key.as_str());
            assert(self.entries@[i as int]@ == s[i as int]);
            if chars_less(&ek, &skc) {
                proof {
                    lemma_position_skip(s, k, i as int);
                }
                i += 1;
            } else {
                assert(s.skip(i as int)[0] == s[i as int]);
                searching = false;
            }
        }
        assert(position_for(s, k) == i as int);
        let mut found = false;
        if i < n {
            let ek = chars_of(self.entries[i].key.as_str());
            assert(self.entries@[i as int]@ == s[i as int]);
            found = chars_equal(&ek, &skc);
        }
        let ghost old_entries = self.entries@;
        proof {
            lemma_after_record(s, k, opt_string_view(rt));
        }
        if found {
            proof {
                lemma_count_le_total(s, i as int);
            }
            let e = self.entries.remove(i);
            let updated = KeyCount { key: e.key, ros_type: e.ros_type, samples: e.samples + 1 };
            self.entries.insert(i, updated);
            proof {
                assert(self.entries@ =~= old_entries.update(i as int, updated));
                assert(self@ =~= s.update(i as int, updated@));
            }
        } else {
            let fresh = KeyCount { key: sk, ros_type: rt, samples: 1 };
            self.entries.insert(i, fresh);
            proof {
                assert(self@ =~= s.insert(i as int, fresh@));
            }
        }
        self.total = self.total + 1;
    }
}

} // verus!
