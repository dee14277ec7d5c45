//! Verified association maps for instrumentation fields and rollup sums.
//!
//! A field map carries the key/value pairs of a span, a trace or an event; a
//! rollup map carries running numeric sums in micro-units. Both are ordered
//! lists of entries with unique keys, viewed as ghost maps.

use vstd::prelude::*;
use vstd::string::*;

use crate::json::{entries_view, json_decimal, json_object_of, json_of_decimal};
use crate::numfmt::{micros_dec_of, micros_text};

verus! {

/// The ghost map an entry list stands for; a later entry wins over an
/// earlier one with the same key.
pub open spec fn map_of_pairs<V>(es: Seq<(Seq<char>, V)>) -> Map<Seq<char>, V>
    decreases es.len(),
{
    if es.len() == 0 {
        Map::empty()
    } else {
        map_of_pairs(es.drop_last()).insert(es.last().0, es.last().1)
    }
}

/// No two entries share a key.
pub open spec fn unique_keys<V>(es: Seq<(Seq<char>, V)>) -> bool {
    forall|i: int, j: int| 0 <= i < j < es.len() ==> es[i].0 != es[j].0
}

pub proof fn lemma_map_of_pairs_not_contains<V>(es: Seq<(Seq<char>, V)>, k: Seq<char>)
    requires
        forall|i: int| 0 <= i < es.len() ==> es[i].0 != k,
    ensures
        !map_of_pairs(es).dom().contains(k),
    decreases es.len(),
{
    if es.len() > 0 {
        lemma_map_of_pairs_not_contains(es.drop_last(), k);
    }
}

pub proof fn lemma_map_of_pairs_get<V>(es: Seq<(Seq<char>, V)>, i: int)
    requires
        unique_keys(es),
        0 <= i < es.len(),
    ensures
        map_of_pairs(es).dom().contains(es[i].0),
        map_of_pairs(es)[es[i].0] == es[i].1,
    decreases es.len(),
{
    if i == es.len() - 1 {
    } else {
        assert(unique_keys(es.drop_last()));
        assert(es.drop_last()[i] == es[i]);
        lemma_map_of_pairs_get(es.drop_last(), i);
        assert(es[i].0 != es.last().0);
    }
}

pub proof fn lemma_map_of_pairs_push<V>(es: Seq<(Seq<char>, V)>, p: (Seq<char>, V))
    ensures
        map_of_pairs(es.push(p)) == map_of_pairs(es).insert(p.0, p.1),
{
    assert(es.push(p).drop_last() =~= es);
    assert(es.push(p).last() == p);
}

pub proof fn lemma_map_of_pairs_update<V>(es: Seq<(Seq<char>, V)>, i: int, v: V)
    requires
        unique_keys(es),
        0 <= i < es.len(),
    ensures
        map_of_pairs(es.update(i, (es[i].0, v))) == map_of_pairs(es).insert(es[i].0, v),
    decreases es.len(),
{
    let es2 = es.update(i, (es[i].0, v));
    if i == es.len() - 1 {
        assert(es2.drop_last() =~= es.drop_last());
        assert(map_of_pairs(es2) =~= map_of_pairs(es).insert(es[i].0, v));
    } else {
        assert(unique_keys(es.drop_last()));
        assert(es.drop_last()[i] == es[i]);
        lemma_map_of_pairs_update(es.drop_last(), i, v);
        assert(es2.drop_last() =~= es.drop_last().update(i, (es[i].0, v)));
        assert(es2.last() == es.last());
        assert(es[i].0 != es.last().0);
        assert(map_of_pairs(es2) =~= map_of_pairs(es).insert(es[i].0, v));
    }
}

pub proof fn lemma_map_of_pairs_len<V>(es: Seq<(Seq<char>, V)>)
    requires
        unique_keys(es),
    ensures
        map_of_pairs(es).dom().finite(),
        map_of_pairs(es).len() == es.len(),
    decreases es.len(),
{
    if es.len() > 0 {
        assert(unique_keys(es.drop_last()));
        lemma_map_of_pairs_len(es.drop_last());
        lemma_map_of_pairs_not_contains(es.drop_last(), es.last().0);
    }
}

/// Inserting into the right side of a union inserts into the union.
pub proof fn lemma_union_insert<V>(a: Map<Seq<char>, V>, b: Map<Seq<char>, V>, k: Seq<char>, v: V)
    ensures
        a.union_prefer_right(b.insert(k, v)) == a.union_prefer_right(b).insert(k, v),
{
    assert(a.union_prefer_right(b.insert(k, v)) =~= a.union_prefer_right(b).insert(k, v));
}

/// A map of instrumentation fields: unique string keys, opaque JSON values.
pub struct FieldMap {
    entries: Vec<(String, serde_json::Value)>,
}

impl View for FieldMap {
    type V = Map<Seq<char>, serde_json::Value>;

    closed spec fn view(&self) -> Map<Seq<char>, serde_json::Value> {
        map_of_pairs(self.entries_seq())
    }
}

impl FieldMap {
    /// The entry list, keys as character sequences.
    pub closed spec fn entries_seq(&self) -> Seq<(Seq<char>, serde_json::Value)> {
        self.entries@.map(|i: int, p: (String, serde_json::Value)| (p.0@, p.1))
    }

    /// Keys are unique.
    pub closed spec fn wf(&self) -> bool {
        unique_keys(self.entries_seq())
    }

    pub fn new() -> (r: FieldMap)
        ensures
            r@ == Map::<Seq<char>, serde_json::Value>::empty(),
            r.wf(),
    {
        FieldMap { entries: Vec::new() }
    }

    pub fn len(&self) -> (r: usize)
        requires
            self.wf(),
        ensures
            r == self@.len(),
    {
        proof {
            lemma_map_of_pairs_len(self.entries_seq());
        }
        self.entries.len()
    }

    pub fn is_empty(&self) -> (r: bool)
        requires
            self.wf(),
        ensures
            r == self@.is_empty(),
    {
        proof {
            lemma_map_of_pairs_len(self.entries_seq());
            if self.entries_seq().len() == 0 {
                assert(self@ =~= Map::<Seq<char>, serde_json::Value>::empty());
            } else {
                assert(self@.dom().contains(self.entries_seq().last().0)) by {
                    lemma_map_of_pairs_get(
                        self.entries_seq(),
                        self.entries_seq().len() - 1,
                    );
                }
            }
        }
        self.entries.len() == 0
    }

    /// Insert or overwrite one field.
    pub fn insert(&mut self, key: &str, value: serde_json::Value)
        requires
            old(self).wf(),
        ensures
            final(self)@ == old(self)@.insert(key@, value),
            final(self).wf(),
    {
        let n: usize = self.entries.len();
        let mut i: usize = 0;
        while i < n
            invariant
                n == self.entries.len(),
                i <= n,
                old(self).wf(),
                forall|j: int| 0 <= j < i ==> self.entries_seq()[j].0 != key@,
                *self == *old(self),
            decreases n - i,
        {
            if crate::strutil::str_eq(self.entries[i].0.as_str(), key) {
                let k2 = self.entries[i].0.clone();
                proof {
                    assert(self.entries_seq()[i as int].0 == key@);
                }
                self.entries[i] = (k2, value);
                proof {
                    assert(self.entries_seq() =~= old(self).entries_seq().update(
                        i as int,
                        (old(self).entries_seq()[i as int].0, value),
                    ));
                    lemma_map_of_pairs_update(old(self).entries_seq(), i as int, value);
                    assert(old(self).entries_seq()[i as int].0 == key@);
                    assert(self.wf());
                }
                return ;
            }
            i = i + 1;
        }
        let k = key.to_owned();
        self.entries.push((k, value));
        proof {
            assert(self.entries_seq() =~= old(self).entries_seq().push((key@, value)));
            lemma_map_of_pairs_push(old(self).entries_seq(), (key@, value));
            assert(self.wf());
        }
    }

    /// Look a field up.
    pub fn get(&self, key: &str) -> (r: Option<&serde_json::Value>)
        requires
            self.wf(),
        ensures
            match r {
                Some(v) => self@.dom().contains(key@) && *v == self@[key@],
                None => !self@.dom().contains(key@),
            },
    {
        let n: usize = self.entries.len();
        let mut i: usize = 0;
        while i < n
            invariant
                self.wf(),
                n == self.entries.len(),
                i <= n,
                forall|j: int| 0 <= j < i ==> self.entries_seq()[j].0 != key@,
            decreases n - i,
        {
            if crate::strutil::str_eq(self.entries[i].0.as_str(), key) {
                proof {
                    lemma_map_of_pairs_get(self.entries_seq(), i as int);
                }
                return Some(&self.entries[i].1);
            }
            i = i + 1;
        }
        proof {
            lemma_map_of_pairs_not_contains(self.entries_seq(), key@);
        }
        None
    }

    /// Drop every field.
    pub fn clear(&mut self)
        ensures
            final(self)@ == Map::<Seq<char>, serde_json::Value>::empty(),
            final(self).wf(),
    {
        self.entries = Vec::new();
    }

    /// An equal, independently owned map.
    pub fn duplicate(&self) -> (r: FieldMap)
        ensures
            r@ == self@,
            self.wf() ==> r.wf(),
    {
        let n: usize = self.entries.len();
        let mut out: Vec<(String, serde_json::Value)> = Vec::new();
        let mut i: usize = 0;
        while i < n
            invariant
                n == self.entries.len(),
                i <= n,
                out@.len() == i,
                forall|j: int| 0 <= j < i ==> out@[j].0@ == self.entries_seq()[j].0
                    && out@[j].1 == self.entries_seq()[j].1,
            decreases n - i,
        {
            let k = self.entries[i].0.clone();
            let v = self.entries[i].1.clone();
            out.push((k, v));
            i = i + 1;
        }
        let r = FieldMap { entries: out };
        proof {
            assert(r.entries_seq() =~= self.entries_seq());
        }
        r
    }

    /// Merge every entry of `other` in; `other` wins on a shared key.
    pub fn merge_from(&mut self, other: &FieldMap)
        requires
            old(self).wf(),
        ensures
            final(self)@ == old(self)@.union_prefer_right(other@),
            final(self).wf(),
    {
        let n: usize = other.entries.len();
        let mut i: usize = 0;
        proof {
            assert(other.entries_seq().take(0) =~= Seq::<
                (Seq<char>, serde_json::Value),
            >::empty());
            assert(old(self)@.union_prefer_right(Map::empty()) =~= old(self)@);
        }
        while i < n
            invariant
                n == other.entries.len(),
                i <= n,
                self.wf(),
                self@ == old(self)@.union_prefer_right(
                    map_of_pairs(other.entries_seq().take(i as int)),
                ),
            decreases n - i,
        {
            let k = other.entries[i].0.clone();
            let v = other.entries[i].1.clone();
            self.insert(k.as_str(), v);
            proof {
                let pre = other.entries_seq().take(i as int);
                let post = other.entries_seq().take(i + 1);
                assert(post =~= pre.push(other.entries_seq()[i as int]));
                lemma_map_of_pairs_push(pre, other.entries_seq()[i as int]);
                lemma_union_insert(
                    old(self)@,
                    map_of_pairs(pre),
                    other.entries_seq()[i as int].0,
                    other.entries_seq()[i as int].1,
                );
            }
            i = i + 1;
        }
        proof {
            assert(other.entries_seq().take(n as int) =~= other.entries_seq());
        }
    }
}

/// Relies on serde_json::Map collected from the entry list: the object value
/// holding exactly these fields. Keys are unique, so no entry is lost.
#[verifier::external_body]
pub(crate) fn context_value(fields: &FieldMap) -> (r: serde_json::Value)
    requires
        fields.wf(),
    ensures
        r == json_object_of(fields@),
{
    serde_json::Value::Object(
        fields.entries.iter().map(|p| (p.0.clone(), p.1.clone())).collect(),
    )
}

/// A map of rollup sums: unique string keys, micro-unit counts.
pub struct RollupMap {
    entries: Vec<(String, i64)>,
}

impl View for RollupMap {
    type V = Map<Seq<char>, i64>;

    closed spec fn view(&self) -> Map<Seq<char>, i64> {
        map_of_pairs(self.entries_seq())
    }
}

/// `a + b` clamped into the i64 range.
pub open spec fn sat_add_i64(a: int, b: int) -> i64 {
    if a + b > i64::MAX {
        i64::MAX
    } else if a + b < i64::MIN {
        i64::MIN
    } else {
        (a + b) as i64
    }
}

impl RollupMap {
    pub closed spec fn entries_seq(&self) -> Seq<(Seq<char>, i64)> {
        self.entries@.map(|i: int, p: (String, i64)| (p.0@, p.1))
    }

    pub closed spec fn wf(&self) -> bool {
        unique_keys(self.entries_seq())
    }

    pub fn new() -> (r: RollupMap)
        ensures
            r@ == Map::<Seq<char>, i64>::empty(),
            r.wf(),
    {
        RollupMap { entries: Vec::new() }
    }

    pub fn is_empty(&self) -> (r: bool)
        requires
            self.wf(),
        ensures
            r == self@.is_empty(),
    {
        proof {
            lemma_map_of_pairs_len(self.entries_seq());
            if self.entries_seq().len() == 0 {
                assert(self@ =~= Map::<Seq<char>, i64>::empty());
            } else {
                assert(self@.dom().contains(self.entries_seq().last().0)) by {
                    lemma_map_of_pairs_get(self.entries_seq(), self.entries_seq().len() - 1);
                }
            }
        }
        self.entries.len() == 0
    }

    /// Look a sum up.
    pub fn get_micros(&self, key: &str) -> (r: Option<i64>)
        requires
            self.wf(),
        ensures
            match r {
                Some(v) => self@.dom().contains(key@) && v == self@[key@],
                None => !self@.dom().contains(key@),
            },
    {
        let n: usize = self.entries.len();
        let mut i: usize = 0;
        while i < n
            invariant
                self.wf(),
                n == self.entries.len(),
                i <= n,
                forall|j: int| 0 <= j < i ==> self.entries_seq()[j].0 != key@,
            decreases n - i,
        {
            if crate::strutil::str_eq(self.entries[i].0.as_str(), key) {
                proof {
                    lemma_map_of_pairs_get(self.entries_seq(), i as int);
                }
                return Some(self.entries[i].1);
            }
            i = i + 1;
        }
        proof {
            lemma_map_of_pairs_not_contains(self.entries_seq(), key@);
        }
        None
    }

    /// Add a contribution to a key's running sum; a missing key starts at
    /// zero. The sum saturates at the i64 bounds.
    pub fn add_micros(&mut self, key: &str, delta: i64)
        requires
            old(self).wf(),
        ensures
            final(self)@ == old(self)@.insert(
                key@,
                sat_add_i64(
                    if old(self)@.dom().contains(key@) {
                        old(self)@[key@] as int
                    } else {
                        0
                    },
                    delta as int,
                ),
            ),
            final(self).wf(),
    {
        let n: usize = self.entries.len();
        let mut i: usize = 0;
        while i < n
            invariant
                n == self.entries.len(),
                i <= n,
                old(self).wf(),
                forall|j: int| 0 <= j < i ==> self.entries_seq()[j].0 != key@,
                *self == *old(self),
            decreases n - i,
        {
            if crate::strutil::str_eq(self.entries[i].0.as_str(), key) {
                let cur: i64 = self.entries[i].1;
                let sum: i64 = match cur.checked_add(delta) {
                    Some(s) => s,
                    None => {
                        if delta > 0 {
                            i64::MAX
                        } else {
                            i64::MIN
                        }
                    },
                };
                proof {
                    lemma_map_of_pairs_get(self.entries_seq(), i as int);
                    assert(sum == sat_add_i64(cur as int, delta as int));
                }
                let k2 = self.entries[i].0.clone();
                self.entries[i] = (k2, sum);
                proof {
                    assert(self.entries_seq() =~= old(self).entries_seq().update(
                        i as int,
                        (old(self).entries_seq()[i as int].0, sum),
                    ));
                    lemma_map_of_pairs_update(old(self).entries_seq(), i as int, sum);
                    assert(self.wf());
                }
                return ;
            }
            i = i + 1;
        }
        proof {
            lemma_map_of_pairs_not_contains(self.entries_seq(), key@);
        }
        let sum: i64 = match (0i64).checked_add(delta) {
            Some(s) => s,
            None => 0,
        };
        let k = key.to_owned();
        self.entries.push((k, sum));
        proof {
            assert(self.entries_seq() =~= old(self).entries_seq().push((key@, sum)));
            lemma_map_of_pairs_push(old(self).entries_seq(), (key@, sum));
            assert(self.wf());
        }
    }
}

/// The fields a rollup map contributes to an event: each sum rendered as the
/// JSON number its decimal numeral writes.
pub open spec fn rendered_rollups(m: Map<Seq<char>, i64>) -> Map<Seq<char>, serde_json::Value> {
    Map::new(
        |k: Seq<char>| m.dom().contains(k),
        |k: Seq<char>| json_of_decimal(micros_dec_of(m[k] as int)),
    )
}

/// The key a trace-level rollup is emitted under at the root span.
pub open spec fn rollup_key(k: Seq<char>) -> Seq<char> {
    "rollup."@ + k
}

/// The trace-level rollups as the root span emits them, each under its
/// prefixed key.
pub open spec fn rendered_rollups_prefixed(m: Map<Seq<char>, i64>) -> Map<
    Seq<char>,
    serde_json::Value,
> {
    Map::new(
        |k: Seq<char>| k.len() >= 7 && k.subrange(0, 7) == "rollup."@ && m.dom().contains(
            k.skip(7),
        ),
        |k: Seq<char>| json_of_decimal(micros_dec_of(m[k.skip(7)] as int)),
    )
}

proof fn lemma_rendered_insert(m: Map<Seq<char>, i64>, k: Seq<char>, v: i64)
    ensures
        rendered_rollups(m.insert(k, v)) == rendered_rollups(m).insert(
            k,
            json_of_decimal(micros_dec_of(v as int)),
        ),
{
    assert(rendered_rollups(m.insert(k, v)) =~= rendered_rollups(m).insert(
        k,
        json_of_decimal(micros_dec_of(v as int)),
    ));
}

proof fn lemma_rendered_prefixed_insert(m: Map<Seq<char>, i64>, k: Seq<char>, v: i64)
    ensures
        rendered_rollups_prefixed(m.insert(k, v)) == rendered_rollups_prefixed(m).insert(
            rollup_key(k),
            json_of_decimal(micros_dec_of(v as int)),
        ),
{
    let lhs = rendered_rollups_prefixed(m.insert(k, v));
    let rhs = rendered_rollups_prefixed(m).insert(
        rollup_key(k),
        json_of_decimal(micros_dec_of(v as int)),
    );
    reveal_strlit("rollup.");
    assert(rollup_key(k).subrange(0, 7) =~= "rollup."@);
    assert(rollup_key(k).skip(7) =~= k);
    assert forall|kk: Seq<char>| lhs.dom().contains(kk) implies rhs.dom().contains(kk) by {
        if kk.skip(7) == k {
            assert(kk =~= kk.subrange(0, 7) + kk.skip(7));
            assert(kk == rollup_key(k));
        }
    }
    assert forall|kk: Seq<char>| rhs.dom().contains(kk) implies lhs.dom().contains(kk) by {
        if kk == rollup_key(k) {
            assert(lhs.dom().contains(kk));
        }
    }
    assert forall|kk: Seq<char>| lhs.dom().contains(kk) implies lhs[kk] == rhs[kk] by {
        if kk.skip(7) == k {
            assert(kk =~= kk.subrange(0, 7) + kk.skip(7));
            assert(kk == rollup_key(k));
        }
    }
    assert(lhs =~= rhs);
}

impl FieldMap {
    /// Merge a span's own rollup sums in as plain fields.
    pub fn merge_rollups(&mut self, r: &RollupMap)
        requires
            old(self).wf(),
        ensures
            final(self)@ == old(self)@.union_prefer_right(rendered_rollups(r@)),
            final(self).wf(),
    {
        let n: usize = r.entries.len();
        let mut i: usize = 0;
        let ghost mut seen: Map<Seq<char>, i64> = Map::empty();
        proof {
            assert(rendered_rollups(seen) =~= Map::<Seq<char>, serde_json::Value>::empty());
            assert(old(self)@.union_prefer_right(rendered_rollups(seen)) =~= old(self)@);
        }
        while i < n
            invariant
                n == r.entries.len(),
                i <= n,
                self.wf(),
                seen == map_of_pairs(r.entries_seq().take(i as int)),
                self@ == old(self)@.union_prefer_right(rendered_rollups(seen)),
            decreases n - i,
        {
            let text = micros_text(r.entries[i].1);
            let val = json_decimal(text.as_str());
            self.insert(r.entries[i].0.as_str(), val);
            proof {
                let p = r.entries_seq()[i as int];
                assert(r.entries_seq().take(i + 1) =~= r.entries_seq().take(i as int).push(p));
                lemma_map_of_pairs_push(r.entries_seq().take(i as int), p);
                lemma_rendered_insert(seen, p.0, p.1);
                lemma_union_insert(
                    old(self)@,
                    rendered_rollups(seen),
                    p.0,
                    json_of_decimal(micros_dec_of(p.1 as int)),
                );
                seen = seen.insert(p.0, p.1);
            }
            i = i + 1;
        }
        proof {
            assert(r.entries_seq().take(n as int) =~= r.entries_seq());
        }
    }

    /// Merge the trace's rollup sums in under `rollup.`-prefixed keys, as the
    /// root span emits them.
    pub fn merge_rollups_prefixed(&mut self, r: &RollupMap)
        requires
            old(self).wf(),
        ensures
            final(self)@ == old(self)@.union_prefer_right(rendered_rollups_prefixed(r@)),
            final(self).wf(),
    {
        let n: usize = r.entries.len();
        let mut i: usize = 0;
        let ghost mut seen: Map<Seq<char>, i64> = Map::empty();
        proof {
            assert(rendered_rollups_prefixed(seen) =~= Map::<
                Seq<char>,
                serde_json::Value,
            >::empty());
            assert(old(self)@.union_prefer_right(rendered_rollups_prefixed(seen)) =~= old(
                self,
            )@);
        }
        while i < n
            invariant
                n == r.entries.len(),
                i <= n,
                self.wf(),
                seen == map_of_pairs(r.entries_seq().take(i as int)),
                self@ == old(self)@.union_prefer_right(rendered_rollups_prefixed(seen)),
            decreases n - i,
        {
            let mut key = String::from_str("rollup.");
            key.append(r.entries[i].0.as_str());
            proof {
                reveal_strlit("rollup.");
                assert(key@ == rollup_key(r.entries_seq()[i as int].0));
            }
            let text = micros_text(r.entries[i].1);
            let val = json_decimal(text.as_str());
            self.insert(key.as_str(), val);
            proof {
                let p = r.entries_seq()[i as int];
                assert(r.entries_seq().take(i + 1) =~= r.entries_seq().take(i as int).push(p));
                lemma_map_of_pairs_push(r.entries_seq().take(i as int), p);
                lemma_rendered_prefixed_insert(seen, p.0, p.1);
                lemma_union_insert(
                    old(self)@,
                    rendered_rollups_prefixed(seen),
                    rollup_key(p.0),
                    json_of_decimal(micros_dec_of(p.1 as int)),
                );
                seen = seen.insert(p.0, p.1);
            }
            i = i + 1;
        }
        proof {
            assert(r.entries_seq().take(n as int) =~= r.entries_seq());
        }
    }

    /// Build a field map from decoded object entries; a later entry wins.
    pub fn from_entries(es: &Vec<(String, serde_json::Value)>) -> (r: FieldMap)
        ensures
            r@ == map_of_pairs(entries_view(es@)),
            r.wf(),
    {
        let mut r = FieldMap::new();
        let n: usize = es.len();
        let mut i: usize = 0;
        proof {
            assert(entries_view(es@).take(0) =~= Seq::<(Seq<char>, serde_json::Value)>::empty());
        }
        while i < n
            invariant
                n == es.len(),
                i <= n,
                r.wf(),
                r@ == map_of_pairs(entries_view(es@).take(i as int)),
            decreases n - i,
        {
            let k = es[i].0.clone();
            let v = es[i].1.clone();
            r.insert(k.as_str(), v);
            proof {
                let p = entries_view(es@)[i as int];
                assert(entries_view(es@).take(i + 1) =~= entries_view(es@).take(i as int).push(
                    p,
                ));
                lemma_map_of_pairs_push(entries_view(es@).take(i as int), p);
            }
            i = i + 1;
        }
        proof {
            assert(entries_view(es@).take(n as int) =~= entries_view(es@));
        }
        r
    }
}

} // verus!
