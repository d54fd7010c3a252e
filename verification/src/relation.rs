use crate::assoc::{has_key, key_index, lemma_push, pairs_map, put, Assoc};
use crate::errors::TErrors;
use crate::fragment::{Fragment, ToHash};
use crate::json::json_string_map;
use crate::text::{count_of, count_trimmed, numbered, numbered_key};
use vstd::prelude::*;

verus! {

/// The keys of a list of entries, in order.
pub open spec fn keys_of<W>(s: Seq<(Seq<char>, W)>) -> Seq<Seq<char>> {
    Seq::new(s.len(), |i: int| s[i].0)
}

/// The key under which a left join stores the foreign entry with key `k`:
/// `k`, an underscore and how often `k` occurs among the foreign keys.
pub open spec fn join_key(foreign: Seq<(Seq<char>, Option<Seq<char>>)>, k: Seq<char>) -> Seq<char> {
    numbered(k, count_trimmed(keys_of(foreign), k, foreign.len()))
}

/// The value that a left join stores for a foreign value: the text itself,
/// or the word `None` for an absent one.
pub open spec fn join_value(v: Option<Seq<char>>) -> Seq<char> {
    match v {
        Some(s) => s,
        None => "None"@,
    }
}

/// The entries of `base` with the first `n` foreign entries bound in turn.
pub open spec fn merged(
    base: Seq<(Seq<char>, Seq<char>)>,
    foreign: Seq<(Seq<char>, Seq<char>)>,
    n: nat,
) -> Seq<(Seq<char>, Seq<char>)>
    decreases n,
{
    if n == 0 || n > foreign.len() {
        base
    } else {
        put(merged(base, foreign, (n - 1) as nat), foreign[n - 1].0, foreign[n - 1].1)
    }
}

/// The entries of the left join of `base` with the first `n` foreign
/// entries: the joined entries are bound in turn, each under its numbered
/// key.
pub open spec fn joined_pairs(
    base: Seq<(Seq<char>, Seq<char>)>,
    foreign: Seq<(Seq<char>, Option<Seq<char>>)>,
    n: nat,
) -> Seq<(Seq<char>, Seq<char>)>
    decreases n,
{
    if n == 0 || n > foreign.len() {
        base
    } else {
        let before = joined_pairs(base, foreign, (n - 1) as nat);
        let entry = foreign[n - 1];
        if has_key(base, entry.0) {
            put(before, join_key(foreign, entry.0), join_value(entry.1))
        } else {
            before
        }
    }
}

/// The left join of `base` with the first `n` foreign entries. A foreign
/// entry whose key `base` binds is stored under its numbered key; one whose
/// key `base` lacks is dropped.
pub open spec fn joined(
    base: Map<Seq<char>, Seq<char>>,
    foreign: Seq<(Seq<char>, Option<Seq<char>>)>,
    n: nat,
) -> Map<Seq<char>, Seq<char>>
    decreases n,
{
    if n == 0 || n > foreign.len() {
        base
    } else {
        let before = joined(base, foreign, (n - 1) as nat);
        let entry = foreign[n - 1];
        if base.contains_key(entry.0) {
            before.insert(join_key(foreign, entry.0), join_value(entry.1))
        } else {
            before
        }
    }
}

/// Whether `q` is the numbered key of one of the first `n` foreign entries
/// whose key `base` binds.
pub open spec fn join_source(
    base: Map<Seq<char>, Seq<char>>,
    foreign: Seq<(Seq<char>, Option<Seq<char>>)>,
    n: nat,
    q: Seq<char>,
) -> bool {
    exists|i: int|
        0 <= i < n && i < foreign.len() && base.contains_key((#[trigger] foreign[i]).0) && q
            == join_key(foreign, foreign[i].0)
}

/// A left join binds every key of the base and the numbered key of every
/// foreign entry whose key the base binds, and no other key: a foreign entry
/// whose key the base lacks adds nothing.
pub proof fn lemma_joined_keys(
    base: Map<Seq<char>, Seq<char>>,
    foreign: Seq<(Seq<char>, Option<Seq<char>>)>,
    n: nat,
)
    requires
        n <= foreign.len(),
    ensures
        forall|q: Seq<char>| #[trigger]
            joined(base, foreign, n).contains_key(q) <==> (base.contains_key(q) || join_source(
                base,
                foreign,
                n,
                q,
            )),
    decreases n,
{
    if n > 0 {
        let m = (n - 1) as nat;
        lemma_joined_keys(base, foreign, m);
        let entry = foreign[n - 1];
        assert forall|q: Seq<char>| #[trigger]
            joined(base, foreign, n).contains_key(q) <==> (base.contains_key(q) || join_source(
                base,
                foreign,
                n,
                q,
            )) by {
            assert(joined(base, foreign, m).contains_key(q) <==> (base.contains_key(q)
                || join_source(base, foreign, m, q)));
            if join_source(base, foreign, m, q) {
                let i = choose|i: int|
                    0 <= i < m && i < foreign.len() && base.contains_key((#[trigger] foreign[i]).0)
                        && q == join_key(foreign, foreign[i].0);
                assert(0 <= i < n && base.contains_key(foreign[i].0));
            }
            if join_source(base, foreign, n, q) {
                let i = choose|i: int|
                    0 <= i < n && i < foreign.len() && base.contains_key((#[trigger] foreign[i]).0)
                        && q == join_key(foreign, foreign[i].0);
                if i < m {
                    assert(0 <= i < m && base.contains_key(foreign[i].0));
                }
            }
            if base.contains_key(entry.0) && q == join_key(foreign, entry.0) {
                assert(base.contains_key(foreign[n - 1].0));
            }
        }
    }
}

/// A left join never changes what the base binds under a key that is no
/// numbered key of a joined entry.
pub proof fn lemma_joined_keeps_base(
    base: Map<Seq<char>, Seq<char>>,
    foreign: Seq<(Seq<char>, Option<Seq<char>>)>,
    n: nat,
    q: Seq<char>,
)
    requires
        n <= foreign.len(),
        base.contains_key(q),
        !join_source(base, foreign, n, q),
    ensures
        joined(base, foreign, n).contains_key(q),
        joined(base, foreign, n)[q] == base[q],
    decreases n,
{
    if n > 0 {
        let m = (n - 1) as nat;
        if join_source(base, foreign, m, q) {
            let i = choose|i: int|
                0 <= i < m && i < foreign.len() && base.contains_key((#[trigger] foreign[i]).0) && q
                    == join_key(foreign, foreign[i].0);
            assert(0 <= i < n && base.contains_key(foreign[i].0));
        }
        lemma_joined_keeps_base(base, foreign, m, q);
        if base.contains_key(foreign[n - 1].0) && q == join_key(foreign, foreign[n - 1].0) {
            assert(join_source(base, foreign, n, q));
        }
    }
}

/// In a merge the foreign map wins: a key that it binds has its value, a
/// key that only the base binds keeps the base's value, and no other key is
/// bound.
pub proof fn lemma_merge_foreign_wins(
    base: Map<Seq<char>, Seq<char>>,
    foreign: Map<Seq<char>, Seq<char>>,
    k: Seq<char>,
)
    ensures
        base.union_prefer_right(foreign).contains_key(k) <==> (base.contains_key(k)
            || foreign.contains_key(k)),
        foreign.contains_key(k) ==> base.union_prefer_right(foreign)[k] == foreign[k],
        base.contains_key(k) && !foreign.contains_key(k) ==> base.union_prefer_right(foreign)[k]
            == base[k],
{
}

/// Lays `foreign` over `base`: every key of either is bound, and where both
/// bind a key the foreign value stands.
pub fn merge_maps(base: Assoc<String>, foreign: &Assoc<String>) -> (r: Assoc<String>)
    requires
        base.wf(),
        foreign.wf(),
    ensures
        r.wf(),
        r@ == base@.union_prefer_right(foreign@),
        r.pairs() == merged(base.pairs(), foreign.pairs(), foreign.pairs().len()),
{
    let mut out = base;
    let mut i: usize = 0;
    proof {
        assert(pairs_map(foreign.pairs().subrange(0, 0)) =~= Map::<Seq<char>, Seq<char>>::empty());
        assert(out@ =~= base@.union_prefer_right(pairs_map(foreign.pairs().subrange(0, 0))));
    }
    while i < foreign.len()
        invariant
            i <= foreign.pairs().len(),
            foreign.wf(),
            out.wf(),
            out@ == base@.union_prefer_right(pairs_map(foreign.pairs().subrange(0, i as int))),
            out.pairs() == merged(base.pairs(), foreign.pairs(), i as nat),
        decreases foreign.pairs().len() - i,
    {
        let key = foreign.key_at(i).clone();
        let value = foreign.value_at(i).clone();
        proof {
            let fp = foreign.pairs();
            let head = fp.subrange(0, i as int);
            let next = fp.subrange(0, i + 1);
            assert(next =~= head.push(fp[i as int]));
            assert forall|a: int, b: int| 0 <= a < b < head.len() implies (#[trigger] head[a]).0
                != (#[trigger] head[b]).0 by {
                assert(fp[a].0 != fp[b].0);
            }
            if has_key(head, key@) {
                let j = key_index(head, key@);
                assert(head[j].0 == key@);
                assert(fp[j].0 != fp[i as int].0);
            }
            lemma_push(head, key@, value@);
            assert(base@.union_prefer_right(pairs_map(head)).insert(key@, value@)
                =~= base@.union_prefer_right(pairs_map(head).insert(key@, value@)));
        }
        out.insert(key, value);
        i += 1;
    }
    proof {
        assert(foreign.pairs().subrange(0, foreign.pairs().len() as int) =~= foreign.pairs());
    }
    out
}

/// The left join of `base` with `foreign`: each foreign entry whose key
/// `base` binds is added under the key followed by an underscore and the
/// number of foreign keys that equal it when trimmed, with its value, or the
/// word `None` for an absent value. Foreign entries whose key `base` lacks
/// are dropped.
pub fn join_maps(base: Assoc<String>, foreign: &Assoc<Option<String>>) -> (r: Assoc<String>)
    requires
        base.wf(),
    ensures
        r.wf(),
        r@ == joined(base@, foreign.pairs(), foreign.pairs().len()),
        r.pairs() == joined_pairs(base.pairs(), foreign.pairs(), foreign.pairs().len()),
{
    let keys = foreign.keys();
    let mut out = base.duplicate();
    let mut i: usize = 0;
    while i < foreign.len()
        invariant
            i <= foreign.pairs().len(),
            base.wf(),
            out.wf(),
            keys.deep_view() == keys_of(foreign.pairs()),
            out@ == joined(base@, foreign.pairs(), i as nat),
            out.pairs() == joined_pairs(base.pairs(), foreign.pairs(), i as nat),
        decreases foreign.pairs().len() - i,
    {
        let key = foreign.key_at(i);
        if base.contains_key(key) {
            let n = count_of(&keys, key);
            let name = numbered_key(key.as_str(), n);
            let value: String = match foreign.value_at(i) {
                Some(s) => s.clone(),
                None => "None".to_owned(),
            };
            out.insert(name, value);
        }
        i += 1;
    }
    out
}

impl Fragment {
    /// The record's string map with the foreign map laid over it: foreign
    /// values win where both bind a key. Fails with `HashConvert` where the
    /// record has no string map.
    pub fn merge(&self, foreign_table: Assoc<String>) -> (r: Result<Assoc<String>, TErrors>)
        requires
            foreign_table.wf(),
        ensures
            match r {
                Ok(m) => m.wf() && json_string_map(self@) is Some && m@ == json_string_map(
                    self@,
                )->Some_0.union_prefer_right(foreign_table@),
                Err(e) => e == TErrors::HashConvert && json_string_map(self@) is None,
            },
    {
        match self.to_hash() {
            Ok(base) => Ok(merge_maps(base, &foreign_table)),
            Err(_) => Err(TErrors::HashConvert),
        }
    }

    /// The left join of the record's string map with the foreign map. Fails
    /// with `HashConvert` where the record has no string map.
    pub fn left_join(&self, foreign_table: Assoc<Option<String>>) -> (r: Result<
        Assoc<String>,
        TErrors,
    >)
        ensures
            match r {
                Ok(m) => m.wf() && json_string_map(self@) is Some && m@ == joined(
                    json_string_map(self@)->Some_0,
                    foreign_table.pairs(),
                    foreign_table.pairs().len(),
                ),
                Err(e) => e == TErrors::HashConvert && json_string_map(self@) is None,
            },
    {
        match self.to_hash() {
            Ok(base) => Ok(join_maps(base, &foreign_table)),
            Err(_) => Err(TErrors::HashConvert),
        }
    }
}

} // verus!
