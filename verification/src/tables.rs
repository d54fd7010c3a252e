use crate::assoc::{cut, has_key, lemma_key_index, Assoc};
use crate::errors::TErrors;
use crate::fragment::{Fragment, ToHash};
use crate::json::{
    json_list_map, json_string_map, list_map_json, string_map_json, write_list_map,
    write_string_map,
};
use crate::relation::keys_of;
use crate::text::{lossy_text, read_lossy, same_trimmed, trimmed};
use vstd::prelude::*;
use vstd::utf8::encode_utf8;

verus! {

/// The tables after `create_table`: a table that exists is left alone, a new
/// one holds the document.
pub open spec fn created(
    store: Map<Seq<char>, Seq<char>>,
    name: Seq<char>,
    document: Seq<char>,
) -> Map<Seq<char>, Seq<char>> {
    if store.contains_key(name) {
        store
    } else {
        store.insert(name, document)
    }
}

/// Creating a table a second time under the same name changes nothing,
/// whatever the second document is: the content stays that of the first
/// call.
pub proof fn lemma_create_table_idempotent(
    store: Map<Seq<char>, Seq<char>>,
    name: Seq<char>,
    first: Seq<char>,
    second: Seq<char>,
)
    ensures
        created(created(store, name, first), name, second) == created(store, name, first),
        created(store, name, first).contains_key(name),
        !store.contains_key(name) ==> created(created(store, name, first), name, second)[name]
            == first,
{
}

/// A read that gave a record whose document is a string map.
pub open spec fn decodes(read: Result<Fragment, TErrors>) -> bool {
    read is Ok && json_string_map(read->Ok_0@) is Some
}

/// The string map of a read that decodes.
pub open spec fn decoded(read: Result<Fragment, TErrors>) -> Map<Seq<char>, Seq<char>> {
    json_string_map(read->Ok_0@)->Some_0
}

/// The error that a scan stops with at a read that does not decode:
/// `ReadByteError` for a failed read, `HashConvert` for a record that is no
/// string map.
pub open spec fn scan_error(read: Result<Fragment, TErrors>) -> TErrors {
    if read is Err {
        TErrors::ReadByteError
    } else {
        TErrors::HashConvert
    }
}

/// Position `f` is the first read that does not decode.
pub open spec fn first_failure(reads: Seq<Result<Fragment, TErrors>>, f: int) -> bool {
    &&& 0 <= f < reads.len()
    &&& !decodes(reads[f])
    &&& forall|j: int| 0 <= j < f ==> decodes(#[trigger] reads[j])
}

/// Whether a string map binds `key` to a text that equals `value` once both
/// are trimmed.
pub open spec fn where_match(m: Map<Seq<char>, Seq<char>>, key: Seq<char>, value: Seq<char>) -> bool {
    m.contains_key(key) && trimmed(m[key]) == trimmed(value)
}

/// The documents among the first `n` reads that match, in order.
pub open spec fn where_kept(
    reads: Seq<Result<Fragment, TErrors>>,
    key: Seq<char>,
    value: Seq<char>,
    n: nat,
) -> Seq<Seq<char>>
    decreases n,
{
    if n == 0 || n > reads.len() {
        Seq::empty()
    } else {
        let before = where_kept(reads, key, value, (n - 1) as nat);
        if where_match(decoded(reads[n - 1]), key, value) {
            before.push(reads[n - 1]->Ok_0@)
        } else {
            before
        }
    }
}

/// The documents of the successful reads among the first `n`, in order.
pub open spec fn readable(reads: Seq<Result<Fragment, TErrors>>, n: nat) -> Seq<Seq<char>>
    decreases n,
{
    if n == 0 || n > reads.len() {
        Seq::empty()
    } else {
        let before = readable(reads, (n - 1) as nat);
        if reads[n - 1] is Ok {
            before.push(reads[n - 1]->Ok_0@)
        } else {
            before
        }
    }
}

/// The outcome of `update_table` on the document stored under a name, if
/// any, once `key` is bound to `value` in its string map.
pub open spec fn updated(
    stored: Option<Seq<char>>,
    key: Seq<char>,
    value: Seq<char>,
) -> Result<Seq<char>, TErrors> {
    match stored {
        None => Err(TErrors::FileError),
        Some(document) => match json_string_map(document) {
            None => Err(TErrors::HashConvert),
            Some(m) => match string_map_json(m.insert(key, value)) {
                None => Err(TErrors::StringConvert),
                Some(text) => Ok(text),
            },
        },
    }
}

/// The outcome of `update_table_vec` on the document stored under a name, if
/// any, once `key` is bound to `value` in its string-list map.
pub open spec fn updated_vec(
    stored: Option<Seq<char>>,
    key: Seq<char>,
    value: Seq<Seq<char>>,
) -> Result<Seq<char>, TErrors> {
    match stored {
        None => Err(TErrors::FileError),
        Some(document) => match json_list_map(document) {
            None => Err(TErrors::HashConvert),
            Some(m) => match list_map_json(m.insert(key, value)) {
                None => Err(TErrors::HashConvert),
                Some(text) => Ok(text),
            },
        },
    }
}

/// The document stored under a name, if any.
pub open spec fn stored(store: Map<Seq<char>, Seq<char>>, name: Seq<char>) -> Option<Seq<char>> {
    if store.contains_key(name) {
        Some(store[name])
    } else {
        None
    }
}

/// The ten bytes read from the start of a table: its first ten bytes, with
/// zeros where the table is shorter.
pub open spec fn ten_bytes(content: Seq<u8>) -> Seq<u8> {
    Seq::new(
        10,
        |i: int|
            if i < content.len() {
                content[i]
            } else {
                0u8
            },
    )
}

/// Whether the table named `k` stands at a position below `n` that is
/// flagged.
pub open spec fn flagged(
    tables: Seq<(Seq<char>, Seq<char>)>,
    flags: Seq<bool>,
    n: int,
    k: Seq<char>,
) -> bool {
    exists|j: int|
        0 <= j < n && j < tables.len() && j < flags.len() && #[trigger] flags[j] && tables[j].0 == k
}

/// The first `n` tables of a listing without the flagged ones, in order.
pub open spec fn unflagged_tables(
    tables: Seq<(Seq<char>, Seq<char>)>,
    flags: Seq<bool>,
    n: nat,
) -> Seq<(Seq<char>, Seq<char>)>
    decreases n,
{
    if n == 0 || n > tables.len() {
        Seq::empty()
    } else {
        let before = unflagged_tables(tables, flags, (n - 1) as nat);
        if n - 1 < flags.len() && flags[n - 1] {
            before
        } else {
            before.push(tables[n - 1])
        }
    }
}

/// The tables that are left once the flagged ones among the first `n` are
/// deleted.
pub open spec fn unflagged(
    store: Map<Seq<char>, Seq<char>>,
    tables: Seq<(Seq<char>, Seq<char>)>,
    flags: Seq<bool>,
    n: int,
) -> Map<Seq<char>, Seq<char>> {
    Map::new(
        |k: Seq<char>| store.contains_key(k) && !flagged(tables, flags, n, k),
        |k: Seq<char>| store[k],
    )
}

/// Whether a string map binds `key` to a text that equals `value` once both
/// are trimmed. A map without the key does not match, whatever the value.
pub fn holds_where(m: &Assoc<String>, key: &String, value: &String) -> (r: bool)
    requires
        m.wf(),
    ensures
        r == where_match(m@, key@, value@),
{
    match m.get(key) {
        Some(found) => same_trimmed(found, value),
        None => false,
    }
}

impl Fragment {
    /// The record stored under a name. Fails with `FileNotFound` where the
    /// store has no such table.
    pub fn read_table(&self, store: &Assoc<String>, file_path: String) -> (r: Result<
        Fragment,
        TErrors,
    >)
        requires
            store.wf(),
        ensures
            match r {
                Ok(f) => store@.contains_key(file_path@) && f@ == store@[file_path@],
                Err(e) => e == TErrors::FileNotFound && !store@.contains_key(file_path@),
            },
    {
        match store.get(&file_path) {
            Some(text) => Ok(Fragment { inner: text.clone() }),
            None => Err(TErrors::FileNotFound),
        }
    }

    /// Stores the record under a name, unless a table of that name exists:
    /// an existing table is never overwritten, and that is no error.
    pub fn create_table(&self, store: &mut Assoc<String>, table_name: String) -> (r: Result<
        &Self,
        TErrors,
    >)
        requires
            old(store).wf(),
        ensures
            r == Ok::<&Self, TErrors>(self),
            final(store).wf(),
            final(store)@ == created(old(store)@, table_name@, self@),
            final(store).pairs() == if has_key(old(store).pairs(), table_name@) {
                old(store).pairs()
            } else {
                old(store).pairs().push((table_name@, self@))
            },
    {
        if !store.contains_key(&table_name) {
            store.insert(table_name, self.inner.clone());
        }
        Ok(self)
    }

    /// Removes the table of that name, if there is one.
    pub fn delete_table(&self, store: &mut Assoc<String>, table_name: String)
        requires
            old(store).wf(),
        ensures
            final(store).wf(),
            final(store)@ == old(store)@.remove(table_name@),
            final(store).pairs() == cut(old(store).pairs(), table_name@),
    {
        store.remove(&table_name);
    }

    /// The text that the type test of `delete_table_infer` is made on: the
    /// first ten bytes of a table, padded with zeros, read as UTF-8 with
    /// replacement. Ten bytes hold next to no record, so the test fails on
    /// nearly every table.
    pub fn table_prefix(content: &String) -> (r: String)
        ensures
            r@ == lossy_text(ten_bytes(encode_utf8(content@))),
    {
        let bytes = content.as_str().as_bytes();
        let mut head: Vec<u8> = Vec::new();
        let mut i: usize = 0;
        while i < 10
            invariant
                i <= 10,
                head.len() == i,
                bytes@ == encode_utf8(content@),
                forall|j: int| 0 <= j < i ==> #[trigger] head[j] == ten_bytes(bytes@)[j],
            decreases 10 - i,
        {
            let b: u8 = if i < bytes.len() {
                bytes[i]
            } else {
                0u8
            };
            head.push(b);
            i += 1;
        }
        proof {
            assert(head@ =~= ten_bytes(bytes@));
        }
        read_lossy(&head)
    }

    /// Deletes every table that passed the type test: the table at position
    /// `i` of the listing goes where `matches` holds `true` at `i`. The
    /// others stay as they are.
    pub fn delete_table_infer(&self, store: &mut Assoc<String>, matches: &Vec<bool>) -> (r: Result<
        (),
        TErrors,
    >)
        requires
            old(store).wf(),
        ensures
            r is Ok,
            final(store).wf(),
            final(store)@ == unflagged(
                old(store)@,
                old(store).pairs(),
                matches@,
                old(store).pairs().len() as int,
            ),
            final(store).pairs() == unflagged_tables(
                old(store).pairs(),
                matches@,
                old(store).pairs().len(),
            ),
    {
        let names = store.keys();
        let ghost tables = store.pairs();
        let ghost before = store@;
        let mut i: usize = 0;
        proof {
            assert(store@ =~= unflagged(before, tables, matches@, 0));
            assert(names.deep_view().len() == tables.len());
            assert(store.pairs() =~= unflagged_tables(tables, matches@, 0) + tables.subrange(
                0,
                tables.len() as int,
            ));
        }
        while i < names.len()
            invariant
                i <= names.len(),
                names.len() == tables.len(),
                names.deep_view() == keys_of(tables),
                store.wf(),
                store@ == unflagged(before, tables, matches@, i as int),
                store.pairs() == unflagged_tables(tables, matches@, i as nat) + tables.subrange(
                    i as int,
                    tables.len() as int,
                ),
            decreases names.len() - i,
        {
            let ghost listed = store.pairs();
            let ghost head = unflagged_tables(tables, matches@, i as nat);
            proof {
                assert(listed[head.len() as int] == tables[i as int]);
            }
            if i < matches.len() && matches[i] {
                let ghost cur = store@;
                store.remove(&names[i]);
                proof {
                    let k = names[i as int]@;
                    assert(k == keys_of(tables)[i as int]);
                    assert(k == tables[i as int].0);
                    lemma_key_index(listed, head.len() as int);
                    assert(store.pairs() =~= head + tables.subrange(i + 1, tables.len() as int));
                    assert forall|q: Seq<char>|
                        flagged(tables, matches@, i + 1, q) <==> (q == k || flagged(
                            tables,
                            matches@,
                            i as int,
                            q,
                        )) by {
                        if flagged(tables, matches@, i + 1, q) {
                            let j = choose|j: int|
                                0 <= j < i + 1 && j < tables.len() && j < matches@.len()
                                    && #[trigger] matches@[j] && tables[j].0 == q;
                            if j < i {
                                assert(0 <= j < i && matches@[j] && tables[j].0 == q);
                            }
                        }
                        if flagged(tables, matches@, i as int, q) {
                            let j = choose|j: int|
                                0 <= j < i && j < tables.len() && j < matches@.len()
                                    && #[trigger] matches@[j] && tables[j].0 == q;
                            assert(0 <= j < i + 1 && matches@[j] && tables[j].0 == q);
                        }
                        if q == k {
                            assert(matches@[i as int] && tables[i as int].0 == q);
                        }
                    }
                    assert(store@ =~= unflagged(before, tables, matches@, i + 1));
                }
            } else {
                proof {
                    assert(store.pairs() =~= head.push(tables[i as int]) + tables.subrange(
                        i + 1,
                        tables.len() as int,
                    ));
                    assert forall|q: Seq<char>|
                        flagged(tables, matches@, i + 1, q) <==> flagged(
                            tables,
                            matches@,
                            i as int,
                            q,
                        ) by {
                        if flagged(tables, matches@, i + 1, q) {
                            let j = choose|j: int|
                                0 <= j < i + 1 && j < tables.len() && j < matches@.len()
                                    && #[trigger] matches@[j] && tables[j].0 == q;
                            if j < i {
                                assert(0 <= j < i && matches@[j] && tables[j].0 == q);
                            }
                        }
                        if flagged(tables, matches@, i as int, q) {
                            let j = choose|j: int|
                                0 <= j < i && j < tables.len() && j < matches@.len()
                                    && #[trigger] matches@[j] && tables[j].0 == q;
                            assert(0 <= j < i + 1 && matches@[j] && tables[j].0 == q);
                        }
                    }
                    assert(store@ =~= unflagged(before, tables, matches@, i + 1));
                }
            }
            i += 1;
        }
        proof {
            assert(store.pairs() =~= unflagged_tables(tables, matches@, tables.len()));
        }
        Ok(())
    }

    /// The string map of every table read. Stops at the first read that
    /// does not decode, with `ReadByteError` for a failed read and
    /// `HashConvert` for a record that is no string map.
    pub fn get_all(&self, reads: &Vec<Result<Fragment, TErrors>>) -> (r: Result<
        Vec<Assoc<String>>,
        TErrors,
    >)
        ensures
            match r {
                Ok(v) => {
                    &&& v.len() == reads.len()
                    &&& forall|i: int|
                        0 <= i < reads.len() ==> decodes(#[trigger] reads[i]) && v[i].wf() && v[i]@
                            == decoded(reads[i])
                },
                Err(e) => exists|f: int| first_failure(reads@, f) && e == scan_error(reads[f]),
            },
    {
        let mut out: Vec<Assoc<String>> = Vec::new();
        let mut i: usize = 0;
        while i < reads.len()
            invariant
                i <= reads.len(),
                out.len() == i,
                forall|j: int|
                    0 <= j < i ==> decodes(#[trigger] reads[j]) && out[j].wf() && out[j]@
                        == decoded(reads[j]),
            decreases reads.len() - i,
        {
            match &reads[i] {
                Err(_) => {
                    proof {
                        assert(first_failure(reads@, i as int));
                    }
                    return Err(TErrors::ReadByteError);
                },
                Ok(frag) => match frag.to_hash() {
                    Err(_) => {
                        proof {
                            assert(first_failure(reads@, i as int));
                        }
                        return Err(TErrors::HashConvert);
                    },
                    Ok(m) => {
                        out.push(m);
                    },
                },
            }
            i += 1;
        }
        Ok(out)
    }

    /// The records of the reads that succeeded, in order; failed reads are
    /// passed over.
    pub fn get_all_infer(&self, reads: &Vec<Result<Fragment, TErrors>>) -> (r: Result<
        Vec<Fragment>,
        TErrors,
    >)
        ensures
            r is Ok,
            r->Ok_0.deep_view() == readable(reads@, reads.len() as nat),
    {
        let mut out: Vec<Fragment> = Vec::new();
        let mut i: usize = 0;
        proof {
            assert(out.deep_view() =~= readable(reads@, 0));
        }
        while i < reads.len()
            invariant
                i <= reads.len(),
                out.deep_view() == readable(reads@, i as nat),
            decreases reads.len() - i,
        {
            let ghost before = out.deep_view();
            match &reads[i] {
                Ok(frag) => {
                    out.push(Fragment { inner: frag.inner.clone() });
                    proof {
                        assert(out.deep_view() =~= before.push(frag@));
                    }
                },
                Err(_) => {},
            }
            i += 1;
        }
        Ok(out)
    }

    /// The records among the reads whose string map binds `key` to a text
    /// that equals `value` once both are trimmed, in order. Stops at the
    /// first read that does not decode, with `ReadByteError` for a failed
    /// read and `HashConvert` for a record that is no string map.
    pub fn build_where(
        &self,
        reads: &Vec<Result<Fragment, TErrors>>,
        key: String,
        value: String,
    ) -> (r: Result<Vec<Fragment>, TErrors>)
        ensures
            match r {
                Ok(v) => {
                    &&& forall|i: int| 0 <= i < reads.len() ==> decodes(#[trigger] reads[i])
                    &&& v.deep_view() == where_kept(reads@, key@, value@, reads.len() as nat)
                },
                Err(e) => exists|f: int| first_failure(reads@, f) && e == scan_error(reads[f]),
            },
    {
        let mut out: Vec<Fragment> = Vec::new();
        let mut i: usize = 0;
        proof {
            assert(out.deep_view() =~= where_kept(reads@, key@, value@, 0));
        }
        while i < reads.len()
            invariant
                i <= reads.len(),
                forall|j: int| 0 <= j < i ==> decodes(#[trigger] reads[j]),
                out.deep_view() == where_kept(reads@, key@, value@, i as nat),
            decreases reads.len() - i,
        {
            let ghost before = out.deep_view();
            match &reads[i] {
                Err(_) => {
                    proof {
                        assert(first_failure(reads@, i as int));
                    }
                    return Err(TErrors::ReadByteError);
                },
                Ok(frag) => match frag.to_hash() {
                    Err(_) => {
                        proof {
                            assert(first_failure(reads@, i as int));
                        }
                        return Err(TErrors::HashConvert);
                    },
                    Ok(m) => {
                        if holds_where(&m, &key, &value) {
                            out.push(Fragment { inner: frag.inner.clone() });
                            proof {
                                assert(out.deep_view() =~= before.push(frag@));
                            }
                        }
                    },
                },
            }
            i += 1;
        }
        Ok(out)
    }

    /// The record stored under a name with `key` bound to `value` in its
    /// string map. Fails with `FileError` where there is no such table, with
    /// `HashConvert` where the stored record has no string map, and with
    /// `StringConvert` where the new map cannot be written.
    pub fn update_table(
        &self,
        store: &Assoc<String>,
        table_name: String,
        key: String,
        value: String,
    ) -> (r: Result<String, TErrors>)
        requires
            store.wf(),
        ensures
            match r {
                Ok(f) => updated(stored(store@, table_name@), key@, value@) == Ok::<
                    Seq<char>,
                    TErrors,
                >(f@),
                Err(e) => updated(stored(store@, table_name@), key@, value@) == Err::<
                    Seq<char>,
                    TErrors,
                >(e),
            },
    {
        let current = match self.read_table(store, table_name) {
            Ok(f) => f,
            Err(_) => {
                return Err(TErrors::FileError);
            },
        };
        let mut hashed = match current.to_hash() {
            Ok(m) => m,
            Err(_) => {
                return Err(TErrors::HashConvert);
            },
        };
        hashed.insert(key, value);
        match write_string_map(&hashed) {
            Ok(text) => Ok(text),
            Err(_) => Err(TErrors::StringConvert),
        }
    }

    /// The record stored under a name with `key` bound to the list `value`
    /// in its string-list map. Fails with `FileError` where there is no such
    /// table, and with `HashConvert` where the stored record has no
    /// string-list map or the new map cannot be written.
    pub fn update_table_vec(
        &self,
        store: &Assoc<String>,
        table_name: String,
        key: String,
        value: Vec<String>,
    ) -> (r: Result<String, TErrors>)
        requires
            store.wf(),
        ensures
            match r {
                Ok(f) => updated_vec(stored(store@, table_name@), key@, value.deep_view()) == Ok::<
                    Seq<char>,
                    TErrors,
                >(f@),
                Err(e) => updated_vec(stored(store@, table_name@), key@, value.deep_view()) == Err::<
                    Seq<char>,
                    TErrors,
                >(e),
            },
    {
        let current = match self.read_table(store, table_name) {
            Ok(f) => f,
            Err(_) => {
                return Err(TErrors::FileError);
            },
        };
        let mut hashed = match current.to_hash_vec() {
            Ok(m) => m,
            Err(_) => {
                return Err(TErrors::HashConvert);
            },
        };
        hashed.insert(key, value);
        match write_list_map(&hashed) {
            Ok(text) => Ok(text),
            Err(_) => Err(TErrors::HashConvert),
        }
    }
}

} // verus!
