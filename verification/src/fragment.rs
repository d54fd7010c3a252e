use crate::assoc::{distinct_keys, has_key, key_index, lemma_same_keys, pairs_map, Assoc};
use crate::errors::TErrors;
use crate::json::{
    json_list_map, json_string_map, parse_list_map, parse_string_map, string_map_json,
    write_string_map,
};
use vstd::prelude::*;

verus! {

/// A record, held as the JSON document that stands for it.
#[derive(Clone, Debug)]
pub struct Fragment {
    pub inner: String,
}

impl View for Fragment {
    type V = Seq<char>;

    open spec fn view(&self) -> Seq<char> {
        self.inner@
    }
}

impl DeepView for Fragment {
    type V = Seq<char>;

    open spec fn deep_view(&self) -> Seq<char> {
        self.inner@
    }
}

/// A value as an optional one: the empty text is absent, any other present.
pub open spec fn present(v: Seq<char>) -> Option<Seq<char>> {
    if v.len() > 0 {
        Some(v)
    } else {
        None
    }
}

/// The optional-string view of a string map: every key stays, and the empty
/// text becomes an absent value.
pub fn convert_opt(m: &Assoc<String>) -> (r: Assoc<Option<String>>)
    requires
        m.wf(),
    ensures
        r.wf(),
        r.pairs() == Seq::new(m.pairs().len(), |i: int| (m.pairs()[i].0, present(m.pairs()[i].1))),
        r@ == m@.map_values(|v: Seq<char>| present(v)),
{
    let mut out: Assoc<Option<String>> = Assoc::new();
    let mut i: usize = 0;
    while i < m.len()
        invariant
            i <= m.pairs().len(),
            m.wf(),
            out.wf(),
            out.pairs() == Seq::new(i as nat, |j: int| (m.pairs()[j].0, present(m.pairs()[j].1))),
        decreases m.pairs().len() - i,
    {
        let key = m.key_at(i).clone();
        let value = m.value_at(i);
        let entry: Option<String> = if value.as_str().is_empty() {
            None
        } else {
            Some(value.clone())
        };
        proof {
            let src = m.pairs();
            let cur = out.pairs();
            if has_key(cur, key@) {
                let j = key_index(cur, key@);
                assert(cur[j].0 == key@);
                assert(src[j].0 != src[i as int].0);
            }
            assert(entry.deep_view() == present(src[i as int].1));
        }
        let ghost prev = out.pairs();
        out.insert(key, entry);
        proof {
            assert(out.pairs() =~= Seq::new(
                (i + 1) as nat,
                |j: int| (m.pairs()[j].0, present(m.pairs()[j].1)),
            ));
        }
        i += 1;
    }
    proof {
        let s = m.pairs();
        let t = out.pairs();
        lemma_same_keys(s, t);
        assert forall|k: Seq<char>| has_key(t, k) implies #[trigger] out@[k] == present(m@[k]) by {
            let j = key_index(t, k);
            assert(j == key_index(s, k));
        }
        assert(out@ =~= m@.map_values(|v: Seq<char>| present(v)));
    }
    out
}

/// The four map views of a record.
pub trait ToHash {
    /// The JSON document that stands for the record.
    spec fn document(&self) -> Seq<char>;

    /// The record as a map from field names to texts. Fails with
    /// `StringConvert` where the document is not an object whose values are
    /// all strings.
    fn to_hash(&self) -> (r: Result<Assoc<String>, TErrors>)
        ensures
            match r {
                Ok(m) => m.wf() && json_string_map(self.document()) == Some(m@),
                Err(e) => e == TErrors::StringConvert && json_string_map(self.document()) is None,
            },
    ;

    /// The string map with empty texts turned into absent values. Fails with
    /// `HashConvert` where the string map cannot be had.
    fn to_hash_opt(&self) -> (r: Result<Assoc<Option<String>>, TErrors>)
        ensures
            match r {
                Ok(m) => m.wf() && json_string_map(self.document()) is Some && m@
                    == json_string_map(self.document())->Some_0.map_values(
                    |v: Seq<char>| present(v),
                ),
                Err(e) => e == TErrors::HashConvert && json_string_map(self.document()) is None,
            },
    ;

    /// The record as a map from field names to lists of texts. Fails with
    /// `StringConvert` where the document is not an object whose values are
    /// all arrays of strings.
    fn to_hash_vec(&self) -> (r: Result<Assoc<Vec<String>>, TErrors>)
        ensures
            match r {
                Ok(m) => m.wf() && json_list_map(self.document()) == Some(m@),
                Err(e) => e == TErrors::StringConvert && json_list_map(self.document()) is None,
            },
    ;

    /// The entries of the string map as pairs, each key beside its own
    /// value. Fails with `HashConvert` where the string map cannot be had.
    fn zip(&self) -> (r: Result<Vec<(String, String)>, TErrors>)
        ensures
            match r {
                Ok(v) => distinct_keys(v.deep_view()) && json_string_map(self.document()) == Some(
                    pairs_map(v.deep_view()),
                ),
                Err(e) => e == TErrors::HashConvert && json_string_map(self.document()) is None,
            },
    ;
}

impl ToHash for Fragment {
    open spec fn document(&self) -> Seq<char> {
        self.inner@
    }

    fn to_hash(&self) -> (r: Result<Assoc<String>, TErrors>) {
        match parse_string_map(self.inner.as_str()) {
            Ok(m) => Ok(m),
            Err(_) => Err(TErrors::StringConvert),
        }
    }

    fn to_hash_opt(&self) -> (r: Result<Assoc<Option<String>>, TErrors>) {
        match self.to_hash() {
            Ok(m) => Ok(convert_opt(&m)),
            Err(_) => Err(TErrors::HashConvert),
        }
    }

    fn to_hash_vec(&self) -> (r: Result<Assoc<Vec<String>>, TErrors>) {
        match parse_list_map(self.inner.as_str()) {
            Ok(m) => Ok(m),
            Err(_) => Err(TErrors::StringConvert),
        }
    }

    fn zip(&self) -> (r: Result<Vec<(String, String)>, TErrors>) {
        match self.to_hash() {
            Ok(m) => Ok(m.into_entries()),
            Err(_) => Err(TErrors::HashConvert),
        }
    }
}

/// The document of the record that a string map stands for: the map written
/// as a JSON object. Fails with `StringConvert` where the map cannot be written.
pub fn read_hash(hash: Assoc<String>) -> (r: Result<String, TErrors>)
    requires
        hash.wf(),
    ensures
        match r {
            Ok(f) => string_map_json(hash@) == Some(f@),
            Err(e) => e == TErrors::StringConvert && string_map_json(hash@) is None,
        },
{
    match write_string_map(&hash) {
        Ok(text) => Ok(text),
        Err(_) => Err(TErrors::StringConvert),
    }
}

impl Fragment {
    /// Wraps the document of a record.
    pub fn new(inner: String) -> (r: Self)
        ensures
            r.inner == inner,
    {
        Self { inner }
    }

    /// The document of the record.
    pub fn to_string(&self) -> (r: String)
        ensures
            r@ == self@,
    {
        self.inner.clone()
    }
}

} // verus!
