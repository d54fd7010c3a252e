use crate::assoc::Assoc;
use crate::errors::TErrors;
use crate::fragment::Fragment;
use crate::tables::{created, readable};
use crate::json::{array_json, write_array};
use vstd::prelude::*;

verus! {

/// An ordered list of records of one kind, each held as its JSON document.
/// Two records are equal where their documents are.
#[derive(Clone, Debug)]
pub struct Collection {
    pub inner: Vec<String>,
}

impl View for Collection {
    type V = Seq<Seq<char>>;

    open spec fn view(&self) -> Seq<Seq<char>> {
        self.inner.deep_view()
    }
}

impl Default for Collection {
    fn default() -> (r: Self)
        ensures
            r@ == Seq::<Seq<char>>::empty(),
    {
        let r = Collection { inner: Vec::new() };
        proof {
            assert(r@ =~= Seq::<Seq<char>>::empty());
        }
        r
    }
}

/// The test that keeps every record but `obj`.
pub open spec fn other_than(obj: Seq<char>) -> spec_fn(Seq<char>) -> bool {
    |x: Seq<char>| x != obj
}

/// The test that keeps the records that do not occur in `items`.
pub open spec fn missing_from(items: Seq<Seq<char>>) -> spec_fn(Seq<char>) -> bool {
    |x: Seq<char>| !items.contains(x)
}

/// A filtered list holds exactly the items that pass the test.
pub proof fn lemma_filter_membership(
    items: Seq<Seq<char>>,
    test: spec_fn(Seq<char>) -> bool,
    x: Seq<char>,
)
    ensures
        items.filter(test).contains(x) <==> (items.contains(x) && test(x)),
{
    let kept = items.filter(test);
    if kept.contains(x) {
        items.lemma_filter_contains_rev(test, x);
        let i = choose|i: int| 0 <= i < kept.len() && kept[i] == x;
        items.lemma_filter_pred(test, i);
    }
    if items.contains(x) && test(x) {
        let i = choose|i: int| 0 <= i < items.len() && items[i] == x;
        items.lemma_filter_contains(test, i);
    }
}

/// After a removal the removed record occurs nowhere, however often it
/// occurred, and every other record occurs exactly if it did before.
pub proof fn lemma_remove_drops_all(items: Seq<Seq<char>>, obj: Seq<char>, x: Seq<char>)
    ensures
        !items.filter(other_than(obj)).contains(obj),
        items.filter(other_than(obj)).contains(x) <==> (items.contains(x) && x != obj),
{
    lemma_filter_membership(items, other_than(obj), obj);
    lemma_filter_membership(items, other_than(obj), x);
}

/// A record is reported as added exactly if it occurs later and not before,
/// and as removed exactly if it occurs before and not later; so a record
/// that occurs on both sides is reported on neither.
pub proof fn lemma_diff_membership(prior: Seq<Seq<char>>, later: Seq<Seq<char>>, x: Seq<char>)
    ensures
        later.filter(missing_from(prior)).contains(x) <==> (later.contains(x) && !prior.contains(
            x,
        )),
        prior.filter(missing_from(later)).contains(x) <==> (prior.contains(x) && !later.contains(
            x,
        )),
{
    lemma_filter_membership(later, missing_from(prior), x);
    lemma_filter_membership(prior, missing_from(later), x);
}

/// A copy of the documents, in order.
pub fn copy_texts(items: &Vec<String>) -> (r: Vec<String>)
    ensures
        r.deep_view() == items.deep_view(),
{
    let mut out: Vec<String> = Vec::new();
    let mut i: usize = 0;
    while i < items.len()
        invariant
            i <= items.len(),
            out.len() == i,
            forall|j: int| 0 <= j < i ==> (#[trigger] out[j])@ == items[j]@,
        decreases items.len() - i,
    {
        out.push(items[i].clone());
        i += 1;
    }
    proof {
        assert(out.deep_view() =~= items.deep_view());
    }
    out
}

/// Whether a document occurs among the items.
pub fn contains_text(items: &Vec<String>, x: &String) -> (r: bool)
    ensures
        r == items.deep_view().contains(x@),
{
    let mut i: usize = 0;
    while i < items.len()
        invariant
            i <= items.len(),
            forall|j: int| 0 <= j < i ==> (#[trigger] items.deep_view()[j]) != x@,
        decreases items.len() - i,
    {
        if items[i] == *x {
            proof {
                assert(items.deep_view()[i as int] == x@);
            }
            return true;
        }
        i += 1;
    }
    false
}

/// The items that do not occur in `other`, in order. An item that occurs
/// several times is kept each time or not at all.
pub fn keep_missing(items: &Vec<String>, other: &Vec<String>) -> (r: Vec<String>)
    ensures
        r.deep_view() == items.deep_view().filter(missing_from(other.deep_view())),
{
    let ghost src = items.deep_view();
    let ghost test = missing_from(other.deep_view());
    let mut out: Vec<String> = Vec::new();
    let mut i: usize = 0;
    proof {
        reveal(Seq::filter);
        assert(out.deep_view() =~= src.subrange(0, 0).filter(test));
    }
    while i < items.len()
        invariant
            i <= items.len(),
            src == items.deep_view(),
            test == missing_from(other.deep_view()),
            out.deep_view() == src.subrange(0, i as int).filter(test),
        decreases items.len() - i,
    {
        let ghost before = out.deep_view();
        let keep = !contains_text(other, &items[i]);
        proof {
            reveal(Seq::filter);
            let next = src.subrange(0, i + 1);
            assert(next.drop_last() =~= src.subrange(0, i as int));
            assert(next.last() == items[i as int]@);
            assert(test(next.last()) == keep);
        }
        if keep {
            out.push(items[i].clone());
            proof {
                assert(out.deep_view() =~= before.push(items[i as int]@));
            }
        }
        i += 1;
    }
    proof {
        assert(src.subrange(0, src.len() as int) =~= src);
    }
    out
}

/// The membership operations of a collection.
pub trait Collect: Sized {
    /// The documents of the elements, in order.
    spec fn items(&self) -> Seq<Seq<char>>;

    /// The collection of every record that was read: the successful reads,
    /// in order.
    fn collect(&self, frag: Fragment, reads: &Vec<Result<Fragment, TErrors>>) -> (r: Result<
        Self,
        TErrors,
    >)
        ensures
            r is Ok,
            r->Ok_0.items() == readable(reads@, reads.len() as nat),
    ;

    /// Adds a record at the end and returns the collection as it then is.
    fn append(&mut self, obj: String) -> (r: Self)
        ensures
            final(self).items() == old(self).items().push(obj@),
            r.items() == final(self).items(),
    ;

    /// The collection without the records equal to `obj`: every one of them
    /// goes, and the others keep their order.
    fn remove(&self, obj: String) -> (r: Self)
        ensures
            r.items() == self.items().filter(other_than(obj@)),
    ;

    /// The collection with the record at `index` replaced. An index past the
    /// end changes nothing and is no error.
    fn update_index(&self, index: usize, new_obj: String) -> (r: Self)
        ensures
            r.items() == if index < self.items().len() {
                self.items().update(index as int, new_obj@)
            } else {
                self.items()
            },
    ;

    /// Stores the whole collection as one table: a JSON array of its
    /// records. A table of that name that exists is left alone. Fails with
    /// `FileError`, and changes nothing, where the elements do not make an
    /// array.
    fn write_to_file(&self, title: String, store: &mut Assoc<String>) -> (r: Result<(), TErrors>)
        requires
            old(store).wf(),
        ensures
            final(store).wf(),
            match r {
                Ok(_) => array_json(self.items()) is Some && final(store)@ == created(
                    old(store)@,
                    title@,
                    array_json(self.items())->Some_0,
                ),
                Err(e) => e == TErrors::FileError && array_json(self.items()) is None
                    && final(store).pairs() == old(store).pairs(),
            },
    ;
}

impl Collect for Collection {
    open spec fn items(&self) -> Seq<Seq<char>> {
        self@
    }

    fn collect(&self, frag: Fragment, reads: &Vec<Result<Fragment, TErrors>>) -> (r: Result<
        Self,
        TErrors,
    >) {
        let found = match frag.get_all_infer(reads) {
            Ok(v) => v,
            Err(e) => {
                return Err(e);
            },
        };
        let mut out: Vec<String> = Vec::new();
        let mut i: usize = 0;
        while i < found.len()
            invariant
                i <= found.len(),
                out.len() == i,
                forall|j: int| 0 <= j < i ==> (#[trigger] out[j])@ == found[j]@,
            decreases found.len() - i,
        {
            out.push(found[i].inner.clone());
            i += 1;
        }
        proof {
            assert(out.deep_view() =~= found.deep_view());
        }
        Ok(Collection { inner: out })
    }

    fn append(&mut self, obj: String) -> (r: Self) {
        let ghost before = self@;
        let ghost added = obj@;
        self.inner.push(obj);
        proof {
            assert(self@ =~= before.push(added));
        }
        Collection { inner: copy_texts(&self.inner) }
    }

    fn remove(&self, obj: String) -> (r: Self) {
        let ghost src = self@;
        let ghost test = other_than(obj@);
        let mut out: Vec<String> = Vec::new();
        let mut i: usize = 0;
        proof {
            reveal(Seq::filter);
            assert(out.deep_view() =~= src.subrange(0, 0).filter(test));
        }
        while i < self.inner.len()
            invariant
                i <= self.inner.len(),
                src == self@,
                test == other_than(obj@),
                out.deep_view() == src.subrange(0, i as int).filter(test),
            decreases self.inner.len() - i,
        {
            let ghost before = out.deep_view();
            let keep = !(self.inner[i] == obj);
            proof {
                reveal(Seq::filter);
                let next = src.subrange(0, i + 1);
                assert(next.drop_last() =~= src.subrange(0, i as int));
                assert(next.last() == self.inner[i as int]@);
                assert(test(next.last()) == keep);
            }
            if keep {
                out.push(self.inner[i].clone());
                proof {
                    assert(out.deep_view() =~= before.push(self.inner[i as int]@));
                }
            }
            i += 1;
        }
        proof {
            assert(src.subrange(0, src.len() as int) =~= src);
        }
        Collection { inner: out }
    }

    fn update_index(&self, index: usize, new_obj: String) -> (r: Self) {
        let mut out = copy_texts(&self.inner);
        if index < out.len() {
            let ghost before = out.deep_view();
            let ghost put = new_obj@;
            out.set(index, new_obj);
            proof {
                assert(out.deep_view() =~= before.update(index as int, put));
            }
        }
        Collection { inner: out }
    }

    fn write_to_file(&self, title: String, store: &mut Assoc<String>) -> (r: Result<(), TErrors>) {
        let document = match write_array(&self.inner) {
            Ok(text) => text,
            Err(_) => {
                return Err(TErrors::FileError);
            },
        };
        let frag = Fragment::new(document);
        let _ = frag.create_table(store, title);
        Ok(())
    }
}

} // verus!
