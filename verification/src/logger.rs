use crate::assoc::{distinct_keys, pairs_map};
use crate::collection::{copy_texts, keep_missing, missing_from, Collection};
use crate::errors::TErrors;
use crate::fragment::{Fragment, ToHash};
use crate::json::json_string_map;
use vstd::prelude::*;

verus! {

/// What a logged change came to: the later state of a record or of a
/// collection, and whether there is one.
pub struct Commit {
    pub success: bool,
    pub package: Result<String, TErrors>,
    pub collection: Result<Collection, TErrors>,
}

/// A record outcome by its view.
pub open spec fn text_outcome(r: Result<String, TErrors>) -> Result<Seq<char>, TErrors> {
    match r {
        Ok(s) => Ok(s@),
        Err(e) => Err(e),
    }
}

/// A collection outcome by its view.
pub open spec fn list_outcome(r: Result<Collection, TErrors>) -> Result<Seq<Seq<char>>, TErrors> {
    match r {
        Ok(c) => Ok(c@),
        Err(e) => Err(e),
    }
}

/// A copy of a record outcome.
pub fn copy_outcome(r: &Result<String, TErrors>) -> (c: Result<String, TErrors>)
    ensures
        text_outcome(c) == text_outcome(*r),
{
    match r {
        Ok(s) => Ok(s.clone()),
        Err(e) => Err(*e),
    }
}

/// A copy of a collection outcome.
pub fn copy_list_outcome(r: &Result<Collection, TErrors>) -> (c: Result<Collection, TErrors>)
    ensures
        list_outcome(c) == list_outcome(*r),
{
    match r {
        Ok(list) => Ok(Collection { inner: copy_texts(&list.inner) }),
        Err(e) => Err(*e),
    }
}

impl Default for Commit {
    fn default() -> (r: Self)
        ensures
            !r.success,
            r.package == Err::<String, TErrors>(TErrors::Nothing),
            r.collection == Err::<Collection, TErrors>(TErrors::Nothing),
    {
        Commit {
            success: false,
            package: Err(TErrors::Nothing),
            collection: Err(TErrors::Nothing),
        }
    }
}

impl Commit {
    /// The commit of two outcomes: a success where at least one of them is
    /// no error.
    pub fn determine(
        &self,
        package: Result<String, TErrors>,
        collection: Result<Collection, TErrors>,
    ) -> (r: Self)
        ensures
            r.success == (package is Ok || collection is Ok),
            r.package == package,
            r.collection == collection,
    {
        let success = !(package.is_err() && collection.is_err());
        Commit { success, package, collection }
    }
}

/// The failure of `raw_changes` on a prior record and a later outcome, if it
/// fails: the later outcome's own error, or `HashConvert` where one of the
/// two records has no string map.
pub open spec fn changes_error(prior: Seq<char>, later: Result<Seq<char>, TErrors>) -> Option<
    TErrors,
> {
    match later {
        Err(e) => Some(e),
        Ok(doc) => if json_string_map(prior) is None || json_string_map(doc) is None {
            Some(TErrors::HashConvert)
        } else {
            None
        },
    }
}

/// The change log of one record. Each setter returns a new entry and leaves
/// this one as it is.
pub trait ToLog: Sized {
    /// The prior record.
    spec fn prior_view(&self) -> Seq<char>;

    /// The later record, or why there is none.
    spec fn later_view(&self) -> Result<Seq<char>, TErrors>;

    /// The time stamp.
    spec fn stamp_view(&self) -> Seq<char>;

    /// The entry with another prior record.
    fn set_prior(&self, prior: String) -> (r: Self)
        ensures
            r.prior_view() == prior@,
            r.later_view() == self.later_view(),
            r.stamp_view() == self.stamp_view(),
    ;

    /// The entry with a later record.
    fn set_later(&self, later: String) -> (r: Self)
        ensures
            r.prior_view() == self.prior_view(),
            r.later_view() == Ok::<Seq<char>, TErrors>(later@),
            r.stamp_view() == self.stamp_view(),
    ;

    /// The entry with another time stamp.
    fn set_time_stamp(&self, time_stamp: String) -> (r: Self)
        ensures
            r.prior_view() == self.prior_view(),
            r.later_view() == self.later_view(),
            r.stamp_view() == time_stamp@,
    ;

    /// The entries of the prior and of the later record's string map, for
    /// the caller to compare.
    fn raw_changes(&self) -> (r: Result<(Vec<(String, String)>, Vec<(String, String)>), TErrors>)
        ensures
            match r {
                Ok(both) => {
                    &&& changes_error(self.prior_view(), self.later_view()) is None
                    &&& distinct_keys(both.0.deep_view())
                    &&& distinct_keys(both.1.deep_view())
                    &&& json_string_map(self.prior_view()) == Some(pairs_map(both.0.deep_view()))
                    &&& json_string_map(self.later_view()->Ok_0) == Some(
                        pairs_map(both.1.deep_view()),
                    )
                },
                Err(e) => changes_error(self.prior_view(), self.later_view()) == Some(e),
            },
    ;

    /// The commit of this entry: its later outcome, and no collection.
    fn commit(&self) -> (r: Commit)
        ensures
            r.success == (self.later_view() is Ok),
            text_outcome(r.package) == self.later_view(),
            r.collection == Err::<Collection, TErrors>(TErrors::Nothing),
    ;
}

/// The change log of one collection. Each setter returns a new entry and
/// leaves this one as it is.
pub trait ToLogCollect: Sized {
    /// The prior collection.
    spec fn prior_view(&self) -> Seq<Seq<char>>;

    /// The later collection, or why there is none.
    spec fn later_view(&self) -> Result<Seq<Seq<char>>, TErrors>;

    /// The time stamp.
    spec fn stamp_view(&self) -> Seq<char>;

    /// The entry with another prior collection.
    fn set_prior(&self, prior: Collection) -> (r: Self)
        ensures
            r.prior_view() == prior@,
            r.later_view() == self.later_view(),
            r.stamp_view() == self.stamp_view(),
    ;

    /// The entry with a later collection.
    fn set_later(&self, later: Collection) -> (r: Self)
        ensures
            r.prior_view() == self.prior_view(),
            r.later_view() == Ok::<Seq<Seq<char>>, TErrors>(later@),
            r.stamp_view() == self.stamp_view(),
    ;

    /// The entry with another time stamp.
    fn set_time_stamp(&self, time_stamp: String) -> (r: Self)
        ensures
            r.prior_view() == self.prior_view(),
            r.later_view() == self.later_view(),
            r.stamp_view() == time_stamp@,
    ;

    /// What was added and what was removed: the later records that do not
    /// occur in the prior collection, and the prior records that do not
    /// occur in the later one. Fails with the later outcome's error.
    fn raw_changes_collect(&self) -> (r: Result<(Vec<String>, Vec<String>), TErrors>)
        ensures
            match r {
                Ok(both) => {
                    &&& self.later_view() is Ok
                    &&& both.0.deep_view() == self.later_view()->Ok_0.filter(
                        missing_from(self.prior_view()),
                    )
                    &&& both.1.deep_view() == self.prior_view().filter(
                        missing_from(self.later_view()->Ok_0),
                    )
                },
                Err(e) => self.later_view() == Err::<Seq<Seq<char>>, TErrors>(e),
            },
    ;

    /// The commit of this entry: its later outcome, and no single record.
    fn commit(&self) -> (r: Commit)
        ensures
            r.success == (self.later_view() is Ok),
            r.package == Err::<String, TErrors>(TErrors::Nothing),
            list_outcome(r.collection) == self.later_view(),
    ;
}

/// A change log entry for one record.
pub struct Logger {
    pub prior: String,
    pub later: Result<String, TErrors>,
    pub time_stamp: String,
}

impl ToLog for Logger {
    open spec fn prior_view(&self) -> Seq<char> {
        self.prior@
    }

    open spec fn later_view(&self) -> Result<Seq<char>, TErrors> {
        text_outcome(self.later)
    }

    open spec fn stamp_view(&self) -> Seq<char> {
        self.time_stamp@
    }

    fn set_prior(&self, prior: String) -> (r: Self) {
        Logger { prior, later: copy_outcome(&self.later), time_stamp: self.time_stamp.clone() }
    }

    fn set_later(&self, later: String) -> (r: Self) {
        Logger { prior: self.prior.clone(), later: Ok(later), time_stamp: self.time_stamp.clone() }
    }

    fn set_time_stamp(&self, time_stamp: String) -> (r: Self) {
        Logger { prior: self.prior.clone(), later: copy_outcome(&self.later), time_stamp }
    }

    fn raw_changes(&self) -> (r: Result<(Vec<(String, String)>, Vec<(String, String)>), TErrors>) {
        let prior_frag = Fragment::new(self.prior.clone());
        let later_frag = match &self.later {
            Ok(doc) => Fragment::new(doc.clone()),
            Err(e) => {
                return Err(*e);
            },
        };
        let left = match prior_frag.zip() {
            Ok(v) => v,
            Err(e) => {
                return Err(e);
            },
        };
        let right = match later_frag.zip() {
            Ok(v) => v,
            Err(e) => {
                return Err(e);
            },
        };
        Ok((left, right))
    }

    fn commit(&self) -> (r: Commit) {
        Commit::default().determine(copy_outcome(&self.later), Err(TErrors::Nothing))
    }
}

/// A change log entry for one collection.
pub struct CollectLogger {
    pub prior: Collection,
    pub later: Result<Collection, TErrors>,
    pub time_stamp: String,
}

impl ToLogCollect for CollectLogger {
    open spec fn prior_view(&self) -> Seq<Seq<char>> {
        self.prior@
    }

    open spec fn later_view(&self) -> Result<Seq<Seq<char>>, TErrors> {
        list_outcome(self.later)
    }

    open spec fn stamp_view(&self) -> Seq<char> {
        self.time_stamp@
    }

    fn set_prior(&self, prior: Collection) -> (r: Self) {
        CollectLogger {
            prior,
            later: copy_list_outcome(&self.later),
            time_stamp: self.time_stamp.clone(),
        }
    }

    fn set_later(&self, later: Collection) -> (r: Self) {
        CollectLogger {
            prior: Collection { inner: copy_texts(&self.prior.inner) },
            later: Ok(later),
            time_stamp: self.time_stamp.clone(),
        }
    }

    fn set_time_stamp(&self, time_stamp: String) -> (r: Self) {
        CollectLogger {
            prior: Collection { inner: copy_texts(&self.prior.inner) },
            later: copy_list_outcome(&self.later),
            time_stamp,
        }
    }

    fn raw_changes_collect(&self) -> (r: Result<(Vec<String>, Vec<String>), TErrors>) {
        match &self.later {
            Ok(later) => {
                let added = keep_missing(&later.inner, &self.prior.inner);
                let removed = keep_missing(&self.prior.inner, &later.inner);
                Ok((added, removed))
            },
            Err(e) => Err(*e),
        }
    }

    fn commit(&self) -> (r: Commit) {
        Commit::default().determine(Err(TErrors::Nothing), copy_list_outcome(&self.later))
    }
}

} // verus!
