use concept_db::assoc::Assoc;
use concept_db::collection::{contains_text, copy_texts, keep_missing, Collect, Collection};
use concept_db::errors::TErrors;
use concept_db::fragment::Fragment;
use concept_db::logger::{
    copy_list_outcome, copy_outcome, CollectLogger, Commit, Logger, ToLog, ToLogCollect,
};

fn text(s: &str) -> String {
    s.to_string()
}

fn texts(items: &[&str]) -> Vec<String> {
    items.iter().map(|s| text(s)).collect()
}

fn list(items: &[&str]) -> Collection {
    Collection { inner: texts(items) }
}

#[test]
fn default_collection_is_empty() {
    assert!(Collection::default().inner.is_empty());
}

#[test]
fn append_adds_at_the_end() {
    let mut c = list(&["1", "2"]);
    let r = c.append(text("3"));
    assert_eq!(r.inner, texts(&["1", "2", "3"]));
    assert_eq!(c.inner, texts(&["1", "2", "3"]));
}

#[test]
fn remove_drops_every_equal_record() {
    let x = r#"{"n":"x"}"#;
    let y = r#"{"n":"y"}"#;
    let c = list(&[x, y, x]);
    assert_eq!(c.remove(text(x)).inner, texts(&[y]));
    assert_eq!(c.inner, texts(&[x, y, x]));
}

#[test]
fn remove_of_a_stranger_changes_nothing() {
    let c = list(&["1", "2", "3"]);
    assert_eq!(c.remove(text("4")).inner, texts(&["1", "2", "3"]));
    assert!(list(&[]).remove(text("4")).inner.is_empty());
}

#[test]
fn update_index_replaces_in_range() {
    let c = list(&["1", "2", "3"]);
    assert_eq!(c.update_index(0, text("9")).inner, texts(&["9", "2", "3"]));
    assert_eq!(c.update_index(2, text("9")).inner, texts(&["1", "2", "9"]));
}

#[test]
fn update_index_out_of_range_changes_nothing() {
    let c = list(&["1", "2", "3"]);
    assert_eq!(c.update_index(3, text("9")).inner, texts(&["1", "2", "3"]));
    assert_eq!(c.update_index(usize::MAX, text("9")).inner, texts(&["1", "2", "3"]));
    assert!(list(&[]).update_index(0, text("9")).inner.is_empty());
}

#[test]
fn collect_gathers_the_successful_reads() {
    let reads = vec![
        Ok(Fragment::new(text("1"))),
        Err(TErrors::ReadByteError),
        Ok(Fragment::new(text("2"))),
    ];
    let c = Collection::default().collect(Fragment::new(text("0")), &reads).unwrap();
    assert_eq!(c.inner, texts(&["1", "2"]));
}

#[test]
fn write_to_file_stores_one_array() {
    let mut store: Assoc<String> = Assoc::new();
    let c = list(&[r#"{"a":"1"}"#, r#"{"a":"2"}"#]);
    assert_eq!(c.write_to_file(text("all"), &mut store), Ok(()));
    assert_eq!(store.get(&text("all")), Some(&text(r#"[{"a":"1"},{"a":"2"}]"#)));
    assert_eq!(list(&["3"]).write_to_file(text("all"), &mut store), Ok(()));
    assert_eq!(store.get(&text("all")), Some(&text(r#"[{"a":"1"},{"a":"2"}]"#)));
    assert_eq!(list(&[]).write_to_file(text("none"), &mut store), Ok(()));
    assert_eq!(store.get(&text("none")), Some(&text("[]")));
    assert_eq!(store.len(), 2);
}

#[test]
fn write_to_file_fails_on_what_is_no_document() {
    let mut store: Assoc<String> = Assoc::new();
    let c = list(&["1", "{oops"]);
    assert_eq!(c.write_to_file(text("bad"), &mut store), Err(TErrors::FileError));
    assert_eq!(store.len(), 0);
}

#[test]
fn helpers_on_documents() {
    let items = texts(&["1", "2", "2"]);
    assert_eq!(copy_texts(&items), items);
    assert!(contains_text(&items, &text("2")));
    assert!(!contains_text(&items, &text("3")));
    assert_eq!(keep_missing(&items, &texts(&["1"])), texts(&["2", "2"]));
    assert_eq!(keep_missing(&items, &texts(&["2"])), texts(&["1"]));
}

#[test]
fn collection_diff_reports_added_and_removed() {
    let log = CollectLogger {
        prior: list(&["1", "2", "3"]),
        later: Ok(list(&["2", "3", "4"])),
        time_stamp: text("now"),
    };
    assert_eq!(log.raw_changes_collect(), Ok((texts(&["4"]), texts(&["1"]))));
}

#[test]
fn collection_diff_goes_by_membership() {
    let log = CollectLogger {
        prior: list(&["1", "1", "2"]),
        later: Ok(list(&["2", "2", "5", "5"])),
        time_stamp: text("now"),
    };
    assert_eq!(log.raw_changes_collect(), Ok((texts(&["5", "5"]), texts(&["1", "1"]))));
}

#[test]
fn collection_diff_fails_with_the_later_error() {
    let log = CollectLogger {
        prior: list(&["1"]),
        later: Err(TErrors::CollectReadError),
        time_stamp: text("now"),
    };
    assert_eq!(log.raw_changes_collect(), Err(TErrors::CollectReadError));
}

#[test]
fn collect_logger_setters_replace_one_field() {
    let log = CollectLogger {
        prior: list(&["1"]),
        later: Err(TErrors::Nothing),
        time_stamp: text("t0"),
    };
    let a = log.set_prior(list(&["7"]));
    assert_eq!(a.prior.inner, texts(&["7"]));
    assert_eq!(a.later.as_ref().err(), Some(&TErrors::Nothing));
    assert_eq!(a.time_stamp, "t0");
    let b = log.set_later(list(&["8"]));
    assert_eq!(b.prior.inner, texts(&["1"]));
    assert_eq!(b.later.as_ref().map(|c| c.inner.clone()).ok(), Some(texts(&["8"])));
    assert_eq!(b.time_stamp, "t0");
    let c = b.set_time_stamp(text("t1"));
    assert_eq!(c.prior.inner, texts(&["1"]));
    assert_eq!(c.later.as_ref().map(|c| c.inner.clone()).ok(), Some(texts(&["8"])));
    assert_eq!(c.time_stamp, "t1");
    assert_eq!(log.time_stamp, "t0");
    assert_eq!(log.prior.inner, texts(&["1"]));
}

#[test]
fn collect_logger_commit() {
    let log = CollectLogger {
        prior: list(&["1"]),
        later: Ok(list(&["1", "2"])),
        time_stamp: text("t0"),
    };
    let done = log.commit();
    assert!(done.success);
    assert_eq!(done.package, Err(TErrors::Nothing));
    assert_eq!(done.collection.map(|c| c.inner).ok(), Some(texts(&["1", "2"])));
    let failed = log.set_prior(list(&[]));
    let failed = CollectLogger { later: Err(TErrors::FileError), ..failed }.commit();
    assert!(!failed.success);
    assert_eq!(failed.collection.map(|c| c.inner).err(), Some(TErrors::FileError));
}

#[test]
fn logger_setters_replace_one_field() {
    let log = Logger { prior: text("p"), later: Err(TErrors::Nothing), time_stamp: text("t0") };
    let a = log.set_prior(text("q"));
    assert_eq!((a.prior.as_str(), &a.later, a.time_stamp.as_str()), ("q", &Err(TErrors::Nothing), "t0"));
    let b = log.set_later(text("l"));
    assert_eq!((b.prior.as_str(), &b.later, b.time_stamp.as_str()), ("p", &Ok(text("l")), "t0"));
    let c = b.set_time_stamp(text("t1"));
    assert_eq!((c.prior.as_str(), &c.later, c.time_stamp.as_str()), ("p", &Ok(text("l")), "t1"));
    assert_eq!(log.prior, "p");
}

#[test]
fn logger_raw_changes_gives_both_sides() {
    let log = Logger {
        prior: text(r#"{"a":"1","b":"2"}"#),
        later: Ok(text(r#"{"a":"1","b":"3"}"#)),
        time_stamp: text("t"),
    };
    let (mut left, mut right) = log.raw_changes().unwrap();
    left.sort();
    right.sort();
    assert_eq!(left, vec![(text("a"), text("1")), (text("b"), text("2"))]);
    assert_eq!(right, vec![(text("a"), text("1")), (text("b"), text("3"))]);
}

#[test]
fn logger_raw_changes_errors() {
    let no_later =
        Logger { prior: text(r#"{"a":1}"#), later: Err(TErrors::FileNotFound), time_stamp: text("t") };
    assert_eq!(no_later.raw_changes().err(), Some(TErrors::FileNotFound));
    let bad_prior = Logger { prior: text("7"), later: Ok(text("{}")), time_stamp: text("t") };
    assert_eq!(bad_prior.raw_changes().err(), Some(TErrors::HashConvert));
    let bad_later = Logger { prior: text("{}"), later: Ok(text("7")), time_stamp: text("t") };
    assert_eq!(bad_later.raw_changes().err(), Some(TErrors::HashConvert));
}

#[test]
fn logger_commit() {
    let log = Logger { prior: text("p"), later: Ok(text("l")), time_stamp: text("t") };
    let done = log.commit();
    assert!(done.success);
    assert_eq!(done.package, Ok(text("l")));
    assert_eq!(done.collection.map(|c| c.inner).err(), Some(TErrors::Nothing));
    let failed =
        Logger { prior: text("p"), later: Err(TErrors::WriteByteError), time_stamp: text("t") };
    let failed = failed.commit();
    assert!(!failed.success);
    assert_eq!(failed.package, Err(TErrors::WriteByteError));
}

#[test]
fn commit_default_and_determine() {
    let base = Commit::default();
    assert!(!base.success);
    assert_eq!(base.package, Err(TErrors::Nothing));
    assert_eq!(base.collection.as_ref().err(), Some(&TErrors::Nothing));
    let both_fail = base.determine(Err(TErrors::FileError), Err(TErrors::DirError));
    assert!(!both_fail.success);
    assert_eq!(both_fail.package, Err(TErrors::FileError));
    assert_eq!(both_fail.collection.as_ref().err(), Some(&TErrors::DirError));
    let record = base.determine(Ok(text("r")), Err(TErrors::Nothing));
    assert!(record.success);
    let listed = base.determine(Err(TErrors::Nothing), Ok(list(&["1"])));
    assert!(listed.success);
    let both = base.determine(Ok(text("r")), Ok(list(&[])));
    assert!(both.success);
    assert_eq!(both.package, Ok(text("r")));
}

#[test]
fn outcome_copies() {
    assert_eq!(copy_outcome(&Ok(text("x"))), Ok(text("x")));
    assert_eq!(copy_outcome(&Err(TErrors::DeleteError)), Err(TErrors::DeleteError));
    let copied = copy_list_outcome(&Ok(list(&["1"])));
    assert_eq!(copied.map(|c| c.inner).ok(), Some(texts(&["1"])));
    let failed = copy_list_outcome(&Err(TErrors::DirError));
    assert_eq!(failed.map(|c| c.inner).err(), Some(TErrors::DirError));
}
