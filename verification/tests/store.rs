use concept_db::assoc::Assoc;
use concept_db::errors::TErrors;
use concept_db::fragment::{Fragment, ToHash};

fn text(s: &str) -> String {
    s.to_string()
}

fn frag(s: &str) -> Fragment {
    Fragment::new(text(s))
}

fn owned(entries: &[(&str, &str)]) -> Vec<(String, String)> {
    entries.iter().map(|(k, v)| (text(k), text(v))).collect()
}

fn documents(found: Vec<Fragment>) -> Vec<String> {
    found.into_iter().map(|f| f.inner).collect()
}

#[test]
fn create_table_twice_keeps_the_first_content() {
    let mut store: Assoc<String> = Assoc::new();
    let first = frag(r#"{"a":"1"}"#);
    let second = frag(r#"{"a":"2"}"#);
    assert!(first.create_table(&mut store, text("t")).is_ok());
    let after_first = store.duplicate().into_entries();
    assert!(second.create_table(&mut store, text("t")).is_ok());
    assert!(first.create_table(&mut store, text("t")).is_ok());
    assert_eq!(store.duplicate().into_entries(), after_first);
    assert_eq!(store.into_entries(), owned(&[("t", r#"{"a":"1"}"#)]));
}

#[test]
fn create_table_returns_the_record_itself() {
    let mut store: Assoc<String> = Assoc::new();
    let record = frag(r#"{"a":"1"}"#);
    let back = record.create_table(&mut store, text("t")).unwrap();
    assert_eq!(back.inner, record.inner);
}

#[test]
fn read_table_finds_what_was_created() {
    let mut store: Assoc<String> = Assoc::new();
    let record = frag(r#"{"a":"1"}"#);
    record.create_table(&mut store, text("one")).unwrap();
    frag(r#"{"b":"2"}"#).create_table(&mut store, text("two")).unwrap();
    let read = record.read_table(&store, text("two")).unwrap();
    assert_eq!(read.inner, r#"{"b":"2"}"#);
}

#[test]
fn read_table_of_a_missing_table_is_file_not_found() {
    let store: Assoc<String> = Assoc::new();
    let record = frag("{}");
    assert_eq!(record.read_table(&store, text("nope")).err(), Some(TErrors::FileNotFound));
}

#[test]
fn delete_table_removes_only_that_table() {
    let mut store: Assoc<String> = Assoc::new();
    let record = frag(r#"{"a":"1"}"#);
    record.create_table(&mut store, text("one")).unwrap();
    record.create_table(&mut store, text("two")).unwrap();
    record.delete_table(&mut store, text("one"));
    record.delete_table(&mut store, text("absent"));
    assert_eq!(store.into_entries(), owned(&[("two", r#"{"a":"1"}"#)]));
}

#[test]
fn table_prefix_is_ten_bytes_padded_with_zeros() {
    assert_eq!(Fragment::table_prefix(&text(r#"{"a":"1"}"#)), "{\"a\":\"1\"}\0");
    assert_eq!(Fragment::table_prefix(&text("")), "\0\0\0\0\0\0\0\0\0\0");
}

#[test]
fn table_prefix_cuts_a_long_table() {
    assert_eq!(Fragment::table_prefix(&text(r#"{"name":"Ada"}"#)), r#"{"name":"A"#);
    assert_eq!(Fragment::table_prefix(&text("0123456789")), "0123456789");
}

#[test]
fn table_prefix_replaces_a_cut_character() {
    assert_eq!(Fragment::table_prefix(&text("012345678é")), "012345678\u{fffd}");
}

#[test]
fn delete_table_infer_deletes_the_flagged_tables() {
    let mut store: Assoc<String> = Assoc::new();
    let record = frag("{}");
    for name in ["a", "b", "c", "d"] {
        frag(name).create_table(&mut store, text(name)).unwrap();
    }
    let r = record.delete_table_infer(&mut store, &vec![false, true, false, true]);
    assert_eq!(r, Ok(()));
    assert_eq!(store.into_entries(), owned(&[("a", "a"), ("c", "c")]));
}

#[test]
fn delete_table_infer_leaves_unjudged_tables() {
    let mut store: Assoc<String> = Assoc::new();
    let record = frag("{}");
    for name in ["a", "b", "c"] {
        frag(name).create_table(&mut store, text(name)).unwrap();
    }
    assert_eq!(record.delete_table_infer(&mut store, &vec![true]), Ok(()));
    assert_eq!(store.duplicate().into_entries(), owned(&[("b", "b"), ("c", "c")]));
    assert_eq!(record.delete_table_infer(&mut store, &Vec::new()), Ok(()));
    assert_eq!(store.into_entries(), owned(&[("b", "b"), ("c", "c")]));
}

#[test]
fn get_all_decodes_every_table() {
    let reads = vec![Ok(frag(r#"{"a":"1"}"#)), Ok(frag(r#"{"b":"2","c":"3"}"#))];
    let all = frag("{}").get_all(&reads).unwrap();
    assert_eq!(all.len(), 2);
    assert_eq!(all[0].get(&text("a")), Some(&text("1")));
    assert_eq!(all[1].len(), 2);
    assert_eq!(all[1].get(&text("c")), Some(&text("3")));
}

#[test]
fn get_all_stops_at_the_first_failure() {
    let record = frag("{}");
    let unreadable = vec![Ok(frag(r#"{"a":"1"}"#)), Err(TErrors::FileError), Ok(frag("7"))];
    assert_eq!(record.get_all(&unreadable).err(), Some(TErrors::ReadByteError));
    let shapeless = vec![Ok(frag("7")), Err(TErrors::FileError)];
    assert_eq!(record.get_all(&shapeless).err(), Some(TErrors::HashConvert));
    assert_eq!(record.get_all(&Vec::new()).map(|v| v.len()).ok(), Some(0));
}

#[test]
fn get_all_infer_skips_failed_reads() {
    let reads = vec![
        Err(TErrors::ReadByteError),
        Ok(frag(r#"{"a":"1"}"#)),
        Err(TErrors::FileNotFound),
        Ok(frag("7")),
    ];
    let found = frag("{}").get_all_infer(&reads).unwrap();
    assert_eq!(documents(found), vec![text(r#"{"a":"1"}"#), text("7")]);
}

#[test]
fn build_where_finds_the_one_matching_table() {
    let reads = vec![
        Ok(frag(r#"{"id":"1","status":"open"}"#)),
        Ok(frag(r#"{"id":"2","status":"done"}"#)),
        Ok(frag(r#"{"id":"3"}"#)),
    ];
    let found = frag("{}").build_where(&reads, text("status"), text("done")).unwrap();
    assert_eq!(documents(found), vec![text(r#"{"id":"2","status":"done"}"#)]);
}

#[test]
fn build_where_trims_both_sides() {
    let reads = vec![
        Ok(frag(r#"{"status":" done "}"#)),
        Ok(frag(r#"{"status":"done"}"#)),
        Ok(frag(r#"{"status":"do ne"}"#)),
    ];
    let found = frag("{}").build_where(&reads, text("status"), text("done\n")).unwrap();
    assert_eq!(found.len(), 2);
    assert_eq!(found[0].inner, r#"{"status":" done "}"#);
}

#[test]
fn build_where_needs_the_key_even_for_an_empty_value() {
    let reads = vec![Ok(frag(r#"{"other":"x"}"#)), Ok(frag(r#"{"status":""}"#))];
    let found = frag("{}").build_where(&reads, text("status"), text(" ")).unwrap();
    assert_eq!(documents(found), vec![text(r#"{"status":""}"#)]);
}

#[test]
fn build_where_stops_at_the_first_failure() {
    let record = frag("{}");
    let unreadable = vec![Ok(frag(r#"{"status":"done"}"#)), Err(TErrors::FileNotFound)];
    assert_eq!(
        record.build_where(&unreadable, text("status"), text("done")).err(),
        Some(TErrors::ReadByteError)
    );
    let shapeless = vec![Ok(frag(r#"{"status":1}"#)), Err(TErrors::FileNotFound)];
    assert_eq!(
        record.build_where(&shapeless, text("status"), text("done")).err(),
        Some(TErrors::HashConvert)
    );
}

#[test]
fn build_where_over_stored_tables() {
    let mut store: Assoc<String> = Assoc::new();
    let record = frag("{}");
    frag(r#"{"status":"open"}"#).create_table(&mut store, text("t1")).unwrap();
    frag(r#"{"status":"done"}"#).create_table(&mut store, text("t2")).unwrap();
    frag(r#"{"status":"late"}"#).create_table(&mut store, text("t3")).unwrap();
    let mut reads = Vec::new();
    for name in store.keys() {
        reads.push(record.read_table(&store, name));
    }
    let found = record.build_where(&reads, text("status"), text("done")).unwrap();
    assert_eq!(found.len(), 1);
    assert_eq!(found[0].to_hash().unwrap().get(&text("status")), Some(&text("done")));
}

#[test]
fn update_table_binds_the_key() {
    let mut store: Assoc<String> = Assoc::new();
    let record = frag(r#"{"name":"Ada","role":"user"}"#);
    record.create_table(&mut store, text("ada")).unwrap();
    let changed = record.update_table(&store, text("ada"), text("role"), text("admin"));
    assert_eq!(changed, Ok(text(r#"{"name":"Ada","role":"admin"}"#)));
    let grown = record.update_table(&store, text("ada"), text("city"), text("London"));
    assert_eq!(grown, Ok(text(r#"{"city":"London","name":"Ada","role":"user"}"#)));
    assert_eq!(store.get(&text("ada")), Some(&text(r#"{"name":"Ada","role":"user"}"#)));
}

#[test]
fn update_table_errors() {
    let mut store: Assoc<String> = Assoc::new();
    let record = frag(r#"{"n":1}"#);
    record.create_table(&mut store, text("num")).unwrap();
    assert_eq!(
        record.update_table(&store, text("missing"), text("k"), text("v")),
        Err(TErrors::FileError)
    );
    assert_eq!(
        record.update_table(&store, text("num"), text("k"), text("v")),
        Err(TErrors::HashConvert)
    );
}

#[test]
fn update_table_vec_binds_the_key() {
    let mut store: Assoc<String> = Assoc::new();
    let record = frag(r#"{"tags":["a"],"more":[]}"#);
    record.create_table(&mut store, text("t")).unwrap();
    let changed =
        record.update_table_vec(&store, text("t"), text("tags"), vec![text("x"), text("y")]);
    assert_eq!(changed, Ok(text(r#"{"more":[],"tags":["x","y"]}"#)));
}

#[test]
fn update_table_vec_errors() {
    let mut store: Assoc<String> = Assoc::new();
    let record = frag(r#"{"tags":"a"}"#);
    record.create_table(&mut store, text("t")).unwrap();
    assert_eq!(
        record.update_table_vec(&store, text("missing"), text("k"), Vec::new()),
        Err(TErrors::FileError)
    );
    assert_eq!(
        record.update_table_vec(&store, text("t"), text("k"), Vec::new()),
        Err(TErrors::HashConvert)
    );
}
