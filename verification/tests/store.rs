use macro_state::{
    proc_append_state, proc_clear_state, proc_has_state, proc_init_state, proc_read_state,
    proc_read_state_vec, proc_write_state, StateStore, StoreError,
};

fn new_store() -> StateStore {
    StateStore::new("target/macro_state", 1_700_000_000_000_000_000)
}

#[test]
fn lib_test_write_state() {
    let mut store = new_store();
    proc_write_state(&mut store, "top_of_file", "value 1").unwrap();
    proc_write_state(&mut store, "top of module", "value 2").unwrap();
    proc_write_state(&mut store, "top of method", "value 3").unwrap();
    assert_eq!(proc_read_state(&store, "top_of_file").unwrap(), "value 1");
    assert_eq!(proc_read_state(&store, "top of module").unwrap(), "value 2");
    assert_eq!(proc_read_state(&store, "top of method").unwrap(), "value 3");
}

#[test]
fn lib_test_rewriting_state() {
    let mut store = new_store();
    proc_write_state(&mut store, "key 1", "value 4").unwrap();
    assert_eq!(proc_read_state(&store, "key 1").unwrap(), "value 4");
    proc_write_state(&mut store, "key 1", "value 5").unwrap();
    assert_eq!(proc_read_state(&store, "key 1").unwrap(), "value 5");
}

#[test]
fn lib_test_has_state() {
    let mut store = new_store();
    assert_eq!(proc_has_state(&store, "key A"), false);
    proc_write_state(&mut store, "key A", "value 6").unwrap();
    assert_eq!(proc_has_state(&store, "key A"), true);
    assert_eq!(proc_read_state(&store, "key A").unwrap(), "value 6");
}

#[test]
fn lib_test_clear_state() {
    let mut store = new_store();
    proc_write_state(&mut store, "key B", "value 7").unwrap();
    assert_eq!(proc_read_state(&store, "key B").unwrap(), "value 7");
    proc_clear_state(&mut store, "key B").unwrap();
    assert_eq!(proc_has_state(&store, "key B"), false);
}

#[test]
fn lib_test_init_state() {
    let mut store = new_store();
    proc_write_state(&mut store, "key C", "value 8").unwrap();
    assert_eq!(proc_init_state(&mut store, "key C", "value -8").unwrap(), "value 8");
    assert_eq!(proc_init_state(&mut store, "key D", "value 9").unwrap(), "value 9");
    assert_eq!(proc_init_state(&mut store, "key C", "value -8").unwrap(), "value 8");
    assert_eq!(proc_init_state(&mut store, "key D", "value 9").unwrap(), "value 9");
}

#[test]
fn macro_state_test_write_state() {
    let mut store = new_store();
    proc_write_state(&mut store, "top of module", "value 2").unwrap();
    proc_write_state(&mut store, "top of method", "value 3").unwrap();
    assert_eq!(proc_read_state(&store, "top of module").unwrap(), "value 2");
    assert_eq!(proc_read_state(&store, "top of method").unwrap(), "value 3");
}

#[test]
fn macro_state_test_rewriting_state() {
    let mut store = new_store();
    proc_write_state(&mut store, "key 1", "value 4").unwrap();
    assert_eq!(proc_read_state(&store, "key 1").unwrap(), "value 4");
    proc_write_state(&mut store, "key 1", "value 5").unwrap();
    assert_eq!(proc_read_state(&store, "key 1").unwrap(), "value 5");
}

#[test]
fn macro_state_test_has_state() {
    let mut store = new_store();
    assert_eq!(proc_has_state(&store, "key A"), false);
    proc_write_state(&mut store, "key A", "value 6").unwrap();
    assert_eq!(proc_has_state(&store, "key A"), true);
    assert_eq!(proc_read_state(&store, "key A").unwrap(), "value 6");
}

#[test]
fn macro_state_test_clear_state() {
    let mut store = new_store();
    proc_write_state(&mut store, "key B", "value 7").unwrap();
    assert_eq!(proc_read_state(&store, "key B").unwrap(), "value 7");
    proc_clear_state(&mut store, "key B").unwrap();
    assert_eq!(proc_has_state(&store, "key B"), false);
}

#[test]
fn macro_state_test_init_state() {
    let mut store = new_store();
    proc_write_state(&mut store, "key C", "value 8").unwrap();
    assert_eq!(proc_init_state(&mut store, "key C", "value -8").unwrap(), "value 8");
    assert_eq!(proc_init_state(&mut store, "key D", "value 9").unwrap(), "value 9");
    assert_eq!(proc_init_state(&mut store, "key C", "value -8").unwrap(), "value 8");
    assert_eq!(proc_init_state(&mut store, "key D", "value 9").unwrap(), "value 9");
}

#[test]
fn test_append_state() {
    let mut store = new_store();
    proc_append_state(&mut store, "append_key", "first line").unwrap();
    assert_eq!(proc_read_state(&store, "append_key").unwrap(), "first line\n");
    proc_append_state(&mut store, "append_key", "2nd line").unwrap();
    assert_eq!(proc_read_state(&store, "append_key").unwrap(), "first line\n2nd line\n");
    proc_append_state(&mut store, "append_key", "3rd line").unwrap();
    assert_eq!(
        proc_read_state(&store, "append_key").unwrap(),
        "first line\n2nd line\n3rd line\n"
    );
    proc_write_state(&mut store, "append_key", "").unwrap();
    proc_append_state(&mut store, "append_key", "first line").unwrap();
    assert_eq!(proc_read_state(&store, "append_key").unwrap(), "first line\n");
}

#[test]
fn test_proc_append_state() {
    let mut store = new_store();
    proc_append_state(&mut store, "append_key", "first line").unwrap();
    assert_eq!(proc_read_state(&store, "append_key").unwrap(), "first line\n");
    proc_append_state(&mut store, "append_key", "2nd line").unwrap();
    assert_eq!(
        proc_read_state(&store, "append_key").unwrap(),
        "first line\n2nd line\n"
    );
    proc_append_state(&mut store, "append_key", "3rd line").unwrap();
    assert_eq!(
        proc_read_state(&store, "append_key").unwrap(),
        "first line\n2nd line\n3rd line\n"
    );
    proc_write_state(&mut store, "append_key", "").unwrap();
    proc_append_state(&mut store, "append_key", "first line").unwrap();
    assert_eq!(proc_read_state(&store, "append_key").unwrap(), "first line\n");
}

#[test]
fn test_read_state_vec() {
    let mut store = new_store();
    proc_append_state(&mut store, "append2", "line 1").unwrap();
    assert_eq!(proc_read_state_vec(&store, "append2"), vec!["line 1"]);
    proc_append_state(&mut store, "append2", "line 2").unwrap();
    assert_eq!(proc_read_state_vec(&store, "append2"), vec!["line 1", "line 2"]);
    proc_append_state(&mut store, "append2", "line 3").unwrap();
    assert_eq!(
        proc_read_state_vec(&store, "append2"),
        vec!["line 1", "line 2", "line 3"]
    );
    proc_append_state(&mut store, "append2", "").unwrap();
    assert_eq!(
        proc_read_state_vec(&store, "append2"),
        vec!["line 1", "line 2", "line 3", ""]
    );
    assert_eq!(proc_read_state_vec(&store, "append748"), Vec::<String>::new());
}

#[test]
fn test_proc_read_state_vec() {
    let mut store = new_store();
    proc_append_state(&mut store, "append2", "line 1").unwrap();
    assert_eq!(proc_read_state_vec(&store, "append2"), vec!["line 1"]);
    proc_append_state(&mut store, "append2", "line 2").unwrap();
    assert_eq!(proc_read_state_vec(&store, "append2"), vec!["line 1", "line 2"]);
    proc_append_state(&mut store, "append2", "line 3").unwrap();
    assert_eq!(
        proc_read_state_vec(&store, "append2"),
        vec!["line 1", "line 2", "line 3"]
    );
    proc_append_state(&mut store, "append2", "").unwrap();
    assert_eq!(
        proc_read_state_vec(&store, "append2"),
        vec!["line 1", "line 2", "line 3", ""]
    );
}

#[test]
fn test_append_state_newline_escaping() {
    let mut store = new_store();
    proc_append_state(&mut store, "append3", "line 1").unwrap();
    proc_append_state(&mut store, "append3", "hey\nwhat").unwrap();
    proc_append_state(&mut store, "append3", "line 3").unwrap();
    assert_eq!(
        proc_read_state_vec(&store, "append3"),
        vec!["line 1", "hey\nwhat", "line 3"]
    );
    proc_append_state(&mut store, "append4", "\n").unwrap();
    assert_eq!(proc_read_state_vec(&store, "append4"), vec!["\n"]);
}

#[test]
fn test_proc_append_state_newline_escaping() {
    let mut store = new_store();
    proc_append_state(&mut store, "append3", "line 1").unwrap();
    proc_append_state(&mut store, "append3", "hey\nwhat").unwrap();
    proc_append_state(&mut store, "append3", "line 3").unwrap();
    assert_eq!(
        proc_read_state_vec(&store, "append3"),
        vec!["line 1", "hey\nwhat", "line 3"]
    );
    proc_append_state(&mut store, "append4", "\n").unwrap();
    assert_eq!(proc_read_state_vec(&store, "append4"), vec!["\n"]);
}

#[test]
fn test_proc_state_functions() {
    let mut store = new_store();
    assert_eq!(proc_has_state(&store, "proc A"), false);
    assert!(proc_read_state(&store, "proc B").is_err());
    proc_write_state(&mut store, "proc A", "val A").unwrap();
    assert!(proc_has_state(&store, "proc A"));
    assert_eq!(proc_read_state(&store, "proc A").unwrap(), "val A");
    assert_eq!(proc_init_state(&mut store, "proc A", "val B").unwrap(), "val A");
    proc_init_state(&mut store, "proc B", "val B").unwrap();
    assert_eq!(proc_read_state(&store, "proc B").unwrap(), "val B");
    assert!(proc_has_state(&store, "proc B"));
    proc_clear_state(&mut store, "proc B").unwrap();
    proc_clear_state(&mut store, "proc A").unwrap();
    assert_eq!(proc_has_state(&store, "proc A"), false);
    assert_eq!(proc_has_state(&store, "proc B"), false);
    assert!(proc_read_state(&store, "proc B").is_err());
    assert!(proc_read_state(&store, "proc A").is_err());
}

#[test]
fn read_of_a_key_without_a_value_is_not_found() {
    let store = new_store();
    assert_eq!(proc_read_state(&store, "missing"), Err(StoreError::NotFound));
}

#[test]
fn write_then_read_gives_the_value_byte_for_byte() {
    let mut store = new_store();
    for value in ["", "plain", "two\nlines\n", "a\\nb", " spaced ", "\u{e9}t\u{e9} \u{1f980}"] {
        proc_write_state(&mut store, "k", value).unwrap();
        assert_eq!(proc_read_state(&store, "k").unwrap(), value);
    }
}

#[test]
fn an_empty_value_is_a_value() {
    let mut store = new_store();
    proc_write_state(&mut store, "k", "").unwrap();
    assert!(proc_has_state(&store, "k"));
    assert_eq!(proc_read_state(&store, "k").unwrap(), "");
}

#[test]
fn last_write_wins() {
    let mut store = new_store();
    proc_write_state(&mut store, "k", "A").unwrap();
    assert_eq!(proc_read_state(&store, "k").unwrap(), "A");
    proc_write_state(&mut store, "k", "B").unwrap();
    assert_eq!(proc_read_state(&store, "k").unwrap(), "B");
}

#[test]
fn has_is_false_at_first_and_true_after_write_or_append() {
    let mut store = new_store();
    assert!(!proc_has_state(&store, "w"));
    assert!(!proc_has_state(&store, "a"));
    proc_write_state(&mut store, "w", "v").unwrap();
    proc_append_state(&mut store, "a", "v").unwrap();
    assert!(proc_has_state(&store, "w"));
    assert!(proc_has_state(&store, "a"));
}

#[test]
fn clear_of_a_key_without_a_value_succeeds() {
    let mut store = new_store();
    assert_eq!(proc_clear_state(&mut store, "never written"), Ok(()));
    assert!(!proc_has_state(&store, "never written"));
}

#[test]
fn a_change_to_one_key_leaves_the_others() {
    let mut store = new_store();
    proc_write_state(&mut store, "a", "1").unwrap();
    proc_write_state(&mut store, "a_1", "2").unwrap();
    proc_write_state(&mut store, "b", "3").unwrap();
    proc_append_state(&mut store, "b", "4").unwrap();
    proc_init_state(&mut store, "c", "5").unwrap();
    assert_eq!(proc_read_state(&store, "a").unwrap(), "1");
    assert_eq!(proc_read_state(&store, "a_1").unwrap(), "2");
    assert_eq!(proc_read_state(&store, "b").unwrap(), "34\n");
    assert_eq!(proc_read_state(&store, "c").unwrap(), "5");
}

#[test]
fn clear_leaves_other_keys() {
    let mut store = new_store();
    proc_write_state(&mut store, "a", "1").unwrap();
    proc_write_state(&mut store, "b", "2").unwrap();
    proc_write_state(&mut store, "c", "3").unwrap();
    proc_clear_state(&mut store, "b").unwrap();
    assert_eq!(proc_read_state(&store, "a").unwrap(), "1");
    assert_eq!(proc_read_state(&store, "b"), Err(StoreError::NotFound));
    assert_eq!(proc_read_state(&store, "c").unwrap(), "3");
}

#[test]
fn first_init_wins() {
    let mut store = new_store();
    assert_eq!(proc_init_state(&mut store, "k", "d1").unwrap(), "d1");
    assert_eq!(proc_init_state(&mut store, "k", "d2").unwrap(), "d1");
    assert_eq!(proc_read_state(&store, "k").unwrap(), "d1");
}

#[test]
fn init_of_a_key_with_a_value_gives_the_value() {
    let mut store = new_store();
    proc_write_state(&mut store, "k", "v0").unwrap();
    assert_eq!(proc_init_state(&mut store, "k", "d1").unwrap(), "v0");
    assert_eq!(proc_init_state(&mut store, "k", "d2").unwrap(), "v0");
    assert_eq!(proc_read_state(&store, "k").unwrap(), "v0");
}

#[test]
fn three_appended_items_are_read_back() {
    let mut store = new_store();
    proc_append_state(&mut store, "k", "a").unwrap();
    proc_append_state(&mut store, "k", "b").unwrap();
    proc_append_state(&mut store, "k", "c").unwrap();
    assert_eq!(proc_read_state_vec(&store, "k"), vec!["a", "b", "c"]);
    assert_eq!(proc_read_state(&store, "k").unwrap(), "a\nb\nc\n");
}

#[test]
fn an_appended_newline_is_stored_escaped() {
    let mut store = new_store();
    proc_append_state(&mut store, "k", "hey\nwhat").unwrap();
    assert_eq!(proc_read_state(&store, "k").unwrap(), "hey\\nwhat\n");
    assert_eq!(proc_read_state_vec(&store, "k"), vec!["hey\nwhat"]);
}

#[test]
fn an_appended_escape_sequence_reads_back_as_a_newline() {
    let mut store = new_store();
    proc_append_state(&mut store, "k", "a\\nb").unwrap();
    assert_eq!(proc_read_state(&store, "k").unwrap(), "a\\nb\n");
    assert_eq!(proc_read_state_vec(&store, "k"), vec!["a\nb"]);
}

#[test]
fn read_list_of_a_key_never_written_is_empty() {
    let store = new_store();
    assert_eq!(proc_read_state_vec(&store, "never written"), Vec::<String>::new());
}

#[test]
fn one_appended_empty_item_is_a_list_of_one() {
    let mut store = new_store();
    proc_append_state(&mut store, "k", "").unwrap();
    assert_eq!(proc_read_state(&store, "k").unwrap(), "\n");
    assert_eq!(proc_read_state_vec(&store, "k"), vec![""]);
}

#[test]
fn an_empty_value_reads_as_one_empty_item() {
    let mut store = new_store();
    proc_write_state(&mut store, "k", "").unwrap();
    assert_eq!(proc_read_state_vec(&store, "k"), vec![""]);
    proc_write_state(&mut store, "k", "\n").unwrap();
    assert_eq!(proc_read_state_vec(&store, "k"), vec![""]);
}

#[test]
fn write_discards_the_list() {
    let mut store = new_store();
    proc_append_state(&mut store, "L", "first").unwrap();
    proc_append_state(&mut store, "L", "second").unwrap();
    assert_eq!(proc_read_state_vec(&store, "L"), vec!["first", "second"]);
    proc_write_state(&mut store, "L", "").unwrap();
    proc_append_state(&mut store, "L", "third").unwrap();
    assert_eq!(proc_read_state_vec(&store, "L"), vec!["third"]);
}

#[test]
fn append_builds_on_what_write_left() {
    let mut store = new_store();
    proc_write_state(&mut store, "k", "left").unwrap();
    proc_append_state(&mut store, "k", "more").unwrap();
    assert_eq!(proc_read_state(&store, "k").unwrap(), "leftmore\n");
    assert_eq!(proc_read_state_vec(&store, "k"), vec!["leftmore"]);
}

#[test]
fn a_later_build_finds_nothing_of_an_earlier_one() {
    let mut store = StateStore::new("out", 1);
    proc_write_state(&mut store, "k", "old").unwrap();
    proc_append_state(&mut store, "list", "old item").unwrap();
    store.begin_build(2);
    assert!(!proc_has_state(&store, "k"));
    assert_eq!(proc_read_state(&store, "k"), Err(StoreError::NotFound));
    assert_eq!(proc_read_state_vec(&store, "list"), Vec::<String>::new());
    proc_write_state(&mut store, "k", "new").unwrap();
    assert_eq!(proc_read_state(&store, "k").unwrap(), "new");
    store.begin_build(1);
    assert_eq!(proc_read_state(&store, "k").unwrap(), "old");
    assert_eq!(proc_read_state_vec(&store, "list"), vec!["old item"]);
}

#[test]
fn a_key_that_ends_like_an_epoch_is_another_key() {
    let mut store = StateStore::new("out", 2);
    proc_write_state(&mut store, "k_1", "under k_1").unwrap();
    store.begin_build(12);
    assert!(!proc_has_state(&store, "k"));
    store.begin_build(1);
    assert!(!proc_has_state(&store, "k_1"));
    assert!(!proc_has_state(&store, "k"));
}

#[test]
fn the_store_tells_its_root_epoch_and_locations() {
    let mut store = StateStore::new("target/state", 7);
    assert_eq!(store.root(), "target/state");
    assert_eq!(store.epoch(), 7);
    assert_eq!(store.location_of("my key"), "target/state/macro_state_my key_7");
    store.begin_build(8);
    assert_eq!(store.epoch(), 8);
    assert_eq!(store.location_of("my key"), "target/state/macro_state_my key_8");
}
