use macro_state::{
    clear_outcome, has_outcome, init_after_read, init_after_write, read_list_outcome, InitStep,
    StoreError,
};

#[derive(Debug, PartialEq)]
enum DiskError {
    Missing,
    Denied,
    Full,
}

#[test]
fn has_is_whether_the_read_succeeded() {
    assert!(has_outcome::<DiskError>(&Ok(String::from("value"))));
    assert!(has_outcome::<DiskError>(&Ok(String::new())));
    assert!(!has_outcome(&Err(DiskError::Missing)));
    assert!(!has_outcome(&Err(DiskError::Denied)));
    assert!(!has_outcome(&Err(StoreError::NotFound)));
}

#[test]
fn a_list_that_was_read_is_decoded() {
    assert_eq!(
        read_list_outcome::<DiskError>(Ok(String::from("a\nb\\nc\n"))),
        vec!["a", "b\nc"]
    );
    assert_eq!(read_list_outcome::<DiskError>(Ok(String::new())), vec![""]);
}

#[test]
fn a_list_that_could_not_be_read_is_empty() {
    assert_eq!(read_list_outcome(Err(DiskError::Missing)), Vec::<String>::new());
    assert_eq!(read_list_outcome(Err(DiskError::Denied)), Vec::<String>::new());
    assert_eq!(read_list_outcome(Err(StoreError::NotFound)), Vec::<String>::new());
}

#[test]
fn init_gives_the_value_that_was_read() {
    match init_after_read::<DiskError>(Ok(String::from("v0"))) {
        InitStep::Existing(value) => assert_eq!(value, "v0"),
        InitStep::WriteDefault => panic!("the value was read"),
    }
    match init_after_read::<DiskError>(Ok(String::new())) {
        InitStep::Existing(value) => assert_eq!(value, ""),
        InitStep::WriteDefault => panic!("the empty value was read"),
    }
}

#[test]
fn init_writes_the_default_after_any_failure_to_read() {
    assert!(matches!(init_after_read(Err(DiskError::Missing)), InitStep::WriteDefault));
    assert!(matches!(init_after_read(Err(DiskError::Denied)), InitStep::WriteDefault));
    assert!(matches!(init_after_read(Err(StoreError::NotFound)), InitStep::WriteDefault));
}

#[test]
fn init_gives_the_default_that_was_written() {
    assert_eq!(init_after_write::<DiskError>(Ok(()), "d1"), Ok(String::from("d1")));
    assert_eq!(init_after_write::<DiskError>(Ok(()), ""), Ok(String::new()));
}

#[test]
fn init_passes_on_the_failure_to_write() {
    assert_eq!(init_after_write(Err(DiskError::Full), "d1"), Err(DiskError::Full));
    assert_eq!(init_after_write(Err(DiskError::Denied), "d1"), Err(DiskError::Denied));
}

#[test]
fn clear_succeeds_whatever_the_removal_did() {
    assert_eq!(clear_outcome::<DiskError>(Ok(())), Ok(()));
    assert_eq!(clear_outcome(Err(DiskError::Missing)), Ok(()));
    assert_eq!(clear_outcome(Err(DiskError::Denied)), Ok(()));
}
