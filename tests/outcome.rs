use deposito::outcome::{
    add_after_increment, add_after_insert, create_outcome, is_unique_violation, listing, AddNext,
    AddOutcome, CreateOutcome, Listing, StoreError,
};
use deposito::sql::{Param, INCREMENT_ITEM};

fn error(code: Option<&str>, message: &str) -> StoreError {
    StoreError { code: code.map(|c| c.to_string()), message: message.to_string() }
}

#[test]
fn unique_violation_is_recognised_by_code() {
    assert!(is_unique_violation(&error(Some("2067"), "UNIQUE constraint failed")));
    assert!(!is_unique_violation(&error(Some("1555"), "PRIMARY KEY")));
    assert!(!is_unique_violation(&error(Some("20670"), "other")));
    assert!(!is_unique_violation(&error(None, "io")));
}

#[test]
fn creating_twice_is_already_exists() {
    assert_eq!(create_outcome(Ok(())), CreateOutcome::Created);
    assert_eq!(create_outcome(Err(error(Some("2067"), "UNIQUE"))), CreateOutcome::AlreadyExists);
    assert_eq!(
        create_outcome(Err(error(Some("1"), "disk I/O error"))),
        CreateOutcome::Failed("disk I/O error".to_string())
    );
}

#[test]
fn add_falls_back_to_increment() {
    match add_after_insert("Fridge", "Egg", 2, Ok(())) {
        AddNext::Done(o) => assert_eq!(o, AddOutcome::Inserted),
        other => panic!("unexpected {:?}", other),
    }
    match add_after_insert("Fridge", "Egg", 2, Err(error(Some("2067"), "UNIQUE"))) {
        AddNext::Run(st) => {
            assert_eq!(st.text, INCREMENT_ITEM);
            assert_eq!(
                st.params,
                vec![Param::Int(2), Param::Text("Fridge".to_string()), Param::Text("Egg".to_string())]
            );
        }
        other => panic!("unexpected {:?}", other),
    }
    match add_after_insert("Fridge", "Egg", 2, Err(error(Some("1299"), "NOT NULL"))) {
        AddNext::Done(o) => assert_eq!(o, AddOutcome::InsertFailed("NOT NULL".to_string())),
        other => panic!("unexpected {:?}", other),
    }
}

#[test]
fn increment_failure_is_its_own_outcome() {
    assert_eq!(add_after_increment(Ok(())), AddOutcome::Incremented);
    assert_eq!(
        add_after_increment(Err(error(None, "locked"))),
        AddOutcome::IncrementFailed("locked".to_string())
    );
}

#[test]
fn empty_listing_is_not_an_error() {
    assert!(matches!(listing::<u8>(Ok(vec![])), Listing::Empty));
    match listing(Ok(vec![1u8, 2])) {
        Listing::Rows(v) => assert_eq!(v, vec![1, 2]),
        other => panic!("unexpected {:?}", other),
    }
    match listing::<u8>(Err(error(None, "no such table"))) {
        Listing::Failed(m) => assert_eq!(m, "no such table"),
        other => panic!("unexpected {:?}", other),
    }
}
