use chat_core::Errors;
use chat_core::directory::Directory;

fn s(x: &str) -> String {
    x.to_string()
}

#[test]
fn register_nick_folds_before_storing() {
    let mut d = Directory::new();
    assert_eq!(d.register_nick(&s("id1"), &s("Alice")), Ok(()));
    assert_eq!(d.records.len(), 1);
    assert_eq!(d.records[0].nickname, "alice");
    assert_eq!(d.records[0].username, None);
}

#[test]
fn register_nick_empty_candidate_rejected() {
    let mut d = Directory::new();
    assert_eq!(d.register_nick(&s("id1"), &s("")), Err(Errors::ErrNoNickNameGiven));
    assert_eq!(d.records.len(), 0);
}

#[test]
fn register_nick_collision_detected_case_insensitively() {
    let mut d = Directory::new();
    assert_eq!(d.register_nick(&s("id1"), &s("alice")), Ok(()));
    assert_eq!(d.register_nick(&s("id2"), &s("ALICE")), Err(Errors::ErrNickNameInUse));
    assert_eq!(d.records.len(), 1);
}

#[test]
fn register_username_requires_prior_nick() {
    let mut d = Directory::new();
    assert_eq!(d.register_username(&s("id1"), &s("bob")), Err(Errors::ErrNoSuchIdentity));
    assert_eq!(d.records.len(), 0);
    assert_eq!(d.register_nick(&s("id1"), &s("bob")), Ok(()));
    assert_eq!(d.register_username(&s("id1"), &s("Bobby")), Ok(()));
    assert_eq!(d.records[0].username, Some(s("bobby")));
}

#[test]
fn register_username_overwrites_previous_value() {
    let mut d = Directory::new();
    d.register_nick(&s("id1"), &s("bob")).unwrap();
    d.register_username(&s("id1"), &s("first")).unwrap();
    d.register_username(&s("id1"), &s("second")).unwrap();
    assert_eq!(d.list_usernames(), vec![s("second")]);
}

#[test]
fn list_usernames_skips_records_without_one() {
    let mut d = Directory::new();
    d.register_nick(&s("id1"), &s("a")).unwrap();
    d.register_nick(&s("id2"), &s("b")).unwrap();
    d.register_username(&s("id2"), &s("beta")).unwrap();
    assert_eq!(d.list_usernames(), vec![s("beta")]);
}

#[test]
fn find_identities_by_name_checks_both_fields() {
    let mut d = Directory::new();
    d.register_nick(&s("id1"), &s("alice")).unwrap();
    d.register_username(&s("id1"), &s("alina")).unwrap();
    d.register_nick(&s("id2"), &s("bob")).unwrap();
    assert_eq!(d.find_identities_by_name(&s("alice")), vec![s("id1")]);
    assert_eq!(d.find_identities_by_name(&s("alina")), vec![s("id1")]);
    assert_eq!(d.find_identities_by_name(&s("bob")), vec![s("id2")]);
    assert_eq!(d.find_identities_by_name(&s("zoe")), Vec::<String>::new());
}

#[test]
fn find_is_case_sensitive_on_stored_folded_values() {
    let mut d = Directory::new();
    d.register_nick(&s("id1"), &s("Alice")).unwrap();
    assert_eq!(d.find_identities_by_name(&s("Alice")), Vec::<String>::new());
    assert_eq!(d.find_identities_by_name(&s("alice")), vec![s("id1")]);
}

#[test]
fn find_matching_any_deduplicates_by_record() {
    let mut d = Directory::new();
    d.register_nick(&s("id1"), &s("alice")).unwrap();
    d.register_username(&s("id1"), &s("bob")).unwrap();
    let names = vec![s("alice"), s("bob")];
    assert_eq!(d.find_identities_matching_any(&names), vec![s("id1")]);
}

#[test]
fn remove_frees_the_nickname_for_reuse() {
    let mut d = Directory::new();
    d.register_nick(&s("id1"), &s("carol")).unwrap();
    assert_eq!(d.register_nick(&s("id2"), &s("carol")), Err(Errors::ErrNickNameInUse));
    d.remove(&s("id1"));
    assert_eq!(d.records.len(), 0);
    assert_eq!(d.register_nick(&s("id2"), &s("carol")), Ok(()));
}

#[test]
fn remove_of_unknown_identity_is_a_no_op() {
    let mut d = Directory::new();
    d.register_nick(&s("id1"), &s("carol")).unwrap();
    d.remove(&s("ghost"));
    assert_eq!(d.records.len(), 1);
}
