use chat_core::Errors;
use chat_core::server::Server;

fn srv() -> Server {
    Server::new("ops".to_string())
}

fn id(n: &str) -> String {
    n.to_string()
}

fn args(xs: &[&str]) -> Vec<String> {
    xs.iter().map(|s| s.to_string()).collect()
}

#[test]
fn nick_success_reply_contains_folded_nick() {
    let mut s = srv();
    let r = s.nick_command(&args(&["BoB"]), &id("1.2.3.4:100"));
    assert_eq!(r.0, None);
    assert_eq!(r.1, "Introducing new nick \"bob\" \r\n");
    assert_eq!(s.users.records.len(), 1);
}

#[test]
fn nick_empty_gives_no_nickname_and_no_mutation() {
    let mut s = srv();
    let r = s.nick_command(&args(&[]), &id("1.2.3.4:100"));
    assert_eq!(r.0, Some(Errors::ErrNoNickNameGiven));
    assert_eq!(r.1, "No Nickname given\r\n");
    assert_eq!(s.users.records.len(), 0);
}

#[test]
fn nick_whitespace_only_line_gives_no_nickname() {
    let mut s = srv();
    let r = s.handle_line("/NICK    \t ", &id("1.2.3.4:100"));
    assert_eq!(r.0, Some(Errors::ErrNoNickNameGiven));
    assert_eq!(s.users.records.len(), 0);
}

#[test]
fn nick_collision_second_identity_loses() {
    let mut s = srv();
    let a = id("1.1.1.1:1");
    let b = id("2.2.2.2:2");
    let r1 = s.nick_command(&args(&["carol"]), &a);
    assert_eq!(r1.0, None);
    let r2 = s.nick_command(&args(&["CAROL"]), &b);
    assert_eq!(r2.0, Some(Errors::ErrNickNameInUse));
    assert_eq!(r2.1, "carol Nickname is already in use\r\n");
    assert_eq!(s.users.records.len(), 1);
    assert_eq!(s.users.records[0].nickname, "carol");
    assert_eq!(s.users.records[0].identity, a);
}

#[test]
fn nick_same_identity_may_change_nickname() {
    let mut s = srv();
    let a = id("1.1.1.1:1");
    assert_eq!(s.nick_command(&args(&["ada"]), &a).0, None);
    assert_eq!(s.nick_command(&args(&["ada"]), &a).0, None);
    assert_eq!(s.nick_command(&args(&["beth"]), &a).0, None);
    assert_eq!(s.users.records.len(), 1);
    assert_eq!(s.users.records[0].nickname, "beth");
}

#[test]
fn user_before_nick_is_structured_error() {
    let mut s = srv();
    let r = s.user_command(&args(&["bob"]), &id("9.9.9.9:9"));
    assert_eq!(r.0, Some(Errors::ErrNoSuchIdentity));
    assert_eq!(r.1, "You must register a nickname first\r\n");
    assert_eq!(s.users.records.len(), 0);
}

#[test]
fn user_without_argument_needs_more_params() {
    let mut s = srv();
    let a = id("1.1.1.1:1");
    s.nick_command(&args(&["ada"]), &a);
    let r = s.user_command(&args(&[]), &a);
    assert_eq!(r.0, Some(Errors::ErrNeedMoreParams));
    assert_eq!(r.1, "Not enough parameters\r\n");
}

#[test]
fn user_stores_folded_username() {
    let mut s = srv();
    let a = id("1.1.1.1:1");
    s.nick_command(&args(&["ada"]), &a);
    let r = s.user_command(&args(&["AdaL"]), &a);
    assert_eq!(r.0, None);
    assert_eq!(r.1, "Username registered successfully\r\n");
    assert_eq!(s.users.records[0].username, Some("adal".to_string()));
}

#[test]
fn users_disabled_by_default_then_toggled() {
    let mut s = srv();
    let a = id("1.1.1.1:1");
    s.nick_command(&args(&["ada"]), &a);
    s.user_command(&args(&["ada"]), &a);
    let r = s.users_command();
    assert_eq!(r.0, Some(Errors::ErrUserDisabled));
    assert_eq!(r.1, "USERS has been disabled\r\n");
    s.enable_users();
    let r2 = s.users_command();
    assert_eq!(r2.0, None);
    assert_eq!(r2.1, "ada\r\n");
    s.disable_users();
    let r3 = s.users_command();
    assert_eq!(r3.0, Some(Errors::ErrUserDisabled));
}

#[test]
fn users_lists_only_records_with_username() {
    let mut s = srv();
    let a = id("1.1.1.1:1");
    let b = id("2.2.2.2:2");
    s.nick_command(&args(&["ada"]), &a);
    s.user_command(&args(&["lovelace"]), &a);
    s.nick_command(&args(&["beth"]), &b);
    s.enable_users();
    let r = s.users_command();
    assert_eq!(r.0, None);
    assert_eq!(r.1, "lovelace\r\n");
}

#[test]
fn users_empty_listing_is_just_delimiter() {
    let mut s = srv();
    s.enable_users();
    let r = s.users_command();
    assert_eq!(r.0, None);
    assert_eq!(r.1, "\r\n");
}

#[test]
fn who_matches_nickname_or_username_exactly() {
    let mut s = srv();
    let a = id("1.1.1.1:1");
    let b = id("2.2.2.2:2");
    s.nick_command(&args(&["alice"]), &a);
    s.user_command(&args(&["alina"]), &a);
    s.nick_command(&args(&["bob"]), &b);
    let r = s.who_command(&args(&["alice"]));
    assert_eq!(r.0, None);
    assert_eq!(r.1, format!("{}\r\n", a));
    let by_user = s.who_command(&args(&["alina"]));
    assert_eq!(by_user.1, format!("{}\r\n", a));
}

#[test]
fn who_no_match_is_empty_not_an_error() {
    let mut s = srv();
    s.nick_command(&args(&["alice"]), &id("1.1.1.1:1"));
    let r = s.who_command(&args(&["zoe"]));
    assert_eq!(r.0, None);
    assert_eq!(r.1, "\r\n");
}

#[test]
fn who_without_argument_needs_more_params() {
    let s = srv();
    let r = s.who_command(&args(&[]));
    assert_eq!(r.0, Some(Errors::ErrNeedMoreParams));
    assert_eq!(r.1, "Not enough parameters\r\n");
}

#[test]
fn userhost_zero_names_needs_more_params() {
    let s = srv();
    let r = s.userhost_command(&args(&[]));
    assert_eq!(r.0, Some(Errors::ErrNeedMoreParams));
    assert_eq!(r.1, "Not enough parameters\r\n");
}

#[test]
fn userhost_union_of_two_names() {
    let mut s = srv();
    let a = id("1.1.1.1:1");
    let b = id("2.2.2.2:2");
    let c = id("3.3.3.3:3");
    s.nick_command(&args(&["alice"]), &a);
    s.nick_command(&args(&["bob"]), &b);
    s.nick_command(&args(&["carol"]), &c);
    let r = s.userhost_command(&args(&["alice", "bob"]));
    assert_eq!(r.0, None);
    assert_eq!(r.1, format!("{}\r\n{}\r\n", a, b));
}

#[test]
fn userhost_identity_listed_once_even_if_both_fields_match() {
    let mut s = srv();
    let a = id("1.1.1.1:1");
    s.nick_command(&args(&["alice"]), &a);
    s.user_command(&args(&["alice"]), &a);
    let r = s.userhost_command(&args(&["alice", "alice"]));
    assert_eq!(r.0, None);
    assert_eq!(r.1, format!("{}\r\n", a));
}

#[test]
fn version_is_static_string_with_delimiter() {
    let s = srv();
    let r = s.show_version();
    assert_eq!(r.0, None);
    assert_eq!(r.1, "1.0\r\n");
}

#[test]
fn admin_reports_configured_contact() {
    let s = srv();
    let r = s.admin_command();
    assert_eq!(r.0, None);
    assert_eq!(r.1, "ops\r\n");
}

#[test]
fn registration_session_scenario() {
    let mut s = srv();
    s.set_motd("Welcome to the default server\r\n".to_string());
    assert_eq!(s.motd, Some("Welcome to the default server\r\n".to_string()));
    let b = id("5.5.5.5:5");
    let r1 = s.handle_line("/NICK bob", &b);
    assert_eq!(r1.0, None);
    assert!(r1.1.contains("bob"));
    assert_eq!(r1.1, "Introducing new nick \"bob\" \r\n");
    let r2 = s.handle_line("/USER bob", &b);
    assert_eq!(r2.0, None);
    assert_eq!(r2.1, "Username registered successfully\r\n");
    let r3 = s.handle_line("/VERSION", &b);
    assert_eq!(r3.0, None);
    assert_eq!(r3.1, "1.0\r\n");
    assert!(r3.1.ends_with("\r\n"));
}

#[test]
fn racing_nicks_exactly_one_wins() {
    let mut s = srv();
    let a = id("6.6.6.6:6");
    let b = id("7.7.7.7:7");
    let r1 = s.handle_line("/NICK carol", &a);
    let r2 = s.handle_line("/NICK carol", &b);
    assert_eq!(r1.0, None);
    assert_eq!(r2.0, Some(Errors::ErrNickNameInUse));
    let carols: Vec<_> = s.users.records.iter().filter(|r| r.nickname == "carol").collect();
    assert_eq!(carols.len(), 1);
    assert_eq!(carols[0].identity, a);
}

#[test]
fn unknown_command_is_replied_not_fatal() {
    let mut s = srv();
    let a = id("1.1.1.1:1");
    let r = s.handle_line("/BOGUS x y", &a);
    assert_eq!(r.0, Some(Errors::UnknownCommand));
    assert_eq!(r.1, "Unknown command\r\n");
    assert_eq!(s.users.records.len(), 0);
    let r2 = s.handle_line("no marker", &a);
    assert_eq!(r2.0, Some(Errors::UnknownCommand));
    assert_eq!(r2.1, "Unknown command\r\n");
}

#[test]
fn commands_are_case_sensitive_uppercase() {
    let mut s = srv();
    let r = s.handle_line("/nick bob", &id("1.1.1.1:1"));
    assert_eq!(r.0, Some(Errors::UnknownCommand));
}
