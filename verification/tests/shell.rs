use snipdesk::auth::verify_password_constant_time;
use snipdesk::cli::{
    change, check_deleted, chosen_password, confirm_delete, delete, guard_last_admin, info, list, lookup_email,
    no_user_text, reset_password, seen_text, set_disabled, set_role, DeleteStep, IdRow, RawCounts, UserRow, UsersCmd,
    Write,
};
use snipdesk::console::{dispatch_users, handle, on_input, Action, ConsoleCmd, Input, Reply};

fn user(role: &str, disabled: i64) -> UserRow {
    UserRow {
        id: "id-1".into(),
        email: "ada@x.test".into(),
        display_name: "Ada".into(),
        role: role.into(),
        is_disabled: disabled,
        last_seen_at: Some(1_700_000_000),
        snippet_count: 3,
    }
}

#[test]
fn the_last_admin_stays() {
    let u = user("admin", 0);
    let refusal = "refusing to demote ada@x.test - they're the only active admin. Promote another user first.";
    assert_eq!(guard_last_admin(&u, 1, "demote").unwrap_err(), refusal);
    assert_eq!(set_role(&u, "ada@x.test", "member", 1).unwrap_err(), refusal);
    assert!(guard_last_admin(&u, 2, "demote").is_ok());
    assert!(guard_last_admin(&user("admin", 1), 1, "delete").is_ok());
    assert!(guard_last_admin(&user("member", 0), 1, "delete").is_ok());
    assert!(set_disabled(&u, "e", true, 1).is_err());
    assert!(delete(&u, "e", true, 1).is_err());
}

#[test]
fn roles_change_with_a_message() {
    let s = set_role(&user("member", 0), "Ada@x.test", "admin", 1).unwrap();
    assert_eq!(s.message, "Promoted Ada@x.test \u{2192} admin.");
    assert!(matches!(s.write, Some(Write::SetRole { id, role }) if id == "id-1" && role == "admin"));
    let same = set_role(&user("admin", 0), "e", "admin", 1).unwrap();
    assert_eq!(same.message, "e is already admin; no change.");
    assert!(same.write.is_none());
    let down = set_role(&user("admin", 0), "e", "member", 2).unwrap();
    assert_eq!(down.message, "Demoted e \u{2192} member.");
}

#[test]
fn status_changes_with_a_message() {
    let s = set_disabled(&user("member", 0), "e", true, 1).unwrap();
    assert_eq!(s.message, "Disabled e.");
    assert!(matches!(s.write, Some(Write::SetDisabled { disabled: true, .. })));
    assert_eq!(set_disabled(&user("member", 1), "e", false, 1).unwrap().message, "Enabled e.");
    assert_eq!(set_disabled(&user("member", 1), "e", true, 1).unwrap().message, "e is already disabled; no change.");
    assert_eq!(set_disabled(&user("member", 0), "e", false, 1).unwrap().message, "e is already active; no change.");
}

#[test]
fn commands_reach_their_change() {
    let u = user("member", 0);
    let promote = UsersCmd::Promote { email: "e".into() };
    assert!(matches!(change(&promote, &u, 1), Some(Ok(s)) if s.message == "Promoted e \u{2192} admin."));
    let demote = UsersCmd::Demote { email: "e".into() };
    assert!(matches!(change(&demote, &user("admin", 0), 1), Some(Err(_))));
    assert!(change(&UsersCmd::List, &u, 1).is_none());
}

#[test]
fn deletion_asks_first() {
    let u = user("member", 0);
    match delete(&u, "e", false, 1).unwrap() {
        DeleteStep::Ask(p) => assert_eq!(
            p,
            "Delete e permanently? This will remove 3 snippet(s). Type 'yes' to confirm: "
        ),
        DeleteStep::Go(_) => panic!("not asked"),
    }
    assert!(matches!(delete(&u, "e", true, 1).unwrap(), DeleteStep::Go(s) if s.message == "Deleted e."));
    assert_eq!(confirm_delete(&u, "e", " yes\n").message, "Deleted e.");
    let no = confirm_delete(&u, "e", "y\n");
    assert_eq!(no.message, "Cancelled.");
    assert!(no.write.is_none());
    assert!(check_deleted(1).is_ok());
    assert_eq!(check_deleted(0).unwrap_err(), "delete affected 0 rows - did someone else delete them first?");
}

#[test]
fn passwords_are_typed_alike_and_long_enough() {
    assert_eq!(chosen_password("longenough1\r\n", None).unwrap(), "longenough1");
    assert_eq!(chosen_password("longenough1\n", Some("longenough1")).unwrap(), "longenough1");
    assert_eq!(
        chosen_password("longenough1", Some("longenough2")).unwrap_err(),
        "passwords don't match - aborting."
    );
    assert_eq!(chosen_password("short\n", None).unwrap_err(), "password must be at least 10 characters.");
}

#[test]
fn a_reset_password_is_accepted() {
    let s = reset_password(&user("member", 0), "e", "longenough1\n", None).unwrap();
    assert!(s.message.starts_with("Reset password for e."));
    match s.write {
        Some(Write::SetPassword { id, hash }) => {
            assert_eq!(id, "id-1");
            assert!(verify_password_constant_time("longenough1", Some(&hash)));
            assert!(!verify_password_constant_time("longenough1\n", Some(&hash)));
        }
        _ => panic!("no password"),
    }
}

#[test]
fn accounts_are_listed_in_columns() {
    let mut b = user("member", 1);
    b.email = "b@x.test".into();
    b.last_seen_at = None;
    let l = list(&vec![user("admin", 0), b]);
    assert_eq!(l.len(), 3);
    assert_eq!(l[0], "EMAIL       NAME  ROLE    STATUS    SNIPPETS  LAST SEEN");
    assert_eq!(l[1], "ada@x.test  Ada   admin   active           3  2023-11-14 22:13 UTC");
    assert_eq!(l[2], "b@x.test    Ada   member  disabled         3  never");
    assert_eq!(list(&vec![]), vec!["(no users yet - the first signup auto-promotes to admin)"]);
}

#[test]
fn info_shows_everything() {
    let counts = RawCounts { live: 2, tombstoned: 1, total: 3, fuzzy: 1 };
    let ids = vec![IdRow { id: "s1".into(), version: 4, is_deleted: 1 }];
    let l = info(&user("admin", 1), counts, &ids);
    assert_eq!(l[0], "user");
    assert!(l.contains(&"  is_disabled:  yes".to_string()));
    assert!(l.contains(&"  tombstoned: 1".to_string()));
    assert!(l.contains(&"    v  4  s1 [tombstone]".to_string()));
    assert!(l.last().unwrap().starts_with("WARNING: 1 snippet(s)"));
    let none = RawCounts { live: 0, tombstoned: 0, total: 0, fuzzy: 0 };
    assert_eq!(info(&user("admin", 0), none, &vec![]).len(), 12);
}

#[test]
fn times_that_cannot_be_written() {
    assert_eq!(seen_text(None), "never");
    assert_eq!(seen_text(Some(0)), "1970-01-01 00:00 UTC");
    assert_eq!(seen_text(Some(i64::MAX)), "?");
}

#[test]
fn emails_are_looked_up_in_lower_case() {
    assert_eq!(lookup_email("  ADA@X.test "), "ada@x.test");
    assert_eq!(no_user_text("x"), "no user with email 'x'");
}

#[test]
fn console_reads_lines() {
    assert!(matches!(on_input(&Input::Line("  \t".into())), Action::Wait));
    match on_input(&Input::Line("  users   delete a@b --yes ".into())) {
        Action::Parse(w) => assert_eq!(w, vec!["users", "delete", "a@b", "--yes"]),
        _ => panic!("not parsed"),
    }
    assert!(matches!(on_input(&Input::Closed), Action::Shutdown(m) if m == "stdin closed; shutting down."));
    assert!(matches!(on_input(&Input::Failed("x".into())), Action::Leave(m) if m == "console stdin read error: x"));
}

#[test]
fn console_keeps_the_terminal_to_itself() {
    let reset = UsersCmd::ResetPassword { email: "e".into(), from_stdin: true };
    assert!(matches!(dispatch_users(reset), Reply::Say(l) if l.len() == 3));
    let ask = UsersCmd::Delete { email: "e".into(), yes: false };
    assert!(matches!(dispatch_users(ask), Reply::Say(l) if l.len() == 2));
    let go = UsersCmd::Delete { email: "e".into(), yes: true };
    assert!(matches!(dispatch_users(go), Reply::Run(UsersCmd::Delete { yes: true, .. })));
    assert!(matches!(handle(ConsoleCmd::Users { cmd: UsersCmd::List }), Reply::Run(UsersCmd::List)));
    assert!(matches!(handle(ConsoleCmd::Help), Reply::Say(l) if l[0] == "Commands:"));
    for c in [ConsoleCmd::Stop, ConsoleCmd::Quit, ConsoleCmd::Exit] {
        assert!(matches!(handle(c), Reply::Stop(m) if m == "Stopping..."));
    }
}
