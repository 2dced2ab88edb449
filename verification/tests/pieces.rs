use snipdesk::audit::{
    build_where, count_query, escape_like, filled_text, hidden_actions_filter_sql, hidden_actions_sql_list,
    lookup_actor_email, AuditFilter, Bind, VERB_CONDITION,
};
use snipdesk::config::{
    default_stats_currency, default_stats_wpm, default_tombstone_retention_days, missing_key_message, MasterKey,
};
use snipdesk::decimal::{count_text, i64_text, int_text, nat_text, thousands_text};
use snipdesk::encoding::{decode_bytes, decode_utf16, decode_windows_1252, windows_1252_char};
use snipdesk::error::ApiError;
use snipdesk::find::{contains_char, replace};
use snipdesk::text::{at_least_bytes, char_bytes, is_control, is_whitespace, same_text};
use snipdesk::trim::{is_blank, join, split_words, trim, trim_end_of, trim_of, trim_start, trim_start_of};

fn every_char() -> impl Iterator<Item = char> {
    (0..=0x10ffff_u32).filter_map(char::from_u32)
}

#[test]
fn white_space_is_what_unicode_says() {
    for c in every_char() {
        assert_eq!(is_whitespace(c), c.is_whitespace(), "{:x}", c as u32);
    }
}

#[test]
fn control_codes_are_what_unicode_says() {
    for c in every_char() {
        assert_eq!(is_control(c), c.is_control(), "{:x}", c as u32);
    }
}

#[test]
fn characters_have_their_utf8_length() {
    for c in every_char() {
        assert_eq!(char_bytes(c), c.len_utf8());
    }
}

#[test]
fn byte_lengths_are_not_character_counts() {
    assert!(at_least_bytes("äöüß", 8));
    assert!(!at_least_bytes("äöüß", 9));
    assert!(at_least_bytes("", 0));
}

#[test]
fn trimming_matches_std() {
    for s in ["", " ", "  a b\t\n", "\u{3000}x\u{a0}", "x", "//a/b//"] {
        assert_eq!(trim(s), s.trim());
        assert_eq!(trim_start(s), s.trim_start());
        assert_eq!(trim_of(s, '/'), s.trim_matches('/'));
        assert_eq!(trim_end_of(s, '/'), s.trim_end_matches('/'));
        assert_eq!(trim_start_of(s, '/'), s.trim_start_matches('/'));
        assert_eq!(is_blank(s), s.trim().is_empty());
        assert_eq!(split_words(s), s.split_whitespace().collect::<Vec<_>>());
    }
}

#[test]
fn joining_puts_the_separator_between() {
    let parts = vec!["a".to_string(), String::new(), "b".to_string()];
    assert_eq!(join(&parts, ", "), "a, , b");
    assert_eq!(join(&Vec::new(), ", "), "");
}

#[test]
fn replacing_goes_from_left_to_right() {
    assert_eq!(replace("aaaa", "aa", "b"), "bb");
    assert_eq!(replace("aaa", "aa", "b"), "ba");
    assert_eq!(replace("abc", "x", "y"), "abc");
    assert!(contains_char("abc", 'b'));
    assert!(!contains_char("abc", 'd'));
    assert!(same_text("é", "é"));
    assert!(!same_text("é", "e\u{301}"));
}

#[test]
fn numbers_are_written_in_decimal() {
    assert_eq!(nat_text(0), "0");
    assert_eq!(nat_text(u128::MAX), u128::MAX.to_string());
    assert_eq!(int_text(-10), "-10");
    assert_eq!(count_text(1000), "1000");
    assert_eq!(i64_text(i64::MIN), i64::MIN.to_string());
    assert_eq!(thousands_text(-1_234_567), "-1,234,567");
    assert_eq!(thousands_text(999), "999");
}

#[test]
fn windows_1252_has_its_own_upper_controls() {
    assert_eq!(windows_1252_char(0x80), '€');
    assert_eq!(windows_1252_char(0x93), '“');
    assert_eq!(windows_1252_char(0xe9), 'é');
    assert_eq!(decode_windows_1252(&vec![b'x', 0x80, b'y'], 1), "€y");
}

#[test]
fn utf16_pairs_are_joined() {
    let units: Vec<u16> = "a😀".encode_utf16().collect();
    assert_eq!(decode_utf16(&units), Some("a😀".to_string()));
    assert_eq!(decode_utf16(&vec![0xd83d]), None);
    assert_eq!(decode_bytes(&"héllo".as_bytes().to_vec()), Some("héllo".to_string()));
}

#[test]
fn likes_are_escaped() {
    assert_eq!(escape_like("50%_a\\b"), "50\\%\\_a\\\\b");
    assert_eq!(escape_like("plain"), "plain");
}

#[test]
fn hidden_actions_are_left_out_of_queries() {
    assert_eq!(hidden_actions_sql_list(), "'library.folder.reorder'");
    assert_eq!(hidden_actions_filter_sql("WHERE"), " WHERE action NOT IN ('library.folder.reorder')");
    let (clause, binds) = build_where(&AuditFilter::default());
    assert_eq!(clause, " WHERE action NOT IN ('library.folder.reorder')");
    assert!(binds.is_empty());
}

#[test]
fn a_verb_is_the_last_segment_of_an_action() {
    let conn = rusqlite::Connection::open_in_memory().unwrap();
    conn.execute("CREATE TABLE log (action TEXT NOT NULL)", []).unwrap();
    for action in ["library.create", "library.folder.create", "user.recreate", "create", "library.update"] {
        conn.execute("INSERT INTO log VALUES (?1)", [action]).unwrap();
    }
    let sql = format!("SELECT COUNT(*) FROM log WHERE {VERB_CONDITION}");
    let count = |verb: &str| -> i64 { conn.query_row(&sql, [verb], |r| r.get(0)).unwrap() };
    assert_eq!((count("create"), count("Update"), count("recreate")), (2, 1, 1));
    for verb in ["%", "cr_ate", "%create", "folder.create", ".create", "library"] {
        assert_eq!(count(verb), 0);
    }
}

#[test]
fn a_filter_binds_its_values_in_order() {
    let f = AuditFilter {
        q: Some(" 5% ".to_string()),
        action_verb: Some("create".to_string()),
        actor_id: Some("  ".to_string()),
        since_ts: Some(7),
    };
    let (sql, binds) = count_query(&f);
    assert!(sql.starts_with("SELECT COUNT(*) FROM audit_log WHERE action NOT IN"));
    assert!(sql.ends_with(&format!(" AND {VERB_CONDITION} AND at >= ?")));
    assert_eq!(binds.len(), 6);
    for b in &binds[..4] {
        assert!(matches!(b, Bind::Text(t) if t == "%5\\%%"));
    }
    assert!(matches!(&binds[4], Bind::Text(t) if t == "create"));
    assert!(matches!(&binds[5], Bind::Int(7)));
    assert_eq!(filled_text(&f.actor_id), None);
}

#[test]
fn an_unknown_actor_has_a_stand_in() {
    assert_eq!(lookup_actor_email(None), "<unknown>");
    assert_eq!(lookup_actor_email(Some("a@b.c".to_string())), "a@b.c");
}

#[test]
fn errors_have_a_line_and_hide_their_cause() {
    let e = ApiError::internal_from("db", "locked");
    assert_eq!(e.to_line(), "internal: db: locked");
    assert_eq!(e.status, 500);
    assert_eq!(e.public_message(), "internal server error");
    let e = ApiError::conflict("version_conflict", "stale");
    assert_eq!(e.to_line(), "version_conflict: stale");
    assert_eq!(e.public_message(), "stale");
}

#[test]
fn defaults_of_the_configuration() {
    assert_eq!(default_tombstone_retention_days(), 90);
    assert_eq!(default_stats_wpm(), 80);
    assert_eq!(default_stats_currency(), "AUD");
    assert!(missing_key_message().ends_with("snipdesk-server gen-key"));
}

#[test]
fn a_decoded_key_has_32_bytes() {
    assert!(MasterKey::from_decoded(Some(vec![7; 32])).is_ok());
    assert_eq!(
        MasterKey::from_decoded(Some(vec![7; 31])).err().unwrap(),
        "master key must decode to 32 bytes; got 31"
    );
    assert!(MasterKey::from_decoded(None).is_err());
}
