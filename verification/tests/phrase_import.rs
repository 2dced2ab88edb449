use snipdesk::phraseexpress::pexdb::{
    columns_query, decode_cell, find_folder, folder_query, parse_pexdb_tables, phrase_from_row, phrase_query, pick_col,
    scan_report, PexCell, PexTable, PhraseTable,
};
use snipdesk::phraseexpress::xml::{parse_pex_xml, snippets_from_events, XmlAttribute, XmlEvent};
use snipdesk::phraseexpress::{
    is_database, is_likely_encrypted, pex_format, summarize, tags_of_shortcut, PexFormat, ENCRYPTED_PEXDB_ERROR,
};
use snipdesk::rtf::{cleanup_body, rtf_to_plain, strip_html};

#[test]
fn is_likely_encrypted_recognizes_xml_starts() {
    assert!(!is_likely_encrypted(b"<?xml version=\"1.0\""));
    assert!(!is_likely_encrypted(b"<phrasebook>"));
    assert!(!is_likely_encrypted(b"\r\n<root>"));
    assert!(!is_likely_encrypted(b"  <padded>"));
}

#[test]
fn is_likely_encrypted_skips_known_boms() {
    assert!(!is_likely_encrypted(&[0xEF, 0xBB, 0xBF, b'<', b'?']));
    assert!(!is_likely_encrypted(&[0xFF, 0xFE, b'<', 0, b'?', 0]));
    assert!(!is_likely_encrypted(&[0xFE, 0xFF, 0, b'<', 0, b'?']));
}

#[test]
fn is_likely_encrypted_flags_high_entropy_payload() {
    let mut buf = [0u8; 16];
    for (i, b) in buf.iter_mut().enumerate() {
        *b = ((i as u8).wrapping_mul(173)).wrapping_add(0xA5);
    }
    assert!(is_likely_encrypted(&buf));
}

#[test]
fn is_likely_encrypted_handles_empty() {
    assert!(!is_likely_encrypted(&[]));
}

#[test]
fn is_likely_encrypted_passes_plain_ascii() {
    assert!(!is_likely_encrypted(b"INSERT INTO phrases VALUES"));
    assert!(!is_likely_encrypted(b"SQLite format 3\0"));
}

#[test]
fn database_header_wins_over_everything_else() {
    assert!(is_database(b"SQLite format 3\0"));
    assert!(!is_database(b"SQLite format 2\0"));
    assert!(!is_database(b"SQLite"));
    assert!(matches!(pex_format(b"SQLite format 3\0", "xml"), PexFormat::Database));
    assert!(matches!(pex_format(b"<?xml version=\"1.0\"?>", "pex"), PexFormat::Xml));
    assert!(ENCRYPTED_PEXDB_ERROR.contains("encrypted"));
}

#[test]
fn xml_export_reads_phrases_in_their_folders() {
    let xml = "<?xml version=\"1.0\"?><root><folder name=\"Billing\">\
               <phrase description=\"Refund &amp; return\" autotext=\"rfd\">\
               <content>Hello &lt;you&gt;</content></phrase></folder></root>";
    let l = parse_pex_xml(xml).unwrap();
    assert_eq!(l.len(), 1);
    assert_eq!(l[0].title, "Refund & return");
    assert_eq!(l[0].body, "Hello <you>");
    assert_eq!(l[0].tags, vec!["shortcut:rfd"]);
    assert_eq!(l[0].folder_path.as_deref(), Some("Billing"));
}

#[test]
fn xml_export_takes_cdata_and_skips_empty_phrases() {
    let xml = "<root><phrase name=\"A\"><text><![CDATA[a <b> c]]></text></phrase>\
               <phrase name=\"B\"><text>   </text></phrase></root>";
    let l = parse_pex_xml(xml).unwrap();
    assert_eq!(l.len(), 1);
    assert_eq!(l[0].title, "A");
    assert!(l[0].folder_path.is_none());
}

#[test]
fn xml_fault_is_reported_with_its_place() {
    let e = parse_pex_xml("<root><phrase></wrong></root>").unwrap_err();
    assert!(e.starts_with("xml parse error at pos "), "{e}");
}

#[test]
fn events_make_snippets_without_a_reader() {
    let start = |n: &str, a: Vec<(&str, &str)>| XmlEvent::Start {
        name: n.as_bytes().to_vec(),
        attributes: a
            .into_iter()
            .map(|(k, v)| Some(XmlAttribute { key: k.as_bytes().to_vec(), value: Some(v.to_string()) }))
            .collect(),
    };
    let end = |n: &str| XmlEvent::End { name: n.as_bytes().to_vec() };
    let events = vec![
        start("Folder", vec![("name", "One")]),
        start("Folder", vec![("name", "Two")]),
        start("Phrase", vec![("title", "T")]),
        start("Body", vec![]),
        XmlEvent::Text(Some("some text".to_string())),
        end("Body"),
        end("Phrase"),
        end("Folder"),
        end("Folder"),
        XmlEvent::Eof,
    ];
    let l = snippets_from_events(&events).unwrap();
    assert_eq!(l.len(), 1);
    assert_eq!(l[0].title, "T");
    assert_eq!(l[0].body, "some text");
    assert_eq!(l[0].folder_path.as_deref(), Some("One/Two"));
    let faulty = vec![XmlEvent::Fault { at: 7, message: "bad".to_string() }];
    assert_eq!(snippets_from_events(&faulty).unwrap_err(), "xml parse error at pos 7: bad");
}

#[test]
fn columns_are_picked_by_name_and_quoted() {
    let cols: Vec<String> = vec!["ID".into(), "Phrase_Text".into(), "Title".into(), "ParentID".into()];
    assert_eq!(pick_col(&cols, &["nothing", "title"]).as_deref(), Some("Title"));
    assert!(pick_col(&cols, &["nope"]).is_none());
    assert_eq!(columns_query("phrases"), "PRAGMA table_info(\"phrases\")");
    let t = PexTable { name: "phrases".into(), columns: cols };
    let q = phrase_query(&t).unwrap();
    assert!(q.sql.contains("\"Phrase_Text\""));
    assert!(q.title.is_some() && q.parent.is_some() && q.shortcut.is_none());
    let none = PexTable { name: "other".into(), columns: vec!["x".into()] };
    assert!(phrase_query(&none).is_none());
    assert!(folder_query(&none).is_none());
}

#[test]
fn rows_of_a_database_become_snippets() {
    let t = PexTable {
        name: "phrases".into(),
        columns: vec!["phrase_text".into(), "title".into(), "autotext".into(), "parentid".into()],
    };
    let q = phrase_query(&t).unwrap();
    let text = |s: &str| PexCell::Bytes(s.as_bytes().to_vec());
    let folders = vec![(PexCell::Integer(7), text("Billing"))];
    let row = vec![text("Hello there"), text("  Greeting "), text("hi"), PexCell::Integer(7)];
    let s = phrase_from_row(&row, &q, &folders).unwrap();
    assert_eq!(s.title, "Greeting");
    assert_eq!(s.body, "Hello there");
    assert_eq!(s.tags, vec!["shortcut:hi"]);
    assert_eq!(s.folder_path.as_deref(), Some("Billing"));
    assert_eq!(find_folder(&folders, Some(7)).as_deref(), Some("Billing"));
    assert!(find_folder(&folders, Some(8)).is_none());
    assert!(find_folder(&folders, None).is_none());
    let blank = vec![text("   "), PexCell::Null, PexCell::Null, PexCell::Null];
    let tables = vec![PhraseTable { query: q, rows: vec![row, blank] }];
    let all = parse_pexdb_tables(&tables, &folders);
    assert_eq!(all.len(), 1);
    assert!(all.iter().all(|s| !s.body.trim().is_empty()));
    assert_eq!(
        scan_report(1, 1, 2),
        "pexdb: scanned 1 phrase-like tables, decoded 1/2 rows into snippets"
    );
}

#[test]
fn cells_decode_by_their_encoding() {
    assert!(decode_cell(&PexCell::Null).is_none());
    assert_eq!(decode_cell(&PexCell::Integer(-5)).as_deref(), Some("-5"));
    assert_eq!(decode_cell(&PexCell::Bytes(b"plain".to_vec())).as_deref(), Some("plain"));
    assert_eq!(decode_cell(&PexCell::Bytes(vec![0xFF, 0xFE, b'h', 0, b'i', 0])).as_deref(), Some("hi"));
    assert_eq!(decode_cell(&PexCell::Bytes(vec![b'c', b'a', b'f', 0xE9])).as_deref(), Some("caf\u{e9}"));
}

#[test]
fn summaries_and_shortcuts() {
    assert_eq!(summarize("First line\nSecond"), "First line");
    assert_eq!(tags_of_shortcut(&Some("abc".to_string())), vec!["shortcut:abc"]);
    let none: Vec<String> = vec![];
    assert_eq!(tags_of_shortcut(&None), none);
    assert!(summarize(&"\u{e9}".repeat(100)).len() <= 70);
}

#[test]
fn bodies_lose_their_markup() {
    assert_eq!(rtf_to_plain("{\\rtf1\\ansi Hello\\par World}"), "Hello\nWorld");
    assert_eq!(strip_html("<p>a &amp; b</p>").trim(), "a & b");
    assert_eq!(cleanup_body("just text"), "just text");
}
