use todo_notes::input::{parse_id, trim_line, Command};
use todo_notes::note::{Note, Timestamp};
use todo_notes::render::{decimal_text, note_text, render_note};
use todo_notes::session::{create_item, create_note_now, list_items, mark_done, remove_item, OpError};
use todo_notes::store::{NoteStore, StoreError};

fn at(secs: i64) -> Timestamp {
    Timestamp { secs, nanos: 0 }
}

fn note(id: i32, title: &str, content: &str, secs: i64, done: bool) -> Note {
    Note { id, title: title.to_string(), content: content.to_string(), created: at(secs), done }
}

fn same(a: &Note, b: &Note) -> bool {
    a.id == b.id && a.title == b.title && a.content == b.content && a.created == b.created && a.done == b.done
}

fn same_all(a: &[Note], b: &[Note]) -> bool {
    a.len() == b.len() && a.iter().zip(b.iter()).all(|(x, y)| same(x, y))
}

#[test]
fn create_hands_out_increasing_ids() {
    let mut s = NoteStore::new();
    let mut last = 0;
    for k in 0..20 {
        let id = s.create(format!("t{}", k), String::new(), at(k)).unwrap();
        assert!(id > last);
        last = id;
    }
    assert_eq!(last, 20);
    assert_eq!(s.last_id(), 20);
}

#[test]
fn ids_are_not_reused_after_removal() {
    let mut s = NoteStore::new();
    s.create("a".to_string(), "x".to_string(), at(1)).unwrap();
    let b = s.create("b".to_string(), "y".to_string(), at(2)).unwrap();
    s.remove(b).unwrap();
    let c = s.create("c".to_string(), "z".to_string(), at(3)).unwrap();
    assert_eq!(c, 3);
}

#[test]
fn list_after_creates_matches_each_create() {
    let mut s = NoteStore::new();
    for k in 0..5 {
        s.create(format!("title {}", k), format!("body {}", k), at(100 + k)).unwrap();
    }
    let notes = s.list();
    assert_eq!(notes.len(), 5);
    for (k, n) in notes.iter().enumerate() {
        assert!(same(n, &note(k as i32 + 1, &format!("title {}", k), &format!("body {}", k), 100 + k as i64, false)));
    }
}

#[test]
fn empty_title_and_content_are_accepted() {
    let mut s = NoteStore::new();
    assert_eq!(s.create(String::new(), String::new(), at(0)), Ok(1));
    assert!(same(&s.list()[0], &note(1, "", "", 0, false)));
}

#[test]
fn toggle_twice_restores() {
    let mut s = NoteStore::new();
    s.create("a".to_string(), "b".to_string(), at(5)).unwrap();
    let before = s.list();
    assert_eq!(s.toggle(1), Ok(true));
    assert!(s.list()[0].done);
    assert_eq!(s.toggle(1), Ok(false));
    assert!(same_all(&s.list(), &before));
}

#[test]
fn toggle_missing_id_changes_nothing() {
    let mut s = NoteStore::new();
    s.create("a".to_string(), "b".to_string(), at(5)).unwrap();
    let before = s.list();
    assert_eq!(s.toggle(7), Err(StoreError::NotFound));
    assert!(same_all(&s.list(), &before));
    assert_eq!(s.last_id(), 1);
}

#[test]
fn remove_takes_exactly_that_note() {
    let mut s = NoteStore::new();
    for k in 0..4 {
        s.create(format!("n{}", k), "c".to_string(), at(k)).unwrap();
    }
    assert_eq!(s.remove(2), Ok(()));
    let after = s.list();
    assert!(same_all(&after, &[note(1, "n0", "c", 0, false), note(3, "n2", "c", 2, false), note(4, "n3", "c", 3, false)]));
}

#[test]
fn remove_missing_id_changes_nothing() {
    let mut s = NoteStore::new();
    s.create("a".to_string(), "b".to_string(), at(5)).unwrap();
    let before = s.list();
    assert_eq!(s.remove(2), Err(StoreError::NotFound));
    assert_eq!(s.remove(-1), Err(StoreError::NotFound));
    assert!(same_all(&s.list(), &before));
}

#[test]
fn milk_and_bob_scenario() {
    let mut s = NoteStore::new();
    assert_eq!(create_item(&mut s, "Buy milk", "2 liters", at(10)), Ok(1));
    assert_eq!(create_item(&mut s, "Call Bob", "re: project", at(20)), Ok(2));
    assert!(same_all(&s.list(), &[note(1, "Buy milk", "2 liters", 10, false), note(2, "Call Bob", "re: project", 20, false)]));
    assert_eq!(mark_done(&mut s, "1"), Ok((1, true)));
    assert!(s.list()[0].done);
    assert_eq!(remove_item(&mut s, "2"), Ok(2));
    assert!(same_all(&s.list(), &[note(1, "Buy milk", "2 liters", 10, true)]));
}

#[test]
fn toggle_on_empty_storage_is_not_found() {
    let mut s = NoteStore::new();
    let r = mark_done(&mut s, "99");
    assert_eq!(r, Err(OpError::Store(StoreError::NotFound)));
    assert_eq!(r.unwrap_err().message(), "Chosen to do note does not exist.");
    assert!(s.list().is_empty());
}

#[test]
fn non_numeric_id_is_invalid_input() {
    let mut s = NoteStore::new();
    s.create("a".to_string(), "b".to_string(), at(5)).unwrap();
    let before = s.list();
    let r = mark_done(&mut s, "abc");
    assert_eq!(r, Err(OpError::InvalidIndex));
    assert_eq!(r.unwrap_err().message(), "Invalid input for index.");
    assert_eq!(remove_item(&mut s, "1x"), Err(OpError::InvalidIndex));
    assert_eq!(remove_item(&mut s, ""), Err(OpError::InvalidIndex));
    assert!(same_all(&s.list(), &before));
}

#[test]
fn reopen_keeps_rows() {
    let mut s = NoteStore::new();
    s.create("a".to_string(), "b".to_string(), at(1)).unwrap();
    s.create("c".to_string(), "d".to_string(), at(2)).unwrap();
    s.toggle(2).unwrap();
    s.remove(1).unwrap();
    let again = NoteStore::open(s.list(), s.last_id()).unwrap();
    assert!(same_all(&again.list(), &s.list()));
    assert_eq!(again.last_id(), 2);
}

#[test]
fn open_follows_largest_row_id() {
    let rows = vec![note(3, "a", "b", 1, false), note(9, "c", "d", 2, true)];
    let mut s = NoteStore::open(rows, 4).unwrap();
    assert_eq!(s.last_id(), 9);
    assert_eq!(s.create("e".to_string(), "f".to_string(), at(3)), Ok(10));
}

#[test]
fn open_refuses_unordered_rows() {
    let rows = vec![note(3, "a", "b", 1, false), note(3, "c", "d", 2, true)];
    assert!(matches!(NoteStore::open(rows, 5), Err(StoreError::Corrupt)));
    assert!(matches!(NoteStore::open(Vec::new(), -1), Err(StoreError::Corrupt)));
}

#[test]
fn ids_run_out_at_the_largest_i32() {
    let mut s = NoteStore::open(Vec::new(), i32::MAX).unwrap();
    assert_eq!(s.create("a".to_string(), "b".to_string(), at(0)), Err(StoreError::IdsExhausted));
    assert!(s.list().is_empty());
    let r = create_item(&mut s, "a", "b", at(0));
    assert_eq!(r, Err(OpError::Store(StoreError::IdsExhausted)));
    assert_eq!(r.unwrap_err().message(), "No note id is left to hand out.");
}

#[test]
fn create_item_trims_trailing_whitespace() {
    let mut s = NoteStore::new();
    create_item(&mut s, "Title \t\n", "  body\r\n", at(0)).unwrap();
    assert!(same(&s.list()[0], &note(1, "Title", "  body", 0, false)));
}

#[test]
fn trim_line_drops_unicode_whitespace() {
    assert_eq!(trim_line("abc \u{3000}\u{a0}\n"), "abc");
    assert_eq!(trim_line(" \n"), "");
    assert_eq!(trim_line(""), "");
    assert_eq!(trim_line(" a b"), " a b");
}

#[test]
fn parse_id_reads_i32() {
    assert_eq!(parse_id("42"), Some(42));
    assert_eq!(parse_id("+7"), Some(7));
    assert_eq!(parse_id("-13"), Some(-13));
    assert_eq!(parse_id("2147483647"), Some(i32::MAX));
    assert_eq!(parse_id("-2147483648"), Some(i32::MIN));
    assert_eq!(parse_id("2147483648"), None);
    assert_eq!(parse_id("-2147483649"), None);
    assert_eq!(parse_id("9223372036854775807"), None);
    assert_eq!(parse_id("123456789012345678901234"), None);
    assert_eq!(parse_id("-"), None);
    assert_eq!(parse_id("+"), None);
    assert_eq!(parse_id(""), None);
    assert_eq!(parse_id(" 1"), None);
    assert_eq!(parse_id("1.0"), None);
}

#[test]
fn command_parse_recognizes_menu_letters() {
    assert_eq!(Command::parse("c\n"), Command::Create);
    assert_eq!(Command::parse("l"), Command::List);
    assert_eq!(Command::parse("d\r\n"), Command::Toggle);
    assert_eq!(Command::parse("r"), Command::Remove);
    assert_eq!(Command::parse("q\n"), Command::Quit);
    assert_eq!(Command::parse("x"), Command::Unknown);
    assert_eq!(Command::parse("cc"), Command::Unknown);
    assert_eq!(Command::parse(" c"), Command::Unknown);
    assert_eq!(Command::parse(""), Command::Unknown);
}

#[test]
fn decimal_text_renders_integers() {
    assert_eq!(decimal_text(0), "0");
    assert_eq!(decimal_text(305), "305");
    assert_eq!(decimal_text(-42), "-42");
    assert_eq!(decimal_text(i64::MAX), "9223372036854775807");
    assert_eq!(decimal_text(i64::MIN), "-9223372036854775808");
}

#[test]
fn render_note_frames_fields() {
    let n = note(7, "Buy milk", "2 liters", 0, true);
    assert_eq!(
        render_note(&n, "then"),
        "---\n[7]\nTitle: Buy milk\nContent: 2 liters\nTime created: then\nDone: true\n---\n"
    );
}

#[test]
fn note_text_shows_time_in_utc() {
    let n = Note {
        id: 1,
        title: "a".to_string(),
        content: "b".to_string(),
        created: Timestamp { secs: 947638923, nanos: 4_000_000 },
        done: false,
    };
    assert_eq!(
        note_text(&n),
        "---\n[1]\nTitle: a\nContent: b\nTime created: 2000-01-12 01:02:03.004 UTC\nDone: false\n---\n"
    );
}

#[test]
fn list_items_renders_each_note() {
    let mut s = NoteStore::new();
    create_item(&mut s, "a", "b", at(0)).unwrap();
    create_item(&mut s, "c", "d", at(86400)).unwrap();
    let blocks = list_items(&s);
    assert_eq!(blocks.len(), 2);
    assert_eq!(blocks[0], "---\n[1]\nTitle: a\nContent: b\nTime created: 1970-01-01 00:00:00 UTC\nDone: false\n---\n");
    assert_eq!(blocks[1], "---\n[2]\nTitle: c\nContent: d\nTime created: 1970-01-02 00:00:00 UTC\nDone: false\n---\n");
}

#[test]
fn create_note_now_stamps_current_time() {
    let mut s = NoteStore::new();
    let (id, created) = create_note_now(&mut s, "Buy milk\n", "2 liters\n").unwrap();
    assert_eq!(id, 1);
    assert!(created.secs > 1_600_000_000);
    let listed = s.list();
    assert!(same(&listed[0], &Note { id: 1, title: "Buy milk".to_string(), content: "2 liters".to_string(), created, done: false }));
}

#[test]
fn id_beyond_i32_is_invalid_input() {
    let mut s = NoteStore::new();
    s.create("a".to_string(), "b".to_string(), at(5)).unwrap();
    assert_eq!(mark_done(&mut s, "2147483648"), Err(OpError::InvalidIndex));
    assert_eq!(remove_item(&mut s, "4294967297\n"), Err(OpError::InvalidIndex));
    assert_eq!(s.list().len(), 1);
    assert!(!s.list()[0].done);
}

#[test]
fn ids_continue_after_reopen() {
    let mut s = NoteStore::new();
    s.create("a".to_string(), "b".to_string(), at(1)).unwrap();
    s.create("c".to_string(), "d".to_string(), at(2)).unwrap();
    s.remove(2).unwrap();
    let mut again = NoteStore::open(s.list(), s.last_id()).unwrap();
    assert_eq!(again.create("e".to_string(), "f".to_string(), at(3)), Ok(3));
}
