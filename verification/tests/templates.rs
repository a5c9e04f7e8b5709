use craptent::template::{placeholder_chars, replace_all, substitute};
use craptent::{AppState, AppStateFieldUpdate, Record, RecordCursor};

fn record(fields: &[&str]) -> Record {
    Record::new(fields.iter().map(|s| s.to_string()).collect())
}

#[test]
fn substitution_in_index_order() {
    let rec = record(&["Alice", "Bob"]);
    let out = substitute(&"hi {0} and {1}".to_string(), Some(&rec));
    assert_eq!(out, "hi Alice and Bob".to_string());
}

#[test]
fn placeholder_without_field_stays_literal() {
    let rec = record(&["x"]);
    let out = substitute(&"hi {0} and {1}".to_string(), Some(&rec));
    assert_eq!(out, "hi x and {1}".to_string());
}

#[test]
fn no_record_returns_raw_unchanged() {
    let out = substitute(&"hi {0}".to_string(), None);
    assert_eq!(out, "hi {0}".to_string());
}

#[test]
fn empty_raw_stays_empty() {
    let rec = record(&["a", "b"]);
    let out = substitute(&String::new(), Some(&rec));
    assert_eq!(out, String::new());
}

#[test]
fn substitution_replaces_every_occurrence() {
    let rec = record(&["z"]);
    let out = substitute(&"{0}-{0}-{0}".to_string(), Some(&rec));
    assert_eq!(out, "z-z-z".to_string());
}

#[test]
fn earlier_replacement_can_feed_a_later_index() {
    // Index 0 introduces the text "{1}", which the pass for index 1 then
    // rewrites: the engine does not guard against this.
    let rec = record(&["{1}", "Z"]);
    let out = substitute(&"{0}".to_string(), Some(&rec));
    assert_eq!(out, "Z".to_string());
}

#[test]
fn two_digit_placeholders_work() {
    let fields: Vec<String> = (0..12).map(|i| format!("f{}", i)).collect();
    let rec = Record::new(fields);
    let out = substitute(&"{11}/{0}".to_string(), Some(&rec));
    assert_eq!(out, "f11/f0".to_string());
}

#[test]
fn placeholder_chars_spell_the_index() {
    assert_eq!(placeholder_chars(0), vec!['{', '0', '}']);
    assert_eq!(placeholder_chars(107), vec!['{', '1', '0', '7', '}']);
}

#[test]
fn replace_all_is_left_to_right_without_overlap() {
    let out = replace_all(&"aaa".to_string(), &vec!['a', 'a'], &"b".to_string());
    assert_eq!(out, "ba".to_string());
}

#[test]
fn replace_all_missing_pattern_changes_nothing() {
    let out = replace_all(&"hello".to_string(), &vec!['x'], &"y".to_string());
    assert_eq!(out, "hello".to_string());
}

#[test]
fn state_starts_consistent_and_empty() {
    let s = AppState::default();
    assert_eq!(s.chat_gpt_system_raw, String::new());
    assert_eq!(s.chat_gpt_system_edited, String::new());
    assert!(s.current_record.is_none());
}

#[test]
fn update_field_without_record_copies_raw() {
    let mut s = AppState::default();
    s.update_field(AppStateFieldUpdate::ChatGPTSystem("hi {0}".to_string()));
    assert_eq!(s.chat_gpt_system_raw, "hi {0}".to_string());
    assert_eq!(s.chat_gpt_system_edited, "hi {0}".to_string());
}

#[test]
fn recompute_invariant_across_a_session() {
    let mut s = AppState::default();
    s.update_field(AppStateFieldUpdate::ChatGPTSystem("sys {0}".to_string()));
    s.update_field(AppStateFieldUpdate::ChatGPTPrompt("ask {1}".to_string()));
    s.update_field(AppStateFieldUpdate::DallE("draw {0}".to_string()));
    s.update_field(AppStateFieldUpdate::ElevenLabs("say {0} {1}".to_string()));
    s.update_current_record(record(&["World", "Twice"]));

    assert_eq!(s.chat_gpt_system_edited, "sys World".to_string());
    assert_eq!(s.chat_gpt_prompt_edited, "ask Twice".to_string());
    assert_eq!(s.dall_e_edited, "draw World".to_string());
    assert_eq!(s.eleven_labs_edited, "say World Twice".to_string());

    // Every edited string equals substitute(raw, current record), exactly.
    let rec = s.current_record.as_ref().unwrap();
    assert_eq!(s.chat_gpt_system_edited, substitute(&s.chat_gpt_system_raw, Some(rec)));
    assert_eq!(s.chat_gpt_prompt_edited, substitute(&s.chat_gpt_prompt_raw, Some(rec)));
    assert_eq!(s.dall_e_edited, substitute(&s.dall_e_raw, Some(rec)));
    assert_eq!(s.eleven_labs_edited, substitute(&s.eleven_labs_raw, Some(rec)));

    // A later raw edit recomputes against the record already set.
    s.update_field(AppStateFieldUpdate::ChatGPTSystem("again {1}".to_string()));
    assert_eq!(s.chat_gpt_system_edited, "again Twice".to_string());
    assert_eq!(s.dall_e_edited, "draw World".to_string());

    // A later record advance recomputes every pair.
    s.update_current_record(record(&["New"]));
    assert_eq!(s.chat_gpt_system_edited, "again {1}".to_string());
    assert_eq!(s.dall_e_edited, "draw New".to_string());
}

#[test]
fn record_get_is_positional() {
    let rec = record(&["a", "b"]);
    assert_eq!(rec.get(0), Some(&"a".to_string()));
    assert_eq!(rec.get(1), Some(&"b".to_string()));
    assert_eq!(rec.get(2), None);
    assert_eq!(rec.len(), 2);
}

#[test]
fn cursor_advances_strictly_forward() {
    let mut cursor = RecordCursor::new(vec![record(&["r1"]), record(&["r2"])]);
    let first = cursor.next();
    assert_eq!(first, Some(record(&["r1"])));
    let second = cursor.next();
    assert_eq!(second, Some(record(&["r2"])));
    assert_eq!(cursor.next(), None);
    assert_eq!(cursor.next(), None);
}
