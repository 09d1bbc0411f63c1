//! Tests for the page indexer: recognising shift headings in extracted
//! page text and filing pages under their numeric shift number.

use shiftbook::collection::ShiftData;
use shiftbook::indexing::index_page_text;
use shiftbook::kvmap::AssocMap;

fn empty_table() -> AssocMap<String, ShiftData> {
    AssocMap::new()
}

#[test]
fn headings_are_recognised_and_split() {
    let mut index = empty_table();
    index_page_text(&mut index, "blah Dienst G 1234 more Dienst GM 5678 end", 3, 0);
    let one = index.get(&"1234".to_string()).unwrap();
    assert_eq!(one.pages, vec![3]);
    assert_eq!(one.shift_prefix, "G");
    assert_eq!(one.file_id, 0);
    let two = index.get(&"5678".to_string()).unwrap();
    assert_eq!(two.shift_prefix, "GM");
}

#[test]
fn repeated_heading_collects_pages() {
    let mut index = empty_table();
    index_page_text(&mut index, "Dienst G 1234", 1, 0);
    index_page_text(&mut index, "Dienst G 1234", 2, 0);
    assert_eq!(index.get(&"1234".to_string()).unwrap().pages, vec![1, 2]);
}

#[test]
fn heading_needs_free_standing_shape() {
    // No whitespace after the literal, too many digits, or a word
    // character after the digits: no heading.
    let mut index = empty_table();
    index_page_text(&mut index, "DienstG 1234", 1, 0);
    assert_eq!(index.len(), 0);
    index_page_text(&mut index, "Dienst G 12345", 1, 0);
    assert_eq!(index.len(), 0);
    index_page_text(&mut index, "Dienst G 1234x", 1, 0);
    assert_eq!(index.len(), 0);
    index_page_text(&mut index, "Dienst lower 1234", 1, 0);
    assert_eq!(index.len(), 0);
    index_page_text(&mut index, "Dienst ABC 1234", 1, 0);
    assert_eq!(index.len(), 0);
}

#[test]
fn heading_at_line_end_counts() {
    let mut index = empty_table();
    index_page_text(&mut index, "Dienst\nG 1234", 9, 2);
    let e = index.get(&"1234".to_string()).unwrap();
    assert_eq!(e.pages, vec![9]);
    assert_eq!(e.file_id, 2);
}

#[test]
fn association_map_insert_replaces_in_place() {
    let mut m: AssocMap<String, ShiftData> = AssocMap::new();
    m.insert("a".to_string(), ShiftData { pages: vec![1], file_id: 0, shift_prefix: "G".to_string() });
    m.insert("b".to_string(), ShiftData { pages: vec![2], file_id: 0, shift_prefix: "G".to_string() });
    m.insert("a".to_string(), ShiftData { pages: vec![3], file_id: 1, shift_prefix: "X".to_string() });
    assert_eq!(m.len(), 2);
    assert_eq!(m.get(&"a".to_string()).unwrap().pages, vec![3]);
    assert_eq!(m.get(&"b".to_string()).unwrap().pages, vec![2]);
    assert!(m.get(&"c".to_string()).is_none());
    assert!(m.contains_key(&"a".to_string()));
}
