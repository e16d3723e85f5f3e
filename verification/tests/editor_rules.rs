use std::collections::BTreeMap;

use qingjian_core::editor::{add_row, draft_map, remove_row, rows_for_map};
use qingjian_core::punctuation::validate_map;

fn row(k: &str, v: &str) -> (String, String) {
    (k.to_owned(), v.to_owned())
}

#[test]
fn editor_opens_with_blank_row_for_empty_map() {
    assert_eq!(rows_for_map(&BTreeMap::new()), vec![row("", "")]);
}

#[test]
fn editor_opens_with_rows_in_key_order() {
    let map = BTreeMap::from([('~', "～".to_owned()), ('/', "／".to_owned()), ('^', String::new())]);
    assert_eq!(
        rows_for_map(&map),
        vec![row("/", "／"), row("^", ""), row("~", "～")]
    );
}

#[test]
fn add_row_respects_limit() {
    let mut rows = vec![row("/", "／")];
    assert!(add_row(&mut rows, 2));
    assert_eq!(rows, vec![row("/", "／"), row("", "")]);
    assert!(!add_row(&mut rows, 2));
    assert_eq!(rows.len(), 2);
}

#[test]
fn remove_row_ignores_missing_index() {
    let mut rows = vec![row("/", "a"), row("~", "b"), row("^", "c")];
    assert!(remove_row(&mut rows, 1));
    assert_eq!(rows, vec![row("/", "a"), row("^", "c")]);
    assert!(!remove_row(&mut rows, 2));
    assert_eq!(rows.len(), 2);
}

#[test]
fn draft_trims_and_skips_blank_rows() {
    let rows = vec![
        row("  ", " "),
        row(" / ", " ／ "),
        row("\u{3000}^\t", ""),
        row("", ""),
    ];
    let map = draft_map(&rows).unwrap();
    assert_eq!(map, BTreeMap::from([('/', "／".to_owned()), ('^', String::new())]));
    assert_eq!(validate_map(&map), Ok(()));
}

#[test]
fn draft_reports_text_without_symbol() {
    let rows = vec![row("/", "a"), row(" ", "b")];
    assert_eq!(draft_map(&rows), Err("第 2 行填了转换文本但没有原符号".to_owned()));
}

#[test]
fn draft_reports_bad_symbol() {
    assert_eq!(
        draft_map(&vec![row(" ab ", "x")]),
        Err("第 1 行的原符号「ab」须是单个英文标点".to_owned())
    );
    assert_eq!(
        draft_map(&vec![row("a", "x")]),
        Err("第 1 行的原符号「a」须是单个英文标点".to_owned())
    );
    assert_eq!(
        draft_map(&vec![row("，", "x")]),
        Err("第 1 行的原符号「，」须是单个英文标点".to_owned())
    );
}

#[test]
fn draft_reports_long_text_with_row_number() {
    let mut rows: Vec<(String, String)> = Vec::new();
    for _ in 0..11 {
        rows.push(row("", ""));
    }
    rows.push(row("~", &"太".repeat(17)));
    assert_eq!(draft_map(&rows), Err("第 12 行的转换文本最多 16 个字符".to_owned()));
}

#[test]
fn draft_reports_duplicate_symbol() {
    let rows = vec![row("/", "a"), row(" / ", "b")];
    assert_eq!(
        draft_map(&rows),
        Err("原符号 / 不止一行，请合并或删掉多余的行".to_owned())
    );
}

#[test]
fn draft_reports_first_bad_row() {
    let rows = vec![row("a", "x"), row("", "y")];
    assert_eq!(
        draft_map(&rows),
        Err("第 1 行的原符号「a」须是单个英文标点".to_owned())
    );
}

#[test]
fn draft_of_opened_rows_gives_map_back() {
    let map = BTreeMap::from([('/', "／".to_owned()), ('^', String::new())]);
    assert_eq!(draft_map(&rows_for_map(&map)), Ok(map));
}
