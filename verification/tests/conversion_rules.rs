use std::collections::BTreeMap;

use qingjian_core::punctuation::{is_valid_map_key, validate_map, Punctuation, MAX_MAP_TEXT_CHARS};

fn s(t: &str) -> Option<String> {
    Some(t.to_owned())
}

#[test]
fn builtin_table_is_complete() {
    let table = [
        (',', "，"),
        ('.', "。"),
        ('?', "？"),
        ('!', "！"),
        (':', "："),
        (';', "；"),
        ('(', "（"),
        (')', "）"),
        ('[', "【"),
        (']', "】"),
        ('{', "「"),
        ('}', "」"),
        ('<', "《"),
        ('>', "》"),
        ('/', "、"),
        ('\\', "、"),
        ('^', "……"),
        ('_', "——"),
        ('$', "￥"),
        ('~', "～"),
    ];
    for (c, t) in table {
        let mut p = Punctuation::default();
        assert_eq!(p.convert(c), s(t), "{c}");
    }
    for c in ['-', '=', '+', '*', '#', '@', '%', '&', '|', '`', 'a', '1', ' ', '。'] {
        let mut p = Punctuation::default();
        assert_eq!(p.convert(c), None, "{c}");
    }
}

#[test]
fn quotes_alternate_independently() {
    let mut p = Punctuation::default();
    assert_eq!(p.convert('"'), s("“"));
    assert_eq!(p.convert('\''), s("‘"));
    assert_eq!(p.convert('\''), s("’"));
    assert_eq!(p.convert('"'), s("”"));
    assert_eq!(p.convert('"'), s("“"));
}

#[test]
fn reset_transient_closes_quotes_and_forgets_digit() {
    let mut p = Punctuation::default();
    assert_eq!(p.convert('"'), s("“"));
    assert_eq!(p.convert('\''), s("‘"));
    p.note_passthrough('7');
    p.reset_transient();
    assert_eq!(p.convert('.'), s("。"));
    assert_eq!(p.convert('"'), s("“"));
    assert_eq!(p.convert('\''), s("‘"));
}

#[test]
fn any_conversion_clears_digit_memory() {
    let mut p = Punctuation::default();
    p.note_passthrough('9');
    assert_eq!(p.convert(','), s("，"));
    assert_eq!(p.convert('.'), s("。"));
    p.note_passthrough('9');
    assert_eq!(p.convert('a'), None);
    assert_eq!(p.convert('.'), s("。"));
}

#[test]
fn passthrough_and_commit_update_digit_memory() {
    let mut p = Punctuation::default();
    p.note_passthrough('a');
    assert_eq!(p.convert('.'), s("。"));
    p.note_committed("12");
    p.note_committed("");
    assert_eq!(p.convert('.'), s("。"));
    p.note_committed("版本２");
    assert_eq!(p.convert('.'), s("。"));
    p.note_committed("v0");
    assert_eq!(p.convert('.'), None);
}

#[test]
fn custom_entry_for_period_ignores_digit_rule_and_keeps_memory() {
    let mut p = Punctuation::default();
    p.set_custom_map(&BTreeMap::from([('.', "．".to_owned())]));
    p.note_passthrough('3');
    assert_eq!(p.convert('.'), s("．"));
    p.set_custom_map(&BTreeMap::new());
    assert_eq!(p.convert('.'), None);
}

#[test]
fn empty_custom_text_disables_key_without_touching_quotes() {
    let mut p = Punctuation::default();
    p.set_custom_map(&BTreeMap::from([('"', String::new())]));
    assert_eq!(p.convert('"'), None);
    assert_eq!(p.convert('"'), None);
    p.set_custom_map(&BTreeMap::new());
    assert_eq!(p.convert('"'), s("“"));
}

#[test]
fn swap_transient_twice_restores_both() {
    let mut a = Punctuation::default();
    let mut b = Punctuation::default();
    a.set_custom_map(&BTreeMap::from([('/', "／".to_owned())]));
    assert_eq!(a.convert('"'), s("“"));
    b.note_passthrough('1');
    a.swap_transient(&mut b);
    a.swap_transient(&mut b);
    assert_eq!(a.convert('"'), s("”"));
    assert_eq!(b.convert('.'), None);
    assert_eq!(b.convert('/'), s("、"));
    assert_eq!(a.convert('/'), s("／"));
}

#[test]
fn swap_transient_moves_quote_state() {
    let mut a = Punctuation::default();
    let mut b = Punctuation::default();
    assert_eq!(a.convert('\''), s("‘"));
    a.swap_transient(&mut b);
    assert_eq!(a.convert('\''), s("‘"));
    assert_eq!(b.convert('\''), s("’"));
}

#[test]
fn map_keys_must_be_ascii_punctuation() {
    for c in ['!', '/', ':', '@', '[', '`', '{', '~', '"', '\''] {
        assert!(is_valid_map_key(c), "{c}");
    }
    for c in ['a', 'Z', '0', '9', ' ', '\n', '。', '，', '\u{7f}'] {
        assert!(!is_valid_map_key(c), "{c}");
    }
}

#[test]
fn map_validation_messages() {
    assert_eq!(
        validate_map(&BTreeMap::from([('a', "×".to_owned())])),
        Err("原输入符号 a 必须是 ASCII 标点（字母数字不行）".to_owned())
    );
    assert_eq!(
        validate_map(&BTreeMap::from([('~', "太".repeat(17))])),
        Err("~ 的转换文本最多 16 个字符".to_owned())
    );
    assert_eq!(
        validate_map(&BTreeMap::from([('~', "太".repeat(MAX_MAP_TEXT_CHARS))])),
        Ok(())
    );
    assert_eq!(validate_map(&BTreeMap::new()), Ok(()));
}

#[test]
fn map_validation_reports_least_bad_key() {
    let map = BTreeMap::from([
        ('z', "ok".to_owned()),
        ('/', "太".repeat(20)),
        ('!', "！".to_owned()),
    ]);
    assert_eq!(validate_map(&map), Err("/ 的转换文本最多 16 个字符".to_owned()));
    let map = BTreeMap::from([('b', String::new()), ('a', String::new())]);
    assert_eq!(
        validate_map(&map),
        Err("原输入符号 a 必须是 ASCII 标点（字母数字不行）".to_owned())
    );
}
