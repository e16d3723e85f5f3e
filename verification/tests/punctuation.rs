use std::collections::BTreeMap;

use qingjian_core::punctuation::{validate_map, Punctuation, MAX_MAP_TEXT_CHARS};

#[test]
fn converts_common_marks_and_toggles_quotes() {
    let mut p = Punctuation::default();
    assert_eq!(p.convert(','), Some("，".to_owned()));
    assert_eq!(p.convert('"'), Some("“".to_owned()));
    assert_eq!(p.convert('"'), Some("”".to_owned()));
    assert_eq!(p.convert('\''), Some("‘".to_owned()));
    assert_eq!(p.convert('\''), Some("’".to_owned()));
    assert_eq!(p.convert('a'), None);
    assert_eq!(p.convert('-'), None);
}

#[test]
fn slash_and_braces_have_defaults() {
    let mut p = Punctuation::default();
    assert_eq!(p.convert('/'), Some("、".to_owned()));
    assert_eq!(p.convert('\\'), Some("、".to_owned()));
    assert_eq!(p.convert('{'), Some("「".to_owned()));
    assert_eq!(p.convert('}'), Some("」".to_owned()));
    assert_eq!(p.convert('['), Some("【".to_owned()));
}

#[test]
fn period_after_digit_stays_ascii() {
    let mut p = Punctuation::default();
    p.note_passthrough('3');
    assert_eq!(p.convert('.'), None);
    assert_eq!(p.convert('.'), Some("。".to_owned()));
    p.note_committed("第1");
    assert_eq!(p.convert('.'), None);
    p.note_committed("开发");
    assert_eq!(p.convert('.'), Some("。".to_owned()));
}

#[test]
fn map_validation_rejects_bad_keys_and_long_values() {
    assert!(
        validate_map(&BTreeMap::from([
            ('/', "、".to_owned()),
            ('^', String::new()),
        ]))
        .is_ok()
    );
    assert!(validate_map(&BTreeMap::from([('a', "×".to_owned())])).is_err());
    assert!(validate_map(&BTreeMap::from([('。', "！".to_owned())])).is_err());
    assert!(
        validate_map(&BTreeMap::from([(
            '~',
            "太".repeat(MAX_MAP_TEXT_CHARS + 1)
        )]))
        .is_err()
    );
}

#[test]
fn custom_map_overrides_defaults_and_empty_disables() {
    let mut p = Punctuation::default();
    p.set_custom_map(&BTreeMap::from([
        ('/', "／".to_owned()),
        ('^', String::new()),
        ('x', "×".to_owned()),
    ]));
    assert_eq!(p.convert('/'), Some("／".to_owned()));
    assert_eq!(p.convert('^'), None);
    p.set_custom_map(&BTreeMap::from([('"', "„".to_owned())]));
    assert_eq!(p.convert('"'), Some("„".to_owned()));
    assert_eq!(p.convert('"'), Some("„".to_owned()));
    assert_eq!(p.convert(','), Some("，".to_owned()));
}

#[test]
fn custom_map_survives_transient_resets() {
    let mut p = Punctuation::default();
    p.set_custom_map(&BTreeMap::from([('/', "／".to_owned())]));
    p.reset_transient();
    assert_eq!(p.convert('/'), Some("／".to_owned()));
    let mut other = Punctuation::default();
    other.set_custom_map(&BTreeMap::from([('/', "／".to_owned())]));
    p.note_passthrough('5');
    p.swap_transient(&mut other);
    assert_eq!(p.convert('.'), Some("。".to_owned()));
    assert_eq!(other.convert('.'), None);
}
