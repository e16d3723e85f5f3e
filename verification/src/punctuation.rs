//! Full-width punctuation in Chinese mode.
//!
//! While composing, `,` `.` `-` `=` page through candidates; the shell decides
//! that. This module only answers what an ASCII character becomes in Chinese
//! mode. On top of the built-in table the shell may lay a user map
//! (see [`Punctuation::set_custom_map`]); an entry of that map wins over the
//! built-in table, and an empty text in it means "do not convert this key".

use std::collections::BTreeMap;
use vstd::prelude::*;
use crate::chars::{
    decimal, is_ascii_digit, is_ascii_punctuation, push_char, push_decimal, spec_is_ascii_digit,
    spec_is_ascii_punctuation,
};

verus! {

/// The longest text (in characters) that the user map may give a key; saving
/// and loading check the same limit.
pub const MAX_MAP_TEXT_CHARS: usize = 16;

/// The texts of a map of strings, by their character sequences.
pub open spec fn text_view(m: Map<char, String>) -> Map<char, Seq<char>> {
    m.map_values(|s: String| s@)
}

// ---------------------------------------------------------------------------
// Access to `BTreeMap<char, String>`: vstd specifies `BTreeMap` only for key
// types whose `Ord` it models, which `char` is not, so the calls used here
// carry their own contracts.
// ---------------------------------------------------------------------------

/// Calls `BTreeMap::get`. Claimed: `Some` of the value stored under `key`
/// when the map has that key, `None` when it has not.
#[verifier::external_body]
pub(crate) fn map_get<'a>(m: &'a BTreeMap<char, String>, key: char) -> (r: Option<&'a String>)
    ensures
        match r {
            Some(v) => m@.contains_key(key) && m@[key] == *v,
            None => !m@.contains_key(key),
        },
{
    m.get(&key)
}

/// Calls `BTreeMap::iter` and collects the entries. Claimed: as many entries
/// as the map has keys, each a key of the map with the value stored under it,
/// every key present, and the keys strictly increasing (`char` order, which is
/// code-point order).
#[verifier::external_body]
pub(crate) fn map_entries<'a>(m: &'a BTreeMap<char, String>) -> (r: Vec<(char, &'a String)>)
    ensures
        r@.len() == m@.dom().len(),
        forall|i: int|
            0 <= i < r@.len() ==> m@.contains_key(#[trigger] r@[i].0) && m@[r@[i].0] == *r@[i].1,
        forall|k: char| #[trigger]
            m@.contains_key(k) ==> exists|i: int| 0 <= i < r@.len() && r@[i].0 == k,
        forall|i: int, j: int| 0 <= i < j < r@.len() ==> r@[i].0 < r@[j].0,
{
    m.iter().map(|(k, v)| (*k, v)).collect()
}

/// Calls `BTreeMap::insert`. Claimed: afterwards the map is the old one with
/// `key` set to `value`; the result is the value that was under `key`, or
/// `None` when the key was absent.
#[verifier::external_body]
pub(crate) fn map_insert(m: &mut BTreeMap<char, String>, key: char, value: String) -> (r: Option<
    String,
>)
    ensures
        final(m)@ == old(m)@.insert(key, value),
        match r {
            Some(v) => old(m)@.contains_key(key) && old(m)@[key] == v,
            None => !old(m)@.contains_key(key),
        },
{
    m.insert(key, value)
}

/// A key of the user map must be ASCII punctuation. Letters and digits never
/// reach punctuation conversion (they compose or pick candidates); paging keys
/// still page while composing and are mapped only outside composition.
pub open spec fn spec_is_valid_map_key(c: char) -> bool {
    spec_is_ascii_punctuation(c)
}

/// Whether `c` may be a key of the user map.
pub fn is_valid_map_key(c: char) -> (r: bool)
    ensures
        r == spec_is_valid_map_key(c),
{
    is_ascii_punctuation(c)
}

/// An entry of the user map that the shared check accepts: a valid key and a
/// text of at most [`MAX_MAP_TEXT_CHARS`] characters (the empty text included).
pub open spec fn valid_entry(key: char, text: Seq<char>) -> bool {
    spec_is_valid_map_key(key) && text.len() <= MAX_MAP_TEXT_CHARS
}

/// Every entry of `m` is valid.
pub open spec fn map_is_valid(m: Map<char, Seq<char>>) -> bool {
    forall|k: char| #[trigger] m.contains_key(k) ==> valid_entry(k, m[k])
}

/// The message for a key that is not ASCII punctuation.
pub open spec fn invalid_key_text(key: char) -> Seq<char> {
    "原输入符号 "@ + seq![key] + " 必须是 ASCII 标点（字母数字不行）"@
}

/// The message for a text longer than [`MAX_MAP_TEXT_CHARS`].
pub open spec fn text_too_long_text(key: char) -> Seq<char> {
    seq![key] + " 的转换文本最多 "@ + decimal(MAX_MAP_TEXT_CHARS as nat) + " 个字符"@
}

/// The message for an invalid entry: the key is checked before the text.
pub open spec fn entry_error_text(key: char, text: Seq<char>) -> Seq<char> {
    if !spec_is_valid_map_key(key) {
        invalid_key_text(key)
    } else {
        text_too_long_text(key)
    }
}

/// `key` is the least key of `m` whose entry is invalid.
pub open spec fn first_invalid_key(m: Map<char, Seq<char>>, key: char) -> bool {
    &&& m.contains_key(key)
    &&& !valid_entry(key, m[key])
    &&& forall|j: char| #[trigger] m.contains_key(j) && j < key ==> valid_entry(j, m[j])
}

fn invalid_key_message(key: char) -> (r: String)
    ensures
        r@ == invalid_key_text(key),
{
    let mut r = String::from_str("原输入符号 ");
    push_char(&mut r, key);
    r.append(" 必须是 ASCII 标点（字母数字不行）");
    r
}

fn text_too_long_message(key: char) -> (r: String)
    ensures
        r@ == text_too_long_text(key),
{
    let mut r = String::new();
    push_char(&mut r, key);
    r.append(" 的转换文本最多 ");
    push_decimal(&mut r, MAX_MAP_TEXT_CHARS);
    r.append(" 个字符");
    assert(r@ =~= text_too_long_text(key));
    r
}

/// The check shared by saving and loading the user map: every key is a single
/// ASCII punctuation character and every text has at most
/// [`MAX_MAP_TEXT_CHARS`] characters; the empty text is valid (it means "do not
/// convert this key"). Entries are checked in key order and the first invalid
/// one is reported.
pub fn validate_map(map: &BTreeMap<char, String>) -> (r: Result<(), String>)
    ensures
        r is Ok <==> map_is_valid(text_view(map@)),
        r matches Err(msg) ==> exists|k: char|
            first_invalid_key(text_view(map@), k) && msg@ == entry_error_text(
                k,
                text_view(map@)[k],
            ),
{
    let ghost m = text_view(map@);
    let entries = map_entries(map);
    let n = entries.len();
    let mut i: usize = 0;
    while i < n
        invariant
            n == entries@.len() == map@.dom().len(),
            i <= n,
            m == text_view(map@),
            forall|j: int|
                0 <= j < entries@.len() ==> map@.contains_key(#[trigger] entries@[j].0)
                    && map@[entries@[j].0] == *entries@[j].1,
            forall|k: char| #[trigger]
                map@.contains_key(k) ==> exists|j: int| 0 <= j < entries@.len() && entries@[j].0 == k,
            forall|a: int, b: int| 0 <= a < b < entries@.len() ==> entries@[a].0 < entries@[b].0,
            forall|j: int| 0 <= j < i ==> valid_entry(#[trigger] entries@[j].0, entries@[j].1@),
        decreases n - i,
    {
        let key = entries[i].0;
        let len = entries[i].1.as_str().unicode_len();
        if !is_valid_map_key(key) || len > MAX_MAP_TEXT_CHARS {
            proof {
                assert(m.contains_key(key) && m[key] == entries@[i as int].1@);
                assert forall|j: char| #[trigger] m.contains_key(j) && j < key implies valid_entry(
                    j,
                    m[j],
                ) by {
                    assert(map@.contains_key(j));
                    let a = choose|a: int| 0 <= a < entries@.len() && entries@[a].0 == j;
                    assert(entries@[a].0 == j);
                    if a >= i {
                        if a > i {
                            assert(entries@[i as int].0 < entries@[a].0);
                        }
                    }
                }
                assert(first_invalid_key(m, key));
            }
            if !is_valid_map_key(key) {
                return Err(invalid_key_message(key));
            } else {
                return Err(text_too_long_message(key));
            }
        }
        i = i + 1;
    }
    proof {
        assert forall|k: char| #[trigger] m.contains_key(k) implies valid_entry(k, m[k]) by {
            assert(map@.contains_key(k));
            let a = choose|a: int| 0 <= a < entries@.len() && entries@[a].0 == k;
            assert(valid_entry(entries@[a].0, entries@[a].1@));
        }
    }
    Ok(())
}


/// The text of an optional string.
pub open spec fn opt_text(r: Option<String>) -> Option<Seq<char>> {
    match r {
        Some(t) => Some(t@),
        None => None,
    }
}

/// The state of a [`Punctuation`]: the transient state that follows the
/// typing, and the user map, which is configuration.
pub struct PunctuationState {
    /// The next `"` opens a quotation.
    pub double_quote_open: bool,
    /// The next `'` opens a quotation.
    pub single_quote_open: bool,
    /// The last character that reached the application was an ASCII digit.
    pub after_digit: bool,
    /// The user map: key to the text it commits; the empty text disables the key.
    pub custom: Map<char, Seq<char>>,
}

/// The built-in full-width text of `c`, for every character but the quotes.
pub open spec fn builtin_mark(c: char) -> Option<Seq<char>> {
    if c == ',' {
        Some("，"@)
    } else if c == '.' {
        Some("。"@)
    } else if c == '?' {
        Some("？"@)
    } else if c == '!' {
        Some("！"@)
    } else if c == ':' {
        Some("："@)
    } else if c == ';' {
        Some("；"@)
    } else if c == '(' {
        Some("（"@)
    } else if c == ')' {
        Some("）"@)
    } else if c == '[' {
        Some("【"@)
    } else if c == ']' {
        Some("】"@)
    } else if c == '{' {
        Some("「"@)
    } else if c == '}' {
        Some("」"@)
    } else if c == '<' {
        Some("《"@)
    } else if c == '>' {
        Some("》"@)
    } else if c == '/' {
        Some("、"@)
    } else if c == '\\' {
        Some("、"@)
    } else if c == '^' {
        Some("……"@)
    } else if c == '_' {
        Some("——"@)
    } else if c == '$' {
        Some("￥"@)
    } else if c == '~' {
        Some("～"@)
    } else {
        None
    }
}

/// The double quotation mark that the next `"` gives when `open` says it opens.
pub open spec fn double_quote_mark(open: bool) -> Seq<char> {
    if open {
        "“"@
    } else {
        "”"@
    }
}

/// The single quotation mark that the next `'` gives when `open` says it opens.
pub open spec fn single_quote_mark(open: bool) -> Seq<char> {
    if open {
        "‘"@
    } else {
        "’"@
    }
}

/// What converting `c` in state `s` gives: the next state and the text to commit
/// (`None`: hand the character to the application unchanged).
///
/// An entry of the user map wins and leaves the state alone: its text, or
/// `None` for the empty text. Otherwise the digit memory is cleared; `.` right
/// after a digit stays ASCII (`3.14`); `"` and `'` alternate between opening and
/// closing marks; every other character goes by the built-in table.
pub open spec fn spec_convert(s: PunctuationState, c: char) -> (PunctuationState, Option<
    Seq<char>,
>) {
    if s.custom.contains_key(c) {
        (s, if s.custom[c].len() == 0 { None } else { Some(s.custom[c]) })
    } else {
        let cleared = PunctuationState { after_digit: false, ..s };
        if c == '"' {
            let open = !s.double_quote_open;
            (PunctuationState { double_quote_open: open, ..cleared }, Some(double_quote_mark(open)))
        } else if c == '\'' {
            let open = !s.single_quote_open;
            (PunctuationState { single_quote_open: open, ..cleared }, Some(single_quote_mark(open)))
        } else if c == '.' && s.after_digit {
            (cleared, None)
        } else {
            (cleared, builtin_mark(c))
        }
    }
}

/// The state after the user map is replaced by `m`.
pub open spec fn spec_set_custom_map(s: PunctuationState, m: Map<char, Seq<char>>) -> PunctuationState {
    PunctuationState { custom: m, ..s }
}

/// The state after the transient state is reset; the user map stays.
pub open spec fn spec_reset_transient(s: PunctuationState) -> PunctuationState {
    PunctuationState { double_quote_open: false, single_quote_open: false, after_digit: false, ..s }
}

/// `a` with the transient state of `b`; the user map of `a` stays.
pub open spec fn with_transient_of(a: PunctuationState, b: PunctuationState) -> PunctuationState {
    PunctuationState {
        double_quote_open: b.double_quote_open,
        single_quote_open: b.single_quote_open,
        after_digit: b.after_digit,
        custom: a.custom,
    }
}

/// The state after `c` reached the application unconverted.
pub open spec fn spec_note_passthrough(s: PunctuationState, c: char) -> PunctuationState {
    PunctuationState { after_digit: spec_is_ascii_digit(c), ..s }
}

/// The state after `text` was committed: the digit memory follows its last character.
pub open spec fn spec_note_committed(s: PunctuationState, text: Seq<char>) -> PunctuationState {
    PunctuationState { after_digit: text.len() > 0 && spec_is_ascii_digit(text.last()), ..s }
}

/// Pairing of quotation marks and the user map laid over the built-in table.
#[derive(Debug, Clone, PartialEq, Eq)]
pub struct Punctuation {
    /// The next `"` opens a quotation.
    double_quote_open: bool,
    /// The next `'` opens a quotation.
    single_quote_open: bool,
    /// The last character that reached the application was an ASCII digit:
    /// the `.` of `3.14` stays ASCII.
    after_digit: bool,
    /// The user map, merged over the built-in table; the empty text disables a key.
    custom: BTreeMap<char, String>,
}

impl View for Punctuation {
    type V = PunctuationState;

    closed spec fn view(&self) -> PunctuationState {
        PunctuationState {
            double_quote_open: self.double_quote_open,
            single_quote_open: self.single_quote_open,
            after_digit: self.after_digit,
            custom: text_view(self.custom@),
        }
    }
}

impl Default for Punctuation {
    fn default() -> (r: Self)
        ensures
            !r@.double_quote_open,
            !r@.single_quote_open,
            !r@.after_digit,
            r@.custom == Map::<char, Seq<char>>::empty(),
    {
        Punctuation {
            double_quote_open: false,
            single_quote_open: false,
            after_digit: false,
            custom: BTreeMap::new(),
        }
    }
}

impl Punctuation {
    /// The full-width text of the ASCII character `c`; `None` when it is not
    /// converted, and the shell hands the character to the application.
    pub fn convert(&mut self, c: char) -> (r: Option<String>)
        ensures
            (final(self)@, opt_text(r)) == spec_convert(old(self)@, c),
    {
        if let Some(text) = map_get(&self.custom, c) {
            return if text.as_str().is_empty() {
                None
            } else {
                Some(text.clone())
            };
        }
        let after_digit = self.after_digit;
        self.after_digit = false;
        let converted: &str = if c == ',' {
            "，"
        } else if c == '.' {
            if after_digit {
                return None;
            }
            "。"
        } else if c == '?' {
            "？"
        } else if c == '!' {
            "！"
        } else if c == ':' {
            "："
        } else if c == ';' {
            "；"
        } else if c == '(' {
            "（"
        } else if c == ')' {
            "）"
        } else if c == '[' {
            "【"
        } else if c == ']' {
            "】"
        } else if c == '{' {
            "「"
        } else if c == '}' {
            "」"
        } else if c == '<' {
            "《"
        } else if c == '>' {
            "》"
        } else if c == '/' {
            "、"
        } else if c == '\\' {
            "、"
        } else if c == '^' {
            "……"
        } else if c == '_' {
            "——"
        } else if c == '$' {
            "￥"
        } else if c == '~' {
            "～"
        } else if c == '"' {
            self.double_quote_open = !self.double_quote_open;
            if self.double_quote_open {
                "“"
            } else {
                "”"
            }
        } else if c == '\'' {
            self.single_quote_open = !self.single_quote_open;
            if self.single_quote_open {
                "‘"
            } else {
                "’"
            }
        } else {
            return None;
        };
        Some(String::from_str(converted))
    }

    /// Replaces the user map by `map`. Validity is [`validate_map`]'s concern;
    /// entries with an empty text are kept (they disable their key).
    pub fn set_custom_map(&mut self, map: &BTreeMap<char, String>)
        ensures
            final(self)@ == spec_set_custom_map(old(self)@, text_view(map@)),
    {
        self.custom = map.clone();
    }

    /// Resets only the transient state (quote pairing, digit memory) and keeps
    /// the user map; used when input is discarded at a privacy boundary and
    /// when a suspended session is switched.
    pub fn reset_transient(&mut self)
        ensures
            final(self)@ == spec_reset_transient(old(self)@),
    {
        self.double_quote_open = false;
        self.single_quote_open = false;
        self.after_digit = false;
    }

    /// Swaps only the transient state with `other`; the user map is
    /// configuration shared by all sessions and stays where it is.
    pub fn swap_transient(&mut self, other: &mut Self)
        ensures
            final(self)@ == with_transient_of(old(self)@, old(other)@),
            final(other)@ == with_transient_of(old(other)@, old(self)@),
    {
        let d = self.double_quote_open;
        self.double_quote_open = other.double_quote_open;
        other.double_quote_open = d;
        let s = self.single_quote_open;
        self.single_quote_open = other.single_quote_open;
        other.single_quote_open = s;
        let a = self.after_digit;
        self.after_digit = other.after_digit;
        other.after_digit = a;
    }

    /// Called after the shell handed an unconverted character to the
    /// application, to remember that a digit was just typed.
    pub fn note_passthrough(&mut self, c: char)
        ensures
            final(self)@ == spec_note_passthrough(old(self)@, c),
    {
        self.after_digit = is_ascii_digit(c);
    }

    /// Called after text was committed (a candidate, pinyin, an English word):
    /// the digit memory follows the last character.
    pub fn note_committed(&mut self, text: &str)
        ensures
            final(self)@ == spec_note_committed(old(self)@, text@),
    {
        let mut last: Option<char> = None;
        for c in it: text.chars()
            invariant
                last == (if it.index() == 0 {
                    None::<char>
                } else {
                    Some(it.seq()[it.index() - 1])
                }),
        {
            last = Some(c);
        }
        self.after_digit = match last {
            Some(c) => is_ascii_digit(c),
            None => false,
        };
    }
}

// ---------------------------------------------------------------------------
// Laws
// ---------------------------------------------------------------------------

/// Converting never commits an empty text: `None` stands for "not converted".
pub proof fn lemma_convert_never_commits_empty(s: PunctuationState, c: char)
    ensures
        spec_convert(s, c).1 matches Some(t) ==> t.len() > 0,
{
    reveal_strlit("，");
    reveal_strlit("。");
    reveal_strlit("？");
    reveal_strlit("！");
    reveal_strlit("：");
    reveal_strlit("；");
    reveal_strlit("（");
    reveal_strlit("）");
    reveal_strlit("【");
    reveal_strlit("】");
    reveal_strlit("「");
    reveal_strlit("」");
    reveal_strlit("《");
    reveal_strlit("》");
    reveal_strlit("、");
    reveal_strlit("……");
    reveal_strlit("——");
    reveal_strlit("￥");
    reveal_strlit("～");
    reveal_strlit("“");
    reveal_strlit("”");
    reveal_strlit("‘");
    reveal_strlit("’");
    assert("‘"@[0] != "’"@[0]);
}

/// Two `"` in a row give an opening and a closing mark (the opening one first
/// when no quotation is open), and leave the pairing as it was.
pub proof fn lemma_double_quotes_pair(s: PunctuationState)
    requires
        !s.custom.contains_key('"'),
    ensures
        ({
            let (s1, r1) = spec_convert(s, '"');
            let (s2, r2) = spec_convert(s1, '"');
            &&& r1 == Some(double_quote_mark(!s.double_quote_open))
            &&& r2 == Some(double_quote_mark(s.double_quote_open))
            &&& r1 != r2
            &&& !s.double_quote_open ==> r1 == Some("“"@) && r2 == Some("”"@)
            &&& s2 == PunctuationState { after_digit: false, ..s }
        }),
{
    reveal_strlit("“");
    reveal_strlit("”");
    assert("“"@[0] != "”"@[0]);
}

/// Two `'` in a row give an opening and a closing mark (the opening one first
/// when no quotation is open), and leave the pairing as it was.
pub proof fn lemma_single_quotes_pair(s: PunctuationState)
    requires
        !s.custom.contains_key('\''),
    ensures
        ({
            let (s1, r1) = spec_convert(s, '\'');
            let (s2, r2) = spec_convert(s1, '\'');
            &&& r1 == Some(single_quote_mark(!s.single_quote_open))
            &&& r2 == Some(single_quote_mark(s.single_quote_open))
            &&& r1 != r2
            &&& !s.single_quote_open ==> r1 == Some("‘"@) && r2 == Some("’"@)
            &&& s2 == PunctuationState { after_digit: false, ..s }
        }),
{
    reveal_strlit("‘");
    reveal_strlit("’");
    assert("‘"@[0] != "’"@[0]);
}

/// After a digit reached the application (typed through, or last of a
/// committed text), `.` stays ASCII once (`3.14`); the next `.` is `。` again.
pub proof fn lemma_period_after_digit(s: PunctuationState, text: Seq<char>)
    requires
        text.len() > 0,
        spec_is_ascii_digit(text.last()),
        !s.custom.contains_key('.'),
    ensures
        ({
            let (s1, r1) = spec_convert(spec_note_committed(s, text), '.');
            let (s2, r2) = spec_convert(s1, '.');
            &&& r1 is None
            &&& r2 == Some("。"@)
            &&& spec_note_committed(s, text) == spec_note_passthrough(s, text.last())
        }),
{
}

/// An entry of the user map wins over the built-in conversion, quote pairing
/// and the period rule: after the map is set, its key commits its text (or
/// nothing when the text is empty) and the state does not move.
pub proof fn lemma_custom_entry_wins(s: PunctuationState, m: Map<char, Seq<char>>, c: char)
    requires
        m.contains_key(c),
    ensures
        ({
            let s1 = spec_set_custom_map(s, m);
            let (s2, r) = spec_convert(s1, c);
            &&& s2 == s1
            &&& r == (if m[c].len() == 0 {
                None
            } else {
                Some(m[c])
            })
        }),
{
}

/// A key that the user map does not cover converts as it would with no map at all.
pub proof fn lemma_uncovered_key_uses_builtin(s: PunctuationState, c: char)
    requires
        !s.custom.contains_key(c),
    ensures
        spec_convert(s, c).1 == spec_convert(
            spec_set_custom_map(s, Map::<char, Seq<char>>::empty()),
            c,
        ).1,
        spec_convert(s, c).0 == spec_set_custom_map(
            spec_convert(spec_set_custom_map(s, Map::<char, Seq<char>>::empty()), c).0,
            s.custom,
        ),
{
}

/// Swapping the transient state twice gives both states back; the user maps
/// never move.
pub proof fn lemma_swap_transient_twice(a: PunctuationState, b: PunctuationState)
    ensures
        with_transient_of(with_transient_of(a, b), with_transient_of(b, a)) == a,
        with_transient_of(with_transient_of(b, a), with_transient_of(a, b)) == b,
        with_transient_of(a, b).custom == a.custom,
        with_transient_of(b, a).custom == b.custom,
{
}

/// Resetting the transient state keeps the user map, and then `"` and `'` open
/// a quotation and `.` is `。` again.
pub proof fn lemma_reset_then_convert(s: PunctuationState)
    ensures
        spec_reset_transient(s).custom == s.custom,
        !s.custom.contains_key('"') ==> spec_convert(spec_reset_transient(s), '"').1 == Some(
            "“"@,
        ),
        !s.custom.contains_key('\'') ==> spec_convert(spec_reset_transient(s), '\'').1 == Some(
            "‘"@,
        ),
        !s.custom.contains_key('.') ==> spec_convert(spec_reset_transient(s), '.').1 == Some(
            "。"@,
        ),
{
}

/// The two kinds of quotation pair independently: converting any character
/// other than `"` never moves the double-quote pairing, converting any
/// character other than `'` never moves the single-quote pairing, and no
/// conversion touches the user map.
pub proof fn lemma_quote_pairings_are_independent(s: PunctuationState, c: char)
    ensures
        c != '"' ==> spec_convert(s, c).0.double_quote_open == s.double_quote_open,
        c != '\'' ==> spec_convert(s, c).0.single_quote_open == s.single_quote_open,
        spec_convert(s, c).0.custom == s.custom,
        !s.custom.contains_key(c) && c == '"' ==> spec_convert(s, c).0.double_quote_open
            != s.double_quote_open,
        !s.custom.contains_key(c) && c == '\'' ==> spec_convert(s, c).0.single_quote_open
            != s.single_quote_open,
{
}

/// Only the digit memory follows the typing outside the quotes: a character
/// that the user map does not cover clears it, a covered one keeps it.
pub proof fn lemma_convert_digit_memory(s: PunctuationState, c: char)
    ensures
        !s.custom.contains_key(c) ==> !spec_convert(s, c).0.after_digit,
        s.custom.contains_key(c) ==> spec_convert(s, c).0 == s,
{
}

/// Characters that are not ASCII punctuation are never converted unless the
/// user map covers them; the built-in table converts exactly
/// `, . ? ! : ; ( ) [ ] { } < > / \ ^ _ $ ~` and the two quotes.
pub proof fn lemma_converted_characters(s: PunctuationState, c: char)
    requires
        !s.custom.contains_key(c),
    ensures
        !('!' <= c <= '/' || ':' <= c <= '@' || '[' <= c <= '`' || '{' <= c <= '~')
            ==> spec_convert(s, c).1 is None,
        (c == ',' || c == '?' || c == '!' || c == ':' || c == ';' || c == '(' || c == ')' || c
            == '[' || c == ']' || c == '{' || c == '}' || c == '<' || c == '>' || c == '/' || c
            == '\\' || c == '^' || c == '_' || c == '$' || c == '~' || c == '"' || c == '\'')
            ==> spec_convert(s, c).1 is Some,
        c == '.' ==> (spec_convert(s, c).1 is Some <==> !s.after_digit),
        (c == '-' || c == '=' || c == '+' || c == '*' || c == '#' || c == '@' || c == '%' || c
            == '&' || c == '|' || c == '`') ==> spec_convert(s, c).1 is None,
{
}

/// The built-in conversion gives full-width text: no character of it is ASCII.
pub proof fn lemma_builtin_text_is_not_ascii(s: PunctuationState, c: char)
    requires
        !s.custom.contains_key(c),
    ensures
        spec_convert(s, c).1 matches Some(t) ==> forall|i: int|
            0 <= i < t.len() ==> (#[trigger] t[i]) > '\u{7f}',
{
    reveal_strlit("，");
    reveal_strlit("。");
    reveal_strlit("？");
    reveal_strlit("！");
    reveal_strlit("：");
    reveal_strlit("；");
    reveal_strlit("（");
    reveal_strlit("）");
    reveal_strlit("【");
    reveal_strlit("】");
    reveal_strlit("「");
    reveal_strlit("」");
    reveal_strlit("《");
    reveal_strlit("》");
    reveal_strlit("、");
    reveal_strlit("……");
    reveal_strlit("——");
    reveal_strlit("￥");
    reveal_strlit("～");
    reveal_strlit("“");
    reveal_strlit("”");
    reveal_strlit("‘");
    reveal_strlit("’");
}

/// Every ASCII punctuation character, the paging keys `, . - =` among them, is
/// a valid key of the user map, and nothing else is.
pub proof fn lemma_valid_keys_are_ascii_punctuation(c: char)
    ensures
        spec_is_valid_map_key(c) <==> ('!' <= c <= '/' || ':' <= c <= '@' || '[' <= c <= '`'
            || '{' <= c <= '~'),
        spec_is_valid_map_key(',') && spec_is_valid_map_key('.') && spec_is_valid_map_key('-')
            && spec_is_valid_map_key('='),
{
}

/// A map is valid exactly when each key is ASCII punctuation and each text has
/// at most [`MAX_MAP_TEXT_CHARS`] characters; the empty text is valid.
pub proof fn lemma_valid_map_meaning(m: Map<char, Seq<char>>)
    ensures
        map_is_valid(m) <==> forall|k: char| #[trigger]
            m.contains_key(k) ==> ('!' <= k <= '/' || ':' <= k <= '@' || '[' <= k <= '`' || '{'
                <= k <= '~') && m[k].len() <= 16,
{
}

/// Committing text moves only the digit memory, and it goes by the last
/// character alone: on when that is an ASCII digit, off when it is anything
/// else or the text is empty. What came before the last character does not
/// matter.
pub proof fn lemma_committed_text_last_character(
    s: PunctuationState,
    text: Seq<char>,
    before: Seq<char>,
)
    ensures
        spec_note_committed(s, text).after_digit <==> (text.len() > 0 && '0' <= text.last()
            <= '9'),
        spec_note_committed(s, text).double_quote_open == s.double_quote_open,
        spec_note_committed(s, text).single_quote_open == s.single_quote_open,
        spec_note_committed(s, text).custom == s.custom,
        text.len() > 0 ==> spec_note_committed(s, before + text) == spec_note_committed(s, text),
        text.len() > 0 ==> spec_note_committed(s, text) == spec_note_passthrough(s, text.last()),
{
    if text.len() > 0 {
        assert((before + text).last() == text.last());
    }
}

/// A character handed through turns the digit memory on exactly when it is an
/// ASCII digit, and moves nothing else.
pub proof fn lemma_passthrough_digit_memory(s: PunctuationState, c: char)
    ensures
        spec_note_passthrough(s, c).after_digit <==> '0' <= c <= '9',
        spec_note_passthrough(s, c).double_quote_open == s.double_quote_open,
        spec_note_passthrough(s, c).single_quote_open == s.single_quote_open,
        spec_note_passthrough(s, c).custom == s.custom,
{
}

/// Swapping exchanges all three pieces of transient state, field by field,
/// and leaves each user map where it was.
pub proof fn lemma_swap_exchanges_every_field(a: PunctuationState, b: PunctuationState)
    ensures
        with_transient_of(a, b).double_quote_open == b.double_quote_open,
        with_transient_of(a, b).single_quote_open == b.single_quote_open,
        with_transient_of(a, b).after_digit == b.after_digit,
        with_transient_of(a, b).custom == a.custom,
        with_transient_of(b, a).double_quote_open == a.double_quote_open,
        with_transient_of(b, a).single_quote_open == a.single_quote_open,
        with_transient_of(b, a).after_digit == a.after_digit,
        with_transient_of(b, a).custom == b.custom,
{
}

/// Resetting clears all three pieces of transient state and keeps the user
/// map; setting the user map replaces only the map.
pub proof fn lemma_reset_and_set_map_fields(s: PunctuationState, m: Map<char, Seq<char>>)
    ensures
        !spec_reset_transient(s).double_quote_open,
        !spec_reset_transient(s).single_quote_open,
        !spec_reset_transient(s).after_digit,
        spec_reset_transient(s).custom == s.custom,
        spec_set_custom_map(s, m).custom == m,
        spec_set_custom_map(s, m).double_quote_open == s.double_quote_open,
        spec_set_custom_map(s, m).single_quote_open == s.single_quote_open,
        spec_set_custom_map(s, m).after_digit == s.after_digit,
{
}

/// The key that validation reports is the least bad key: it is below every
/// other key whose entry breaks a rule, so there is only one such key. An
/// entry breaks a rule exactly when its key is not ASCII punctuation or its
/// text is longer than [`MAX_MAP_TEXT_CHARS`].
pub proof fn lemma_reported_key_is_least(m: Map<char, Seq<char>>, k: char, j: char)
    ensures
        valid_entry(j, m[j]) <==> ('!' <= j <= '/' || ':' <= j <= '@' || '[' <= j <= '`' || '{'
            <= j <= '~') && m[j].len() <= 16,
        first_invalid_key(m, k) && m.contains_key(j) && !valid_entry(j, m[j]) ==> k <= j,
        first_invalid_key(m, k) && first_invalid_key(m, j) ==> k == j,
        first_invalid_key(m, k) ==> m.contains_key(k) && !valid_entry(k, m[k]),
{
}

} // verus!
