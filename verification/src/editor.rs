//! The rules of the punctuation-map editor: the rows it opens with, adding and
//! removing rows, and reading a draft map out of the rows. Each row is a pair
//! (original symbol, text to commit) as the user typed them.

use std::collections::BTreeMap;
use vstd::prelude::*;
use crate::chars::{
    chars_of, decimal, push_char, push_decimal, spec_is_whitespace, spec_trim, trim, trim_end,
    trim_start,
};
use crate::punctuation::{
    is_valid_map_key, map_entries, map_insert, map_is_valid, spec_is_valid_map_key, text_view,
    valid_entry, MAX_MAP_TEXT_CHARS,
};

verus! {

/// The texts of the rows.
pub open spec fn row_texts(rows: Seq<(String, String)>) -> Seq<(Seq<char>, Seq<char>)> {
    rows.map_values(|r: (String, String)| (r.0@, r.1@))
}

/// Message: row `number` has a text but no symbol.
pub open spec fn missing_key_text(number: nat) -> Seq<char> {
    "第 "@ + decimal(number) + " 行填了转换文本但没有原符号"@
}

/// Message: the symbol `key` of row `number` is not one ASCII punctuation character.
pub open spec fn bad_key_text(number: nat, key: Seq<char>) -> Seq<char> {
    "第 "@ + decimal(number) + " 行的原符号「"@ + key + "」须是单个英文标点"@
}

/// Message: the text of row `number` is too long.
pub open spec fn long_text_text(number: nat) -> Seq<char> {
    "第 "@ + decimal(number) + " 行的转换文本最多 "@ + decimal(MAX_MAP_TEXT_CHARS as nat)
        + " 个字符"@
}

/// Message: the symbol `key` stands on more than one row.
pub open spec fn duplicate_key_text(key: char) -> Seq<char> {
    "原符号 "@ + seq![key] + " 不止一行，请合并或删掉多余的行"@
}

/// Reading row `number` (counted from 1), with symbol `key` and text `text`,
/// into the map `m` built from the rows above it. Both are trimmed; a row left
/// blank is skipped.
pub open spec fn read_row(m: Map<char, Seq<char>>, number: nat, key: Seq<char>, text: Seq<char>) -> Result<
    Map<char, Seq<char>>,
    Seq<char>,
> {
    let k = spec_trim(key);
    let v = spec_trim(text);
    if k.len() == 0 {
        if v.len() == 0 {
            Ok(m)
        } else {
            Err(missing_key_text(number))
        }
    } else if k.len() != 1 || !spec_is_valid_map_key(k[0]) {
        Err(bad_key_text(number, k))
    } else if v.len() > MAX_MAP_TEXT_CHARS {
        Err(long_text_text(number))
    } else if m.contains_key(k[0]) {
        Err(duplicate_key_text(k[0]))
    } else {
        Ok(m.insert(k[0], v))
    }
}

/// The draft map read from `rows` top to bottom, or the message of the first
/// row that cannot be read.
pub open spec fn spec_draft(rows: Seq<(Seq<char>, Seq<char>)>) -> Result<
    Map<char, Seq<char>>,
    Seq<char>,
>
    decreases rows.len(),
{
    if rows.len() == 0 {
        Ok(Map::empty())
    } else {
        match spec_draft(rows.drop_last()) {
            Ok(m) => read_row(m, rows.len(), rows.last().0, rows.last().1),
            Err(e) => Err(e),
        }
    }
}

/// Once a prefix of the rows fails, the whole draft fails with its message.
proof fn lemma_draft_error_stays(rows: Seq<(Seq<char>, Seq<char>)>, k: int)
    requires
        0 <= k <= rows.len(),
        spec_draft(rows.take(k)) is Err,
    ensures
        spec_draft(rows) == spec_draft(rows.take(k)),
    decreases rows.len() - k,
{
    if k == rows.len() {
        assert(rows.take(k) =~= rows);
    } else {
        assert(rows.take(k + 1).drop_last() =~= rows.take(k));
        lemma_draft_error_stays(rows, k + 1);
    }
}

/// The rows that show `map`: one per entry in key order, the symbol as a
/// one-character string.
pub open spec fn rows_show_map(rows: Seq<(String, String)>, map: Map<char, String>) -> bool {
    &&& rows.len() == map.dom().len()
    &&& forall|i: int|
        0 <= i < rows.len() ==> (#[trigger] rows[i]).0@.len() == 1 && map.contains_key(
            rows[i].0@[0],
        ) && map[rows[i].0@[0]]@ == rows[i].1@
    &&& forall|i: int, j: int| 0 <= i < j < rows.len() ==> rows[i].0@[0] < rows[j].0@[0]
    &&& forall|k: char| #[trigger]
        map.contains_key(k) ==> exists|i: int| 0 <= i < rows.len() && rows[i].0@[0] == k
}

/// The rows the editor opens with for `map`: one per entry in key order, or a
/// single blank row when the map is empty, so that typing can start at once.
pub fn rows_for_map(map: &BTreeMap<char, String>) -> (r: Vec<(String, String)>)
    ensures
        map@.dom().len() == 0 ==> r@.len() == 1 && r@[0].0@.len() == 0 && r@[0].1@.len() == 0,
        map@.dom().len() > 0 ==> rows_show_map(r@, map@),
{
    let entries = map_entries(map);
    let n = entries.len();
    let mut rows: Vec<(String, String)> = Vec::new();
    let mut i: usize = 0;
    while i < n
        invariant
            n == entries@.len() == map@.dom().len(),
            i <= n,
            rows@.len() == i,
            forall|j: int|
                0 <= j < entries@.len() ==> map@.contains_key(#[trigger] entries@[j].0)
                    && map@[entries@[j].0] == *entries@[j].1,
            forall|a: int, b: int| 0 <= a < b < entries@.len() ==> entries@[a].0 < entries@[b].0,
            forall|k: char| #[trigger]
                map@.contains_key(k) ==> exists|j: int| 0 <= j < entries@.len() && entries@[j].0 == k,
            forall|j: int|
                0 <= j < i ==> (#[trigger] rows@[j]).0@ == seq![entries@[j].0] && rows@[j].1
                    == *entries@[j].1,
        decreases n - i,
    {
        let mut key = String::new();
        push_char(&mut key, entries[i].0);
        assert(key@ =~= seq![entries@[i as int].0]);
        rows.push((key, entries[i].1.clone()));
        i = i + 1;
    }
    if n == 0 {
        rows.push((String::new(), String::new()));
    } else {
        assert forall|k: char| #[trigger] map@.contains_key(k) implies exists|j: int|
            0 <= j < rows@.len() && rows@[j].0@[0] == k by {
            let j = choose|j: int| 0 <= j < entries@.len() && entries@[j].0 == k;
            assert(rows@[j].0@ == seq![entries@[j].0]);
        }
    }
    rows
}

/// Adds a blank row at the end unless there are already `max_rows` rows;
/// says whether it added one.
pub fn add_row(rows: &mut Vec<(String, String)>, max_rows: usize) -> (added: bool)
    ensures
        added == (old(rows)@.len() < max_rows),
        added ==> final(rows)@.len() == old(rows)@.len() + 1 && final(rows)@.take(
            old(rows)@.len() as int,
        ) == old(rows)@ && final(rows)@.last().0@.len() == 0 && final(rows)@.last().1@.len() == 0,
        !added ==> final(rows)@ == old(rows)@,
{
    if rows.len() >= max_rows {
        return false;
    }
    rows.push((String::new(), String::new()));
    assert(rows@.take(old(rows)@.len() as int) =~= old(rows)@);
    true
}

/// Removes row `index` if there is one; says whether it did.
pub fn remove_row(rows: &mut Vec<(String, String)>, index: usize) -> (removed: bool)
    ensures
        removed == (index < old(rows)@.len()),
        removed ==> final(rows)@ == old(rows)@.remove(index as int),
        !removed ==> final(rows)@ == old(rows)@,
{
    if index >= rows.len() {
        return false;
    }
    rows.remove(index);
    true
}

fn missing_key_message(number: usize) -> (r: String)
    ensures
        r@ == missing_key_text(number as nat),
{
    let mut r = String::from_str("第 ");
    push_decimal(&mut r, number);
    r.append(" 行填了转换文本但没有原符号");
    r
}

fn bad_key_message(number: usize, key: &String) -> (r: String)
    ensures
        r@ == bad_key_text(number as nat, key@),
{
    let mut r = String::from_str("第 ");
    push_decimal(&mut r, number);
    r.append(" 行的原符号「");
    r.append(key.as_str());
    r.append("」须是单个英文标点");
    r
}

fn long_text_message(number: usize) -> (r: String)
    ensures
        r@ == long_text_text(number as nat),
{
    let mut r = String::from_str("第 ");
    push_decimal(&mut r, number);
    r.append(" 行的转换文本最多 ");
    push_decimal(&mut r, MAX_MAP_TEXT_CHARS);
    r.append(" 个字符");
    r
}

fn duplicate_key_message(key: char) -> (r: String)
    ensures
        r@ == duplicate_key_text(key),
{
    let mut r = String::from_str("原符号 ");
    push_char(&mut r, key);
    r.append(" 不止一行，请合并或删掉多余的行");
    assert(r@ =~= duplicate_key_text(key));
    r
}

/// Reads the draft map out of the editor's rows, top to bottom. Symbol and
/// text are trimmed; a blank row is skipped; otherwise the symbol must be one
/// ASCII punctuation character, the text at most [`MAX_MAP_TEXT_CHARS`]
/// characters, and no symbol may stand on two rows. The first row that breaks
/// a rule gives the message, with its row number counted from 1.
pub fn draft_map(rows: &Vec<(String, String)>) -> (r: Result<BTreeMap<char, String>, String>)
    ensures
        match r {
            Ok(map) => spec_draft(row_texts(rows@)) == Ok::<Map<char, Seq<char>>, Seq<char>>(
                text_view(map@),
            ),
            Err(msg) => spec_draft(row_texts(rows@)) == Err::<Map<char, Seq<char>>, Seq<char>>(
                msg@,
            ),
        },
{
    let ghost texts = row_texts(rows@);
    let mut map: BTreeMap<char, String> = BTreeMap::new();
    let n = rows.len();
    let mut i: usize = 0;
    assert(texts.take(0) =~= Seq::<(Seq<char>, Seq<char>)>::empty());
    assert(text_view(map@) =~= Map::<char, Seq<char>>::empty());
    while i < n
        invariant
            n == rows@.len(),
            i <= n,
            texts == row_texts(rows@),
            spec_draft(texts.take(i as int)) == Ok::<Map<char, Seq<char>>, Seq<char>>(
                text_view(map@),
            ),
        decreases n - i,
    {
        let number = i + 1;
        assert(texts.take(number as int).drop_last() =~= texts.take(i as int));
        assert(texts.take(number as int).last() == texts[i as int]);
        let key = trim(rows[i].0.as_str());
        let value = trim(rows[i].1.as_str());
        let key_chars = chars_of(key.as_str());
        if key_chars.len() == 0 {
            if value.as_str().is_empty() {
                i = number;
                continue;
            }
            let msg = missing_key_message(number);
            proof {
                lemma_draft_error_stays(texts, number as int);
            }
            return Err(msg);
        }
        let c = key_chars[0];
        if key_chars.len() != 1 || !is_valid_map_key(c) {
            let msg = bad_key_message(number, &key);
            proof {
                lemma_draft_error_stays(texts, number as int);
            }
            return Err(msg);
        }
        if value.as_str().unicode_len() > MAX_MAP_TEXT_CHARS {
            let msg = long_text_message(number);
            proof {
                lemma_draft_error_stays(texts, number as int);
            }
            return Err(msg);
        }
        let ghost before = map@;
        let ghost v = value@;
        if map_insert(&mut map, c, value).is_some() {
            let msg = duplicate_key_message(c);
            proof {
                lemma_draft_error_stays(texts, number as int);
            }
            return Err(msg);
        }
        assert(text_view(map@) =~= text_view(before).insert(c, v));
        i = number;
    }
    assert(texts.take(n as int) =~= texts);
    Ok(map)
}

/// What the editor saves passes the check that loading applies: a draft read
/// from any rows is a valid map.
pub proof fn lemma_draft_is_valid(rows: Seq<(Seq<char>, Seq<char>)>)
    ensures
        spec_draft(rows) matches Ok(m) ==> map_is_valid(m),
    decreases rows.len(),
{
    if rows.len() > 0 {
        lemma_draft_is_valid(rows.drop_last());
    }
}

/// A draft holds exactly the non-blank rows' symbols: every key of a draft is
/// the trimmed symbol of some row, with that row's trimmed text.
pub proof fn lemma_draft_keys_come_from_rows(rows: Seq<(Seq<char>, Seq<char>)>, c: char)
    ensures
        spec_draft(rows) matches Ok(m) ==> (m.contains_key(c) ==> exists|i: int|
            0 <= i < rows.len() && spec_trim(rows[i].0) == seq![c] && m[c] == spec_trim(
                #[trigger] rows[i].1,
            )),
    decreases rows.len(),
{
    if rows.len() > 0 {
        let prev = rows.drop_last();
        lemma_draft_keys_come_from_rows(prev, c);
        if let Ok(m) = spec_draft(rows) {
            if m.contains_key(c) {
                if let Ok(pm) = spec_draft(prev) {
                    let k = spec_trim(rows.last().0);
                    if pm.contains_key(c) && !(k.len() == 1 && k[0] == c) {
                        let i = choose|i: int|
                            0 <= i < prev.len() && spec_trim(prev[i].0) == seq![c] && pm[c]
                                == spec_trim(#[trigger] prev[i].1);
                        assert(rows[i] == prev[i]);
                    } else {
                        assert(k =~= seq![c]);
                        assert(rows[rows.len() - 1] == rows.last());
                    }
                }
            }
        }
    }
}

/// The keys of the first `i` rows, with their texts in `map`.
pub open spec fn shown_prefix(rows: Seq<(String, String)>, map: Map<char, String>, i: int) -> Map<
    char,
    Seq<char>,
> {
    Map::new(|k: char| exists|j: int| 0 <= j < i && rows[j].0@[0] == k, |k: char| map[k]@)
}

/// A one-character symbol that is not white space trims to itself.
proof fn lemma_trim_single(c: char)
    requires
        !spec_is_whitespace(c),
    ensures
        spec_trim(seq![c]) == seq![c],
{
    let s = seq![c];
    assert(trim_start(s) == s);
    assert(trim_end(s) == s);
}

proof fn lemma_shown_prefix_drafts(rows: Seq<(String, String)>, map: Map<char, String>, i: int)
    requires
        rows_show_map(rows, map),
        map_is_valid(text_view(map)),
        forall|k: char| #[trigger] map.contains_key(k) ==> spec_trim(map[k]@) == map[k]@,
        0 <= i <= rows.len(),
    ensures
        spec_draft(row_texts(rows).take(i)) == Ok::<Map<char, Seq<char>>, Seq<char>>(
            shown_prefix(rows, map, i),
        ),
    decreases i,
{
    let texts = row_texts(rows);
    if i == 0 {
        assert(texts.take(0) =~= Seq::<(Seq<char>, Seq<char>)>::empty());
        assert(shown_prefix(rows, map, 0) =~= Map::<char, Seq<char>>::empty());
    } else {
        lemma_shown_prefix_drafts(rows, map, i - 1);
        assert(texts.take(i).drop_last() =~= texts.take(i - 1));
        let row = rows[i - 1];
        let c = row.0@[0];
        assert(row.0@ =~= seq![c]);
        assert(texts.take(i).last() == (row.0@, row.1@));
        assert(map.contains_key(c));
        assert(text_view(map).contains_key(c));
        assert(valid_entry(c, text_view(map)[c]));
        lemma_trim_single(c);
        let prev = shown_prefix(rows, map, i - 1);
        assert(!prev.contains_key(c)) by {
            if prev.contains_key(c) {
                let j = choose|j: int| 0 <= j < i - 1 && rows[j].0@[0] == c;
                assert(rows[j].0@[0] < rows[i - 1].0@[0]);
            }
        }
        assert(shown_prefix(rows, map, i) =~= prev.insert(c, row.1@)) by {
            assert forall|k: char|
                #![trigger shown_prefix(rows, map, i).contains_key(k)]
                shown_prefix(rows, map, i).contains_key(k) <==> prev.insert(
                    c,
                    row.1@,
                ).contains_key(k) by {
                if shown_prefix(rows, map, i).contains_key(k) && k != c {
                    let j = choose|j: int| 0 <= j < i && rows[j].0@[0] == k;
                    assert(j != i - 1);
                }
            }
        }
    }
}

/// Opening the editor on a valid map whose texts carry no surrounding white
/// space and saving the rows unchanged gives the same map back.
pub proof fn lemma_open_then_draft_round_trip(rows: Seq<(String, String)>, map: Map<char, String>)
    requires
        rows_show_map(rows, map),
        map_is_valid(text_view(map)),
        forall|k: char| #[trigger] map.contains_key(k) ==> spec_trim(map[k]@) == map[k]@,
    ensures
        spec_draft(row_texts(rows)) == Ok::<Map<char, Seq<char>>, Seq<char>>(text_view(map)),
{
    lemma_shown_prefix_drafts(rows, map, rows.len() as int);
    assert(row_texts(rows).take(rows.len() as int) =~= row_texts(rows));
    assert(shown_prefix(rows, map, rows.len() as int) =~= text_view(map)) by {
        assert forall|k: char|
            #![trigger text_view(map).contains_key(k)]
            text_view(map).contains_key(k) implies shown_prefix(
                rows,
                map,
                rows.len() as int,
            ).contains_key(k) by {
            assert(map.contains_key(k));
        }
    }
}

/// Opening the editor on the empty map shows one blank row, and saving it
/// unchanged gives the empty map back.
pub proof fn lemma_blank_row_drafts_empty(key: Seq<char>, text: Seq<char>)
    requires
        key.len() == 0,
        text.len() == 0,
    ensures
        spec_draft(seq![(key, text)]) == Ok::<Map<char, Seq<char>>, Seq<char>>(
            Map::<char, Seq<char>>::empty(),
        ),
{
    let rows = seq![(key, text)];
    assert(rows.drop_last() =~= Seq::<(Seq<char>, Seq<char>)>::empty());
    assert(trim_start(key) == key);
    assert(trim_start(text) == text);
    assert(trim_end(key) == key);
    assert(trim_end(text) == text);
    assert(spec_draft(rows.drop_last()) == Ok::<Map<char, Seq<char>>, Seq<char>>(
        Map::<char, Seq<char>>::empty(),
    ));
    assert(rows.last() == (key, text));
}

/// When a draft succeeds, every non-blank row holds a single symbol that is a
/// key of the draft, and no two non-blank rows hold the same symbol, wherever
/// they stand.
pub proof fn lemma_draft_symbols_are_distinct(rows: Seq<(Seq<char>, Seq<char>)>)
    ensures
        spec_draft(rows) matches Ok(m) ==> {
            &&& forall|i: int|
                0 <= i < rows.len() && spec_trim(#[trigger] rows[i].0).len() > 0 ==> spec_trim(
                    rows[i].0,
                ).len() == 1 && m.contains_key(spec_trim(rows[i].0)[0])
            &&& forall|i: int, j: int|
                0 <= i < j < rows.len() && spec_trim(#[trigger] rows[i].0).len() > 0
                    ==> spec_trim(rows[i].0) != spec_trim(#[trigger] rows[j].0)
        },
    decreases rows.len(),
{
    if rows.len() > 0 {
        let prev = rows.drop_last();
        lemma_draft_symbols_are_distinct(prev);
        if let Ok(m) = spec_draft(rows) {
            let n = rows.len() - 1;
            let pm = spec_draft(prev)->Ok_0;
            let k = spec_trim(rows.last().0);
            assert(rows.last() == rows[n]);
            assert forall|i: int|
                0 <= i < rows.len() && spec_trim(#[trigger] rows[i].0).len() > 0 implies spec_trim(
                rows[i].0,
            ).len() == 1 && m.contains_key(spec_trim(rows[i].0)[0]) by {
                if i < n {
                    assert(rows[i] == prev[i]);
                }
            }
            assert forall|i: int, j: int|
                0 <= i < j < rows.len() && spec_trim(#[trigger] rows[i].0).len() > 0 implies spec_trim(
                rows[i].0,
            ) != spec_trim(#[trigger] rows[j].0) by {
                assert(rows[i] == prev[i]);
                if j < n {
                    assert(rows[j] == prev[j]);
                } else {
                    assert(pm.contains_key(spec_trim(prev[i].0)[0]));
                    if spec_trim(rows[i].0) == k {
                        assert(k.len() == 1);
                    }
                }
            }
        }
    }
}

/// A symbol on two rows is refused however far apart the rows stand: when the
/// rows above row `j` read fine and row `j` repeats the symbol `c` of an
/// earlier row with an acceptable text, the draft fails with the duplicate
/// message for `c`.
pub proof fn lemma_repeated_symbol_is_refused(
    rows: Seq<(Seq<char>, Seq<char>)>,
    i: int,
    j: int,
    c: char,
)
    requires
        0 <= i < j < rows.len(),
        spec_trim(rows[i].0) == seq![c],
        spec_trim(rows[j].0) == seq![c],
        spec_is_valid_map_key(c),
        spec_trim(rows[j].1).len() <= MAX_MAP_TEXT_CHARS,
        spec_draft(rows.take(j)) is Ok,
    ensures
        spec_draft(rows) == Err::<Map<char, Seq<char>>, Seq<char>>(duplicate_key_text(c)),
{
    let before = rows.take(j);
    lemma_draft_symbols_are_distinct(before);
    assert(before[i] == rows[i]);
    assert(spec_trim(before[i].0).len() > 0);
    assert(seq![c][0] == c);
    assert(rows.take(j + 1).drop_last() =~= before);
    assert(rows.take(j + 1).last() == rows[j]);
    lemma_draft_error_stays(rows, j + 1);
}

} // verus!
