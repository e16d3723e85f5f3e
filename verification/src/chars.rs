//! Character classes and small text operations that the punctuation rules use.

use vstd::prelude::*;

verus! {

/// ASCII punctuation: `!`..=`/`, `:`..=`@`, `[`..=`` ` `` and `{`..=`~`.
pub open spec fn spec_is_ascii_punctuation(c: char) -> bool {
    ||| '!' <= c <= '/'
    ||| ':' <= c <= '@'
    ||| '[' <= c <= '`'
    ||| '{' <= c <= '~'
}

/// An ASCII decimal digit `0`..=`9`.
pub open spec fn spec_is_ascii_digit(c: char) -> bool {
    '0' <= c <= '9'
}

/// Whether `c` is ASCII punctuation, as `char::is_ascii_punctuation` decides it.
pub fn is_ascii_punctuation(c: char) -> (r: bool)
    ensures
        r == spec_is_ascii_punctuation(c),
{
    ('!' <= c && c <= '/') || (':' <= c && c <= '@') || ('[' <= c && c <= '`') || ('{' <= c
        && c <= '~')
}

/// Whether `c` is an ASCII digit, as `char::is_ascii_digit` decides it.
pub fn is_ascii_digit(c: char) -> (r: bool)
    ensures
        r == spec_is_ascii_digit(c),
{
    '0' <= c && c <= '9'
}


/// Unicode `White_Space`, the class that `char::is_whitespace` and `str::trim` use.
pub open spec fn spec_is_whitespace(c: char) -> bool {
    ||| '\u{9}' <= c <= '\u{d}'
    ||| c == ' '
    ||| c == '\u{85}'
    ||| c == '\u{a0}'
    ||| c == '\u{1680}'
    ||| '\u{2000}' <= c <= '\u{200a}'
    ||| c == '\u{2028}'
    ||| c == '\u{2029}'
    ||| c == '\u{202f}'
    ||| c == '\u{205f}'
    ||| c == '\u{3000}'
}

/// Whether `c` is Unicode white space.
pub fn is_whitespace(c: char) -> (r: bool)
    ensures
        r == spec_is_whitespace(c),
{
    ('\u{9}' <= c && c <= '\u{d}') || c == ' ' || c == '\u{85}' || c == '\u{a0}' || c
        == '\u{1680}' || ('\u{2000}' <= c && c <= '\u{200a}') || c == '\u{2028}' || c
        == '\u{2029}' || c == '\u{202f}' || c == '\u{205f}' || c == '\u{3000}'
}

/// `s` without its leading white space.
pub open spec fn trim_start(s: Seq<char>) -> Seq<char>
    decreases s.len(),
{
    if s.len() > 0 && spec_is_whitespace(s[0]) {
        trim_start(s.drop_first())
    } else {
        s
    }
}

/// `s` without its trailing white space.
pub open spec fn trim_end(s: Seq<char>) -> Seq<char>
    decreases s.len(),
{
    if s.len() > 0 && spec_is_whitespace(s.last()) {
        trim_end(s.drop_last())
    } else {
        s
    }
}

/// `s` without leading and trailing white space, as `str::trim` leaves it.
pub open spec fn spec_trim(s: Seq<char>) -> Seq<char> {
    trim_end(trim_start(s))
}

/// Calls `String::push`. Claimed: `c` is appended to the end of `s`.
#[verifier::external_body]
pub(crate) fn push_char(s: &mut String, c: char)
    ensures
        final(s)@ == old(s)@.push(c),
{
    s.push(c)
}

/// The characters of `s`, in order.
pub fn chars_of(s: &str) -> (r: Vec<char>)
    ensures
        r@ == s@,
{
    let mut v: Vec<char> = Vec::new();
    for c in it: s.chars()
        invariant
            v@ == it.seq().take(it.index() as int),
    {
        v.push(c);
    }
    v
}

/// A new string holding `cs[from..to]`.
pub fn string_from_chars(cs: &Vec<char>, from: usize, to: usize) -> (r: String)
    requires
        from <= to <= cs.len(),
    ensures
        r@ == cs@.subrange(from as int, to as int),
{
    let mut r = String::new();
    let mut i = from;
    while i < to
        invariant
            from <= i <= to <= cs.len(),
            r@ == cs@.subrange(from as int, i as int),
        decreases to - i,
    {
        push_char(&mut r, cs[i]);
        i = i + 1;
        assert(r@ =~= cs@.subrange(from as int, i as int));
    }
    r
}

/// `s` without leading and trailing white space (`str::trim`, owned).
pub fn trim(s: &str) -> (r: String)
    ensures
        r@ == spec_trim(s@),
{
    let cs = chars_of(s);
    let n = cs.len();
    let mut start: usize = 0;
    assert(cs@.subrange(0, n as int) =~= cs@);
    while start < n && is_whitespace(cs[start])
        invariant
            start <= n == cs.len(),
            trim_start(cs@) == trim_start(cs@.subrange(start as int, n as int)),
        decreases n - start,
    {
        assert(cs@.subrange(start as int, n as int).drop_first() =~= cs@.subrange(
            start + 1,
            n as int,
        ));
        start = start + 1;
    }
    let mut end: usize = n;
    while end > start && is_whitespace(cs[end - 1])
        invariant
            start <= end <= n == cs.len(),
            trim_start(cs@) == cs@.subrange(start as int, n as int),
            spec_trim(cs@) == trim_end(cs@.subrange(start as int, end as int)),
        decreases end - start,
    {
        assert(cs@.subrange(start as int, end as int).drop_last() =~= cs@.subrange(
            start as int,
            end - 1,
        ));
        end = end - 1;
    }
    string_from_chars(&cs, start, end)
}


/// The ASCII digit for `d < 10`.
pub open spec fn digit_char(d: nat) -> char {
    (d + 48) as char
}

/// The decimal numeral of `n`, without leading zeros.
pub open spec fn decimal(n: nat) -> Seq<char>
    decreases n,
{
    if n < 10 {
        seq![digit_char(n)]
    } else {
        decimal(n / 10).push(digit_char(n % 10))
    }
}

/// Appends the decimal numeral of `n` to `s`.
pub fn push_decimal(s: &mut String, n: usize)
    ensures
        final(s)@ == old(s)@ + decimal(n as nat),
    decreases n,
{
    if n >= 10 {
        push_decimal(s, n / 10);
    }
    let d: u8 = (n % 10) as u8;
    push_char(s, (d + 48) as char);
    assert(final(s)@ =~= old(s)@ + decimal(n as nat));
}

/// The number that a string of ASCII digits denotes in decimal.
pub open spec fn digits_value(d: Seq<char>) -> nat
    decreases d.len(),
{
    if d.len() == 0 {
        0
    } else {
        digits_value(d.drop_last()) * 10 + ((d.last() as int - '0' as int) as nat)
    }
}

/// The decimal numeral of `n` is made of ASCII digits, has no leading zero
/// (unless it is `0` itself), and denotes `n`.
pub proof fn lemma_decimal_denotes(n: nat)
    ensures
        decimal(n).len() > 0,
        forall|i: int| 0 <= i < decimal(n).len() ==> '0' <= #[trigger] decimal(n)[i] <= '9',
        decimal(n).len() > 1 ==> decimal(n)[0] != '0',
        digits_value(decimal(n)) == n,
    decreases n,
{
    let last = digit_char(n % 10);
    assert(last as int == n % 10 + 48);
    if n >= 10 {
        lemma_decimal_denotes(n / 10);
        let d = decimal(n);
        assert(d.drop_last() =~= decimal(n / 10));
        assert(d.last() == last);
        assert(digits_value(d) == digits_value(decimal(n / 10)) * 10 + (n % 10));
        assert((n / 10) * 10 + n % 10 == n);
        assert forall|i: int| 0 <= i < d.len() implies '0' <= #[trigger] d[i] <= '9' by {
            if i < d.len() - 1 {
                assert(d[i] == decimal(n / 10)[i]);
            }
        }
        assert(d[0] == decimal(n / 10)[0]);
        if n / 10 < 10 {
            assert(digit_char(n / 10) as int == n / 10 + 48);
            assert(decimal(n / 10)[0] == digit_char(n / 10));
            assert('0' as int == 48);
        } else {
            lemma_decimal_denotes(n / 100);
            assert(n / 10 / 10 == n / 100);
            assert(decimal(n / 10).len() == decimal(n / 100).len() + 1);
        }
    } else {
        let d = decimal(n);
        assert(d == seq![last]);
        assert(d.drop_last() =~= Seq::<char>::empty());
        assert(digits_value(d.drop_last()) == 0);
        assert(n % 10 == n);
    }
}

/// `trim` keeps a stretch of the string: what it drops on either side is all
/// white space, and the stretch it keeps neither starts nor ends with white
/// space. Space, tab, line feed and the ideographic space are white space;
/// ASCII punctuation is not.
pub proof fn lemma_trim_meaning(s: Seq<char>)
    ensures
        exists|a: int, b: int|
            0 <= a <= b <= s.len() && spec_trim(s) == s.subrange(a, b) && (forall|i: int|
                0 <= i < a ==> spec_is_whitespace(#[trigger] s[i])) && (forall|i: int|
                b <= i < s.len() ==> spec_is_whitespace(#[trigger] s[i])),
        spec_trim(s).len() > 0 ==> !spec_is_whitespace(spec_trim(s)[0]) && !spec_is_whitespace(
            spec_trim(s).last(),
        ),
        spec_is_whitespace(' ') && spec_is_whitespace('\t') && spec_is_whitespace('\n')
            && spec_is_whitespace('\u{3000}'),
        forall|c: char| spec_is_ascii_punctuation(c) ==> !#[trigger] spec_is_whitespace(c),
{
    lemma_trim_start_meaning(s);
    let a = choose|a: int|
        0 <= a <= s.len() && trim_start(s) == s.subrange(a, s.len() as int) && (forall|i: int|
            0 <= i < a ==> spec_is_whitespace(#[trigger] s[i])) && (trim_start(s).len() > 0
            ==> !spec_is_whitespace(trim_start(s)[0]));
    let t = trim_start(s);
    lemma_trim_end_meaning(t);
    let b = choose|b: int|
        0 <= b <= t.len() && trim_end(t) == t.subrange(0, b) && (forall|i: int|
            b <= i < t.len() ==> spec_is_whitespace(#[trigger] t[i])) && (trim_end(t).len() > 0
            ==> !spec_is_whitespace(trim_end(t).last()));
    assert(spec_trim(s) =~= s.subrange(a, a + b));
    assert forall|i: int| a + b <= i < s.len() implies spec_is_whitespace(#[trigger] s[i]) by {
        assert(t[i - a] == s[i]);
    }
    if spec_trim(s).len() > 0 {
        assert(spec_trim(s)[0] == t[0]);
    }
}

proof fn lemma_trim_start_meaning(s: Seq<char>)
    ensures
        exists|a: int|
            0 <= a <= s.len() && trim_start(s) == s.subrange(a, s.len() as int) && (forall|i: int|
                0 <= i < a ==> spec_is_whitespace(#[trigger] s[i])) && (trim_start(s).len() > 0
                ==> !spec_is_whitespace(trim_start(s)[0])),
    decreases s.len(),
{
    if s.len() > 0 && spec_is_whitespace(s[0]) {
        let r = s.drop_first();
        lemma_trim_start_meaning(r);
        let a = choose|a: int|
            0 <= a <= r.len() && trim_start(r) == r.subrange(a, r.len() as int) && (forall|i: int|
                0 <= i < a ==> spec_is_whitespace(#[trigger] r[i])) && (trim_start(r).len() > 0
                ==> !spec_is_whitespace(trim_start(r)[0]));
        assert(trim_start(s) =~= s.subrange(a + 1, s.len() as int));
        assert forall|i: int| 0 <= i < a + 1 implies spec_is_whitespace(#[trigger] s[i]) by {
            if i > 0 {
                assert(s[i] == r[i - 1]);
            }
        }
    } else {
        assert(trim_start(s) =~= s.subrange(0, s.len() as int));
    }
}

proof fn lemma_trim_end_meaning(s: Seq<char>)
    ensures
        exists|b: int|
            0 <= b <= s.len() && trim_end(s) == s.subrange(0, b) && (forall|i: int|
                b <= i < s.len() ==> spec_is_whitespace(#[trigger] s[i])) && (trim_end(s).len() > 0
                ==> !spec_is_whitespace(trim_end(s).last())),
    decreases s.len(),
{
    if s.len() > 0 && spec_is_whitespace(s.last()) {
        let r = s.drop_last();
        lemma_trim_end_meaning(r);
        let b = choose|b: int|
            0 <= b <= r.len() && trim_end(r) == r.subrange(0, b) && (forall|i: int|
                b <= i < r.len() ==> spec_is_whitespace(#[trigger] r[i])) && (trim_end(r).len() > 0
                ==> !spec_is_whitespace(trim_end(r).last()));
        assert(trim_end(s) =~= s.subrange(0, b));
        assert forall|i: int| b <= i < s.len() implies spec_is_whitespace(#[trigger] s[i]) by {
            if i < s.len() - 1 {
                assert(s[i] == r[i]);
            }
        }
    } else {
        assert(trim_end(s) =~= s.subrange(0, s.len() as int));
    }
}

} // verus!
