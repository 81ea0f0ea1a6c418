//! Laws of taking texts apart.
use vstd::prelude::*;

use crate::text;

verus! {

/// White space is what Unicode lists as such, by code point.
pub proof fn white_space_is_listed(c: char, r: bool)
    requires
        call_ensures(text::is_white_space, (c,), r),
    ensures
        ({
            let n = c as u32;
            r <==> {
                ||| 9 <= n <= 13
                ||| n == 32
                ||| n == 133
                ||| n == 160
                ||| n == 5760
                ||| 8192 <= n <= 8202
                ||| n == 8232
                ||| n == 8233
                ||| n == 8239
                ||| n == 8287
                ||| n == 12288
            }
        }),
{
}

/// All characters are white space.
pub open spec fn blank(s: Seq<char>) -> bool {
    forall|i: int| 0 <= i < s.len() ==> text::is_space(#[trigger] s[i])
}

/// No character is white space.
pub open spec fn solid(s: Seq<char>) -> bool {
    forall|i: int| 0 <= i < s.len() ==> !text::is_space(#[trigger] s[i])
}

proof fn lemma_position(s: Seq<char>, from: int, c: char)
    requires
        0 <= from <= s.len(),
    ensures
        from <= text::position(s, from, c) <= s.len(),
        forall|i: int| from <= i < text::position(s, from, c) ==> #[trigger] s[i] != c,
        text::position(s, from, c) < s.len() ==> s[text::position(s, from, c)] == c,
    decreases s.len() - from,
{
    if from < s.len() && s[from] != c {
        lemma_position(s, from + 1, c);
    }
}

proof fn lemma_space_position(s: Seq<char>, from: int, want: bool)
    requires
        0 <= from <= s.len(),
    ensures
        ({
            let k = text::space_position(s, from, want);
            &&& from <= k <= s.len()
            &&& forall|i: int| from <= i < k ==> text::is_space(#[trigger] s[i]) != want
            &&& k < s.len() ==> text::is_space(s[k]) == want
        }),
    decreases s.len() - from,
{
    if from < s.len() && text::is_space(s[from]) != want {
        lemma_space_position(s, from + 1, want);
    }
}

proof fn lemma_position_from(s: Seq<char>, n: int, from: int, c: char)
    requires
        0 <= n <= from <= s.len(),
    ensures
        text::position(s, from, c) == n + text::position(s.skip(n), from - n, c),
    decreases s.len() - from,
{
    if from < s.len() {
        assert(s.skip(n)[from - n] == s[from]);
        if s[from] != c {
            lemma_position_from(s, n, from + 1, c);
        }
    }
}

proof fn lemma_space_position_from(s: Seq<char>, n: int, from: int, want: bool)
    requires
        0 <= n <= from <= s.len(),
    ensures
        text::space_position(s, from, want) == n + text::space_position(s.skip(n), from - n, want),
    decreases s.len() - from,
{
    if from < s.len() {
        assert(s.skip(n)[from - n] == s[from]);
        if text::is_space(s[from]) != want {
            lemma_space_position_from(s, n, from + 1, want);
        }
    }
}

/// The lines from a position on are those of what is there.
proof fn lemma_lines_from(s: Seq<char>, n: int, from: int)
    requires
        0 <= n <= from <= s.len(),
    ensures
        text::lines_from(s, from) == text::lines_from(s.skip(n), from - n),
    decreases s.len() - from,
{
    let t = s.skip(n);
    if from < s.len() {
        let k = text::position(s, from, '\n');
        lemma_position(s, from, '\n');
        lemma_position_from(s, n, from, '\n');
        assert(s.subrange(from, s.len() as int) =~= t.subrange(from - n, t.len() as int));
        if k < s.len() {
            assert(s.subrange(from, k) =~= t.subrange(from - n, k - n));
            lemma_lines_from(s, n, k + 1);
        }
    }
}

/// A text without a line feed is one line, and the empty text none.
pub proof fn unbroken_text_is_one_line(s: Seq<char>)
    requires
        !s.contains('\n'),
    ensures
        s.len() == 0 ==> text::lines(s).len() == 0,
        s.len() > 0 ==> text::lines(s).len() == 1 && text::lines(s)[0] == s,
{
    lemma_position(s, 0, '\n');
    let k = text::position(s, 0, '\n');
    if k < s.len() {
        assert(s[k] == '\n');
    }
    assert(s.subrange(0, s.len() as int) =~= s);
}

/// What stands before the first line feed, without a carriage return at its end, is the first
/// line; the other lines are those of what follows.
pub proof fn line_feeds_end_lines(a: Seq<char>, b: Seq<char>)
    requires
        !a.contains('\n'),
    ensures
        ({
            let all = text::lines(a + seq!['\n'] + b);
            let rest = text::lines(b);
            &&& all.len() == rest.len() + 1
            &&& all[0] == a || all[0] + seq!['\r'] == a
            &&& all[0].len() == a.len() ==> a.len() == 0 || a.last() != '\r'
            &&& forall|i: int| 0 <= i < rest.len() ==> all[i + 1] == #[trigger] rest[i]
        }),
{
    let s = a + seq!['\n'] + b;
    let n = a.len() as int;
    assert(s[n] == '\n');
    let k = text::position(s, 0, '\n');
    lemma_position(s, 0, '\n');
    if k < n {
        assert(s[k] == a[k]);
    }
    assert(k <= n) by {
        if k > n {
            assert(s[n] != '\n');
        }
    }
    assert(s.subrange(0, k) =~= a);
    assert(s.skip(n + 1) =~= b);
    lemma_lines_from(s, n + 1, n + 1);
    let all = text::lines(s);
    assert(all == seq![text::without_cr(a)] + text::lines(b));
    if a.len() > 0 && a.last() == '\r' {
        assert(a.drop_last() + seq!['\r'] =~= a);
    }
}

/// `lines_of` gives the lines of the text.
pub proof fn lines_are_listed(content: &str, r: Vec<Vec<char>>)
    requires
        call_ensures(text::lines_of, (content,), r),
    ensures
        r@.len() == text::lines(content@).len(),
        forall|i: int| 0 <= i < r@.len() ==> (#[trigger] r@[i])@ == text::lines(content@)[i],
{
    assert(text::views(r@).len() == r@.len());
    assert forall|i: int| 0 <= i < r@.len() implies (#[trigger] r@[i])@ == text::lines(
        content@,
    )[i] by {
        assert(text::views(r@)[i] == r@[i]@);
    }
}

proof fn lemma_words_from(s: Seq<char>, n: int, from: int)
    requires
        0 <= n <= from <= s.len(),
    ensures
        text::words_from(s, from) == text::words_from(s.skip(n), from - n),
    decreases s.len() - from,
{
    let t = s.skip(n);
    let a = text::space_position(s, from, false);
    lemma_space_position(s, from, false);
    lemma_space_position_from(s, n, from, false);
    if a < s.len() {
        let b = text::space_position(s, a, true);
        lemma_space_position(s, a, true);
        lemma_space_position_from(s, n, a, true);
        assert(s.subrange(a, b) =~= t.subrange(a - n, b - n));
        assert(b > a);
        lemma_words_from(s, n, b);
    }
}

/// White space holds no words.
pub proof fn blanks_hold_no_words(s: Seq<char>)
    requires
        blank(s),
    ensures
        text::words(s).len() == 0,
{
    lemma_space_position(s, 0, false);
    let a = text::space_position(s, 0, false);
    if a < s.len() {
        assert(text::is_space(s[a]));
    }
}

/// What stands between white space, or between it and an end of the text, is a word, whatever
/// the white space is; the other words are those of what follows.
pub proof fn white_space_parts_words(before: Seq<char>, word: Seq<char>, after: Seq<char>)
    requires
        blank(before),
        word.len() > 0,
        solid(word),
        after.len() > 0 ==> text::is_space(after[0]),
    ensures
        ({
            let all = text::words(before + word + after);
            let rest = text::words(after);
            &&& all.len() == rest.len() + 1
            &&& all[0] == word
            &&& forall|i: int| 0 <= i < rest.len() ==> all[i + 1] == #[trigger] rest[i]
        }),
{
    let s = before + word + after;
    let n = before.len() as int;
    let m = n + word.len();
    let a = text::space_position(s, 0, false);
    lemma_space_position(s, 0, false);
    assert(s[n] == word[0]);
    if a < n {
        assert(s[a] == before[a]);
    }
    assert(a <= n) by {
        if a > n {
            assert(text::is_space(s[n]));
        }
    }
    let b = text::space_position(s, n, true);
    lemma_space_position(s, n, true);
    if b < m {
        assert(s[b] == word[b - n]);
    }
    if b > m {
        assert(s[m] == after[0]);
    }
    assert(s.subrange(n, m) =~= word);
    assert(s.skip(m) =~= after);
    lemma_words_from(s, m, m);
    assert(text::words(s) == seq![word] + text::words(after));
}

/// `words_of` gives the words of the text.
pub proof fn words_are_listed(chars: Vec<char>, r: Vec<Vec<char>>)
    requires
        call_ensures(text::words_of, (&chars,), r),
    ensures
        r@.len() == text::words(chars@).len(),
        forall|i: int| 0 <= i < r@.len() ==> (#[trigger] r@[i])@ == text::words(chars@)[i],
{
    assert(text::views(r@).len() == r@.len());
    assert forall|i: int| 0 <= i < r@.len() implies (#[trigger] r@[i])@ == text::words(
        chars@,
    )[i] by {
        assert(text::views(r@)[i] == r@[i]@);
    }
}

/// `c` is the digit `d`.
pub open spec fn digit(c: char, d: int) -> bool {
    0 <= d <= 9 && c as u32 == 48 + d
}

/// A single digit spells its number; any other single character spells none, and neither does
/// the empty text.
pub proof fn digits_spell_numbers(chars: Vec<char>, c: char, r: Option<u64>)
    requires
        chars@ == seq![c] || chars@.len() == 0,
        call_ensures(text::parse_number, (&chars,), r),
    ensures
        r matches Some(v) ==> chars@.len() == 1 && digit(c, v as int),
        chars@.len() == 1 && 48 <= c as u32 <= 57 ==> r is Some,
{
    let d = text::without_plus(chars@);
    if chars@.len() == 1 && d.len() == 1 {
        assert(d.drop_last() =~= Seq::empty());
        assert(text::digits_value(d.drop_last()) == 0);
        assert(d[0] == c);
        assert(d.last() == c);
        if r is Some {
            assert(text::is_digit(d[0]));
        }
        if 48 <= c as u32 <= 57 {
            assert(text::is_digit(c));
            assert(forall|i: int| 0 <= i < d.len() ==> text::is_digit(#[trigger] d[i]));
        }
    }
}

/// One digit more makes ten times the number and the digit, if that is a 64-bit number; one
/// character more that is no digit spells no number, and what spells none does not with more.
pub proof fn digits_count_tenfold(
    chars: Vec<char>,
    more: Vec<char>,
    c: char,
    r: Option<u64>,
    s: Option<u64>,
)
    requires
        more@ == chars@.push(c),
        call_ensures(text::parse_number, (&chars,), r),
        call_ensures(text::parse_number, (&more,), s),
    ensures
        r matches Some(v) ==> match s {
            Some(w) => digit(c, w - 10 * v),
            None => !(48 <= c as u32 <= 57) || 10 * v + (c as u32 - 48) > u64::MAX,
        },
        r is None && s is Some ==> chars@.len() == 0 || chars@ == seq!['+'],
{
    let d = text::without_plus(chars@);
    let e = text::without_plus(more@);
    if chars@.len() > 0 {
        assert(e =~= d.push(c));
        assert(e.drop_last() =~= d);
        assert(e.last() == c);
        assert(forall|i: int| 0 <= i < d.len() ==> #[trigger] e[i] == d[i]);
        assert(e[e.len() - 1] == c);
        if chars@.len() == 1 && chars@[0] == '+' {
            assert(chars@ =~= seq!['+']);
        }
        if r is Some {
            assert(forall|i: int| 0 <= i < d.len() ==> text::is_digit(#[trigger] d[i]));
            if 48 <= c as u32 <= 57 {
                assert(forall|i: int| 0 <= i < e.len() ==> text::is_digit(#[trigger] e[i]));
            }
        }
        if s is Some {
            assert forall|i: int| 0 <= i < d.len() implies text::is_digit(#[trigger] d[i]) by {
                assert(text::is_digit(e[i]));
            }
            assert(text::is_digit(e[e.len() - 1]));
        }
    }
}

/// A plus sign before a number changes nothing; a second one, or anything else before it,
/// spells none.
pub proof fn plus_signs_are_passed_over(
    chars: Vec<char>,
    more: Vec<char>,
    r: Option<u64>,
    s: Option<u64>,
)
    requires
        more@ == seq!['+'] + chars@,
        call_ensures(text::parse_number, (&chars,), r),
        call_ensures(text::parse_number, (&more,), s),
    ensures
        chars@.len() > 0 && chars@[0] == '+' ==> s is None,
        chars@.len() == 0 || chars@[0] != '+' ==> s == r,
{
    assert(text::without_plus(more@) =~= chars@);
    if chars@.len() > 0 && chars@[0] == '+' {
        assert(!text::is_digit(chars@[0]));
    }
}

/// `split_once` parts a text around the first of the characters asked for; there is nothing to
/// part where it does not occur.
pub proof fn texts_part_at_the_first(
    chars: Vec<char>,
    c: char,
    r: Option<(Vec<char>, Vec<char>)>,
)
    requires
        call_ensures(text::split_once, (&chars, c), r),
    ensures
        r matches Some((a, b)) ==> chars@ == a@ + seq![c] + b@ && !a@.contains(c),
        r is None <==> !chars@.contains(c),
{
    let k = text::position(chars@, 0, c);
    lemma_position(chars@, 0, c);
    if k < chars@.len() {
        let a = chars@.take(k);
        assert(chars@ =~= a + seq![c] + chars@.skip(k + 1));
        assert(chars@.contains(c));
        assert(!a.contains(c)) by {
            if a.contains(c) {
                let i = choose|i: int| 0 <= i < a.len() && a[i] == c;
                assert(chars@[i] == c);
            }
        }
    }
}

proof fn lemma_trim_end(s: Seq<char>)
    ensures
        ({
            let t = text::trim_end(s);
            &&& t.is_prefix_of(s)
            &&& blank(s.skip(t.len() as int))
            &&& t.len() > 0 ==> !text::is_space(t.last())
        }),
    decreases s.len(),
{
    if s.len() > 0 && text::is_space(s.last()) {
        let init = s.drop_last();
        lemma_trim_end(init);
        let t = text::trim_end(init);
        assert(t =~= s.take(t.len() as int));
        let rest = s.skip(t.len() as int);
        assert forall|i: int| 0 <= i < rest.len() implies text::is_space(#[trigger] rest[i]) by {
            if i < rest.len() - 1 {
                assert(init.skip(t.len() as int)[i] == rest[i]);
            }
        }
    } else {
        assert(s =~= s.take(s.len() as int));
    }
}

/// `trimmed` leaves out white space at both ends of a text, all of it and nothing else.
pub proof fn texts_are_trimmed_at_both_ends(chars: Vec<char>, r: Vec<char>)
    requires
        call_ensures(text::trimmed, (&chars,), r),
    ensures
        exists|before: Seq<char>, after: Seq<char>|
            chars@ == before + r@ + after && #[trigger] blank(before) && #[trigger] blank(after),
        r@.len() > 0 ==> !text::is_space(r@[0]) && !text::is_space(r@.last()),
{
    let k = text::space_position(chars@, 0, false);
    lemma_space_position(chars@, 0, false);
    let before = chars@.take(k);
    let rest = chars@.skip(k);
    lemma_trim_end(rest);
    let after = rest.skip(r@.len() as int);
    assert(r@ == rest.take(r@.len() as int));
    assert(chars@ =~= before + r@ + after);
    assert forall|i: int| 0 <= i < before.len() implies text::is_space(#[trigger] before[i]) by {
        assert(before[i] == chars@[i]);
    }
    assert(blank(before));
    assert(blank(after));
    if r@.len() > 0 {
        assert(r@[0] == chars@[k]);
    }
}

/// `strip_prefix` gives what follows the prefix, if the text begins with it.
pub proof fn prefixes_are_stripped(s: &str, prefix: &str, r: Option<String>)
    requires
        call_ensures(text::strip_prefix, (s, prefix), r),
    ensures
        r matches Some(rest) ==> s@ == prefix@ + rest@,
        r is None ==> forall|rest: Seq<char>| #[trigger] (prefix@ + rest) != s@,
{
    if prefix@.is_prefix_of(s@) {
        assert(s@ =~= prefix@ + s@.skip(prefix@.len() as int));
    } else {
        assert forall|rest: Seq<char>| #[trigger] (prefix@ + rest) != s@ by {
            if prefix@ + rest == s@ {
                assert(prefix@ =~= s@.take(prefix@.len() as int));
            }
        }
    }
}

} // verus!
