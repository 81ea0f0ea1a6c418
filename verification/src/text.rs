//! Strings as sequences of characters.
use vstd::prelude::*;

verus! {

/// `String::push` appends one character to the end of the string.
pub assume_specification[ String::push ](s: &mut String, c: char)
    ensures
        final(s)@ == old(s)@.push(c),
;

/// What follows `prefix` in `s`, if `s` begins with it.
pub open spec fn after_prefix(s: Seq<char>, prefix: Seq<char>) -> Option<Seq<char>> {
    if prefix.is_prefix_of(s) {
        Some(s.skip(prefix.len() as int))
    } else {
        None
    }
}

/// The contents of an optional string.
pub open spec fn opt_text(s: Option<String>) -> Option<Seq<char>> {
    match s {
        Some(t) => Some(t@),
        None => None,
    }
}

/// The characters of `s`, in order.
pub fn chars_of(s: &str) -> (r: Vec<char>)
    ensures
        r@ == s@,
{
    let mut r: Vec<char> = Vec::new();
    for c in it: s.chars()
        invariant
            it.seq() == s@,
            r@ == s@.take(it.index()),
    {
        proof {
            assert(s@.take(it.index()).push(s@[it.index()]) =~= s@.take(it.index() + 1));
        }
        r.push(c);
    }
    assert(s@.take(s@.len() as int) =~= s@);
    r
}

/// The string made of the characters from `from` up to, not including, `to`.
pub fn string_of(chars: &Vec<char>, from: usize, to: usize) -> (r: String)
    requires
        from <= to <= chars.len(),
    ensures
        r@ == chars@.subrange(from as int, to as int),
{
    let mut r: String = String::new();
    let mut i: usize = from;
    while i < to
        invariant
            from <= i <= to <= chars.len(),
            r@ == chars@.subrange(from as int, i as int),
        decreases to - i,
    {
        r.push(chars[i]);
        i = i + 1;
        assert(r@ =~= chars@.subrange(from as int, i as int));
    }
    r
}

/// Whether `s` reads `t`.
pub fn same_text(s: &String, t: &str) -> (r: bool)
    ensures
        r == (s@ == t@),
{
    let u: String = t.to_owned();
    *s == u
}

/// A copy of an optional string.
pub fn copy_opt(s: &Option<String>) -> (r: Option<String>)
    ensures
        r == *s,
{
    match s {
        Some(t) => Some(t.clone()),
        None => None,
    }
}

/// What follows `prefix` in `s`, if `s` begins with it.
pub fn strip_prefix(s: &str, prefix: &str) -> (r: Option<String>)
    ensures
        opt_text(r) == after_prefix(s@, prefix@),
{
    let a: Vec<char> = chars_of(s);
    let p: Vec<char> = chars_of(prefix);
    if a.len() < p.len() {
        return None;
    }
    let mut i: usize = 0;
    while i < p.len()
        invariant
            a@ == s@,
            p@ == prefix@,
            i <= p.len() <= a.len(),
            forall|j: int| 0 <= j < i ==> a@[j] == p@[j],
        decreases p.len() - i,
    {
        if a[i] != p[i] {
            assert(!prefix@.is_prefix_of(s@));
            return None;
        }
        i = i + 1;
    }
    assert(prefix@ =~= s@.take(i as int));
    assert(prefix@.is_prefix_of(s@));
    let rest: String = string_of(&a, i, a.len());
    assert(rest@ =~= s@.skip(i as int));
    Some(rest)
}

/// The characters with the Unicode property `White_Space`.
pub open spec fn is_space(c: char) -> bool {
    ||| '\u{9}' <= c <= '\u{d}'
    ||| c == ' '
    ||| c == '\u{85}'
    ||| c == '\u{a0}'
    ||| c == '\u{1680}'
    ||| '\u{2000}' <= c <= '\u{200a}'
    ||| c == '\u{2028}'
    ||| c == '\u{2029}'
    ||| c == '\u{202f}'
    ||| c == '\u{205f}'
    ||| c == '\u{3000}'
}

/// The contents of each element.
pub open spec fn views(v: Seq<Vec<char>>) -> Seq<Seq<char>> {
    Seq::new(v.len(), |i: int| v[i]@)
}

/// The first position of `c` from `from` on, or the end.
pub open spec fn position(s: Seq<char>, from: int, c: char) -> int
    decreases s.len() - from,
{
    if from >= s.len() {
        s.len() as int
    } else if s[from] == c {
        from
    } else {
        position(s, from + 1, c)
    }
}

/// The first position from `from` on where being a space is as `want` says, or the end.
pub open spec fn space_position(s: Seq<char>, from: int, want: bool) -> int
    decreases s.len() - from,
{
    if from >= s.len() {
        s.len() as int
    } else if is_space(s[from]) == want {
        from
    } else {
        space_position(s, from + 1, want)
    }
}

/// `s` without a carriage return at its end.
pub open spec fn without_cr(s: Seq<char>) -> Seq<char> {
    if s.len() > 0 && s.last() == '\r' {
        s.drop_last()
    } else {
        s
    }
}

/// The lines of `s` from position `from` on. A line ends with a line feed, which a carriage
/// return may precede; the last line may go without.
pub open spec fn lines_from(s: Seq<char>, from: int) -> Seq<Seq<char>>
    decreases s.len() - from,
    when 0 <= from
    via lines_from_decreases
{
    if from >= s.len() {
        Seq::empty()
    } else {
        let k = position(s, from, '\n');
        if k >= s.len() {
            seq![s.subrange(from, s.len() as int)]
        } else {
            seq![without_cr(s.subrange(from, k))] + lines_from(s, k + 1)
        }
    }
}

#[via_fn]
proof fn lines_from_decreases(s: Seq<char>, from: int) {
    lemma_position(s, from, '\n');
}

/// The lines of `s`.
pub open spec fn lines(s: Seq<char>) -> Seq<Seq<char>> {
    lines_from(s, 0)
}

/// The words of `s` from position `from` on: the longest runs without a space.
pub open spec fn words_from(s: Seq<char>, from: int) -> Seq<Seq<char>>
    decreases s.len() - from,
    when 0 <= from
    via words_from_decreases
{
    let a = space_position(s, from, false);
    if a >= s.len() {
        Seq::empty()
    } else {
        let b = space_position(s, a, true);
        seq![s.subrange(a, b)] + words_from(s, b)
    }
}

#[via_fn]
proof fn words_from_decreases(s: Seq<char>, from: int) {
    lemma_space_position(s, from, false);
    lemma_space_position(s, space_position(s, from, false), true);
}

/// The words of `s`.
pub open spec fn words(s: Seq<char>) -> Seq<Seq<char>> {
    words_from(s, 0)
}

proof fn lemma_position(s: Seq<char>, from: int, c: char)
    requires
        0 <= from,
    ensures
        from <= s.len() ==> from <= position(s, from, c) <= s.len(),
        from > s.len() ==> position(s, from, c) == s.len(),
    decreases s.len() - from,
{
    if from < s.len() && s[from] != c {
        lemma_position(s, from + 1, c);
    }
}

proof fn lemma_space_position(s: Seq<char>, from: int, want: bool)
    requires
        0 <= from,
    ensures
        from <= s.len() ==> from <= space_position(s, from, want) <= s.len(),
        from > s.len() ==> space_position(s, from, want) == s.len(),
        space_position(s, from, want) < s.len() ==> is_space(s[space_position(s, from, want)]) == want,
    decreases s.len() - from,
{
    if from < s.len() && is_space(s[from]) != want {
        lemma_space_position(s, from + 1, want);
    }
}

/// Whether `c` has the Unicode property `White_Space`.
pub fn is_white_space(c: char) -> (r: bool)
    ensures
        r == is_space(c),
{
    ('\u{9}' <= c && c <= '\u{d}') || c == ' ' || c == '\u{85}' || c == '\u{a0}' || c
        == '\u{1680}' || ('\u{2000}' <= c && c <= '\u{200a}') || c == '\u{2028}' || c == '\u{2029}'
        || c == '\u{202f}' || c == '\u{205f}' || c == '\u{3000}'
}

/// A copy of the characters from `from` up to, not including, `to`.
fn part(chars: &Vec<char>, from: usize, to: usize) -> (r: Vec<char>)
    requires
        from <= to <= chars.len(),
    ensures
        r@ == chars@.subrange(from as int, to as int),
{
    let mut r: Vec<char> = Vec::new();
    let mut i: usize = from;
    while i < to
        invariant
            from <= i <= to <= chars.len(),
            r@ == chars@.subrange(from as int, i as int),
        decreases to - i,
    {
        r.push(chars[i]);
        i = i + 1;
        assert(r@ =~= chars@.subrange(from as int, i as int));
    }
    r
}

/// The first position of `c` from `from` on, or the end.
fn find(chars: &Vec<char>, from: usize, c: char) -> (r: usize)
    requires
        from <= chars.len(),
    ensures
        from <= r <= chars.len(),
        r == position(chars@, from as int, c),
{
    let mut i: usize = from;
    while i < chars.len() && chars[i] != c
        invariant
            from <= i <= chars.len(),
            position(chars@, from as int, c) == position(chars@, i as int, c),
        decreases chars.len() - i,
    {
        i = i + 1;
    }
    i
}

/// The first position from `from` on where being a space is as `want` says, or the end.
fn find_space(chars: &Vec<char>, from: usize, want: bool) -> (r: usize)
    requires
        from <= chars.len(),
    ensures
        from <= r <= chars.len(),
        r == space_position(chars@, from as int, want),
{
    let mut i: usize = from;
    while i < chars.len() && is_white_space(chars[i]) != want
        invariant
            from <= i <= chars.len(),
            space_position(chars@, from as int, want) == space_position(chars@, i as int, want),
        decreases chars.len() - i,
    {
        i = i + 1;
    }
    i
}

/// The lines of `content`.
pub fn lines_of(content: &str) -> (r: Vec<Vec<char>>)
    ensures
        views(r@) == lines(content@),
{
    let chars: Vec<char> = chars_of(content);
    let mut out: Vec<Vec<char>> = Vec::new();
    let mut at: usize = 0;
    assert(views(out@) + lines_from(chars@, 0) =~= lines(chars@));
    while at < chars.len()
        invariant
            at <= chars.len(),
            views(out@) + lines_from(chars@, at as int) == lines(chars@),
        decreases chars.len() - at,
    {
        let ghost before = views(out@);
        let k: usize = find(&chars, at, '\n');
        if k == chars.len() {
            let line: Vec<char> = part(&chars, at, k);
            out.push(line);
            proof {
                assert(views(out@) =~= before.push(line@));
                assert(lines_from(chars@, k as int) =~= Seq::empty());
                assert(views(out@) + lines_from(chars@, k as int) =~= before + lines_from(
                    chars@,
                    at as int,
                ));
            }
            at = k;
        } else {
            let end: usize = if k > at && chars[k - 1] == '\r' {
                k - 1
            } else {
                k
            };
            let line: Vec<char> = part(&chars, at, end);
            out.push(line);
            proof {
                let raw = chars@.subrange(at as int, k as int);
                assert(line@ =~= without_cr(raw)) by {
                    if k > at {
                        assert(raw.last() == chars@[k - 1]);
                        assert(raw.drop_last() =~= chars@.subrange(at as int, k - 1));
                    }
                }
                assert(views(out@) =~= before.push(line@));
                assert(views(out@) + lines_from(chars@, k + 1) =~= before + lines_from(
                    chars@,
                    at as int,
                ));
            }
            at = k + 1;
        }
    }
    assert(views(out@) + lines_from(chars@, at as int) =~= views(out@));
    out
}

/// The words of `chars`.
pub fn words_of(chars: &Vec<char>) -> (r: Vec<Vec<char>>)
    ensures
        views(r@) == words(chars@),
{
    let mut out: Vec<Vec<char>> = Vec::new();
    let mut at: usize = find_space(chars, 0, false);
    proof {
        lemma_words_skip(chars@, 0);
        assert(views(out@) + words_from(chars@, at as int) =~= words(chars@));
    }
    while at < chars.len()
        invariant
            at <= chars.len(),
            at == space_position(chars@, at as int, false),
            views(out@) + words_from(chars@, at as int) == words(chars@),
        decreases chars.len() - at,
    {
        let ghost before = views(out@);
        let b: usize = find_space(chars, at, true);
        let next: usize = find_space(chars, b, false);
        let word: Vec<char> = part(chars, at, b);
        out.push(word);
        proof {
            lemma_space_position(chars@, at as int, false);
            lemma_space_position(chars@, at as int, true);
            lemma_space_position(chars@, b as int, false);
            lemma_words_skip(chars@, b as int);
            assert(views(out@) =~= before.push(word@));
            assert(views(out@) + words_from(chars@, next as int) =~= before + words_from(
                chars@,
                at as int,
            ));
            lemma_space_fixed(chars@, b as int, false);
        }
        at = next;
    }
    proof {
        lemma_space_position(chars@, at as int, false);
        assert(views(out@) + words_from(chars@, at as int) =~= views(out@));
    }
    out
}

/// Spaces before a word do not matter.
proof fn lemma_words_skip(s: Seq<char>, from: int)
    requires
        0 <= from <= s.len(),
    ensures
        words_from(s, from) == words_from(s, space_position(s, from, false)),
        space_position(s, space_position(s, from, false), false) == space_position(s, from, false),
{
    lemma_space_position(s, from, false);
    lemma_space_fixed(s, from, false);
}

proof fn lemma_space_fixed(s: Seq<char>, from: int, want: bool)
    requires
        0 <= from,
    ensures
        space_position(s, space_position(s, from, want), want) == space_position(s, from, want),
    decreases s.len() - from,
{
    if from < s.len() && is_space(s[from]) != want {
        lemma_space_fixed(s, from + 1, want);
    }
}

/// The string that `chars` spells.
pub fn to_text(chars: &Vec<char>) -> (r: String)
    ensures
        r@ == chars@,
{
    let r: String = string_of(chars, 0, chars.len());
    assert(r@ =~= chars@);
    r
}

/// The number that a sequence of decimal digits stands for.
pub open spec fn digits_value(s: Seq<char>) -> nat
    decreases s.len(),
{
    if s.len() == 0 {
        0
    } else {
        digits_value(s.drop_last()) * 10 + (s.last() as u32 - '0' as u32) as nat
    }
}

/// Whether `c` is an ASCII digit.
pub open spec fn is_digit(c: char) -> bool {
    '0' <= c <= '9'
}

/// The 64-bit number that a sequence of decimal digits stands for.
pub open spec fn digits_number(d: Seq<char>) -> Option<u64> {
    if d.len() > 0 && (forall|i: int| 0 <= i < d.len() ==> is_digit(#[trigger] d[i]))
        && digits_value(d) <= u64::MAX {
        Some(digits_value(d) as u64)
    } else {
        None
    }
}

/// `s` without a plus sign at its beginning.
pub open spec fn without_plus(s: Seq<char>) -> Seq<char> {
    if s.len() > 0 && s[0] == '+' {
        s.skip(1)
    } else {
        s
    }
}

/// The unsigned 64-bit number that `s` spells: decimal digits, with a plus sign before them
/// or without.
pub open spec fn number(s: Seq<char>) -> Option<u64> {
    digits_number(without_plus(s))
}

/// More digits never make a smaller number.
proof fn lemma_digits_grow(s: Seq<char>, n: int)
    requires
        0 <= n <= s.len(),
    ensures
        digits_value(s.take(n)) <= digits_value(s),
    decreases s.len(),
{
    if n == s.len() {
        assert(s.take(n) =~= s);
    } else {
        lemma_digits_grow(s.drop_last(), n);
        assert(s.drop_last().take(n) =~= s.take(n));
    }
}

/// The unsigned 64-bit number that `chars` spells.
pub fn parse_number(chars: &Vec<char>) -> (r: Option<u64>)
    ensures
        r == number(chars@),
{
    let start: usize = if chars.len() > 0 && chars[0] == '+' {
        1
    } else {
        0
    };
    let ghost d = without_plus(chars@);
    assert(d =~= chars@.skip(start as int));
    if start == chars.len() {
        return None;
    }
    let mut value: u64 = 0;
    let mut i: usize = start;
    assert(d.take(0) =~= Seq::empty());
    while i < chars.len()
        invariant
            start <= i <= chars.len(),
            start < chars.len(),
            d == without_plus(chars@),
            d == chars@.skip(start as int),
            forall|j: int| 0 <= j < i - start ==> is_digit(#[trigger] d[j]),
            value == digits_value(d.take(i - start)),
        decreases chars.len() - i,
    {
        let c: char = chars[i];
        assert(d[i - start] == c);
        if c < '0' || c > '9' {
            assert(!is_digit(d[i - start]));
            return None;
        }
        let digit: u64 = (c as u32 - '0' as u32) as u64;
        proof {
            assert(d.take(i + 1 - start).drop_last() =~= d.take(i - start));
            assert(d.take(i + 1 - start).last() == c);
            lemma_digits_grow(d, i + 1 - start);
        }
        value = match value.checked_mul(10) {
            Some(v) => match v.checked_add(digit) {
                Some(w) => w,
                None => {
                    return None;
                },
            },
            None => {
                return None;
            },
        };
        i = i + 1;
    }
    assert(d.take(i - start) =~= d);
    Some(value)
}

/// What stands before and after the first `c` in `s`, if there is one.
pub open spec fn around(s: Seq<char>, c: char) -> Option<(Seq<char>, Seq<char>)> {
    let k = position(s, 0, c);
    if k < s.len() {
        Some((s.take(k), s.skip(k + 1)))
    } else {
        None
    }
}

/// What stands before and after the first `c` in `chars`, if there is one.
pub fn split_once(chars: &Vec<char>, c: char) -> (r: Option<(Vec<char>, Vec<char>)>)
    ensures
        match r {
            Some(p) => around(chars@, c) == Some((p.0@, p.1@)),
            None => around(chars@, c) is None,
        },
{
    let k: usize = find(chars, 0, c);
    if k == chars.len() {
        return None;
    }
    let before: Vec<char> = part(chars, 0, k);
    let after: Vec<char> = part(chars, k + 1, chars.len());
    assert(before@ =~= chars@.take(k as int));
    assert(after@ =~= chars@.skip(k + 1));
    Some((before, after))
}

/// `s` without the spaces at its end.
pub open spec fn trim_end(s: Seq<char>) -> Seq<char>
    decreases s.len(),
{
    if s.len() > 0 && is_space(s.last()) {
        trim_end(s.drop_last())
    } else {
        s
    }
}

/// `s` without the spaces at its beginning and at its end.
pub open spec fn trim(s: Seq<char>) -> Seq<char> {
    trim_end(s.skip(space_position(s, 0, false)))
}

/// `chars` without the spaces at its beginning and at its end.
pub fn trimmed(chars: &Vec<char>) -> (r: Vec<char>)
    ensures
        r@ == trim(chars@),
{
    let a: usize = find_space(chars, 0, false);
    let mut b: usize = chars.len();
    assert(chars@.subrange(a as int, b as int) =~= chars@.skip(a as int));
    while b > a && is_white_space(chars[b - 1])
        invariant
            a <= b <= chars.len(),
            a == space_position(chars@, 0, false),
            trim_end(chars@.subrange(a as int, b as int)) == trim(chars@),
        decreases b,
    {
        proof {
            let cut = chars@.subrange(a as int, b as int);
            assert(cut.last() == chars@[b - 1]);
            assert(cut.drop_last() =~= chars@.subrange(a as int, b - 1));
        }
        b = b - 1;
    }
    proof {
        let cut = chars@.subrange(a as int, b as int);
        if b > a {
            assert(cut.last() == chars@[b - 1]);
        }
    }
    part(chars, a, b)
}

} // verus!
