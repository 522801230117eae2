//! Character-level text primitives shared by every parser of the crate.
//!
//! Text is handled as a sequence of Unicode scalar values. Each splitting
//! function is specified by a recursive function over positions of the
//! sequence, so that a caller can reason about tokens and lines without
//! reading the loops that compute them.

use vstd::prelude::*;

verus! {

/// Whether `c` has the Unicode `White_Space` property.
pub open spec fn is_space(c: char) -> bool {
    ||| '\u{9}' <= c <= '\u{d}'
    ||| c == ' '
    ||| c == '\u{85}'
    ||| c == '\u{a0}'
    ||| c == '\u{1680}'
    ||| '\u{2000}' <= c <= '\u{200a}'
    ||| c == '\u{2028}'
    ||| c == '\u{2029}'
    ||| c == '\u{202f}'
    ||| c == '\u{205f}'
    ||| c == '\u{3000}'
}

/// Tests a character for the `White_Space` property.
pub fn char_is_space(c: char) -> (r: bool)
    ensures
        r == is_space(c),
{
    ('\u{9}' <= c && c <= '\u{d}') || c == ' ' || c == '\u{85}' || c == '\u{a0}' || c
        == '\u{1680}' || ('\u{2000}' <= c && c <= '\u{200a}') || c == '\u{2028}' || c
        == '\u{2029}' || c == '\u{202f}' || c == '\u{205f}' || c == '\u{3000}'
}

/// A class of characters at which a scan stops.
#[derive(Clone, Copy, Debug)]
pub enum Class {
    /// White space.
    Space,
    /// Anything but white space.
    Solid,
    /// The line feed.
    Newline,
    /// Anything but a decimal digit.
    NonDigit,
    /// The comma.
    Comma,
    /// The colon.
    Colon,
}

/// Whether `c` belongs to the class `k`.
pub open spec fn in_class(k: Class, c: char) -> bool {
    match k {
        Class::Space => is_space(c),
        Class::Solid => !is_space(c),
        Class::Newline => c == '\n',
        Class::NonDigit => !is_digit(c),
        Class::Comma => c == ',',
        Class::Colon => c == ':',
    }
}

/// Whether `c` is one of the decimal digits `0` to `9`.
pub open spec fn is_digit(c: char) -> bool {
    '0' <= c <= '9'
}

/// The number that a decimal digit stands for.
pub open spec fn digit_value(c: char) -> int {
    c as int - 48
}

/// The code point of a character.
pub fn char_code(c: char) -> (n: u32)
    ensures
        n as int == c as int,
        n <= 0x10FFFF,
{
    c as u32
}

/// Tests a character for being a decimal digit.
pub fn char_is_digit(c: char) -> (r: bool)
    ensures
        r == is_digit(c),
{
    '0' <= c && c <= '9'
}

/// Tests membership of a character in a class.
pub fn class_has(k: Class, c: char) -> (r: bool)
    ensures
        r == in_class(k, c),
{
    match k {
        Class::Space => char_is_space(c),
        Class::Solid => !char_is_space(c),
        Class::Newline => c == '\n',
        Class::NonDigit => !char_is_digit(c),
        Class::Comma => c == ',',
        Class::Colon => c == ':',
    }
}

/// The first position at or after `start` whose character is in class `k`,
/// or the length of `s` when there is none.
pub open spec fn find_from(s: Seq<char>, start: int, k: Class) -> int
    decreases s.len() - start,
{
    if start < 0 || start >= s.len() {
        s.len() as int
    } else if in_class(k, s[start]) {
        start
    } else {
        find_from(s, start + 1, k)
    }
}

/// `find_from` returns a position between `start` and the end, skips only
/// characters outside the class, and stops on a character of the class.
pub proof fn lemma_find_from(s: Seq<char>, start: int, k: Class)
    requires
        0 <= start <= s.len(),
    ensures
        start <= find_from(s, start, k) <= s.len(),
        forall|j: int| start <= j < find_from(s, start, k) ==> !in_class(k, #[trigger] s[j]),
        find_from(s, start, k) < s.len() ==> in_class(k, s[find_from(s, start, k)]),
    decreases s.len() - start,
{
    if start < s.len() && !in_class(k, s[start]) {
        lemma_find_from(s, start + 1, k);
    }
}

/// A position that is reached past characters outside the class, and that
/// is the end or holds a character of the class, is what `find_from` finds.
pub proof fn lemma_find_from_is(s: Seq<char>, start: int, k: Class, n: int)
    requires
        0 <= start <= n <= s.len(),
        forall|j: int| start <= j < n ==> !in_class(k, #[trigger] s[j]),
        n < s.len() ==> in_class(k, s[n]),
    ensures
        find_from(s, start, k) == n,
    decreases n - start,
{
    if start < n {
        lemma_find_from_is(s, start + 1, k, n);
    }
}

/// Scans `s` from `start` for the first character of class `k`.
pub fn find(s: &[char], start: usize, k: Class) -> (r: usize)
    requires
        start <= s.len(),
    ensures
        r == find_from(s@, start as int, k),
        start <= r <= s.len(),
{
    let mut i: usize = start;
    while i < s.len() && !class_has(k, s[i])
        invariant
            start <= i <= s.len(),
            find_from(s@, start as int, k) == find_from(s@, i as int, k),
        decreases s.len() - i,
    {
        i += 1;
    }
    i
}

/// The views of a sequence of character vectors.
pub open spec fn seqs(v: Seq<Vec<char>>) -> Seq<Seq<char>> {
    Seq::new(v.len(), |i: int| v[i]@)
}

/// The views of a sequence of strings.
pub open spec fn strs(v: Seq<String>) -> Seq<Seq<char>> {
    Seq::new(v.len(), |i: int| v[i]@)
}

/// The white-space separated tokens of `s` that begin at or after `i`.
pub open spec fn tokens_from(s: Seq<char>, i: int) -> Seq<Seq<char>>
    decreases s.len() - i,
    via tokens_from_decreases
{
    if i < 0 || i >= s.len() {
        Seq::empty()
    } else if is_space(s[i]) {
        tokens_from(s, i + 1)
    } else {
        let e = find_from(s, i + 1, Class::Space);
        seq![s.subrange(i, e)] + tokens_from(s, e)
    }
}

#[via_fn]
proof fn tokens_from_decreases(s: Seq<char>, i: int) {
    if 0 <= i < s.len() && !is_space(s[i]) {
        lemma_find_from(s, i + 1, Class::Space);
    }
}

/// The white-space separated tokens of `s`: the maximal runs of characters
/// that are not white space, in order.
pub open spec fn tokens(s: Seq<char>) -> Seq<Seq<char>> {
    tokens_from(s, 0)
}

/// A copy of the characters of `s` from `a` up to `b`.
pub fn slice_vec(s: &[char], a: usize, b: usize) -> (r: Vec<char>)
    requires
        a <= b <= s.len(),
    ensures
        r@ == s@.subrange(a as int, b as int),
{
    let mut r: Vec<char> = Vec::new();
    let mut i: usize = a;
    while i < b
        invariant
            a <= i <= b <= s.len(),
            r@ == s@.subrange(a as int, i as int),
        decreases b - i,
    {
        r.push(s[i]);
        i += 1;
        assert(r@ =~= s@.subrange(a as int, i as int));
    }
    r
}

/// Splits a line into its white-space separated tokens.
pub fn split_tokens(s: &[char]) -> (r: Vec<Vec<char>>)
    ensures
        seqs(r@) == tokens(s@),
{
    let mut r: Vec<Vec<char>> = Vec::new();
    let mut i: usize = 0;
    assert(seqs(r@) =~= Seq::<Seq<char>>::empty());
    while i < s.len()
        invariant
            i <= s.len(),
            tokens(s@) == seqs(r@) + tokens_from(s@, i as int),
        decreases s.len() - i,
    {
        if char_is_space(s[i]) {
            i += 1;
        } else {
            let e = find(s, i + 1, Class::Space);
            let ghost before = seqs(r@);
            r.push(slice_vec(s, i, e));
            assert(seqs(r@) =~= before.push(s@.subrange(i as int, e as int)));
            assert(before + (seq![s@.subrange(i as int, e as int)] + tokens_from(s@, e as int))
                =~= before.push(s@.subrange(i as int, e as int)) + tokens_from(s@, e as int));
            i = e;
        }
    }
    assert(seqs(r@) + Seq::<Seq<char>>::empty() =~= seqs(r@));
    r
}

/// A line that was closed by a line feed, without the carriage return
/// before the line feed where there is one.
pub open spec fn chomp(line: Seq<char>) -> Seq<char> {
    if line.len() > 0 && line.last() == '\r' {
        line.drop_last()
    } else {
        line
    }
}

/// The lines of `s` that begin at or after `i`. A line ends at a line feed
/// or at the end of the text; a line feed at the very end opens no further
/// line.
pub open spec fn lines_from(s: Seq<char>, i: int) -> Seq<Seq<char>>
    decreases s.len() - i,
    via lines_from_decreases
{
    if i < 0 || i >= s.len() {
        Seq::empty()
    } else {
        let e = find_from(s, i, Class::Newline);
        if e < s.len() {
            seq![chomp(s.subrange(i, e))] + lines_from(s, e + 1)
        } else {
            seq![s.subrange(i, e)]
        }
    }
}

#[via_fn]
proof fn lines_from_decreases(s: Seq<char>, i: int) {
    if 0 <= i < s.len() {
        lemma_find_from(s, i, Class::Newline);
    }
}

/// The lines of a text, without their line endings.
pub open spec fn lines(s: Seq<char>) -> Seq<Seq<char>> {
    lines_from(s, 0)
}

/// Splits a text into its lines.
pub fn split_lines(s: &[char]) -> (r: Vec<Vec<char>>)
    ensures
        seqs(r@) == lines(s@),
{
    let mut r: Vec<Vec<char>> = Vec::new();
    let mut i: usize = 0;
    assert(seqs(r@) =~= Seq::<Seq<char>>::empty());
    while i < s.len()
        invariant
            i <= s.len(),
            lines(s@) == seqs(r@) + lines_from(s@, i as int),
        decreases s.len() - i,
    {
        let e = find(s, i, Class::Newline);
        let ghost before = seqs(r@);
        if e < s.len() {
            let stop = if i < e && s[e - 1] == '\r' {
                e - 1
            } else {
                e
            };
            let ghost line = chomp(s@.subrange(i as int, e as int));
            assert(s@.subrange(i as int, stop as int) =~= line);
            r.push(slice_vec(s, i, stop));
            assert(seqs(r@) =~= before.push(line));
            assert(before + (seq![line] + lines_from(s@, e + 1)) =~= before.push(line)
                + lines_from(s@, e + 1));
            i = e + 1;
        } else {
            let ghost line = s@.subrange(i as int, e as int);
            r.push(slice_vec(s, i, e));
            assert(seqs(r@) =~= before.push(line));
            assert(before + seq![line] =~= before.push(line) + lines_from(s@, e as int));
            i = e;
        }
    }
    assert(seqs(r@) + Seq::<Seq<char>>::empty() =~= seqs(r@));
    r
}

/// The characters of a string slice, in order.
pub fn chars_of(s: &str) -> (v: Vec<char>)
    ensures
        v@ == s@,
{
    let mut v: Vec<char> = Vec::new();
    for c in it: s.chars()
        invariant
            it.seq() == s@,
            v@ == it.seq().take(it.index()),
    {
        v.push(c);
    }
    v
}

/// `String::push` of the standard library: the string gains the character
/// `c` at its end and is otherwise unchanged.
#[verifier::external_body]
fn push_char(s: &mut String, c: char)
    ensures
        final(s)@ == old(s)@.push(c),
{
    s.push(c)
}

/// The string that holds the characters of `s`.
pub fn string_of(s: &[char]) -> (r: String)
    ensures
        r@ == s@,
{
    let mut r = String::new();
    let mut i: usize = 0;
    while i < s.len()
        invariant
            i <= s.len(),
            r@ == s@.take(i as int),
        decreases s.len() - i,
    {
        push_char(&mut r, s[i]);
        i += 1;
        assert(r@ =~= s@.take(i as int));
    }
    assert(s@.take(s.len() as int) =~= s@);
    r
}

/// Whether two character slices hold the same text.
pub fn same_text(a: &[char], b: &[char]) -> (r: bool)
    ensures
        r == (a@ == b@),
{
    if a.len() != b.len() {
        return false;
    }
    let mut i: usize = 0;
    while i < a.len()
        invariant
            i <= a.len(),
            a.len() == b.len(),
            forall|j: int| 0 <= j < i ==> a@[j] == b@[j],
        decreases a.len() - i,
    {
        if a[i] != b[i] {
            return false;
        }
        i += 1;
    }
    assert(a@ =~= b@);
    true
}

/// Whether `needle` occurs in `hay` at position `i`.
pub open spec fn occurs_at(hay: Seq<char>, needle: Seq<char>, i: int) -> bool {
    0 <= i && i + needle.len() <= hay.len() && hay.subrange(i, i + needle.len()) == needle
}

/// Whether `needle` occurs somewhere in `hay`.
pub open spec fn contains(hay: Seq<char>, needle: Seq<char>) -> bool {
    exists|i: int| occurs_at(hay, needle, i)
}

/// Tests whether `needle` occurs in `hay` at position `i`.
pub fn matches_at(hay: &[char], needle: &[char], i: usize) -> (r: bool)
    ensures
        r == occurs_at(hay@, needle@, i as int),
{
    if needle.len() > hay.len() || i > hay.len() - needle.len() {
        return false;
    }
    let mut j: usize = 0;
    while j < needle.len()
        invariant
            j <= needle.len(),
            i + needle.len() <= hay.len(),
            forall|t: int| 0 <= t < j ==> hay@[i + t] == needle@[t],
        decreases needle.len() - j,
    {
        if hay[i + j] != needle[j] {
            assert(hay@.subrange(i as int, i + needle.len())[j as int] == hay@[i + j]);
            return false;
        }
        j += 1;
    }
    assert(hay@.subrange(i as int, i + needle.len()) =~= needle@);
    true
}

/// The position of the first occurrence of `needle` in `hay`, if any.
pub fn find_text(hay: &[char], needle: &[char]) -> (r: Option<usize>)
    ensures
        match r {
            Some(i) => occurs_at(hay@, needle@, i as int) && forall|j: int|
                0 <= j < i ==> !occurs_at(hay@, needle@, j),
            None => !contains(hay@, needle@),
        },
{
    if needle.len() > hay.len() {
        return None;
    }
    let last: usize = hay.len() - needle.len();
    let mut i: usize = 0;
    while i < last
        invariant
            i <= last,
            last == hay.len() - needle.len(),
            forall|j: int| 0 <= j < i ==> !occurs_at(hay@, needle@, j),
        decreases last - i,
    {
        if matches_at(hay, needle, i) {
            return Some(i);
        }
        i += 1;
    }
    if matches_at(hay, needle, last) {
        Some(last)
    } else {
        None
    }
}

/// Tests whether `needle` occurs somewhere in `hay`.
pub fn has_text(hay: &[char], needle: &[char]) -> (r: bool)
    ensures
        r == contains(hay@, needle@),
{
    find_text(hay, needle).is_some()
}

/// Whether `a` comes before `b` in lexicographic order of code points,
/// given that the two agree before position `i`.
pub open spec fn lex_lt_from(a: Seq<char>, b: Seq<char>, i: int) -> bool
    decreases a.len() - i,
{
    if i >= b.len() {
        false
    } else if i >= a.len() {
        true
    } else if a[i] != b[i] {
        a[i] < b[i]
    } else {
        lex_lt_from(a, b, i + 1)
    }
}

/// Whether `a` comes strictly before `b` in lexicographic order of code
/// points: the order in which file names are sorted.
pub open spec fn lex_lt(a: Seq<char>, b: Seq<char>) -> bool {
    lex_lt_from(a, b, 0)
}

/// No text comes before itself.
pub proof fn lemma_lex_irreflexive(a: Seq<char>, i: int)
    requires
        0 <= i,
    ensures
        !lex_lt_from(a, a, i),
    decreases a.len() - i,
{
    if i < a.len() {
        lemma_lex_irreflexive(a, i + 1);
    }
}

/// Of two texts that agree before `i`, one comes before the other or the
/// two are equal, and never both ways.
pub proof fn lemma_lex_total(a: Seq<char>, b: Seq<char>, i: int)
    requires
        0 <= i <= a.len(),
        i <= b.len(),
        a.take(i) == b.take(i),
    ensures
        lex_lt_from(a, b, i) || lex_lt_from(b, a, i) || a == b,
        !(lex_lt_from(a, b, i) && lex_lt_from(b, a, i)),
    decreases a.len() - i,
{
    if i < a.len() && i < b.len() && a[i] == b[i] {
        assert(a.take(i + 1) =~= a.take(i).push(a[i]));
        assert(b.take(i + 1) =~= b.take(i).push(b[i]));
        lemma_lex_total(a, b, i + 1);
    } else if i == a.len() && i == b.len() {
        assert(a.take(i) =~= a);
        assert(b.take(i) =~= b);
    }
}

/// Of any two texts, one comes before the other or the two are equal, and
/// never both ways.
pub proof fn lemma_lex_trichotomy(a: Seq<char>, b: Seq<char>)
    ensures
        lex_lt(a, b) || lex_lt(b, a) || a == b,
        !(lex_lt(a, b) && lex_lt(b, a)),
{
    assert(a.take(0) =~= b.take(0));
    lemma_lex_total(a, b, 0);
}

/// The order is transitive.
pub proof fn lemma_lex_trans(a: Seq<char>, b: Seq<char>, c: Seq<char>, i: int)
    requires
        0 <= i,
        lex_lt_from(a, b, i),
        lex_lt_from(b, c, i),
    ensures
        lex_lt_from(a, c, i),
    decreases b.len() - i,
{
    if i < a.len() && i < b.len() && i < c.len() && a[i] == b[i] && b[i] == c[i] {
        lemma_lex_trans(a, b, c, i + 1);
    }
}

/// Compares two texts in lexicographic order of code points.
pub fn lex_less(a: &[char], b: &[char]) -> (r: bool)
    ensures
        r == lex_lt(a@, b@),
{
    let mut i: usize = 0;
    while i < a.len() && i < b.len()
        invariant
            i <= a.len(),
            i <= b.len(),
            lex_lt(a@, b@) == lex_lt_from(a@, b@, i as int),
        decreases a.len() - i,
    {
        if a[i] != b[i] {
            return a[i] < b[i];
        }
        i += 1;
    }
    i < b.len()
}

/// The number written by the first `n` characters of `s`, read as decimal
/// digits.
pub open spec fn decimal(s: Seq<char>, n: int) -> int
    decreases n,
{
    if n <= 0 {
        0
    } else {
        decimal(s, n - 1) * 10 + digit_value(s[n - 1])
    }
}

/// Whether every character of `s` is a decimal digit.
pub open spec fn all_digits(s: Seq<char>) -> bool {
    forall|i: int| 0 <= i < s.len() ==> is_digit(#[trigger] s[i])
}

/// Whether `s` begins with a plus or a minus sign.
pub open spec fn has_sign(s: Seq<char>) -> bool {
    s.len() > 0 && (s[0] == '+' || s[0] == '-')
}

/// The integer that `s` denotes: an optional sign and at least one decimal
/// digit, with a value that a signed 64-bit integer holds. Any other text
/// denotes none.
pub open spec fn integer_of(s: Seq<char>) -> Option<int> {
    let start: int = if has_sign(s) {
        1
    } else {
        0
    };
    let digits = s.subrange(start, s.len() as int);
    if digits.len() == 0 || !all_digits(digits) {
        None
    } else {
        let m = decimal(digits, digits.len() as int);
        let v = if s[0] == '-' {
            -m
        } else {
            m
        };
        if i64::MIN <= v <= i64::MAX {
            Some(v)
        } else {
            None
        }
    }
}

/// More digits never write a smaller number.
pub proof fn lemma_decimal_grows(s: Seq<char>, a: int, b: int)
    requires
        0 <= a <= b <= s.len(),
        all_digits(s),
    ensures
        0 <= decimal(s, a) <= decimal(s, b),
    decreases b,
{
    if a < b {
        lemma_decimal_grows(s, a, b - 1);
        assert(is_digit(s[b - 1]));
    } else if a > 0 {
        lemma_decimal_grows(s, a - 1, a - 1);
        assert(is_digit(s[a - 1]));
    }
}

/// Reads a signed decimal integer.
pub fn parse_int(s: &[char]) -> (r: Option<i64>)
    ensures
        match r {
            Some(v) => integer_of(s@) == Some(v as int),
            None => integer_of(s@) is None,
        },
{
    let n = s.len();
    let start: usize = if n > 0 && (s[0] == '+' || s[0] == '-') {
        1
    } else {
        0
    };
    if start == n {
        return None;
    }
    let negative = s[0] == '-';
    let ghost digits = s@.subrange(start as int, n as int);
    let limit: u128 = if negative {
        9223372036854775808
    } else {
        9223372036854775807
    };
    let mut acc: u128 = 0;
    let mut i: usize = start;
    while i < n
        invariant
            start <= i <= n,
            n == s.len(),
            start == (if has_sign(s@) { 1int } else { 0int }),
            digits == s@.subrange(start as int, n as int),
            acc == decimal(digits, i - start),
            acc <= limit,
            limit == (if s@[0] == '-' { 9223372036854775808int } else { 9223372036854775807int }),
            forall|j: int| 0 <= j < i - start ==> is_digit(#[trigger] digits[j]),
        decreases n - i,
    {
        let c = s[i];
        if !char_is_digit(c) {
            assert(!is_digit(digits[i - start]));
            return None;
        }
        let d: u128 = (char_code(c) - 0x30) as u128;
        let next: u128 = acc * 10 + d;
        assert(next == decimal(digits, i - start + 1));
        if next > limit {
            proof {
                if all_digits(digits) {
                    lemma_decimal_grows(digits, i - start + 1, digits.len() as int);
                }
            }
            return None;
        }
        acc = next;
        i += 1;
    }
    assert(all_digits(digits));
    if negative {
        if acc == 9223372036854775808 {
            Some(i64::MIN)
        } else {
            Some(-(acc as i64))
        }
    } else {
        Some(acc as i64)
    }
}

/// Whether `c` is the lower-case letter `letter` or its upper-case form.
pub open spec fn is_letter(c: char, letter: char) -> bool {
    c == letter || c as int + 32 == letter as int
}

/// Whether `s` spells `word`, which is in lower case, in any mix of cases.
pub open spec fn spells(s: Seq<char>, word: Seq<char>) -> bool {
    s.len() == word.len() && forall|i: int| 0 <= i < s.len() ==> is_letter(s[i], #[trigger] word[i])
}

/// Whether `s` names infinity or not-a-number.
pub open spec fn is_special(s: Seq<char>) -> bool {
    ||| spells(s, seq!['i', 'n', 'f'])
    ||| spells(s, seq!['i', 'n', 'f', 'i', 'n', 'i', 't', 'y'])
    ||| spells(s, seq!['n', 'a', 'n'])
}

/// Whether `s`, from `start` on, is an exponent without its letter: an
/// optional sign and at least one digit.
pub open spec fn is_exponent(s: Seq<char>, start: int) -> bool {
    let a = if start < s.len() && (s[start] == '+' || s[start] == '-') {
        start + 1
    } else {
        start
    };
    a < s.len() && find_from(s, a, Class::NonDigit) == s.len()
}

/// Whether `s`, from `start` on, is a decimal number: digits with an
/// optional point among them, at least one digit in all, and an optional
/// exponent.
pub open spec fn is_number(s: Seq<char>, start: int) -> bool {
    let a = find_from(s, start, Class::NonDigit);
    let dot = a < s.len() && s[a] == '.';
    let b = if dot {
        find_from(s, a + 1, Class::NonDigit)
    } else {
        a
    };
    let mantissa = if dot {
        a > start || b > a + 1
    } else {
        a > start
    };
    mantissa && (b == s.len() || ((s[b] == 'e' || s[b] == 'E') && is_exponent(s, b + 1)))
}

/// Whether `s` is a literal of a floating-point number: an optional sign,
/// then a decimal number, or a name of infinity or of not-a-number.
pub open spec fn is_float_literal(s: Seq<char>) -> bool {
    let start: int = if has_sign(s) {
        1
    } else {
        0
    };
    is_special(s.subrange(start, s.len() as int)) || is_number(s, start)
}

/// Tests whether `s`, from `start` on, spells `word` in any mix of cases.
fn spells_from(s: &[char], start: usize, word: &[char]) -> (r: bool)
    requires
        start <= s.len(),
    ensures
        r == spells(s@.subrange(start as int, s.len() as int), word@),
{
    if s.len() - start != word.len() {
        return false;
    }
    let ghost tail = s@.subrange(start as int, s.len() as int);
    let mut i: usize = 0;
    while i < word.len()
        invariant
            i <= word.len(),
            start <= s.len(),
            s.len() - start == word.len(),
            tail == s@.subrange(start as int, s.len() as int),
            forall|j: int| 0 <= j < i ==> is_letter(tail[j], #[trigger] word@[j]),
        decreases word.len() - i,
    {
        let c = s[start + i];
        let w = word[i];
        assert(tail[i as int] == c);
        if !(c == w || char_code(c) + 32 == char_code(w)) {
            return false;
        }
        i += 1;
    }
    true
}

/// Tests whether a token is a literal of a floating-point number.
pub fn is_float(s: &[char]) -> (r: bool)
    ensures
        r == is_float_literal(s@),
{
    let n = s.len();
    let start: usize = if n > 0 && (s[0] == '+' || s[0] == '-') {
        1
    } else {
        0
    };
    let inf = vec!['i', 'n', 'f'];
    let infinity = vec!['i', 'n', 'f', 'i', 'n', 'i', 't', 'y'];
    let nan = vec!['n', 'a', 'n'];
    assert(inf@ =~= seq!['i', 'n', 'f']);
    assert(infinity@ =~= seq!['i', 'n', 'f', 'i', 'n', 'i', 't', 'y']);
    assert(nan@ =~= seq!['n', 'a', 'n']);
    if spells_from(s, start, inf.as_slice()) || spells_from(s, start, infinity.as_slice())
        || spells_from(s, start, nan.as_slice()) {
        return true;
    }
    let a = find(s, start, Class::NonDigit);
    let dot = a < n && s[a] == '.';
    let b = if dot {
        find(s, a + 1, Class::NonDigit)
    } else {
        a
    };
    let mantissa = if dot {
        a > start || b > a + 1
    } else {
        a > start
    };
    if !mantissa {
        return false;
    }
    if b == n {
        return true;
    }
    if !(s[b] == 'e' || s[b] == 'E') {
        return false;
    }
    let e = if b + 1 < n && (s[b + 1] == '+' || s[b + 1] == '-') {
        b + 2
    } else {
        b + 1
    };
    e < n && find(s, e, Class::NonDigit) == n
}

/// The tokens of `toks` from position `from` on, joined by single spaces.
pub open spec fn joined(toks: Seq<Seq<char>>, from: int) -> Seq<char>
    decreases toks.len() - from,
{
    if from < 0 || from >= toks.len() {
        Seq::empty()
    } else if from == toks.len() - 1 {
        toks[from]
    } else {
        toks[from] + seq![' '] + joined(toks, from + 1)
    }
}

/// Joins the tokens from position `from` on by single spaces.
pub fn join_tokens(toks: &Vec<Vec<char>>, from: usize) -> (r: Vec<char>)
    ensures
        r@ == joined(seqs(toks@), from as int),
{
    let mut r: Vec<char> = Vec::new();
    let mut i: usize = from;
    if from >= toks.len() {
        return r;
    }
    while i < toks.len()
        invariant
            from <= i <= toks.len(),
            joined(seqs(toks@), from as int) == r@ + joined(seqs(toks@), i as int),
        decreases toks.len() - i,
    {
        let ghost before = r@;
        let tok = &toks[i];
        let mut j: usize = 0;
        while j < tok.len()
            invariant
                j <= tok.len(),
                r@ == before + tok@.take(j as int),
            decreases tok.len() - j,
        {
            r.push(tok[j]);
            j += 1;
            assert(r@ =~= before + tok@.take(j as int));
        }
        assert(tok@.take(tok.len() as int) =~= tok@);
        if i + 1 < toks.len() {
            r.push(' ');
            assert(r@ + joined(seqs(toks@), i + 1) =~= before + (tok@ + seq![' '] + joined(
                seqs(toks@),
                i + 1,
            )));
        } else {
            assert(r@ + joined(seqs(toks@), i + 1) =~= before + tok@);
        }
        i += 1;
    }
    assert(r@ + Seq::<char>::empty() =~= r@);
    r
}

/// The first position at or after `from` whose token is `name`, or the
/// number of tokens when there is none.
pub open spec fn token_index(toks: Seq<Seq<char>>, name: Seq<char>, from: int) -> int
    decreases toks.len() - from,
{
    if from < 0 || from >= toks.len() {
        toks.len() as int
    } else if toks[from] == name {
        from
    } else {
        token_index(toks, name, from + 1)
    }
}

/// Whether `name` is one of the tokens.
pub open spec fn has_token(toks: Seq<Seq<char>>, name: Seq<char>) -> bool {
    token_index(toks, name, 0) < toks.len()
}

/// Finds the first token that is `name`.
pub fn find_token(toks: &Vec<Vec<char>>, name: &[char]) -> (r: usize)
    ensures
        r == token_index(seqs(toks@), name@, 0),
        r <= toks.len(),
{
    let mut i: usize = 0;
    while i < toks.len() && !same_text(toks[i].as_slice(), name)
        invariant
            i <= toks.len(),
            token_index(seqs(toks@), name@, 0) == token_index(seqs(toks@), name@, i as int),
        decreases toks.len() - i,
    {
        i += 1;
    }
    i
}

/// The character that writes the digit `d`.
pub open spec fn digit_char(d: int) -> char {
    if d == 0 {
        '0'
    } else if d == 1 {
        '1'
    } else if d == 2 {
        '2'
    } else if d == 3 {
        '3'
    } else if d == 4 {
        '4'
    } else if d == 5 {
        '5'
    } else if d == 6 {
        '6'
    } else if d == 7 {
        '7'
    } else if d == 8 {
        '8'
    } else {
        '9'
    }
}

/// The decimal writing of `n`, without leading zeros.
pub open spec fn decimal_text(n: nat) -> Seq<char>
    decreases n,
{
    if n < 10 {
        seq![digit_char(n as int)]
    } else {
        decimal_text(n / 10).push(digit_char((n % 10) as int))
    }
}

/// Writes a number in decimal.
pub fn number_text(n: usize) -> (r: Vec<char>)
    ensures
        r@ == decimal_text(n as nat),
    decreases n,
{
    let d = n % 10;
    let c = if d == 0 {
        '0'
    } else if d == 1 {
        '1'
    } else if d == 2 {
        '2'
    } else if d == 3 {
        '3'
    } else if d == 4 {
        '4'
    } else if d == 5 {
        '5'
    } else if d == 6 {
        '6'
    } else if d == 7 {
        '7'
    } else if d == 8 {
        '8'
    } else {
        '9'
    };
    if n < 10 {
        let r = vec![c];
        assert(r@ =~= seq![digit_char(n as int)]);
        r
    } else {
        let mut r = number_text(n / 10);
        r.push(c);
        r
    }
}

/// The first position at or after `from` at which `needle` occurs in
/// `hay`, or the length of `hay` when there is none.
pub open spec fn text_index(hay: Seq<char>, needle: Seq<char>, from: int) -> int
    decreases hay.len() - from,
{
    if from < 0 || from >= hay.len() || from + needle.len() > hay.len() {
        hay.len() as int
    } else if occurs_at(hay, needle, from) {
        from
    } else {
        text_index(hay, needle, from + 1)
    }
}

/// `text_index` finds an occurrence exactly when there is one.
pub proof fn lemma_text_index(hay: Seq<char>, needle: Seq<char>, from: int)
    requires
        0 <= from,
        needle.len() > 0,
    ensures
        from <= text_index(hay, needle, from) || text_index(hay, needle, from) == hay.len(),
        text_index(hay, needle, from) < hay.len() ==> occurs_at(
            hay,
            needle,
            text_index(hay, needle, from),
        ),
        text_index(hay, needle, from) >= hay.len() ==> forall|j: int|
            from <= j ==> !occurs_at(hay, needle, j),
    decreases hay.len() - from,
{
    if from + needle.len() <= hay.len() && !occurs_at(hay, needle, from) {
        lemma_text_index(hay, needle, from + 1);
    }
}

/// Finds the first occurrence of `needle` in `hay`.
pub fn find_first(hay: &[char], needle: &[char]) -> (r: usize)
    ensures
        r == text_index(hay@, needle@, 0),
        r <= hay.len(),
{
    if needle.len() > hay.len() {
        return hay.len();
    }
    let last: usize = hay.len() - needle.len();
    let mut i: usize = 0;
    while i < last && !matches_at(hay, needle, i)
        invariant
            i <= last,
            last == hay.len() - needle.len(),
            text_index(hay@, needle@, 0) == text_index(hay@, needle@, i as int),
        decreases last - i,
    {
        i += 1;
    }
    if matches_at(hay, needle, i) {
        i
    } else {
        assert(text_index(hay@, needle@, i + 1) == hay.len());
        hay.len()
    }
}

/// The end of `s` without its trailing white space: the position after
/// the last character before `n` that is not white space, or zero.
pub open spec fn solid_end(s: Seq<char>, n: int) -> int
    decreases n,
{
    if n <= 0 || n > s.len() {
        0
    } else if !is_space(s[n - 1]) {
        n
    } else {
        solid_end(s, n - 1)
    }
}

/// `s` without the white space at its two ends.
pub open spec fn trim(s: Seq<char>) -> Seq<char> {
    let a = find_from(s, 0, Class::Solid);
    let b = solid_end(s, s.len() as int);
    if a < b {
        s.subrange(a, b)
    } else {
        Seq::empty()
    }
}

/// The characters of `s` from `from` up to `to`, without the white space
/// at the two ends.
pub fn trimmed(s: &[char], from: usize, to: usize) -> (r: Vec<char>)
    requires
        from <= to <= s.len(),
    ensures
        r@ == trim(s@.subrange(from as int, to as int)),
{
    let part = slice_vec(s, from, to);
    let a = find(part.as_slice(), 0, Class::Solid);
    let mut b: usize = part.len();
    while b > 0 && char_is_space(part[b - 1])
        invariant
            b <= part.len(),
            solid_end(part@, part.len() as int) == solid_end(part@, b as int),
        decreases b,
    {
        b -= 1;
    }
    if a < b {
        slice_vec(part.as_slice(), a, b)
    } else {
        Vec::new()
    }
}

/// A scan that starts inside the second of two joined texts finds what it
/// finds in that text alone.
pub proof fn lemma_find_from_shift(p: Seq<char>, q: Seq<char>, j: int, k: Class)
    requires
        0 <= j <= q.len(),
    ensures
        find_from(p + q, p.len() + j, k) == p.len() + find_from(q, j, k),
    decreases q.len() - j,
{
    if j < q.len() {
        assert((p + q)[p.len() + j] == q[j]);
        if !in_class(k, q[j]) {
            lemma_find_from_shift(p, q, j + 1, k);
        }
    }
}

/// The lines that begin inside the second of two joined texts are the
/// lines of that text alone.
pub proof fn lemma_lines_shift(p: Seq<char>, q: Seq<char>, j: int)
    requires
        0 <= j <= q.len(),
    ensures
        lines_from(p + q, p.len() + j) == lines_from(q, j),
    decreases q.len() - j,
{
    if j < q.len() {
        lemma_find_from_shift(p, q, j, Class::Newline);
        lemma_find_from(q, j, Class::Newline);
        let e = find_from(q, j, Class::Newline);
        assert((p + q).subrange(p.len() + j, p.len() + e) =~= q.subrange(j, e));
        if e < q.len() {
            lemma_lines_shift(p, q, e + 1);
        }
    }
}

/// A text that begins with a closed line has that line first, and then the
/// lines of what follows it.
pub proof fn lemma_lines_cons(body: Seq<char>, rest: Seq<char>)
    requires
        forall|i: int| 0 <= i < body.len() ==> #[trigger] body[i] != '\n',
        body.len() > 0 ==> body.last() != '\r',
    ensures
        lines(body.push('\n') + rest) == seq![body] + lines(rest),
{
    let p = body.push('\n');
    let s = p + rest;
    assert forall|j: int| 0 <= j < body.len() implies !in_class(
        Class::Newline,
        #[trigger] s[j],
    ) by {
        assert(s[j] == body[j]);
    }
    assert(s[body.len() as int] == '\n');
    lemma_find_from_is(s, 0, Class::Newline, body.len() as int);
    assert(s.subrange(0, body.len() as int) =~= body);
    lemma_lines_shift(p, rest, 0);
}

/// Whether `s` is one token: not empty and free of white space.
pub open spec fn is_word(s: Seq<char>) -> bool {
    s.len() > 0 && forall|i: int| 0 <= i < s.len() ==> !is_space(#[trigger] s[i])
}

/// The parts of `s` between commas, from position `i` on, each without
/// the white space at its ends. A text without a comma is one part.
pub open spec fn parts_from(s: Seq<char>, i: int) -> Seq<Seq<char>>
    decreases s.len() - i,
    via parts_from_decreases
{
    if i < 0 || i > s.len() {
        Seq::empty()
    } else {
        let e = find_from(s, i, Class::Comma);
        if e < s.len() {
            seq![trim(s.subrange(i, e))] + parts_from(s, e + 1)
        } else {
            seq![trim(s.subrange(i, e))]
        }
    }
}

#[via_fn]
proof fn parts_from_decreases(s: Seq<char>, i: int) {
    if 0 <= i <= s.len() {
        lemma_find_from(s, i, Class::Comma);
    }
}

/// The parts of a list that is written with commas.
pub open spec fn parts(s: Seq<char>) -> Seq<Seq<char>> {
    parts_from(s, 0)
}

/// Splits a list that is written with commas into its parts.
pub fn split_commas(s: &[char]) -> (r: Vec<Vec<char>>)
    ensures
        seqs(r@) == parts(s@),
{
    let mut r: Vec<Vec<char>> = Vec::new();
    let mut i: usize = 0;
    assert(seqs(r@) =~= Seq::<Seq<char>>::empty());
    loop
        invariant_except_break
            i <= s.len(),
            parts(s@) == seqs(r@) + parts_from(s@, i as int),
        ensures
            seqs(r@) == parts(s@),
        decreases s.len() - i,
    {
        let e = find(s, i, Class::Comma);
        let ghost before = seqs(r@);
        let ghost part = trim(s@.subrange(i as int, e as int));
        r.push(trimmed(s, i, e));
        assert(seqs(r@) =~= before.push(part));
        if e < s.len() {
            assert(before + (seq![part] + parts_from(s@, e + 1)) =~= before.push(part)
                + parts_from(s@, e + 1));
            i = e + 1;
        } else {
            assert(before + seq![part] =~= before.push(part));
            break;
        }
    }
    r
}

/// The part of `s` before its first colon: all of `s` where it has none.
pub open spec fn before_colon(s: Seq<char>) -> Seq<char> {
    s.subrange(0, find_from(s, 0, Class::Colon))
}

/// The part of a text before its first colon.
pub fn head_before_colon(s: &str) -> (r: String)
    ensures
        r@ == before_colon(s@),
{
    let content = chars_of(s);
    let end = find(content.as_slice(), 0, Class::Colon);
    let head = slice_vec(content.as_slice(), 0, end);
    string_of(head.as_slice())
}

/// The text that holds the characters of `a` and then those of `b`.
pub fn concat(a: &str, b: &str) -> (r: String)
    ensures
        r@ == a@ + b@,
{
    let mut out = chars_of(a);
    let mut tail = chars_of(b);
    out.append(&mut tail);
    string_of(out.as_slice())
}

/// `s` with an underscore in the place of each space.
pub open spec fn underscored(s: Seq<char>) -> Seq<char> {
    Seq::new(
        s.len(),
        |i: int|
            if s[i] == ' ' {
                '_'
            } else {
                s[i]
            },
    )
}

/// Puts an underscore in the place of each space.
pub fn underscore(s: &str) -> (r: String)
    ensures
        r@ == underscored(s@),
{
    let content = chars_of(s);
    let mut out: Vec<char> = Vec::new();
    let mut i: usize = 0;
    while i < content.len()
        invariant
            i <= content.len(),
            content@ == s@,
            out@ == underscored(s@).take(i as int),
        decreases content.len() - i,
    {
        let c = if content[i] == ' ' {
            '_'
        } else {
            content[i]
        };
        out.push(c);
        i += 1;
        assert(out@ =~= underscored(s@).take(i as int));
    }
    assert(underscored(s@).take(content.len() as int) =~= underscored(s@));
    string_of(out.as_slice())
}

/// Every token is a word: it is not empty and holds no white space.
pub proof fn lemma_tokens_are_words(s: Seq<char>, i: int)
    requires
        0 <= i,
    ensures
        forall|t: int|
            0 <= t < tokens_from(s, i).len() ==> is_word(#[trigger] tokens_from(s, i)[t]),
    decreases s.len() - i,
{
    if i < s.len() {
        if is_space(s[i]) {
            lemma_tokens_are_words(s, i + 1);
            assert(tokens_from(s, i) == tokens_from(s, i + 1));
        } else {
            lemma_find_from(s, i + 1, Class::Space);
            let e = find_from(s, i + 1, Class::Space);
            lemma_tokens_are_words(s, e);
            let tok = s.subrange(i, e);
            assert forall|j: int| 0 <= j < tok.len() implies !is_space(#[trigger] tok[j]) by {
                assert(tok[j] == s[i + j]);
                if j > 0 {
                    assert(!in_class(Class::Space, s[i + j]));
                }
            }
            assert(is_word(tok));
            let rest = tokens_from(s, e);
            assert(tokens_from(s, i) == seq![tok] + rest);
            assert forall|t: int| 0 <= t < tokens_from(s, i).len() implies is_word(
                #[trigger] tokens_from(s, i)[t],
            ) by {
                if t > 0 {
                    assert(tokens_from(s, i)[t] == rest[t - 1]);
                } else {
                    assert(tokens_from(s, i)[0] == tok);
                }
            }
        }
    } else {
        assert(tokens_from(s, i).len() == 0);
    }
}

/// No line holds a line feed.
pub proof fn lemma_lines_hold_no_line_feed(s: Seq<char>, i: int)
    requires
        0 <= i,
    ensures
        forall|t: int, j: int|
            0 <= t < lines_from(s, i).len() && 0 <= j < lines_from(s, i)[t].len() ==> (
            #[trigger] lines_from(s, i)[t][j]) != '\n',
    decreases s.len() - i,
{
    if i < s.len() {
        lemma_find_from(s, i, Class::Newline);
        let e = find_from(s, i, Class::Newline);
        let raw = s.subrange(i, e);
        assert forall|j: int| 0 <= j < raw.len() implies #[trigger] raw[j] != '\n' by {
            assert(raw[j] == s[i + j]);
            assert(!in_class(Class::Newline, s[i + j]));
        }
        if e < s.len() {
            lemma_lines_hold_no_line_feed(s, e + 1);
            let first = chomp(raw);
            let rest = lines_from(s, e + 1);
            assert forall|j: int| 0 <= j < first.len() implies #[trigger] first[j] != '\n' by {
                assert(first[j] == raw[j]);
            }
            assert forall|t: int, j: int|
                0 <= t < lines_from(s, i).len() && 0 <= j < lines_from(s, i)[t].len() implies (
            #[trigger] lines_from(s, i)[t][j]) != '\n' by {
                if t > 0 {
                    assert(lines_from(s, i)[t] == rest[t - 1]);
                } else {
                    assert(lines_from(s, i)[0] == first);
                }
            }
        } else {
            assert forall|t: int, j: int|
                0 <= t < lines_from(s, i).len() && 0 <= j < lines_from(s, i)[t].len() implies (
            #[trigger] lines_from(s, i)[t][j]) != '\n' by {
                assert(lines_from(s, i)[0] == raw);
            }
        }
    }
}

} // verus!
