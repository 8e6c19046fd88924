//! Character sequences: numerals, hexadecimal digits, splitting, joining and
//! trimming.

use vstd::prelude::*;
use vstd::slice::slice_subrange;
use vstd::string::StringExecFns;
use vstd::utf8;

verus! {

/// `String::push` appends the given character to the end of the string.
pub assume_specification[ String::push ](s: &mut String, c: char)
    ensures
        final(s)@ == old(s)@.push(c),
;

// ---------------------------------------------------------------------------
// Digits and numerals
// ---------------------------------------------------------------------------

/// The lower-case character of a digit below sixteen.
pub open spec fn digit_char(d: nat) -> char {
    if d < 10 {
        (48 + d) as char
    } else {
        (87 + d) as char
    }
}

/// The value of a digit character in the given base (at most sixteen), letters
/// in either case.
pub open spec fn digit_value(c: char, base: nat) -> Option<nat> {
    let v: int = if '0' <= c <= '9' {
        c as int - 48
    } else if 'a' <= c <= 'f' {
        c as int - 87
    } else if 'A' <= c <= 'F' {
        c as int - 55
    } else {
        16
    };
    if v < base && v < 16 {
        Some(v as nat)
    } else {
        None
    }
}

/// The shortest numeral of `n` in the given base.
pub open spec fn numeral(n: nat, base: nat) -> Seq<char>
    decreases n,
{
    if n < base || base < 2 {
        seq![digit_char(n)]
    } else {
        proof {
            assert(n / base < n) by (nonlinear_arith)
                requires
                    n >= base,
                    base >= 2,
            ;
        }
        numeral(n / base, base).push(digit_char(n % base))
    }
}

/// The decimal numeral of `n`.
pub open spec fn decimal(n: nat) -> Seq<char> {
    numeral(n, 10)
}

/// Four hexadecimal digits of a sixteen-bit number.
pub open spec fn hex4(n: u16) -> Seq<char> {
    seq![
        digit_char((n / 4096) as nat),
        digit_char((n / 256 % 16) as nat),
        digit_char((n / 16 % 16) as nat),
        digit_char((n % 16) as nat),
    ]
}

/// Every character of `s` is a digit of the base.
pub open spec fn all_digits(s: Seq<char>, base: nat) -> bool {
    forall|i: int| 0 <= i < s.len() ==> (#[trigger] digit_value(s[i], base)) is Some
}

/// The number that a sequence of digits stands for.
pub open spec fn digits_value(s: Seq<char>, base: nat) -> nat
    decreases s.len(),
{
    if s.len() == 0 {
        0
    } else {
        digits_value(s.drop_last(), base) * base + digit_value(s.last(), base).unwrap_or(0)
    }
}

/// The number that `s` denotes: at least one digit, nothing else, and a value
/// of at most `max`. Leading zeros are allowed.
pub open spec fn read_number(s: Seq<char>, base: nat, max: nat) -> Option<nat> {
    if s.len() > 0 && all_digits(s, base) && digits_value(s, base) <= max {
        Some(digits_value(s, base))
    } else {
        None
    }
}

pub fn digit_to_char(d: u8) -> (c: char)
    requires
        d < 16,
    ensures
        c == digit_char(d as nat),
{
    if d < 10 {
        (48u8 + d) as char
    } else {
        (87u8 + d) as char
    }
}

pub fn char_to_digit(c: char, base: u32) -> (d: Option<u32>)
    requires
        base <= 16,
    ensures
        match d {
            Some(v) => digit_value(c, base as nat) == Some(v as nat) && v < base,
            None => digit_value(c, base as nat) is None,
        },
{
    let code: u32 = c as u32;
    let v: u32 = if '0' <= c && c <= '9' {
        code - 48
    } else if 'a' <= c && c <= 'f' {
        code - 87
    } else if 'A' <= c && c <= 'F' {
        code - 55
    } else {
        16
    };
    if v < base {
        Some(v)
    } else {
        None
    }
}

pub fn numeral_text(n: u64, base: u64) -> (s: String)
    requires
        2 <= base <= 16,
    ensures
        s@ == numeral(n as nat, base as nat),
    decreases n,
{
    if n < base {
        let mut s: String = String::new();
        s.push(digit_to_char(n as u8));
        assert(s@ =~= seq![digit_char(n as nat)]);
        s
    } else {
        assert(n / base < n) by (nonlinear_arith)
            requires
                n >= base,
                base >= 2,
        ;
        assert(n % base < 16) by (nonlinear_arith)
            requires
                2 <= base <= 16,
        ;
        let mut s: String = numeral_text(n / base, base);
        let d: u8 = (n % base) as u8;
        s.push(digit_to_char(d));
        s
    }
}

pub fn decimal_text(n: u64) -> (s: String)
    ensures
        s@ == decimal(n as nat),
{
    numeral_text(n, 10)
}

pub fn hex4_text(n: u16) -> (s: String)
    ensures
        s@ == hex4(n),
{
    let mut s: String = String::new();
    s.push(digit_to_char((n / 4096) as u8));
    s.push(digit_to_char((n / 256 % 16) as u8));
    s.push(digit_to_char((n / 16 % 16) as u8));
    s.push(digit_to_char((n % 16) as u8));
    assert(s@ =~= hex4(n));
    s
}

/// The value of the digits only grows as digits are added.
proof fn lemma_digits_value_prefix(s: Seq<char>, k: int, base: nat)
    requires
        0 <= k <= s.len(),
        base >= 1,
    ensures
        digits_value(s.take(k), base) <= digits_value(s, base),
    decreases s.len() - k,
{
    if k < s.len() {
        lemma_digits_value_prefix(s, k + 1, base);
        let t = s.take(k + 1);
        assert(t.drop_last() =~= s.take(k));
        assert(digits_value(t.drop_last(), base) <= digits_value(t.drop_last(), base) * base)
            by (nonlinear_arith)
            requires
                base >= 1,
        ;
    } else {
        assert(s.take(k) =~= s);
    }
}

pub fn number_value(s: &[char], base: u32, max: u32) -> (r: Option<u32>)
    requires
        2 <= base <= 16,
    ensures
        match r {
            Some(v) => read_number(s@, base as nat, max as nat) == Some(v as nat),
            None => read_number(s@, base as nat, max as nat) is None,
        },
{
    if s.len() == 0 {
        return None;
    }
    let mut value: u64 = 0;
    let mut i: usize = 0;
    while i < s.len()
        invariant
            2 <= base <= 16,
            i <= s@.len(),
            value == digits_value(s@.take(i as int), base as nat),
            value <= max,
            all_digits(s@.take(i as int), base as nat),
        decreases s@.len() - i,
    {
        proof {
            let t = s@.take(i + 1);
            assert(t.drop_last() =~= s@.take(i as int));
            assert(t.last() == s@[i as int]);
        }
        match char_to_digit(s[i], base) {
            None => {
                return None;
            },
            Some(d) => {
                assert(value * base <= 0xffff_ffff * 16) by (nonlinear_arith)
                    requires
                        value <= 0xffff_ffff,
                        base <= 16,
                ;
                value = value * (base as u64) + d as u64;
                if value > max as u64 {
                    proof {
                        lemma_digits_value_prefix(s@, i + 1, base as nat);
                    }
                    return None;
                }
            },
        }
        proof {
            let t = s@.take(i + 1);
            assert forall|j: int| 0 <= j < t.len() implies (#[trigger] digit_value(
                t[j],
                base as nat,
            )) is Some by {
                if j < i {
                    assert(t[j] == s@.take(i as int)[j]);
                }
            }
        }
        i += 1;
    }
    assert(s@.take(i as int) =~= s@);
    Some(value as u32)
}

/// A numeral is a nonempty sequence of digits that stands for its number; it
/// starts with a zero only when it is that one digit.
pub proof fn lemma_numeral_value(n: nat, base: nat)
    requires
        2 <= base <= 16,
    ensures
        numeral(n, base).len() > 0,
        all_digits(numeral(n, base), base),
        digits_value(numeral(n, base), base) == n,
        numeral(n, base)[0] == '0' ==> n == 0 && numeral(n, base).len() == 1,
    decreases n,
{
    let s = numeral(n, base);
    if n < base {
        assert(s.drop_last() =~= Seq::<char>::empty());
        assert(digits_value(s, base) == n) by {
            assert(digits_value(s.drop_last(), base) == 0);
        }
    } else {
        assert(n / base < n && n / base >= 1) by (nonlinear_arith)
            requires
                n >= base,
                base >= 2,
        ;
        assert(n % base < base && n == (n / base) * base + n % base) by (nonlinear_arith)
            requires
                base >= 2,
        ;
        lemma_numeral_value(n / base, base);
        let t = numeral(n / base, base);
        assert(s.drop_last() =~= t);
        assert(s.last() == digit_char(n % base));
        assert forall|i: int| 0 <= i < s.len() implies (#[trigger] digit_value(s[i], base)) is Some by {
            if i < t.len() {
                assert(s[i] == t[i]);
            }
        }
        assert(s[0] == t[0]);
    }
}

// ---------------------------------------------------------------------------
// Splitting and joining
// ---------------------------------------------------------------------------

/// The pieces of `s` between the occurrences of `sep`: one more than there are
/// separators, empty pieces kept.
pub open spec fn split(s: Seq<char>, sep: char) -> Seq<Seq<char>>
    decreases s.len(),
{
    if s.len() == 0 {
        seq![Seq::empty()]
    } else {
        let pieces = split(s.drop_last(), sep);
        if s.last() == sep {
            pieces.push(Seq::empty())
        } else {
            pieces.drop_last().push(pieces.last().push(s.last()))
        }
    }
}

/// The pieces in order with `sep` between neighbours.
pub open spec fn join(pieces: Seq<Seq<char>>, sep: Seq<char>) -> Seq<char>
    decreases pieces.len(),
{
    if pieces.len() == 0 {
        Seq::empty()
    } else if pieces.len() == 1 {
        pieces[0]
    } else {
        join(pieces.drop_last(), sep) + sep + pieces.last()
    }
}

/// The views of a vector of character slices.
pub open spec fn views(pieces: Seq<&[char]>) -> Seq<Seq<char>> {
    pieces.map_values(|p: &[char]| p@)
}

/// Splitting yields at least one piece.
pub proof fn lemma_split_nonempty(s: Seq<char>, sep: char)
    ensures
        split(s, sep).len() >= 1,
    decreases s.len(),
{
    if s.len() > 0 {
        lemma_split_nonempty(s.drop_last(), sep);
    }
}

/// A text without the separator is its own single piece.
pub proof fn lemma_split_single(s: Seq<char>, sep: char)
    requires
        !s.contains(sep),
    ensures
        split(s, sep) == seq![s],
    decreases s.len(),
{
    if s.len() > 0 {
        let t = s.drop_last();
        assert(!t.contains(sep)) by {
            if t.contains(sep) {
                let i = choose|i: int| 0 <= i < t.len() && t[i] == sep;
                assert(s[i] == sep);
            }
        }
        assert(s[s.len() - 1] == s.last());
        lemma_split_single(t, sep);
        assert(split(s, sep) =~= seq![s]) by {
            assert(t.push(s.last()) =~= s);
        }
    } else {
        assert(s =~= Seq::empty());
    }
}

/// A separator followed by a text without one adds that text as a piece.
pub proof fn lemma_split_append(s: Seq<char>, sep: char, t: Seq<char>)
    requires
        !t.contains(sep),
    ensures
        split(s.push(sep) + t, sep) == split(s, sep).push(t),
    decreases t.len(),
{
    let all = s.push(sep) + t;
    if t.len() == 0 {
        assert(all =~= s.push(sep));
        assert(all.drop_last() =~= s);
        assert(t =~= Seq::empty());
    } else {
        let u = t.drop_last();
        assert(!u.contains(sep)) by {
            if u.contains(sep) {
                let i = choose|i: int| 0 <= i < u.len() && u[i] == sep;
                assert(t[i] == sep);
            }
        }
        lemma_split_append(s, sep, u);
        assert(all.drop_last() =~= s.push(sep) + u);
        assert(t[t.len() - 1] == t.last());
        assert(all.last() == t.last());
        let pieces = split(s, sep).push(u);
        assert(pieces.drop_last() =~= split(s, sep));
        assert(u.push(t.last()) =~= t);
    }
}

/// Splitting what was joined gives the pieces back, when no piece holds the
/// separator.
pub proof fn lemma_split_join(pieces: Seq<Seq<char>>, sep: char)
    requires
        pieces.len() >= 1,
        forall|i: int| 0 <= i < pieces.len() ==> !(#[trigger] pieces[i]).contains(sep),
    ensures
        split(join(pieces, seq![sep]), sep) == pieces,
    decreases pieces.len(),
{
    if pieces.len() == 1 {
        lemma_split_single(pieces[0], sep);
        assert(seq![pieces[0]] =~= pieces);
    } else {
        let front = pieces.drop_last();
        assert forall|i: int| 0 <= i < front.len() implies !(#[trigger] front[i]).contains(sep) by {
            assert(front[i] == pieces[i]);
        }
        lemma_split_join(front, sep);
        lemma_split_append(join(front, seq![sep]), sep, pieces.last());
        assert(join(front, seq![sep]) + seq![sep] + pieces.last() =~= join(front, seq![sep]).push(
            sep,
        ) + pieces.last());
        assert(front.push(pieces.last()) =~= pieces);
    }
}

/// Four pieces joined, written out.
pub proof fn lemma_join_four(a: Seq<char>, b: Seq<char>, c: Seq<char>, d: Seq<char>, sep: Seq<char>)
    ensures
        join(seq![a, b, c, d], sep) == a + sep + b + sep + c + sep + d,
{
    let four = seq![a, b, c, d];
    let three = seq![a, b, c];
    let two = seq![a, b];
    let one = seq![a];
    assert(four.drop_last() =~= three);
    assert(three.drop_last() =~= two);
    assert(two.drop_last() =~= one);
    assert(join(one, sep) == a);
    assert(join(two, sep) == a + sep + b);
    assert(join(three, sep) == a + sep + b + sep + c);
}

pub fn split_chars<'a>(s: &'a [char], sep: char) -> (pieces: Vec<&'a [char]>)
    ensures
        views(pieces@) == split(s@, sep),
{
    let mut pieces: Vec<&'a [char]> = Vec::new();
    let mut start: usize = 0;
    let mut i: usize = 0;
    assert(s@.take(0) =~= Seq::empty());
    while i < s.len()
        invariant
            start <= i <= s@.len(),
            views(pieces@).push(s@.subrange(start as int, i as int)) =~= split(
                s@.take(i as int),
                sep,
            ),
        decreases s@.len() - i,
    {
        let ghost t = s@.take(i + 1);
        assert(t.drop_last() =~= s@.take(i as int));
        let ghost before = views(pieces@);
        if s[i] == sep {
            let piece: &'a [char] = slice_subrange(s, start, i);
            pieces.push(piece);
            assert(views(pieces@) =~= before.push(piece@));
            start = i + 1;
            assert(s@.subrange(start as int, i + 1) =~= Seq::empty());
        } else {
            assert(s@.subrange(start as int, i + 1) =~= s@.subrange(start as int, i as int).push(
                s@[i as int],
            ));
            assert(before.push(s@.subrange(start as int, i as int)).drop_last() =~= before);
        }
        i += 1;
    }
    let ghost before = views(pieces@);
    let piece: &'a [char] = slice_subrange(s, start, i);
    pieces.push(piece);
    assert(views(pieces@) =~= before.push(piece@));
    assert(s@.take(i as int) =~= s@);
    pieces
}

/// The views of a vector of strings.
pub open spec fn string_views(pieces: Seq<String>) -> Seq<Seq<char>> {
    pieces.map_values(|p: String| p@)
}

pub fn join_strings(pieces: &Vec<String>, sep: &str) -> (s: String)
    ensures
        s@ == join(string_views(pieces@), sep@),
{
    let ghost all = string_views(pieces@);
    let mut s: String = String::new();
    let mut i: usize = 0;
    assert(all.take(0) =~= Seq::empty());
    while i < pieces.len()
        invariant
            i <= pieces@.len(),
            all == string_views(pieces@),
            s@ == join(all.take(i as int), sep@),
        decreases pieces@.len() - i,
    {
        let ghost t = all.take(i + 1);
        assert(t.drop_last() =~= all.take(i as int));
        assert(t.last() == pieces@[i as int]@);
        if i > 0 {
            s.append(sep);
        }
        s.append(pieces[i].as_str());
        assert(s@ =~= join(t, sep@));
        i += 1;
    }
    assert(all.take(i as int) =~= all);
    s
}

// ---------------------------------------------------------------------------
// Strings as vectors of characters
// ---------------------------------------------------------------------------

pub fn to_chars(s: &str) -> (chars: Vec<char>)
    ensures
        chars@ == s@,
{
    let mut chars: Vec<char> = Vec::new();
    for c in iter: s.chars()
        invariant
            chars@ == iter.seq().take(iter.index()),
    {
        chars.push(c);
    }
    chars
}

pub fn from_chars(chars: &[char]) -> (s: String)
    ensures
        s@ == chars@,
{
    let mut s: String = String::new();
    let mut i: usize = 0;
    while i < chars.len()
        invariant
            i <= chars@.len(),
            s@ == chars@.take(i as int),
        decreases chars@.len() - i,
    {
        assert(chars@.take(i as int).push(chars@[i as int]) =~= chars@.take(i + 1));
        s.push(chars[i]);
        i += 1;
    }
    assert(chars@.take(i as int) =~= chars@);
    s
}

pub fn chars_equal(a: &[char], b: &[char]) -> (r: bool)
    ensures
        r == (a@ == b@),
{
    if a.len() != b.len() {
        return false;
    }
    let mut i: usize = 0;
    while i < a.len()
        invariant
            i <= a@.len(),
            a@.len() == b@.len(),
            forall|j: int| 0 <= j < i ==> a@[j] == b@[j],
        decreases a@.len() - i,
    {
        if a[i] != b[i] {
            return false;
        }
        i += 1;
    }
    assert(a@ =~= b@);
    true
}

pub fn chars_are(a: &[char], literal: &str) -> (r: bool)
    ensures
        r == (a@ == literal@),
{
    let b: Vec<char> = to_chars(literal);
    chars_equal(a, b.as_slice())
}

// ---------------------------------------------------------------------------
// Searching
// ---------------------------------------------------------------------------

/// The pattern stands in `s` from index `i` on.
pub open spec fn occurs_at(s: Seq<char>, pattern: Seq<char>, i: int) -> bool {
    &&& 0 <= i
    &&& i + pattern.len() <= s.len()
    &&& s.subrange(i, i + pattern.len()) == pattern
}

/// The first index from `i` on at which the pattern occurs.
pub open spec fn find_from(s: Seq<char>, pattern: Seq<char>, i: int) -> Option<int>
    decreases s.len() + 1 - i,
{
    if i + pattern.len() > s.len() {
        None
    } else if occurs_at(s, pattern, i) {
        Some(i)
    } else {
        find_from(s, pattern, i + 1)
    }
}

/// The first index at which the pattern occurs.
pub open spec fn find(s: Seq<char>, pattern: Seq<char>) -> Option<int> {
    find_from(s, pattern, 0)
}

proof fn lemma_find_from(s: Seq<char>, pattern: Seq<char>, i: int)
    requires
        0 <= i,
    ensures
        match find_from(s, pattern, i) {
            Some(k) => i <= k && occurs_at(s, pattern, k) && forall|j: int|
                i <= j < k ==> !occurs_at(s, pattern, j),
            None => forall|j: int| i <= j ==> !occurs_at(s, pattern, j),
        },
    decreases s.len() + 1 - i,
{
    if i + pattern.len() > s.len() || occurs_at(s, pattern, i) {
    } else {
        lemma_find_from(s, pattern, i + 1);
    }
}

/// The index found is the first occurrence; nothing is found only where the
/// pattern does not occur.
pub proof fn lemma_find(s: Seq<char>, pattern: Seq<char>)
    ensures
        match find(s, pattern) {
            Some(k) => 0 <= k && occurs_at(s, pattern, k) && forall|j: int|
                0 <= j < k ==> !occurs_at(s, pattern, j),
            None => forall|j: int| 0 <= j ==> !occurs_at(s, pattern, j),
        },
{
    lemma_find_from(s, pattern, 0);
}

/// An occurrence with none before it is the one that is found.
pub proof fn lemma_find_is(s: Seq<char>, pattern: Seq<char>, k: int)
    requires
        occurs_at(s, pattern, k),
        forall|j: int| 0 <= j < k ==> !occurs_at(s, pattern, j),
    ensures
        find(s, pattern) == Some(k),
{
    lemma_find(s, pattern);
}

pub fn find_chars(s: &[char], pattern: &[char]) -> (r: Option<usize>)
    ensures
        match r {
            Some(k) => find(s@, pattern@) == Some(k as int) && k + pattern@.len() <= s@.len(),
            None => find(s@, pattern@) is None,
        },
{
    let mut i: usize = 0;
    while pattern.len() <= s.len() - i
        invariant
            i <= s@.len(),
            find(s@, pattern@) == find_from(s@, pattern@, i as int),
        decreases s@.len() + 1 - i,
    {
        if chars_equal(slice_subrange(s, i, i + pattern.len()), pattern) {
            return Some(i);
        }
        assert(pattern@.len() == 0 ==> s@.subrange(i as int, i as int) =~= pattern@);
        i += 1;
    }
    None
}

/// Where the character `c` first occurs.
pub fn find_char(s: &[char], c: char) -> (r: Option<usize>)
    ensures
        match r {
            Some(k) => find(s@, seq![c]) == Some(k as int) && k < s@.len(),
            None => find(s@, seq![c]) is None,
        },
{
    let pattern: Vec<char> = vec![c];
    assert(pattern@ =~= seq![c]);
    find_chars(s, pattern.as_slice())
}

/// A single character occurs where it stands.
pub proof fn lemma_occurs_char(s: Seq<char>, c: char, i: int)
    requires
        0 <= i < s.len(),
    ensures
        occurs_at(s, seq![c], i) <==> s[i] == c,
{
    let t = s.subrange(i, i + 1);
    assert(t.len() == 1 && t[0] == s[i]);
    if s[i] == c {
        assert(t =~= seq![c]);
    }
}

// ---------------------------------------------------------------------------
// White space
// ---------------------------------------------------------------------------

/// The ASCII white space characters: tab, line feed, form feed, carriage return
/// and space.
pub open spec fn is_ascii_space(c: char) -> bool {
    c == '\t' || c == '\n' || c == '\u{c}' || c == '\r' || c == ' '
}

/// The characters with the Unicode property White_Space.
pub open spec fn is_white_space(c: char) -> bool {
    ||| '\t' <= c <= '\r'
    ||| c == ' '
    ||| c == '\u{85}'
    ||| c == '\u{a0}'
    ||| c == '\u{1680}'
    ||| '\u{2000}' <= c <= '\u{200a}'
    ||| c == '\u{2028}'
    ||| c == '\u{2029}'
    ||| c == '\u{202f}'
    ||| c == '\u{205f}'
    ||| c == '\u{3000}'
}

/// The longest prefix of `s` without ASCII white space.
pub open spec fn first_token(s: Seq<char>) -> Seq<char>
    decreases s.len(),
{
    if s.len() == 0 || is_ascii_space(s[0]) {
        Seq::empty()
    } else {
        seq![s[0]] + first_token(s.drop_first())
    }
}

/// `s` without the white space at its end.
pub open spec fn trim_end(s: Seq<char>) -> Seq<char>
    decreases s.len(),
{
    if s.len() > 0 && is_white_space(s.last()) {
        trim_end(s.drop_last())
    } else {
        s
    }
}

/// `s` without the white space at its start.
pub open spec fn trim_start(s: Seq<char>) -> Seq<char>
    decreases s.len(),
{
    if s.len() > 0 && is_white_space(s[0]) {
        trim_start(s.drop_first())
    } else {
        s
    }
}

/// `s` without the white space around it.
pub open spec fn trim(s: Seq<char>) -> Seq<char> {
    trim_end(trim_start(s))
}

/// `s` without the occurrences of `c` at its end.
pub open spec fn strip_end(s: Seq<char>, c: char) -> Seq<char>
    decreases s.len(),
{
    if s.len() > 0 && s.last() == c {
        strip_end(s.drop_last(), c)
    } else {
        s
    }
}

pub fn is_white(c: char) -> (r: bool)
    ensures
        r == is_white_space(c),
{
    ('\t' <= c && c <= '\r') || c == ' ' || c == '\u{85}' || c == '\u{a0}' || c == '\u{1680}' || (
    '\u{2000}' <= c && c <= '\u{200a}') || c == '\u{2028}' || c == '\u{2029}' || c == '\u{202f}' || c
        == '\u{205f}' || c == '\u{3000}'
}

/// A text without ASCII white space, followed by nothing or by such a
/// character, is the first token.
pub proof fn lemma_first_token(token: Seq<char>, rest: Seq<char>)
    requires
        forall|i: int| 0 <= i < token.len() ==> !is_ascii_space(#[trigger] token[i]),
        rest.len() > 0 ==> is_ascii_space(rest[0]),
    ensures
        first_token(token + rest) == token,
    decreases token.len(),
{
    let s = token + rest;
    if token.len() == 0 {
        assert(s =~= rest);
        assert(token =~= Seq::empty());
    } else {
        assert(s.drop_first() =~= token.drop_first() + rest);
        assert forall|i: int| 0 <= i < token.drop_first().len() implies !is_ascii_space(
            #[trigger] token.drop_first()[i],
        ) by {
            assert(token.drop_first()[i] == token[i + 1]);
        }
        lemma_first_token(token.drop_first(), rest);
        assert(seq![s[0]] + token.drop_first() =~= token);
    }
}

/// The length of the first token.
pub fn first_token_len(s: &[char]) -> (n: usize)
    ensures
        n <= s@.len(),
        s@.take(n as int) == first_token(s@),
{
    let mut n: usize = 0;
    assert(s@.skip(0) =~= s@);
    assert(s@.take(0) + first_token(s@) =~= first_token(s@));
    while n < s.len() && !(s[n] == '\t' || s[n] == '\n' || s[n] == '\u{c}' || s[n] == '\r' || s[n]
        == ' ')
        invariant
            n <= s@.len(),
            s@.take(n as int) + first_token(s@.skip(n as int)) == first_token(s@),
        decreases s@.len() - n,
    {
        let ghost t = s@.skip(n as int);
        assert(t[0] == s@[n as int]);
        assert(t.drop_first() =~= s@.skip(n + 1));
        assert(s@.take(n as int) + (seq![t[0]] + first_token(s@.skip(n + 1))) =~= s@.take(n + 1)
            + first_token(s@.skip(n + 1)));
        n += 1;
    }
    assert(first_token(s@.skip(n as int)) =~= Seq::empty());
    assert(s@.take(n as int) + Seq::empty() =~= s@.take(n as int));
    n
}

pub fn trim_chars<'a>(s: &'a [char]) -> (r: &'a [char])
    ensures
        r@ == trim(s@),
{
    let mut start: usize = 0;
    assert(s@.skip(0) =~= s@);
    while start < s.len() && is_white(s[start])
        invariant
            start <= s@.len(),
            trim_start(s@.skip(start as int)) == trim_start(s@),
        decreases s@.len() - start,
    {
        assert(s@.skip(start as int).drop_first() =~= s@.skip(start + 1));
        start += 1;
    }
    let mut end: usize = s.len();
    assert(trim_start(s@.skip(start as int)) == s@.skip(start as int));
    assert(s@.skip(start as int) =~= s@.subrange(start as int, end as int));
    while end > start && is_white(s[end - 1])
        invariant
            start <= end <= s@.len(),
            trim_end(s@.subrange(start as int, end as int)) == trim(s@),
        decreases end,
    {
        assert(s@.subrange(start as int, end as int).drop_last() =~= s@.subrange(
            start as int,
            end - 1,
        ));
        end -= 1;
    }
    slice_subrange(s, start, end)
}

pub fn strip_end_chars<'a>(s: &'a [char], c: char) -> (r: &'a [char])
    ensures
        r@ == strip_end(s@, c),
{
    let mut end: usize = s.len();
    assert(s@.subrange(0, end as int) =~= s@);
    while end > 0 && s[end - 1] == c
        invariant
            end <= s@.len(),
            strip_end(s@.subrange(0, end as int), c) == strip_end(s@, c),
        decreases end,
    {
        assert(s@.subrange(0, end as int).drop_last() =~= s@.subrange(0, end - 1));
        end -= 1;
    }
    slice_subrange(s, 0, end)
}

// ---------------------------------------------------------------------------
// UTF-8 and escapes
// ---------------------------------------------------------------------------

/// `core::str::from_utf8`: the bytes as text exactly when they are valid UTF-8.
#[verifier::external_body]
pub(crate) fn utf8_text(bytes: &[u8]) -> (r: Option<&str>)
    ensures
        match r {
            Some(s) => utf8::valid_utf8(bytes@) && s@ == utf8::decode_utf8(bytes@),
            None => !utf8::valid_utf8(bytes@),
        },
{
    core::str::from_utf8(bytes).ok()
}

/// The printable ASCII form of a character: a backslash form for tab, carriage
/// return, line feed, both quotes and the backslash, the character itself where
/// it is printable, and its code point in braces otherwise.
pub open spec fn escape_char(c: char) -> Seq<char> {
    if c == '\t' {
        seq!['\\', 't']
    } else if c == '\r' {
        seq!['\\', 'r']
    } else if c == '\n' {
        seq!['\\', 'n']
    } else if c == '\'' || c == '"' || c == '\\' {
        seq!['\\', c]
    } else if ' ' <= c <= '~' {
        seq![c]
    } else {
        seq!['\\', 'u', '{'] + numeral(c as nat, 16) + seq!['}']
    }
}

/// Every character in its printable form.
pub open spec fn escape(s: Seq<char>) -> Seq<char>
    decreases s.len(),
{
    if s.len() == 0 {
        Seq::empty()
    } else {
        escape(s.drop_last()) + escape_char(s.last())
    }
}

fn push_escaped(s: &mut String, c: char)
    ensures
        final(s)@ == old(s)@ + escape_char(c),
{
    if c == '\t' {
        s.push('\\');
        s.push('t');
    } else if c == '\r' {
        s.push('\\');
        s.push('r');
    } else if c == '\n' {
        s.push('\\');
        s.push('n');
    } else if c == '\'' || c == '"' || c == '\\' {
        s.push('\\');
        s.push(c);
    } else if ' ' <= c && c <= '~' {
        s.push(c);
    } else {
        s.push('\\');
        s.push('u');
        s.push('{');
        s.append(numeral_text(c as u64, 16).as_str());
        s.push('}');
    }
    assert(s@ =~= old(s)@ + escape_char(c));
}

pub fn escape_text(s: &str) -> (r: String)
    ensures
        r@ == escape(s@),
{
    let chars: Vec<char> = to_chars(s);
    let mut r: String = String::new();
    let mut i: usize = 0;
    assert(chars@.take(0) =~= Seq::empty());
    while i < chars.len()
        invariant
            i <= chars@.len(),
            r@ == escape(chars@.take(i as int)),
        decreases chars@.len() - i,
    {
        assert(chars@.take(i + 1).drop_last() =~= chars@.take(i as int));
        push_escaped(&mut r, chars[i]);
        i += 1;
    }
    assert(chars@.take(i as int) =~= chars@);
    r
}

} // verus!
