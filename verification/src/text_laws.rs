//! What holds of the ways in which text is cut, put together, read and written.

use crate::bytes;
use crate::text;
use vstd::prelude::*;

verus! {

// ---------------------------------------------------------------------------
// Numbers
// ---------------------------------------------------------------------------

/// The value of a hexadecimal digit, or sixteen.
pub open spec fn digit(c: char) -> int {
    let code = c as int;
    if 48 <= code <= 57 {
        code - 48
    } else if 97 <= code <= 102 {
        code - 97 + 10
    } else if 65 <= code <= 70 {
        code - 65 + 10
    } else {
        16
    }
}

/// Ten decimal digits, and six more hexadecimal ones in either case.
pub proof fn law_digits(c: char)
    ensures
        text::digit_value(c, 10) == (if digit(c) < 10 {
            Some(digit(c) as nat)
        } else {
            None
        }),
        text::digit_value(c, 16) == (if digit(c) < 16 {
            Some(digit(c) as nat)
        } else {
            None
        }),
{
}

/// A digit is written as the lower-case character that reads back as it.
pub proof fn law_digit_reads_back(d: nat)
    requires
        d < 16,
    ensures
        digit(text::digit_char(d)) == d,
        !('A' <= text::digit_char(d) <= 'F'),
{
}

/// A decimal numeral grows digit by digit: a number below ten is its digit, and
/// ten times a number plus a digit is that number's numeral with the digit behind
/// it.
pub proof fn law_decimal(n: nat, d: nat)
    requires
        d < 10,
    ensures
        text::decimal(d) == seq![(48 + d) as char],
        n > 0 ==> text::decimal(10 * n + d) == text::decimal(n).push((48 + d) as char),
{
    if n > 0 {
        assert((10 * n + d) / 10 == n && (10 * n + d) % 10 == d);
    }
}

/// A hexadecimal numeral grows in the same way.
pub proof fn law_hexadecimal(n: nat, d: nat)
    requires
        d < 16,
    ensures
        text::numeral(d, 16) == seq![text::digit_char(d)],
        n > 0 ==> text::numeral(16 * n + d, 16) == text::numeral(n, 16).push(text::digit_char(d)),
{
    if n > 0 {
        assert((16 * n + d) / 16 == n && (16 * n + d) % 16 == d);
    }
}

/// Digits stand for a number by their places.
pub proof fn law_places(s: Seq<char>, c: char, base: nat)
    ensures
        text::digits_value(Seq::empty(), base) == 0,
        text::digit_value(c, base) is Some ==> text::digits_value(s.push(c), base)
            == text::digits_value(s, base) * base + text::digit_value(c, base)->0,
{
    assert(s.push(c).drop_last() =~= s);
}

/// A text is read as a number exactly when it is made of digits only, at least
/// one, and the number is not too large.
pub proof fn law_numbers_are_read(s: Seq<char>, base: nat, max: nat, v: nat)
    ensures
        text::read_number(s, base, max) == Some(v) <==> {
            &&& s.len() > 0
            &&& forall|i: int| 0 <= i < s.len() ==> (#[trigger] text::digit_value(s[i], base)) is Some
            &&& v == text::digits_value(s, base)
            &&& v <= max
        },
{
}

/// A decimal text without a leading zero is the numeral of its number.
pub proof fn law_numeral_is_the_only_text(s: Seq<char>)
    requires
        s.len() > 0,
        forall|i: int| 0 <= i < s.len() ==> '0' <= #[trigger] s[i] <= '9',
        s.len() > 1 ==> s[0] != '0',
    ensures
        text::decimal(text::digits_value(s, 10)) == s,
        s[0] != '0' ==> text::digits_value(s, 10) > 0,
    decreases s.len(),
{
    let front = s.drop_last();
    let last = s.last();
    let d = (last as int - 48) as nat;
    assert(text::digit_value(last, 10) == Some(d));
    if s.len() == 1 {
        assert(front =~= Seq::empty());
        assert(text::digits_value(front, 10) == 0);
        assert(s =~= seq![last]);
    } else {
        law_numeral_is_the_only_text(front);
        law_decimal(text::digits_value(front, 10), d);
        assert(front.push(last) =~= s);
    }
}

/// Four hexadecimal digits read back as the number that they were written for.
#[verifier::rlimit(40)]
pub proof fn law_four_digits(n: u16)
    ensures
        text::hex4(n).len() == 4,
        digit(text::hex4(n)[0]) * 4096 + digit(text::hex4(n)[1]) * 256 + digit(text::hex4(n)[2])
            * 16 + digit(text::hex4(n)[3]) == n,
{
    assert(n / 4096 < 16);
    law_digit_reads_back((n / 4096) as nat);
    law_digit_reads_back((n / 256 % 16) as nat);
    law_digit_reads_back((n / 16 % 16) as nat);
    law_digit_reads_back((n % 16) as nat);
}

/// Bytes stand for a number by their places.
pub proof fn law_byte_places(s: Seq<u8>, b: u8)
    ensures
        bytes::be_value(Seq::empty()) == 0,
        bytes::be_value(s.push(b)) == 256 * bytes::be_value(s) + b,
{
    assert(s.push(b).drop_last() =~= s);
}

// ---------------------------------------------------------------------------
// Cutting and joining
// ---------------------------------------------------------------------------

/// A text is cut into pieces exactly so that no piece holds the separator and the
/// pieces, joined by it, give the text.
pub proof fn law_split(s: Seq<char>, sep: char, pieces: Seq<Seq<char>>)
    ensures
        text::split(s, sep) == pieces <==> {
            &&& pieces.len() > 0
            &&& forall|i: int| 0 <= i < pieces.len() ==> !(#[trigger] pieces[i]).contains(sep)
            &&& text::join(pieces, seq![sep]) == s
        },
{
    lemma_split(s, sep);
    if pieces.len() > 0 && (forall|i: int|
        0 <= i < pieces.len() ==> !(#[trigger] pieces[i]).contains(sep)) && text::join(
        pieces,
        seq![sep],
    ) == s {
        text::lemma_split_join(pieces, sep);
    }
}

/// The pieces of a text, joined again.
pub proof fn lemma_split(s: Seq<char>, sep: char)
    ensures
        text::split(s, sep).len() > 0,
        forall|i: int|
            0 <= i < text::split(s, sep).len() ==> !(#[trigger] text::split(s, sep)[i]).contains(
                sep,
            ),
        text::join(text::split(s, sep), seq![sep]) == s,
    decreases s.len(),
{
    let pieces = text::split(s, sep);
    if s.len() == 0 {
        assert(pieces[0] =~= s);
    } else {
        let front = s.drop_last();
        let before = text::split(front, sep);
        lemma_split(front, sep);
        if s.last() == sep {
            assert(pieces.drop_last() =~= before);
            assert(text::join(pieces, seq![sep]) =~= s);
            assert forall|i: int| 0 <= i < pieces.len() implies !(#[trigger] pieces[i]).contains(
                sep,
            ) by {
                if i < before.len() {
                    assert(pieces[i] == before[i]);
                }
            }
        } else {
            let last = before.last().push(s.last());
            assert(pieces.drop_last() =~= before.drop_last());
            assert(pieces.last() == last);
            assert forall|i: int| 0 <= i < pieces.len() implies !(#[trigger] pieces[i]).contains(
                sep,
            ) by {
                if i < before.len() - 1 {
                    assert(pieces[i] == before[i]);
                } else {
                    assert(!before[before.len() - 1].contains(sep));
                    if last.contains(sep) {
                        let k = choose|k: int| 0 <= k < last.len() && last[k] == sep;
                        assert(k < before.last().len());
                        assert(before.last()[k] == sep);
                    }
                }
            }
            if before.len() == 1 {
                assert(text::join(before, seq![sep]) == before[0]);
                assert(pieces.len() == 1);
                assert(pieces[0] =~= s);
            } else {
                let head = text::join(before.drop_last(), seq![sep]);
                assert(front =~= head + seq![sep] + before.last());
                assert(text::join(pieces, seq![sep]) == head + seq![sep] + last);
                assert(head + seq![sep] + last =~= front.push(s.last()));
                assert(front.push(s.last()) =~= s);
            }
        }
    }
}

/// Joining puts the separator between neighbours, and nowhere else.
pub proof fn law_join(pieces: Seq<Seq<char>>, last: Seq<char>, sep: Seq<char>)
    ensures
        text::join(Seq::empty(), sep) == Seq::<char>::empty(),
        text::join(seq![last], sep) == last,
        pieces.len() > 0 ==> text::join(pieces.push(last), sep) == text::join(pieces, sep) + sep
            + last,
{
    assert(pieces.push(last).drop_last() =~= pieces);
}

/// The place that is found is the first one at which the pattern stands.
pub proof fn law_find(s: Seq<char>, pattern: Seq<char>, k: int)
    ensures
        text::find(s, pattern) == Some(k) <==> {
            &&& 0 <= k <= s.len() - pattern.len()
            &&& s.subrange(k, k + pattern.len()) == pattern
            &&& forall|j: int|
                0 <= j < k ==> #[trigger] s.subrange(j, j + pattern.len()) != pattern
        },
{
    text::lemma_find(s, pattern);
    if text::find(s, pattern) == Some(k) {
        assert(text::occurs_at(s, pattern, k));
        assert forall|j: int| 0 <= j < k implies #[trigger] s.subrange(j, j + pattern.len())
            != pattern by {
            assert(!text::occurs_at(s, pattern, j));
        }
    }
    if 0 <= k <= s.len() - pattern.len() && s.subrange(k, k + pattern.len()) == pattern && (
    forall|j: int| 0 <= j < k ==> #[trigger] s.subrange(j, j + pattern.len()) != pattern) {
        assert(text::occurs_at(s, pattern, k));
        assert forall|j: int| 0 <= j < k implies !text::occurs_at(s, pattern, j) by {
            assert(s.subrange(j, j + pattern.len()) != pattern);
        }
        text::lemma_find_is(s, pattern, k);
    }
}

// ---------------------------------------------------------------------------
// White space
// ---------------------------------------------------------------------------

/// The code points that are white space.
pub open spec fn blank_code(code: int) -> bool {
    ||| 9 <= code <= 13
    ||| code == 32
    ||| code == 133
    ||| code == 160
    ||| code == 5760
    ||| 8192 <= code <= 8202
    ||| code == 8232
    ||| code == 8233
    ||| code == 8239
    ||| code == 8287
    ||| code == 12288
}

/// White space is decided by the code point; five of the characters are ASCII
/// white space.
pub proof fn law_white_space(c: char)
    ensures
        text::is_white_space(c) <==> blank_code(c as int),
        text::is_ascii_space(c) <==> (c as int == 9 || c as int == 10 || c as int == 12 || c as int
            == 13 || c as int == 32),
{
}

/// Every character of the text is white space.
pub open spec fn all_blank(s: Seq<char>) -> bool {
    forall|i: int| 0 <= i < s.len() ==> blank_code(#[trigger] s[i] as int)
}

/// Trimming takes away white space around a text and nothing else: what is left
/// neither begins nor ends with it.
pub proof fn law_trim(s: Seq<char>) -> (r: (Seq<char>, Seq<char>))
    ensures
        s == r.0 + text::trim(s) + r.1,
        all_blank(r.0),
        all_blank(r.1),
        text::trim(s).len() > 0 ==> !blank_code(text::trim(s)[0] as int) && !blank_code(
            text::trim(s).last() as int,
        ),
{
    let before = lemma_trim_start(s);
    let t = text::trim_start(s);
    let after = lemma_trim_end(t);
    let u = text::trim_end(t);
    assert(s =~= before + u + after);
    if u.len() > 0 {
        assert(u[0] == t[0]);
    }
    (before, after)
}

proof fn lemma_trim_start(s: Seq<char>) -> (before: Seq<char>)
    ensures
        s == before + text::trim_start(s),
        all_blank(before),
        text::trim_start(s).len() > 0 ==> !blank_code(text::trim_start(s)[0] as int),
    decreases s.len(),
{
    if s.len() > 0 && text::is_white_space(s[0]) {
        let rest = lemma_trim_start(s.drop_first());
        let before = seq![s[0]] + rest;
        let left = text::trim_start(s);
        assert(left == text::trim_start(s.drop_first()));
        assert(s =~= seq![s[0]] + s.drop_first());
        assert(seq![s[0]] + (rest + left) =~= before + left);
        assert forall|i: int| 0 <= i < before.len() implies blank_code(
            #[trigger] before[i] as int,
        ) by {
            if i > 0 {
                assert(before[i] == rest[i - 1]);
            }
        }
        before
    } else {
        assert(s =~= Seq::<char>::empty() + s);
        Seq::empty()
    }
}

proof fn lemma_trim_end(s: Seq<char>) -> (after: Seq<char>)
    ensures
        s == text::trim_end(s) + after,
        all_blank(after),
        text::trim_end(s).len() > 0 ==> !blank_code(text::trim_end(s).last() as int),
    decreases s.len(),
{
    if s.len() > 0 && text::is_white_space(s.last()) {
        let rest = lemma_trim_end(s.drop_last());
        let after = rest.push(s.last());
        let left = text::trim_end(s);
        assert(left == text::trim_end(s.drop_last()));
        assert(s =~= s.drop_last().push(s.last()));
        assert((left + rest).push(s.last()) =~= left + after);
        assert forall|i: int| 0 <= i < after.len() implies blank_code(
            #[trigger] after[i] as int,
        ) by {
            if i < rest.len() {
                assert(after[i] == rest[i]);
            }
        }
        after
    } else {
        assert(s =~= s + Seq::<char>::empty());
        Seq::empty()
    }
}

/// The first token reaches to the first ASCII white space or to the end.
pub proof fn law_first_token(s: Seq<char>)
    ensures
        ({
            let t = text::first_token(s);
            &&& t.len() <= s.len()
            &&& t == s.take(t.len() as int)
            &&& forall|i: int|
                0 <= i < t.len() ==> !(#[trigger] t[i] as int == 9 || t[i] as int == 10 || t[i] as int
                    == 12 || t[i] as int == 13 || t[i] as int == 32)
            &&& t.len() < s.len() ==> {
                let c = s[t.len() as int] as int;
                c == 9 || c == 10 || c == 12 || c == 13 || c == 32
            }
        }),
    decreases s.len(),
{
    let t = text::first_token(s);
    if s.len() == 0 || text::is_ascii_space(s[0]) {
        assert(t =~= s.take(0));
    } else {
        let rest = s.drop_first();
        let u = text::first_token(rest);
        law_first_token(rest);
        assert(t =~= s.take(t.len() as int)) by {
            assert forall|i: int| 0 <= i < t.len() implies t[i] == s[i] by {
                if i > 0 {
                    assert(t[i] == u[i - 1]);
                    assert(u[i - 1] == rest.take(u.len() as int)[i - 1]);
                }
            }
        }
        assert forall|i: int| 0 <= i < t.len() implies !(#[trigger] t[i] as int == 9 || t[i] as int
            == 10 || t[i] as int == 12 || t[i] as int == 13 || t[i] as int == 32) by {
            if i > 0 {
                assert(t[i] == u[i - 1]);
            }
        }
        if t.len() < s.len() {
            assert(rest[u.len() as int] == s[t.len() as int]);
        }
    }
}

/// Taking a character off the end takes all of them there and nothing else.
pub proof fn law_strip_end(s: Seq<char>, c: char)
    ensures
        ({
            let t = text::strip_end(s, c);
            &&& t.len() <= s.len()
            &&& t == s.take(t.len() as int)
            &&& forall|i: int| t.len() <= i < s.len() ==> s[i] == c
            &&& t.len() > 0 ==> t.last() != c
        }),
    decreases s.len(),
{
    let t = text::strip_end(s, c);
    if s.len() > 0 && s.last() == c {
        let front = s.drop_last();
        law_strip_end(front, c);
        assert(t =~= s.take(t.len() as int));
        assert forall|i: int| t.len() <= i < s.len() implies s[i] == c by {
            if i < front.len() {
                assert(front[i] == s[i]);
            }
        }
    } else {
        assert(t =~= s.take(t.len() as int));
    }
}

// ---------------------------------------------------------------------------
// Escapes
// ---------------------------------------------------------------------------

/// A character that is shown as it is: printable ASCII other than the quotes and
/// the backslash.
pub open spec fn plain(c: char) -> bool {
    32 <= c as int <= 126 && c as int != 34 && c as int != 39 && c as int != 92
}

/// Text is escaped character by character. A plain character stays; the quotes
/// and the backslash get a backslash; tab, line feed and carriage return become
/// `\t`, `\n` and `\r`; any other becomes `\u{..}` with its code point in
/// hexadecimal.
pub proof fn law_escape(s: Seq<char>, c: char)
    ensures
        text::escape(Seq::empty()) == Seq::<char>::empty(),
        text::escape(s.push(c)) == text::escape(s) + if plain(c) {
            seq![c]
        } else if c as int == 34 || c as int == 39 || c as int == 92 {
            seq!['\\', c]
        } else if c as int == 9 {
            seq!['\\', 't']
        } else if c as int == 10 {
            seq!['\\', 'n']
        } else if c as int == 13 {
            seq!['\\', 'r']
        } else {
            seq!['\\', 'u', '{'] + text::numeral(c as nat, 16) + seq!['}']
        },
{
    assert(s.push(c).drop_last() =~= s);
}

/// What is escaped is printable ASCII.
pub proof fn law_escaped_text_is_printable(s: Seq<char>)
    ensures
        forall|i: int|
            0 <= i < text::escape(s).len() ==> 32 <= (#[trigger] text::escape(s)[i]) as int <= 126,
    decreases s.len(),
{
    if s.len() > 0 {
        law_escaped_text_is_printable(s.drop_last());
        let c = s.last();
        let a = text::escape(s.drop_last());
        let b = text::escape_char(c);
        let digits = text::numeral(c as nat, 16);
        text::lemma_numeral_value(c as nat, 16);
        assert forall|i: int| 0 <= i < digits.len() implies 32 <= (#[trigger] digits[i]) as int
            <= 126 by {
            assert(text::digit_value(digits[i], 16) is Some);
        }
        assert forall|i: int| 0 <= i < b.len() implies 32 <= (#[trigger] b[i]) as int <= 126 by {
            if !(32 <= c as int <= 126) && c as int != 9 && c as int != 10 && c as int != 13 {
                if i < 3 {
                } else if i < 3 + digits.len() {
                    assert(b[i] == digits[i - 3]);
                }
            }
        }
        assert forall|i: int| 0 <= i < text::escape(s).len() implies 32 <= (#[trigger] text::escape(
            s,
        )[i]) as int <= 126 by {
            if i < a.len() {
                assert(text::escape(s)[i] == a[i]);
            } else {
                assert(text::escape(s)[i] == b[i - a.len()]);
            }
        }
    }
}

} // verus!
