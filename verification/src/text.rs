//! Text utilities of the interactive surface: trimming and case folding of
//! input lines, parsing of 1-based index input, and rendering of the task
//! listing.

use vstd::prelude::*;
use vstd::string::StrSliceExecFns;

verus! {

/// Relies on `String::push`: appends exactly one character at the end.
#[verifier::external_body]
pub(crate) fn push_char(s: &mut String, c: char)
    ensures
        final(s)@ == old(s)@.push(c),
{
    s.push(c)
}

/// Relies on `char::from_u32`: every value outside the surrogate range
/// `0xD800..=0xDFFF` and at most `0x10FFFF` is the code of exactly one
/// character, and that character is returned.
#[verifier::external_body]
pub(crate) fn char_from_u32(n: u32) -> (c: char)
    requires
        n < 0xD800 || (0xE000 <= n && n <= 0x10FFFF),
    ensures
        c as u32 == n,
{
    char::from_u32(n).unwrap()
}

/// The characters that `trim_input` strips: the Unicode `White_Space`
/// set, exactly what `str::trim` removes.
pub open spec fn is_space(c: char) -> bool {
    ('\u{9}' <= c && c <= '\u{d}') || c == ' ' || c == '\u{85}' || c == '\u{a0}'
        || c == '\u{1680}' || ('\u{2000}' <= c && c <= '\u{200a}') || c == '\u{2028}'
        || c == '\u{2029}' || c == '\u{202f}' || c == '\u{205f}' || c == '\u{3000}'
}

/// Tests whether a character is Unicode whitespace.
pub fn is_space_char(c: char) -> (r: bool)
    ensures
        r == is_space(c),
{
    (c >= '\u{9}' && c <= '\u{d}') || c == ' ' || c == '\u{85}' || c == '\u{a0}'
        || c == '\u{1680}' || (c >= '\u{2000}' && c <= '\u{200a}') || c == '\u{2028}'
        || c == '\u{2029}' || c == '\u{202f}' || c == '\u{205f}' || c == '\u{3000}'
}

/// A sequence without its leading whitespace.
pub open spec fn trim_front(s: Seq<char>) -> Seq<char>
    decreases s.len(),
{
    if s.len() > 0 && is_space(s[0]) {
        trim_front(s.skip(1))
    } else {
        s
    }
}

/// A sequence without its trailing whitespace.
pub open spec fn trim_back(s: Seq<char>) -> Seq<char>
    decreases s.len(),
{
    if s.len() > 0 && is_space(s.last()) {
        trim_back(s.drop_last())
    } else {
        s
    }
}

/// A sequence without its surrounding whitespace.
pub open spec fn spec_trim(s: Seq<char>) -> Seq<char> {
    trim_back(trim_front(s))
}

proof fn lemma_trim_front_skip(s: Seq<char>, k: int)
    requires
        0 <= k <= s.len(),
        forall|i: int| 0 <= i < k ==> is_space(s[i]),
    ensures
        trim_front(s) == trim_front(s.skip(k)),
    decreases k,
{
    if k > 0 {
        assert(is_space(s[0]));
        assert(trim_front(s) == trim_front(s.skip(1)));
        assert(s.skip(1).skip(k - 1) =~= s.skip(k));
        lemma_trim_front_skip(s.skip(1), k - 1);
    } else {
        assert(s.skip(0) =~= s);
    }
}

/// Strips surrounding Unicode whitespace from an input line.
pub fn trim_input(s: &str) -> (r: String)
    ensures
        r@ == spec_trim(s@),
{
    let n = s.unicode_len();
    let mut start: usize = 0;
    while start < n && is_space_char(s.get_char(start))
        invariant
            n == s@.len(),
            0 <= start <= n,
            forall|i: int| 0 <= i < start ==> is_space(s@[i]),
        decreases n - start,
    {
        start += 1;
    }
    proof {
        lemma_trim_front_skip(s@, start as int);
        if start < n {
            assert(!is_space(s@.skip(start as int)[0]));
        }
        assert(trim_front(s@) == s@.skip(start as int));
    }
    let mut end: usize = n;
    while end > start && is_space_char(s.get_char(end - 1))
        invariant
            n == s@.len(),
            0 <= start <= end <= n,
            trim_front(s@) == s@.skip(start as int),
            trim_back(s@.subrange(start as int, n as int)) == trim_back(
                s@.subrange(start as int, end as int),
            ),
            forall|i: int| 0 <= i < start ==> is_space(s@[i]),
        decreases end,
    {
        proof {
            let cur = s@.subrange(start as int, end as int);
            assert(cur.last() == s@[end - 1]);
            assert(is_space(cur.last()));
            assert(cur.drop_last() =~= s@.subrange(start as int, end as int - 1));
        }
        end -= 1;
    }
    proof {
        let cur = s@.subrange(start as int, end as int);
        if end > start {
            assert(cur.last() == s@[end - 1]);
            assert(!is_space(cur.last()));
        }
        assert(trim_back(cur) == cur);
        assert(s@.skip(start as int) =~= s@.subrange(start as int, n as int));
        assert(spec_trim(s@) == cur);
    }
    let piece = s.substring_char(start, end);
    piece.to_owned()
}

/// ASCII case folding of a single character.
pub open spec fn lower_char(c: char) -> char {
    if 'A' <= c && c <= 'Z' {
        ((c as u32) + 32) as char
    } else {
        c
    }
}

/// ASCII case folding of a whole sequence.
pub open spec fn spec_lower(s: Seq<char>) -> Seq<char> {
    s.map_values(|c: char| lower_char(c))
}

/// Folds ASCII capitals of an input line to lower case.
pub fn lower_input(s: &str) -> (r: String)
    ensures
        r@ == spec_lower(s@),
{
    let n = s.unicode_len();
    let mut out = String::new();
    let mut i: usize = 0;
    while i < n
        invariant
            n == s@.len(),
            0 <= i <= n,
            out@ == spec_lower(s@.take(i as int)),
        decreases n - i,
    {
        let c = s.get_char(i);
        let lc: char = if c >= 'A' && c <= 'Z' {
            char_from_u32((c as u32) + 32)
        } else {
            c
        };
        assert(lc == lower_char(c));
        push_char(&mut out, lc);
        proof {
            assert(s@.take(i + 1).map_values(|c: char| lower_char(c)) =~= s@.take(
                i as int,
            ).map_values(|c: char| lower_char(c)).push(lower_char(s@[i as int])));
        }
        i += 1;
    }
    proof {
        assert(s@.take(n as int) =~= s@);
    }
    out
}

/// A decimal digit.
pub open spec fn is_digit(c: char) -> bool {
    '0' <= c && c <= '9'
}

/// The value of one decimal digit.
pub open spec fn digit_val(c: char) -> int {
    c as int - '0' as int
}

/// The value of a sequence of decimal digits, most significant first.
pub open spec fn dec_value(s: Seq<char>) -> int
    decreases s.len(),
{
    if s.len() == 0 {
        0
    } else {
        dec_value(s.drop_last()) * 10 + digit_val(s.last())
    }
}

/// Whether every character of the sequence is a decimal digit.
pub open spec fn all_digits(s: Seq<char>) -> bool {
    forall|i: int| 0 <= i < s.len() ==> is_digit(s[i])
}

/// The digit part of integer text: what follows an optional sign.
pub open spec fn int_text_digits(s: Seq<char>) -> Seq<char> {
    if s.len() > 0 && (s[0] == '+' || s[0] == '-') {
        s.skip(1)
    } else {
        s
    }
}

/// Integer text: an optional sign followed by at least one decimal digit.
pub open spec fn is_int_text(s: Seq<char>) -> bool {
    int_text_digits(s).len() > 0 && all_digits(int_text_digits(s))
}

/// The value of integer text.
pub open spec fn int_text_value(s: Seq<char>) -> int {
    if s.len() > 0 && s[0] == '-' {
        -dec_value(s.skip(1))
    } else {
        dec_value(int_text_digits(s))
    }
}

proof fn lemma_dec_value_nonneg(s: Seq<char>)
    requires
        all_digits(s),
    ensures
        dec_value(s) >= 0,
    decreases s.len(),
{
    if s.len() > 0 {
        assert(all_digits(s.drop_last()));
        lemma_dec_value_nonneg(s.drop_last());
    }
}

proof fn lemma_dec_value_prefix(s: Seq<char>, k: int)
    requires
        all_digits(s),
        0 <= k <= s.len(),
    ensures
        dec_value(s) >= dec_value(s.take(k)),
    decreases s.len() - k,
{
    if k < s.len() {
        lemma_dec_value_prefix(s, k + 1);
        let p = s.take(k + 1);
        assert(p.drop_last() =~= s.take(k));
        assert(all_digits(s.take(k)));
        lemma_dec_value_nonneg(s.take(k));
        assert(dec_value(p) == dec_value(s.take(k)) * 10 + digit_val(p.last()));
        assert(digit_val(p.last()) >= 0);
    } else {
        assert(s.take(k) =~= s);
    }
}

/// Parses an index line the way the prompt loop needs it: an optional sign
/// and decimal digits. Returns the value exactly when the text has that
/// shape and the value fits a 32-bit signed integer; otherwise nothing.
pub fn parse_index(s: &str) -> (r: Option<i32>)
    ensures
        r is Some <==> is_int_text(s@) && i32::MIN <= int_text_value(s@) <= i32::MAX,
        r matches Some(n) ==> n as int == int_text_value(s@),
{
    let n = s.unicode_len();
    if n == 0 {
        return None;
    }
    let first = s.get_char(0);
    let neg = first == '-';
    let digits_start: usize = if first == '-' || first == '+' {
        1
    } else {
        0
    };
    if digits_start >= n {
        return None;
    }
    let ghost digits = s@.skip(digits_start as int);
    proof {
        assert(digits =~= int_text_digits(s@));
    }
    let mut i: usize = digits_start;
    let mut acc: i64 = 0;
    while i < n
        invariant
            n == s@.len(),
            digits_start <= i <= n,
            digits == int_text_digits(s@),
            digits == s@.skip(digits_start as int),
            digits_start <= 1,
            n > digits_start,
            all_digits(digits.take(i - digits_start)),
            0 <= acc <= 2147483648,
            acc == dec_value(digits.take(i - digits_start)),
        decreases n - i,
    {
        let c = s.get_char(i);
        if !(c >= '0' && c <= '9') {
            proof {
                assert(digits[i - digits_start] == s@[i as int]);
                assert(!is_digit(digits[i - digits_start]));
            }
            return None;
        }
        proof {
            let k = i - digits_start;
            assert(digits.take(k + 1).drop_last() =~= digits.take(k));
            assert(digits.take(k + 1).last() == s@[i as int]);
        }
        acc = acc * 10 + ((c as u32) - 48) as i64;
        i += 1;
        if acc > 2147483648 {
            proof {
                let k = i - digits_start;
                assert(digits.take(digits.len() as int) =~= digits);
                assert(all_digits(digits.take(k))) by {
                    assert(forall|j: int|
                        0 <= j < k ==> digits.take(k)[j] == s@[j + digits_start]);
                }
                if all_digits(digits) {
                    lemma_dec_value_prefix(digits, k);
                    assert(dec_value(digits) >= acc);
                    assert(int_text_value(s@) == if s@[0] == '-' {
                        -dec_value(digits)
                    } else {
                        dec_value(digits)
                    });
                }
            }
            return None;
        }
    }
    proof {
        assert(digits.take(n - digits_start) =~= digits);
        assert(int_text_value(s@) == if s@[0] == '-' {
            -dec_value(digits)
        } else {
            dec_value(digits)
        });
    }
    if neg {
        Some((-acc) as i32)
    } else {
        if acc > 2147483647 {
            return None;
        }
        Some(acc as i32)
    }
}

/// Trims and case-folds one raw command line, the normal form that
/// `parse_command` expects.
pub fn normalize_input(s: &str) -> (r: String)
    ensures
        r@ == spec_lower(spec_trim(s@)),
{
    let t = trim_input(s);
    lower_input(t.as_str())
}

} // verus!
