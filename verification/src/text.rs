//! Character-level string helpers shared by the rest of the library:
//! equality, shell escaping, decimal rendering and integer parsing.

use vstd::prelude::*;
use vstd::string::StrSliceExecFns;
use vstd::string::StringExecFns;

verus! {

/// True exactly when the two strings consist of the same characters.
pub fn str_eq(a: &str, b: &str) -> (r: bool)
    ensures
        r == (a@ == b@),
{
    let alen = a.unicode_len();
    let blen = b.unicode_len();
    if alen != blen {
        return false;
    }
    let mut i: usize = 0;
    while i < alen
        invariant
            alen == a@.len(),
            blen == b@.len(),
            alen == blen,
            i <= alen,
            forall|j: int| 0 <= j < i ==> a@[j] == b@[j],
        decreases alen - i,
    {
        if a.get_char(i) != b.get_char(i) {
            return false;
        }
        i += 1;
    }
    proof {
        assert(a@ =~= b@);
    }
    true
}

/// How one character is written inside a double-quoted shell or AppleScript
/// string: backslashes and double quotes get a backslash in front.
pub open spec fn escape_dq_char(c: char) -> Seq<char> {
    if c == '\\' {
        seq!['\\', '\\']
    } else if c == '"' {
        seq!['\\', '"']
    } else {
        seq![c]
    }
}

/// The whole string written for a double-quoted context.
pub open spec fn spec_escape_dq(s: Seq<char>) -> Seq<char>
    decreases s.len(),
{
    if s.len() == 0 {
        Seq::empty()
    } else {
        spec_escape_dq(s.drop_last()) + escape_dq_char(s.last())
    }
}

/// How one character is written inside a single-quoted shell string: a single
/// quote becomes quote, escaped quote, quote.
pub open spec fn escape_sq_char(c: char) -> Seq<char> {
    if c == '\'' {
        seq!['\'', '\\', '\'', '\'']
    } else {
        seq![c]
    }
}

/// The whole string written for a single-quoted context.
pub open spec fn spec_escape_sq(s: Seq<char>) -> Seq<char>
    decreases s.len(),
{
    if s.len() == 0 {
        Seq::empty()
    } else {
        spec_escape_sq(s.drop_last()) + escape_sq_char(s.last())
    }
}

/// Appends `s` with backslashes and double quotes escaped.
pub fn append_escaped_dq(out: &mut String, s: &str)
    ensures
        final(out)@ == old(out)@ + spec_escape_dq(s@),
{
    let ghost orig = old(out)@;
    let n = s.unicode_len();
    let mut i: usize = 0;
    while i < n
        invariant
            n == s@.len(),
            i <= n,
            out@ == orig + spec_escape_dq(s@.subrange(0, i as int)),
        decreases n - i,
    {
        let ghost prefix = s@.subrange(0, i as int);
        let c = s.get_char(i);
        if c == '\\' {
            out.append("\\\\");
            proof {
                reveal_strlit("\\\\");
                assert(("\\\\")@ =~= seq!['\\', '\\']);
            }
        } else if c == '"' {
            out.append("\\\"");
            proof {
                reveal_strlit("\\\"");
                assert(("\\\"")@ =~= seq!['\\', '"']);
            }
        } else {
            out.append(s.substring_char(i, i + 1));
            proof {
                assert(s@.subrange(i as int, i as int + 1) =~= seq![s@[i as int]]);
            }
        }
        proof {
            let ext = s@.subrange(0, i as int + 1);
            assert(ext.drop_last() =~= prefix);
            assert(out@ =~= orig + spec_escape_dq(ext));
        }
        i += 1;
    }
    proof {
        assert(s@.subrange(0, n as int) =~= s@);
    }
}

/// Appends `s` with single quotes escaped for a single-quoted context.
pub fn append_escaped_sq(out: &mut String, s: &str)
    ensures
        final(out)@ == old(out)@ + spec_escape_sq(s@),
{
    let ghost orig = old(out)@;
    let n = s.unicode_len();
    let mut i: usize = 0;
    while i < n
        invariant
            n == s@.len(),
            i <= n,
            out@ == orig + spec_escape_sq(s@.subrange(0, i as int)),
        decreases n - i,
    {
        let ghost prefix = s@.subrange(0, i as int);
        let c = s.get_char(i);
        if c == '\'' {
            out.append("'\\''");
            proof {
                reveal_strlit("'\\''");
                assert(("'\\''")@ =~= seq!['\'', '\\', '\'', '\'']);
            }
        } else {
            out.append(s.substring_char(i, i + 1));
            proof {
                assert(s@.subrange(i as int, i as int + 1) =~= seq![s@[i as int]]);
            }
        }
        proof {
            let ext = s@.subrange(0, i as int + 1);
            assert(ext.drop_last() =~= prefix);
            assert(out@ =~= orig + spec_escape_sq(ext));
        }
        i += 1;
    }
    proof {
        assert(s@.subrange(0, n as int) =~= s@);
    }
}

/// The character that writes one decimal digit.
pub open spec fn spec_digit(d: int) -> char {
    if d == 0 {
        '0'
    } else if d == 1 {
        '1'
    } else if d == 2 {
        '2'
    } else if d == 3 {
        '3'
    } else if d == 4 {
        '4'
    } else if d == 5 {
        '5'
    } else if d == 6 {
        '6'
    } else if d == 7 {
        '7'
    } else if d == 8 {
        '8'
    } else {
        '9'
    }
}

/// Decimal writing of a natural number, most significant digit first.
pub open spec fn spec_dec_nat(n: nat) -> Seq<char>
    decreases n,
{
    if n < 10 {
        seq![spec_digit(n as int)]
    } else {
        spec_dec_nat(n / 10) + seq![spec_digit((n % 10) as int)]
    }
}

/// Decimal writing of a signed number: a minus sign for negatives, then the
/// digits of the magnitude.
pub open spec fn spec_dec_int(n: int) -> Seq<char> {
    if n < 0 {
        seq!['-'] + spec_dec_nat((-n) as nat)
    } else {
        spec_dec_nat(n as nat)
    }
}

/// Appends one decimal digit.
fn append_digit(out: &mut String, d: u8)
    requires
        d < 10,
    ensures
        final(out)@ == old(out)@ + seq![spec_digit(d as int)],
{
    match d {
        0 => {
            out.append("0");
            proof {
                reveal_strlit("0");
                assert(("0")@ =~= seq!['0']);
            }
        },
        1 => {
            out.append("1");
            proof {
                reveal_strlit("1");
                assert(("1")@ =~= seq!['1']);
            }
        },
        2 => {
            out.append("2");
            proof {
                reveal_strlit("2");
                assert(("2")@ =~= seq!['2']);
            }
        },
        3 => {
            out.append("3");
            proof {
                reveal_strlit("3");
                assert(("3")@ =~= seq!['3']);
            }
        },
        4 => {
            out.append("4");
            proof {
                reveal_strlit("4");
                assert(("4")@ =~= seq!['4']);
            }
        },
        5 => {
            out.append("5");
            proof {
                reveal_strlit("5");
                assert(("5")@ =~= seq!['5']);
            }
        },
        6 => {
            out.append("6");
            proof {
                reveal_strlit("6");
                assert(("6")@ =~= seq!['6']);
            }
        },
        7 => {
            out.append("7");
            proof {
                reveal_strlit("7");
                assert(("7")@ =~= seq!['7']);
            }
        },
        8 => {
            out.append("8");
            proof {
                reveal_strlit("8");
                assert(("8")@ =~= seq!['8']);
            }
        },
        _ => {
            out.append("9");
            proof {
                reveal_strlit("9");
                assert(("9")@ =~= seq!['9']);
            }
        },
    }
}

/// Appends the decimal writing of `n`.
pub fn append_decimal_u128(out: &mut String, n: u128)
    ensures
        final(out)@ == old(out)@ + spec_dec_nat(n as nat),
    decreases n,
{
    if n >= 10 {
        append_decimal_u128(out, n / 10);
    }
    append_digit(out, (n % 10) as u8);
}

/// The decimal writing of `n` as a fresh string.
pub fn u128_to_string(n: u128) -> (r: String)
    ensures
        r@ == spec_dec_nat(n as nat),
{
    let mut out = String::new();
    append_decimal_u128(&mut out, n);
    out
}

/// Appends the decimal writing of a signed number.
pub fn append_decimal_i32(out: &mut String, n: i32)
    ensures
        final(out)@ == old(out)@ + spec_dec_int(n as int),
{
    if n < 0 {
        out.append("-");
        proof {
            reveal_strlit("-");
            assert(("-")@ =~= seq!['-']);
        }
        let mag: u128 = (-(n as i64)) as u128;
        append_decimal_u128(out, mag);
    } else {
        append_decimal_u128(out, n as u128);
    }
}

/// The decimal writing of a signed number as a fresh string.
pub fn i32_to_string(n: i32) -> (r: String)
    ensures
        r@ == spec_dec_int(n as int),
{
    let mut out = String::new();
    append_decimal_i32(&mut out, n);
    out
}

/// True of the characters that write decimal digits.
pub open spec fn is_digit_char(c: char) -> bool {
    '0' <= c && c <= '9'
}

/// Numeric value of a digit character.
pub open spec fn digit_val(c: char) -> int {
    c as int - '0' as int
}

/// Value of an all-digit string, most significant digit first.
pub open spec fn spec_parse_digits(s: Seq<char>) -> int
    decreases s.len(),
{
    if s.len() == 0 {
        0
    } else {
        spec_parse_digits(s.drop_last()) * 10 + digit_val(s.last())
    }
}

/// The digit run of an integer literal: everything after an optional sign.
pub open spec fn spec_digits_part(s: Seq<char>) -> Seq<char> {
    if s.len() > 0 && (s[0] == '+' || s[0] == '-') {
        s.drop_first()
    } else {
        s
    }
}

/// What parsing a decimal integer yields: an optional sign, then at least one
/// digit, all within the target range; anything else is refused.
pub open spec fn spec_parse_i32(s: Seq<char>) -> Option<int> {
    let digits = spec_digits_part(s);
    let negative = s.len() > 0 && s[0] == '-';
    if digits.len() == 0 || !(forall|i: int| 0 <= i < digits.len() ==> is_digit_char(digits[i])) {
        None
    } else {
        let magnitude = spec_parse_digits(digits);
        let value = if negative {
            -magnitude
        } else {
            magnitude
        };
        if i32::MIN <= value <= i32::MAX {
            Some(value)
        } else {
            None
        }
    }
}

/// An all-digit string never parses to a negative value, and a longer digit
/// string never parses to less than one of its prefixes.
proof fn lemma_parse_digits_monotone(s: Seq<char>, k: int)
    requires
        0 <= k <= s.len(),
        forall|i: int| 0 <= i < s.len() ==> is_digit_char(s[i]),
    ensures
        spec_parse_digits(s) >= spec_parse_digits(s.subrange(0, k)) >= 0,
    decreases s.len() - k,
{
    if k == s.len() {
        assert(s.subrange(0, k) =~= s);
        lemma_parse_digits_nonneg(s);
    } else {
        lemma_parse_digits_monotone(s, k + 1);
        let shorter = s.subrange(0, k);
        let longer = s.subrange(0, k + 1);
        assert(longer.drop_last() =~= shorter);
        lemma_parse_digits_nonneg(shorter);
        assert(spec_parse_digits(longer) == spec_parse_digits(shorter) * 10 + digit_val(
            longer.last(),
        ));
        assert(spec_parse_digits(longer) >= spec_parse_digits(shorter));
    }
}

/// Digit strings parse to non-negative values.
proof fn lemma_parse_digits_nonneg(s: Seq<char>)
    requires
        forall|i: int| 0 <= i < s.len() ==> is_digit_char(s[i]),
    ensures
        spec_parse_digits(s) >= 0,
    decreases s.len(),
{
    if s.len() > 0 {
        assert(forall|i: int| 0 <= i < s.drop_last().len() ==> is_digit_char(s.drop_last()[i]));
        lemma_parse_digits_nonneg(s.drop_last());
    }
}

/// Whether the standard library counts this character as white space; the
/// Unicode White_Space table is `char::is_whitespace`'s.
pub uninterp spec fn is_white_space(c: char) -> bool;

/// Relies on char::is_whitespace: true exactly of Unicode white space, a
/// function of the character alone.
#[verifier::external_body]
pub(crate) fn char_is_whitespace(c: char) -> (r: bool)
    ensures
        r == is_white_space(c),
{
    c.is_whitespace()
}

/// The string with leading white space dropped.
pub open spec fn spec_trim_start(s: Seq<char>) -> Seq<char>
    decreases s.len(),
{
    if s.len() > 0 && is_white_space(s[0]) {
        spec_trim_start(s.drop_first())
    } else {
        s
    }
}

/// The string with trailing white space dropped.
pub open spec fn spec_trim_end(s: Seq<char>) -> Seq<char>
    decreases s.len(),
{
    if s.len() > 0 && is_white_space(s.last()) {
        spec_trim_end(s.drop_last())
    } else {
        s
    }
}

/// The string with white space dropped from both ends.
pub open spec fn spec_trim(s: Seq<char>) -> Seq<char> {
    spec_trim_end(spec_trim_start(s))
}

/// Copies `s` without its leading and trailing white space.
pub fn trim_str(s: &str) -> (r: String)
    ensures
        r@ == spec_trim(s@),
{
    let n = s.unicode_len();
    proof {
        assert(s@.subrange(0, n as int) =~= s@);
    }
    let mut a: usize = 0;
    while a < n && char_is_whitespace(s.get_char(a))
        invariant
            n == s@.len(),
            a <= n,
            spec_trim_start(s@) == spec_trim_start(s@.subrange(a as int, n as int)),
        decreases n - a,
    {
        proof {
            let cur = s@.subrange(a as int, n as int);
            assert(cur.drop_first() =~= s@.subrange(a as int + 1, n as int));
        }
        a += 1;
    }
    let ghost mid = s@.subrange(a as int, n as int);
    proof {
        assert(spec_trim_start(s@) == mid);
    }
    let mut b: usize = n;
    while b > a && char_is_whitespace(s.get_char(b - 1))
        invariant
            n == s@.len(),
            a <= b <= n,
            mid == s@.subrange(a as int, n as int),
            spec_trim_end(mid) == spec_trim_end(s@.subrange(a as int, b as int)),
        decreases b,
    {
        proof {
            let cur = s@.subrange(a as int, b as int);
            assert(cur.last() == s@[b - 1]);
            assert(cur.drop_last() =~= s@.subrange(a as int, b as int - 1));
        }
        b -= 1;
    }
    proof {
        assert(spec_trim_end(mid) == s@.subrange(a as int, b as int));
    }
    let piece = s.substring_char(a, b);
    piece.to_owned()
}

/// Parses a decimal integer as `str::parse::<i32>` does: an optional leading
/// sign, then only digits, rejecting empty digit runs and overflow.
pub fn parse_i32(s: &str) -> (r: Option<i32>)
    ensures
        match r {
            Some(v) => spec_parse_i32(s@) == Some(v as int),
            None => spec_parse_i32(s@) is None,
        },
{
    let n = s.unicode_len();
    let mut start: usize = 0;
    let mut negative = false;
    if n > 0 {
        let c0 = s.get_char(0);
        if c0 == '+' || c0 == '-' {
            start = 1;
            negative = c0 == '-';
        }
    }
    let ghost digits = spec_digits_part(s@);
    proof {
        assert(digits =~= s@.subrange(start as int, n as int));
    }
    if start == n {
        return None;
    }
    let mut acc: u64 = 0;
    let mut i: usize = start;
    while i < n
        invariant
            n == s@.len(),
            start <= i <= n,
            start < n,
            digits == spec_digits_part(s@),
            digits == s@.subrange(start as int, n as int),
            negative == (s@.len() > 0 && s@[0] == '-'),
            forall|j: int| start <= j < i ==> is_digit_char(s@[j]),
            acc == spec_parse_digits(s@.subrange(start as int, i as int)),
            acc <= 0x8000_0000u64,
        decreases n - i,
    {
        let c = s.get_char(i);
        if c < '0' || c > '9' {
            proof {
                assert(digits[i - start] == s@[i as int]);
                assert(!is_digit_char(digits[i - start]));
            }
            return None;
        }
        let d: u32 = (c as u32) - ('0' as u32);
        let next: u64 = acc * 10 + (d as u64);
        proof {
            let prefix = s@.subrange(start as int, i as int);
            let ext = s@.subrange(start as int, i as int + 1);
            assert(ext.drop_last() =~= prefix);
            assert(digit_val(s@[i as int]) == d as int);
        }
        if next > 0x8000_0000u64 {
            // Every longer digit run parses to at least this much, so the
            // value cannot fit; any later non-digit also refuses the parse.
            return scan_rest_overflow(s, i, n, Ghost(start), Ghost(digits));
        }
        acc = next;
        i += 1;
    }
    proof {
        assert(s@.subrange(start as int, n as int) =~= digits);
        assert(forall|j: int| 0 <= j < digits.len() ==> is_digit_char(digits[j]));
    }
    if negative {
        let v: i64 = -(acc as i64);
        proof {
            assert(spec_parse_i32(s@) == Some(v as int));
        }
        Some(v as i32)
    } else {
        if acc > 0x7fff_ffffu64 {
            return None;
        }
        Some(acc as i32)
    }
}

/// After the accumulated value has already passed the signed 32-bit bound,
/// the parse can only fail: either a later character is not a digit, or the
/// full digit run parses to a value at least as large.
fn scan_rest_overflow(
    s: &str,
    i: usize,
    n: usize,
    Ghost(start): Ghost<usize>,
    Ghost(digits): Ghost<Seq<char>>,
) -> (r: Option<i32>)
    requires
        n == s@.len(),
        start <= i < n,
        start < n,
        digits == spec_digits_part(s@),
        digits == s@.subrange(start as int, n as int),
        forall|j: int| start <= j <= i ==> is_digit_char(s@[j]),
        spec_parse_digits(s@.subrange(start as int, i as int + 1)) > 0x7fff_ffff + 1,
    ensures
        r is None,
        spec_parse_i32(s@) is None,
{
    let mut k: usize = i + 1;
    while k < n
        invariant
            n == s@.len(),
            start <= i < k <= n,
            digits == spec_digits_part(s@),
            digits == s@.subrange(start as int, n as int),
            spec_parse_digits(s@.subrange(start as int, i as int + 1)) > 0x7fff_ffff + 1,
            forall|j: int| start <= j < k ==> is_digit_char(s@[j]),
        decreases n - k,
    {
        let c = s.get_char(k);
        if c < '0' || c > '9' {
            proof {
                assert(digits[k - start] == s@[k as int]);
                assert(!is_digit_char(digits[k - start]));
            }
            return None;
        }
        k += 1;
    }
    proof {
        assert(forall|j: int| 0 <= j < digits.len() ==> is_digit_char(digits[j]));
        lemma_parse_digits_monotone(digits, i as int + 1 - start as int);
        assert(s@.subrange(start as int, i as int + 1) =~= digits.subrange(
            0,
            i as int + 1 - start as int,
        ));
        assert(spec_parse_digits(digits) > 0x7fff_ffff + 1);
    }
    None
}

} // verus!
