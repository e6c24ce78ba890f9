//! Text helpers for line-oriented headers: trimming, prefixes, decimals.
use vstd::prelude::*;
use vstd::string::*;
#[allow(unused_imports)]
use vstd::utf8::{decode_utf8, encode_utf8, pop_first_scalar, valid_utf8};

verus! {

/// Characters with the Unicode `White_Space` property.
pub open spec fn is_white(c: char) -> bool {
    let u = c as u32;
    ||| 0x09 <= u <= 0x0d
    ||| u == 0x20
    ||| u == 0x85
    ||| u == 0xa0
    ||| u == 0x1680
    ||| 0x2000 <= u <= 0x200a
    ||| u == 0x2028
    ||| u == 0x2029
    ||| u == 0x202f
    ||| u == 0x205f
    ||| u == 0x3000
}

/// `s` without its leading and trailing white space.
pub open spec fn trim(s: Seq<char>) -> Seq<char>
    decreases s.len(),
{
    if s.len() == 0 {
        s
    } else if is_white(s[0]) {
        trim(s.subrange(1, s.len() as int))
    } else if is_white(s[s.len() - 1]) {
        trim(s.subrange(0, s.len() - 1))
    } else {
        s
    }
}

/// Trimming leaves no white space at either end and never adds a character.
pub proof fn lemma_trim_ends(s: Seq<char>)
    ensures
        trim(s).len() <= s.len(),
        trim(s).len() > 0 ==> !is_white(trim(s)[0]) && !is_white(trim(s).last()),
    decreases s.len(),
{
    if s.len() > 0 {
        if is_white(s[0]) {
            lemma_trim_ends(s.subrange(1, s.len() as int));
        } else if is_white(s[s.len() - 1]) {
            lemma_trim_ends(s.subrange(0, s.len() - 1));
        }
    }
}

fn is_white_char(c: char) -> (white: bool)
    ensures
        white == is_white(c),
{
    let u: u32 = c as u32;
    (0x09 <= u && u <= 0x0d) || u == 0x20 || u == 0x85 || u == 0xa0 || u == 0x1680 || (0x2000 <= u
        && u <= 0x200a) || u == 0x2028 || u == 0x2029 || u == 0x202f || u == 0x205f || u == 0x3000
}

/// The bounds that trimming leaves of `chars[lo..hi]`.
pub fn trim_range(chars: &Vec<char>, lo: usize, hi: usize) -> (range: (usize, usize))
    requires
        lo <= hi <= chars.len(),
    ensures
        lo <= range.0 <= range.1 <= hi,
        chars@.subrange(range.0 as int, range.1 as int) == trim(
            chars@.subrange(lo as int, hi as int),
        ),
{
    let mut a: usize = lo;
    let mut b: usize = hi;
    while a < b && is_white_char(chars[a])
        invariant
            lo <= a <= b <= hi <= chars.len(),
            b == hi,
            trim(chars@.subrange(a as int, b as int)) == trim(
                chars@.subrange(lo as int, hi as int),
            ),
        decreases b - a,
    {
        proof {
            let s = chars@.subrange(a as int, b as int);
            assert(s.subrange(1, s.len() as int) =~= chars@.subrange(a + 1, b as int));
        }
        a = a + 1;
    }
    while a < b && is_white_char(chars[b - 1])
        invariant
            lo <= a <= b <= hi <= chars.len(),
            a == b || !is_white(chars@[a as int]),
            trim(chars@.subrange(a as int, b as int)) == trim(
                chars@.subrange(lo as int, hi as int),
            ),
        decreases b - a,
    {
        proof {
            let s = chars@.subrange(a as int, b as int);
            assert(s.subrange(0, s.len() - 1) =~= chars@.subrange(a as int, b - 1));
        }
        b = b - 1;
    }
    (a, b)
}

/// Whether `chars[lo..hi]` starts with `lit`.
pub fn range_starts_with(chars: &Vec<char>, lo: usize, hi: usize, lit: &str) -> (starts: bool)
    requires
        lo <= hi <= chars.len(),
    ensures
        starts == lit@.is_prefix_of(chars@.subrange(lo as int, hi as int)),
{
    let m: usize = lit.unicode_len();
    let ghost s = chars@.subrange(lo as int, hi as int);
    if m > hi - lo {
        return false;
    }
    let mut i: usize = 0;
    while i < m
        invariant
            i <= m,
            m == lit@.len(),
            m <= hi - lo,
            lo <= hi <= chars.len(),
            s == chars@.subrange(lo as int, hi as int),
            forall|k: int| 0 <= k < i ==> lit@[k] == s[k],
        decreases m - i,
    {
        if lit.get_char(i) != chars[lo + i] {
            assert(lit@[i as int] != s[i as int]);
            assert(s.subrange(0, m as int)[i as int] == s[i as int]);
            return false;
        }
        i = i + 1;
    }
    assert(lit@ =~= s.subrange(0, m as int));
    true
}

/// Whether `chars[lo..hi]` is `lit`.
pub fn range_equals(chars: &Vec<char>, lo: usize, hi: usize, lit: &str) -> (equal: bool)
    requires
        lo <= hi <= chars.len(),
    ensures
        equal == (chars@.subrange(lo as int, hi as int) == lit@),
{
    let starts: bool = range_starts_with(chars, lo, hi, lit);
    let len: usize = lit.unicode_len();
    let ghost s = chars@.subrange(lo as int, hi as int);
    if starts && len == hi - lo {
        assert(s.subrange(0, len as int) =~= s);
        true
    } else {
        assert(s == lit@ ==> s.subrange(0, len as int) =~= s);
        false
    }
}

/// The characters of a string.
pub fn chars_of(text: &str) -> (chars: Vec<char>)
    ensures
        chars@ == text@,
{
    broadcast use vstd::string::axiom_spec_iter;

    let mut chars: Vec<char> = Vec::new();
    for c in it: text.chars()
        invariant
            chars@ == it.seq().take(it.index()),
            it.seq() == text@,
    {
        proof {
            assert(it.seq().take(it.index() + 1) =~= it.seq().take(it.index()).push(c));
        }
        chars.push(c);
    }
    assert(text@.take(text@.len() as int) =~= text@);
    chars
}

/// Calls `String::from_utf8`. The bytes are accepted exactly when they are
/// valid UTF-8, and the string then holds the characters that they encode.
#[verifier::external_body]
fn string_from_utf8(bytes: Vec<u8>) -> (text: Option<String>)
    ensures
        text is Some == valid_utf8(bytes@),
        text is Some ==> text->0@ == decode_utf8(bytes@),
{
    String::from_utf8(bytes).ok()
}

/// The text of `bytes[lo..hi]`, if they are valid UTF-8.
pub fn decode_range(bytes: &[u8], lo: usize, hi: usize) -> (text: Option<String>)
    requires
        lo <= hi <= bytes.len(),
    ensures
        text is Some == valid_utf8(bytes@.subrange(lo as int, hi as int)),
        text is Some ==> text->0@ == decode_utf8(bytes@.subrange(lo as int, hi as int)),
{
    let mut part: Vec<u8> = Vec::new();
    let mut i: usize = lo;
    while i < hi
        invariant
            lo <= i <= hi <= bytes.len(),
            part@ == bytes@.subrange(lo as int, i as int),
        decreases hi - i,
    {
        part.push(bytes[i]);
        i = i + 1;
        assert(part@ =~= bytes@.subrange(lo as int, i as int));
    }
    string_from_utf8(part)
}

/// A byte sequence never decodes to more characters than it has bytes.
pub proof fn lemma_decode_len(bytes: Seq<u8>)
    requires
        valid_utf8(bytes),
    ensures
        decode_utf8(bytes).len() <= bytes.len(),
    decreases bytes.len(),
{
    if bytes.len() > 0 {
        lemma_decode_len(pop_first_scalar(bytes));
    }
}

/// UTF-8 encodes piece by piece.
pub proof fn lemma_encode_concat(a: Seq<char>, b: Seq<char>)
    ensures
        encode_utf8(a + b) == encode_utf8(a) + encode_utf8(b),
    decreases a.len(),
{
    if a.len() == 0 {
        assert(a + b =~= b);
        assert(encode_utf8(a) + encode_utf8(b) =~= encode_utf8(b));
    } else {
        assert((a + b).drop_first() =~= a.drop_first() + b);
        lemma_encode_concat(a.drop_first(), b);
        assert(encode_utf8(a + b) =~= encode_utf8(a) + encode_utf8(b));
    }
}

/// The digit character of a value below ten.
pub open spec fn digit_char(d: int) -> char {
    if d == 0 { '0' }
    else if d == 1 { '1' }
    else if d == 2 { '2' }
    else if d == 3 { '3' }
    else if d == 4 { '4' }
    else if d == 5 { '5' }
    else if d == 6 { '6' }
    else if d == 7 { '7' }
    else if d == 8 { '8' }
    else { '9' }
}

/// The value of a digit character, if it is one.
pub open spec fn digit_value(c: char) -> Option<int> {
    let u = c as u32;
    if 48 <= u <= 57 {
        Some(u - 48)
    } else {
        None
    }
}

/// Decimal digits of `n`, without leading zeros.
pub open spec fn decimal(n: nat) -> Seq<char>
    decreases n,
{
    if n < 10 {
        seq![digit_char(n as int)]
    } else {
        decimal(n / 10).push(digit_char(n as int % 10))
    }
}

/// Every character of a decimal is a digit, and there is at least one.
pub proof fn lemma_decimal_digits(n: nat)
    ensures
        decimal(n).len() > 0,
        forall|i: int| 0 <= i < decimal(n).len() ==> '0' <= #[trigger] decimal(n)[i] <= '9',
    decreases n,
{
    if n >= 10 {
        lemma_decimal_digits(n / 10);
    }
}

/// Appends the decimal digits of `n` to `out`.
pub fn push_decimal(out: &mut Vec<u8>, n: usize)
    ensures
        final(out)@ == old(out)@ + encode_utf8(decimal(n as nat)),
    decreases n,
{
    let ghost before = out@;
    let d: u8 = (n % 10) as u8;
    if n >= 10 {
        push_decimal(out, n / 10);
    }
    proof {
        let c = digit_char(n as int % 10);
        let head: Seq<char> = if n < 10 { seq![] } else { decimal((n / 10) as nat) };
        assert(decimal(n as nat) =~= head + seq![c]);
        lemma_encode_concat(head, seq![c]);
        vstd::utf8::is_ascii_chars_encode_utf8(seq![c]);
        assert(encode_utf8(seq![c]) =~= seq![(48 + d) as u8]) by {
            assert(seq![c][0] as u8 == encode_utf8(seq![c])[0]);
        }
        assert(encode_utf8(Seq::<char>::empty()) =~= Seq::<u8>::empty());
    }
    out.push(48 + d);
    assert(out@ =~= before + encode_utf8(decimal(n as nat)));
}

/// Why a count does not parse.
#[derive(Clone, Copy, Debug, PartialEq, Eq, Structural)]
pub enum CountError {
    /// There are no characters at all.
    Empty,
    /// A character is not a digit where a digit is due.
    InvalidDigit,
    /// The value does not fit a `usize`.
    Overflow,
}

/// Reads the digits `s[i..]` on top of `acc`, left to right.
pub open spec fn digits_value(s: Seq<char>, i: int, acc: int) -> Result<int, CountError>
    decreases s.len() - i,
{
    if i >= s.len() {
        Ok(acc)
    } else {
        match digit_value(s[i]) {
            None => Err(CountError::InvalidDigit),
            Some(d) => if acc * 10 + d > usize::MAX {
                Err(CountError::Overflow)
            } else {
                digits_value(s, i + 1, acc * 10 + d)
            },
        }
    }
}

/// The value of an unsigned decimal with an optional leading `+`.
pub open spec fn count_value(s: Seq<char>) -> Result<int, CountError> {
    if s.len() == 0 {
        Err(CountError::Empty)
    } else if s[0] == '+' {
        if s.len() == 1 {
            Err(CountError::InvalidDigit)
        } else {
            digits_value(s, 1, 0)
        }
    } else {
        digits_value(s, 0, 0)
    }
}

/// Parses `chars[lo..hi]` as an unsigned decimal.
pub fn parse_count(chars: &Vec<char>, lo: usize, hi: usize) -> (r: Result<usize, CountError>)
    requires
        lo <= hi <= chars.len(),
    ensures
        match (r, count_value(chars@.subrange(lo as int, hi as int))) {
            (Ok(n), Ok(m)) => n == m,
            (Err(e), Err(f)) => e == f,
            _ => false,
        },
{
    let ghost s = chars@.subrange(lo as int, hi as int);
    if lo == hi {
        return Err(CountError::Empty);
    }
    let mut i: usize = lo;
    if chars[lo] == '+' {
        if hi - lo == 1 {
            return Err(CountError::InvalidDigit);
        }
        i = lo + 1;
    }
    let mut acc: usize = 0;
    while i < hi
        invariant
            lo <= i <= hi <= chars.len(),
            s == chars@.subrange(lo as int, hi as int),
            digits_value(s, i - lo, acc as int) == count_value(s),
        decreases hi - i,
    {
        let c: char = chars[i];
        let u: u32 = c as u32;
        if u < 48 || u > 57 {
            return Err(CountError::InvalidDigit);
        }
        let d: usize = (u - 48) as usize;
        assert(s[i - lo] == c);
        assert(digit_value(c) == Some(d as int));
        if acc > usize::MAX / 10 || acc * 10 > usize::MAX - d {
            return Err(CountError::Overflow);
        }
        acc = acc * 10 + d;
        i = i + 1;
    }
    Ok(acc)
}

proof fn lemma_digits_of_decimal(n: nat, s: Seq<char>, k: int)
    requires
        n <= usize::MAX,
        0 <= k,
        k + decimal(n).len() <= s.len(),
        forall|i: int| 0 <= i < decimal(n).len() ==> s[k + i] == #[trigger] decimal(n)[i],
    ensures
        digits_value(s, k, 0) == digits_value(s, k + decimal(n).len() as int, n as int),
    decreases n,
{
    let m = decimal(n).len() as int;
    lemma_decimal_digits(n);
    assert(s[k + m - 1] == decimal(n)[m - 1]);
    if n < 10 {
        assert(digit_value(s[k]) == Some(n as int));
        assert(digits_value(s, k, 0) == digits_value(s, k + 1, n as int));
    } else {
        let h = n / 10;
        let d = n as int % 10;
        assert forall|i: int| 0 <= i < decimal(h).len() implies s[k + i] == #[trigger] decimal(h)[i] by {
            assert(decimal(n)[i] == decimal(h)[i]);
        }
        lemma_digits_of_decimal(h, s, k);
        assert(digit_value(s[k + m - 1]) == Some(d));
        assert(h as int * 10 + d == n);
        assert(digits_value(s, k + m - 1, h as int) == digits_value(s, k + m, n as int));
    }
}

/// A decimal parses back to the number it was made from.
pub proof fn law_decimal_parses(n: nat)
    requires
        n <= usize::MAX,
    ensures
        count_value(decimal(n)) == Ok::<int, CountError>(n as int),
{
    lemma_decimal_digits(n);
    lemma_digits_of_decimal(n, decimal(n), 0);
    assert(decimal(n)[0] != '+');
}

/// White space is what Unicode lists as such: tab to carriage return, space,
/// next line, no-break space, the Ogham space, the spaces from U+2000 to
/// U+200A, the line and paragraph separators, the narrow no-break and medium
/// mathematical spaces, and the ideographic space.
pub proof fn law_white_space(c: char)
    ensures
        is_white(c) <==> c == '\u{0009}' || c == '\u{000a}' || c == '\u{000b}' || c == '\u{000c}'
            || c == '\u{000d}' || c == ' ' || c == '\u{0085}' || c == '\u{00a0}' || c == '\u{1680}'
            || c == '\u{2000}' || c == '\u{2001}' || c == '\u{2002}' || c == '\u{2003}' || c
            == '\u{2004}' || c == '\u{2005}' || c == '\u{2006}' || c == '\u{2007}' || c
            == '\u{2008}' || c == '\u{2009}' || c == '\u{200a}' || c == '\u{2028}' || c
            == '\u{2029}' || c == '\u{202f}' || c == '\u{205f}' || c == '\u{3000}',
{
}

/// Trimming cuts white space off both ends and nothing else: what remains is
/// one stretch of the text with only white space around it, and where anything
/// remains it neither starts nor ends with white space.
pub proof fn law_trim(s: Seq<char>)
    ensures
        exists|a: int, b: int|
            0 <= a <= b <= s.len() && trim(s) == #[trigger] s.subrange(a, b) && (forall|i: int|
                0 <= i < a ==> is_white(#[trigger] s[i])) && (forall|i: int|
                b <= i < s.len() ==> is_white(#[trigger] s[i])),
        trim(s).len() > 0 ==> !is_white(trim(s)[0]) && !is_white(trim(s)[trim(s).len() - 1]),
    decreases s.len(),
{
    lemma_trim_ends(s);
    let n = s.len() as int;
    if n == 0 {
        assert(s.subrange(0, 0) =~= s);
    } else if is_white(s[0]) {
        let t = s.subrange(1, n);
        law_trim(t);
        let (a, b) = choose|a: int, b: int|
            0 <= a <= b <= t.len() && trim(t) == #[trigger] t.subrange(a, b) && (forall|i: int|
                0 <= i < a ==> is_white(#[trigger] t[i])) && (forall|i: int|
                b <= i < t.len() ==> is_white(#[trigger] t[i]));
        assert(t.subrange(a, b) =~= s.subrange(a + 1, b + 1));
        assert forall|i: int| 0 <= i < a + 1 implies is_white(#[trigger] s[i]) by {
            if i > 0 {
                assert(t[i - 1] == s[i]);
            }
        }
        assert forall|i: int| b + 1 <= i < n implies is_white(#[trigger] s[i]) by {
            assert(t[i - 1] == s[i]);
        }
    } else if is_white(s[n - 1]) {
        let t = s.subrange(0, n - 1);
        law_trim(t);
        let (a, b) = choose|a: int, b: int|
            0 <= a <= b <= t.len() && trim(t) == #[trigger] t.subrange(a, b) && (forall|i: int|
                0 <= i < a ==> is_white(#[trigger] t[i])) && (forall|i: int|
                b <= i < t.len() ==> is_white(#[trigger] t[i]));
        assert(t.subrange(a, b) =~= s.subrange(a, b));
        assert forall|i: int| 0 <= i < a implies is_white(#[trigger] s[i]) by {
            assert(t[i] == s[i]);
        }
        assert forall|i: int| b <= i < n implies is_white(#[trigger] s[i]) by {
            if i < n - 1 {
                assert(t[i] == s[i]);
            }
        }
    } else {
        assert(s.subrange(0, n) =~= s);
    }
}

/// Decimals have the usual digits: the last one is the remainder by ten, what
/// stands before it is the decimal of the quotient, and no decimal but that of
/// zero starts with a zero.
pub proof fn law_decimal_digits(n: nat)
    ensures
        decimal(n).len() > 0,
        decimal(n)[decimal(n).len() - 1] as int == 48 + n % 10,
        n < 10 ==> decimal(n).len() == 1,
        n >= 10 ==> decimal(n).drop_last() == decimal(n / 10),
        n > 0 ==> decimal(n)[0] != '0',
    decreases n,
{
    if n >= 10 {
        law_decimal_digits(n / 10);
        assert(decimal(n).drop_last() =~= decimal(n / 10));
        assert(decimal(n)[0] == decimal(n / 10)[0]);
    }
}

proof fn lemma_digits_pushed(s: Seq<char>, c: char, i: int, acc: int)
    requires
        0 <= i <= s.len(),
    ensures
        match digits_value(s, i, acc) {
            Err(e) => digits_value(s.push(c), i, acc) == Err::<int, CountError>(e),
            Ok(n) => digits_value(s.push(c), i, acc) == digits_value(
                s.push(c),
                s.len() as int,
                n,
            ),
        },
    decreases s.len() - i,
{
    if i < s.len() {
        assert(s.push(c)[i] == s[i]);
        if let Some(d) = digit_value(s[i]) {
            if acc * 10 + d <= usize::MAX {
                lemma_digits_pushed(s, c, i + 1, acc * 10 + d);
            }
        }
    }
}

/// A count is read digit by digit. One more digit behind a count makes ten
/// times the count plus that digit, or overflows; any other character behind
/// it is no digit. Behind what does not parse, but for a lone plus sign,
/// nothing changes.
pub proof fn law_count_grows_by_digits(s: Seq<char>, c: char)
    requires
        s.len() > 0,
    ensures
        count_value(s) matches Ok(n) ==> count_value(s.push(c)) == if !('0' <= c <= '9') {
            Err::<int, CountError>(CountError::InvalidDigit)
        } else if n * 10 + (c as int - 48) > usize::MAX {
            Err::<int, CountError>(CountError::Overflow)
        } else {
            Ok::<int, CountError>(n * 10 + (c as int - 48))
        },
        count_value(s) is Err && !(s.len() == 1 && s[0] == '+') ==> count_value(s.push(c))
            == count_value(s),
{
    let from: int = if s[0] == '+' { 1 } else { 0 };
    assert(s.push(c)[0] == s[0]);
    lemma_digits_pushed(s, c, from, 0);
    assert(s.push(c)[s.len() as int] == c);
    reveal_with_fuel(digits_value, 2);
}

/// Nothing is no count, and a lone plus sign is none either. A single digit,
/// with or without a plus sign before it, is its own value; no other single
/// character is a count.
pub proof fn law_shortest_counts(c: char)
    ensures
        count_value(Seq::empty()) == Err::<int, CountError>(CountError::Empty),
        count_value(seq![c]) == if '0' <= c <= '9' {
            Ok::<int, CountError>(c as int - 48)
        } else {
            Err::<int, CountError>(CountError::InvalidDigit)
        },
        count_value(seq!['+', c]) == if '0' <= c <= '9' {
            Ok::<int, CountError>(c as int - 48)
        } else {
            Err::<int, CountError>(CountError::InvalidDigit)
        },
{
    reveal_with_fuel(digits_value, 2);
}

} // verus!
