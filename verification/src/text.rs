//! Character helpers: hexadecimal and decimal digits, white space, ASCII case.
use vstd::prelude::*;
use vstd::string::StrSliceExecFns;

verus! {

/// The upper-case hexadecimal digit of a value below 16.
pub open spec fn hex_digit(n: u8) -> char
    recommends
        n < 16,
{
    if n < 10 {
        ((n + 48) as u8) as char
    } else {
        ((n + 55) as u8) as char
    }
}

/// A byte as two upper-case hexadecimal digits, most significant first.
pub open spec fn hex_byte(b: u8) -> Seq<char> {
    seq![hex_digit(b / 16), hex_digit(b % 16)]
}

/// The decimal digit of a value below 10.
pub open spec fn decimal_digit(n: nat) -> char
    recommends
        n < 10,
{
    ((n + 48) as u8) as char
}

/// The decimal notation of `n`, without leading zeros (`0` is written "0").
pub open spec fn decimal(n: nat) -> Seq<char>
    decreases n,
{
    if n < 10 {
        seq![decimal_digit(n)]
    } else {
        decimal(n / 10).push(decimal_digit(n % 10))
    }
}

/// `s` preceded by as many `'0'` as it takes to reach `width` characters.
pub open spec fn zero_padded(s: Seq<char>, width: nat) -> Seq<char> {
    if s.len() < width {
        Seq::new((width - s.len()) as nat, |i: int| '0') + s
    } else {
        s
    }
}

/// The decimal notation of `n`, zero-padded to `width` characters (as `{:0w}`).
pub open spec fn decimal_padded(n: nat, width: nat) -> Seq<char> {
    zero_padded(decimal(n), width)
}

/// Whether `c` is a Unicode `White_Space` character (what `char::is_whitespace` tests).
pub open spec fn is_whitespace(c: char) -> bool {
    let u = c as u32;
    ||| 9 <= u <= 13
    ||| u == 32
    ||| u == 0x85
    ||| u == 0xA0
    ||| u == 0x1680
    ||| 0x2000 <= u <= 0x200A
    ||| u == 0x2028
    ||| u == 0x2029
    ||| u == 0x202F
    ||| u == 0x205F
    ||| u == 0x3000
}

/// ASCII lower-casing of one character; every other character is kept.
pub open spec fn ascii_lower(c: char) -> char {
    if 'A' <= c <= 'Z' {
        ((c as u32) + 32) as char
    } else {
        c
    }
}

/// ASCII lower-casing of a string (what `str::to_ascii_lowercase` computes).
pub open spec fn ascii_lower_seq(s: Seq<char>) -> Seq<char> {
    s.map_values(|c: char| ascii_lower(c))
}

/// `String::push`: appends one character at the end of the string.
#[verifier::external_body]
pub(crate) fn push_char(s: &mut String, c: char)
    ensures
        final(s)@ == old(s)@.push(c),
{
    s.push(c);
}

/// The character of an upper-case hexadecimal digit.
pub(crate) fn hex_digit_char(n: u8) -> (c: char)
    requires
        n < 16,
    ensures
        c == hex_digit(n),
{
    if n < 10 {
        (n + 48) as char
    } else {
        (n + 55) as char
    }
}

/// Appends the two hexadecimal digits of `b`.
pub(crate) fn push_hex_byte(s: &mut String, b: u8)
    ensures
        final(s)@ == old(s)@ + hex_byte(b),
{
    let ghost before = s@;
    push_char(s, hex_digit_char(b / 16));
    push_char(s, hex_digit_char(b % 16));
    assert(s@ =~= before + hex_byte(b));
}

/// The index of the first character at or after `i` that is not white space
/// (or the length).
pub open spec fn skip_ws_forward(s: Seq<char>, i: int) -> int
    decreases s.len() - i,
{
    if 0 <= i < s.len() && is_whitespace(s[i]) {
        skip_ws_forward(s, i + 1)
    } else {
        i
    }
}

/// The index just after the last character before `j` and at or after `lo`
/// that is not white space (or `lo`).
pub open spec fn skip_ws_backward(s: Seq<char>, lo: int, j: int) -> int
    decreases j - lo,
{
    if lo < j && is_whitespace(s[j - 1]) {
        skip_ws_backward(s, lo, j - 1)
    } else {
        j
    }
}

/// `s` without leading and trailing white space (as `str::trim`).
pub open spec fn trim(s: Seq<char>) -> Seq<char> {
    let a = skip_ws_forward(s, 0);
    s.subrange(a, skip_ws_backward(s, a, s.len() as int))
}

/// Whether `c` is white space.
pub(crate) fn char_is_whitespace(c: char) -> (b: bool)
    ensures
        b == is_whitespace(c),
{
    let u = c as u32;
    (9 <= u && u <= 13) || u == 32 || u == 0x85 || u == 0xA0 || u == 0x1680 || (0x2000 <= u && u
        <= 0x200A) || u == 0x2028 || u == 0x2029 || u == 0x202F || u == 0x205F || u == 0x3000
}

/// The characters of `s` without leading and trailing white space.
pub(crate) fn trimmed_chars(s: &str) -> (t: Vec<char>)
    ensures
        t@ == trim(s@),
{
    let n = s.unicode_len();
    let mut a: usize = 0;
    while a < n && char_is_whitespace(s.get_char(a))
        invariant
            n == s@.len(),
            a <= n,
            skip_ws_forward(s@, a as int) == skip_ws_forward(s@, 0),
        decreases n - a,
    {
        a += 1;
    }
    let mut b: usize = n;
    while a < b && char_is_whitespace(s.get_char(b - 1))
        invariant
            n == s@.len(),
            a <= b <= n,
            a == skip_ws_forward(s@, 0),
            skip_ws_backward(s@, a as int, b as int) == skip_ws_backward(s@, a as int, n as int),
        decreases b - a,
    {
        b -= 1;
    }
    let mut t: Vec<char> = Vec::new();
    let mut i: usize = a;
    while i < b
        invariant
            n == s@.len(),
            a <= i <= b <= n,
            t@ == s@.subrange(a as int, i as int),
        decreases b - i,
    {
        t.push(s.get_char(i));
        assert(t@ =~= s@.subrange(a as int, i + 1));
        i += 1;
    }
    t
}

/// Hexadecimal digits: `0`-`9` for 0 to 9 and upper-case `A`-`F` for 10 to 15.
pub proof fn lemma_hex_digit(n: u8)
    requires
        n < 16,
    ensures
        hex_digit(n) as u32 == if n < 10 {
            48 + n
        } else {
            65 + (n - 10)
        },
        n < 10 ==> '0' <= hex_digit(n) <= '9',
        n >= 10 ==> 'A' <= hex_digit(n) <= 'F',
{
}

/// Zero padding keeps `s` as the end of the result and puts only `'0'` before
/// it, up to `width` characters in all (never cutting `s`).
pub proof fn lemma_zero_padded(s: Seq<char>, width: nat)
    ensures
        ({
            let r = zero_padded(s, width);
            let pad = r.len() - s.len();
            &&& r.len() == if s.len() < width {
                width
            } else {
                s.len()
            }
            &&& r.subrange(pad, r.len() as int) == s
            &&& forall|i: int| 0 <= i < pad ==> #[trigger] r[i] == '0'
        }),
{
    let r = zero_padded(s, width);
    assert(r.subrange(r.len() - s.len(), r.len() as int) =~= s);
}

proof fn lemma_skip_forward(s: Seq<char>, i: int)
    requires
        0 <= i <= s.len(),
    ensures
        i <= skip_ws_forward(s, i) <= s.len(),
        forall|j: int| i <= j < skip_ws_forward(s, i) ==> is_whitespace(#[trigger] s[j]),
        skip_ws_forward(s, i) < s.len() ==> !is_whitespace(s[skip_ws_forward(s, i)]),
    decreases s.len() - i,
{
    if i < s.len() && is_whitespace(s[i]) {
        lemma_skip_forward(s, i + 1);
    }
}

proof fn lemma_skip_backward(s: Seq<char>, lo: int, j: int)
    requires
        0 <= lo <= j <= s.len(),
    ensures
        lo <= skip_ws_backward(s, lo, j) <= j,
        forall|k: int| skip_ws_backward(s, lo, j) <= k < j ==> is_whitespace(#[trigger] s[k]),
        lo < skip_ws_backward(s, lo, j) ==> !is_whitespace(s[skip_ws_backward(s, lo, j) - 1]),
    decreases j - lo,
{
    if lo < j && is_whitespace(s[j - 1]) {
        lemma_skip_backward(s, lo, j - 1);
    }
}

/// Trimming keeps one contiguous piece of `s`: everything cut before or after it
/// is white space, and the piece neither starts nor ends with white space.
pub proof fn lemma_trim(s: Seq<char>)
    ensures
        exists|a: int, b: int|
            {
                &&& 0 <= a <= b <= s.len()
                &&& #[trigger] trim(s) == #[trigger] s.subrange(a, b)
                &&& forall|i: int| 0 <= i < a ==> is_whitespace(#[trigger] s[i])
                &&& forall|i: int| b <= i < s.len() ==> is_whitespace(#[trigger] s[i])
                &&& a < b ==> !is_whitespace(s[a]) && !is_whitespace(s[b - 1])
            },
{
    let a = skip_ws_forward(s, 0);
    lemma_skip_forward(s, 0);
    let b = skip_ws_backward(s, a, s.len() as int);
    lemma_skip_backward(s, a, s.len() as int);
    assert(trim(s) == s.subrange(a, b));
}

/// ASCII lower-casing moves `A`-`Z` to `a`-`z` and keeps every other
/// character, position by position.
pub proof fn lemma_ascii_lower(s: Seq<char>)
    ensures
        ascii_lower_seq(s).len() == s.len(),
        forall|i: int|
            0 <= i < s.len() ==> (#[trigger] ascii_lower_seq(s)[i]) as int == if 'A' <= s[i]
                <= 'Z' {
                s[i] as int + 32
            } else {
                s[i] as int
            },
{
}

/// Decimal digits: `0` to `9` for 0 to 9; the notation of a value below 10 is
/// its one digit, and a larger value's notation ends with its last digit.
pub proof fn lemma_decimal_digits(n: nat)
    ensures
        n < 10 ==> decimal_digit(n) as u32 == 48 + n,
        n < 10 ==> decimal(n) == seq![decimal_digit(n)],
        n >= 10 ==> decimal(n) == decimal(n / 10).push(decimal_digit(n % 10)),
{
}

} // verus!
