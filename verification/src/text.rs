//! Small text primitives shared by the printer and the renderers: decimal
//! numbers, runs of one character, and the character classes of the
//! standard library that decide how text is escaped.

use vstd::prelude::*;
use vstd::string::*;
use vstd::utf8::*;

verus! {

/// The characters that `char::escape_debug` of the standard library yields
/// for `c`.
pub uninterp spec fn escape_debug_chars(c: char) -> Seq<char>;

/// Whether `char::is_whitespace` of the standard library holds of `c`, that
/// is whether `c` has the Unicode property `White_Space`.
pub uninterp spec fn is_whitespace_char(c: char) -> bool;

/// `char::is_whitespace`: the result is the Unicode property `White_Space`
/// of the character, which is given the name [`is_whitespace_char`] here.
pub assume_specification[ char::is_whitespace ](c: char) -> (b: bool)
    ensures
        b == is_whitespace_char(c),
;

/// `String::push`: appends one character to the end of the string.
pub assume_specification[ String::push ](s: &mut String, c: char)
    ensures
        final(s)@ == old(s)@.push(c),
;

/// `char::escape_debug`, collected into a string: the escaped form of one
/// character, which is given the name [`escape_debug_chars`] here.
#[verifier::external_body]
pub(crate) fn escape_debug(c: char) -> (escaped: String)
    ensures
        escaped@ == escape_debug_chars(c),
{
    c.escape_debug().to_string()
}

/// The decimal digit for `d`, where `0 <= d <= 9`.
pub open spec fn digit_char(d: int) -> char {
    if d == 0 {
        '0'
    } else if d == 1 {
        '1'
    } else if d == 2 {
        '2'
    } else if d == 3 {
        '3'
    } else if d == 4 {
        '4'
    } else if d == 5 {
        '5'
    } else if d == 6 {
        '6'
    } else if d == 7 {
        '7'
    } else if d == 8 {
        '8'
    } else {
        '9'
    }
}

/// The decimal representation of `n`, without sign or leading zeros.
pub open spec fn decimal(n: nat) -> Seq<char>
    decreases n,
{
    if n < 10 {
        seq![digit_char(n as int)]
    } else {
        decimal(n / 10).push(digit_char((n % 10) as int))
    }
}

/// `n` copies of the character `c`.
pub open spec fn run(n: nat, c: char) -> Seq<char> {
    Seq::new(n, |i: int| c)
}

/// `a + b`, or the largest `usize` where the sum does not fit.
pub open spec fn sat_add(a: usize, b: nat) -> usize {
    if a + b > usize::MAX {
        usize::MAX
    } else {
        (a + b) as usize
    }
}

/// A decimal representation has as many digits as that of the number
/// without its last digit, and one more.
pub proof fn lemma_decimal_len(n: nat)
    ensures
        decimal(n).len() >= 1,
        n >= 10 ==> decimal(n).len() == decimal(n / 10).len() + 1,
        n < 10 ==> decimal(n).len() == 1,
    decreases n,
{
    if n >= 10 {
        lemma_decimal_len(n / 10);
    }
}

/// A larger number never has fewer digits.
pub proof fn lemma_decimal_len_monotonic(a: nat, b: nat)
    requires
        a <= b,
    ensures
        decimal(a).len() <= decimal(b).len(),
    decreases b,
{
    lemma_decimal_len(a);
    lemma_decimal_len(b);
    if a >= 10 {
        lemma_decimal_len_monotonic(a / 10, b / 10);
    }
}

/// Encoding a concatenation gives the concatenation of the encodings.
pub proof fn lemma_encode_utf8_concat(a: Seq<char>, b: Seq<char>)
    ensures
        encode_utf8(a + b) == encode_utf8(a) + encode_utf8(b),
    decreases a.len(),
{
    if a.len() == 0 {
        assert(a + b =~= b);
        assert(encode_utf8(a) + encode_utf8(b) =~= encode_utf8(b));
    } else {
        lemma_encode_utf8_concat(a.drop_first(), b);
        assert((a + b).drop_first() =~= a.drop_first() + b);
        assert(encode_utf8(a + b) =~= encode_utf8(a) + encode_utf8(b));
    }
}

/// Returns `a + b`, or the largest `usize` where the sum does not fit.
pub fn saturating_add(a: usize, b: usize) -> (sum: usize)
    ensures
        sum == sat_add(a, b as nat),
{
    if b > usize::MAX - a {
        usize::MAX
    } else {
        a + b
    }
}

/// Returns `lhs - rhs`, or zero where `rhs` is the larger.
pub fn safe_sub(lhs: usize, rhs: usize) -> (diff: usize)
    ensures
        diff == if lhs < rhs { 0 } else { lhs - rhs },
{
    if lhs < rhs {
        0
    } else {
        lhs - rhs
    }
}

/// Returns the decimal digit for `d`.
pub fn digit(d: usize) -> (c: char)
    requires
        d < 10,
    ensures
        c == digit_char(d as int),
{
    match d {
        0 => '0',
        1 => '1',
        2 => '2',
        3 => '3',
        4 => '4',
        5 => '5',
        6 => '6',
        7 => '7',
        8 => '8',
        _ => '9',
    }
}

/// Appends the decimal representation of `n` to `out`.
pub fn push_decimal(out: &mut String, n: usize)
    ensures
        final(out)@ == old(out)@ + decimal(n as nat),
    decreases n,
{
    if n >= 10 {
        push_decimal(out, n / 10);
    }
    out.push(digit(n % 10));
    assert(out@ =~= old(out)@ + decimal(n as nat));
}

/// Appends the decimal representation of a file handle or another 64-bit
/// number to `out`.
pub fn push_decimal_u64(out: &mut String, n: u64)
    ensures
        final(out)@ == old(out)@ + decimal(n as nat),
    decreases n,
{
    if n >= 10 {
        push_decimal_u64(out, n / 10);
    }
    let last: u64 = n % 10;
    out.push(digit(last as usize));
    assert(out@ =~= old(out)@ + decimal(n as nat));
}

/// Returns the characters of `s`.
pub fn str_chars(s: &str) -> (chars: Vec<char>)
    ensures
        chars@ == s@,
{
    let mut chars: Vec<char> = Vec::new();
    for c in it: s.chars()
        invariant
            it.seq() == s@,
            chars@ == s@.take(it.index() as int),
    {
        chars.push(c);
        assert(s@.take(it.index() + 1) =~= s@.take(it.index() as int).push(c));
    }
    assert(s@.take(s@.len() as int) =~= s@);
    chars
}

/// Returns the length of `s` in bytes.
pub fn str_size(s: &str) -> (size: usize)
    ensures
        size == encode_utf8(s@).len(),
{
    s.as_bytes().len()
}

/// Returns whether two strings hold the same text.
pub fn str_eq(a: &str, b: &str) -> (eq: bool)
    ensures
        eq == (a@ == b@),
{
    let left = a.as_bytes();
    let right = b.as_bytes();
    proof {
        encode_utf8_decode_utf8(a@);
        encode_utf8_decode_utf8(b@);
    }
    if left.len() != right.len() {
        return false;
    }
    let mut i: usize = 0;
    while i < left.len()
        invariant
            i <= left@.len(),
            left@.len() == right@.len(),
            left@ == encode_utf8(a@),
            right@ == encode_utf8(b@),
            decode_utf8(left@) == a@,
            decode_utf8(right@) == b@,
            forall|k: int| 0 <= k < i ==> left@[k] == right@[k],
        decreases left@.len() - i,
    {
        if left[i] != right[i] {
            return false;
        }
        i = i + 1;
    }
    assert(left@ =~= right@);
    true
}

/// Returns the decimal representation of `n`.
pub fn decimal_string(n: usize) -> (s: String)
    ensures
        s@ == decimal(n as nat),
{
    let mut s = String::new();
    push_decimal(&mut s, n);
    assert(s@ =~= decimal(n as nat));
    s
}

/// Returns the number of digits in the decimal representation of `n`.
pub fn decimal_width(n: usize) -> (width: usize)
    ensures
        width == decimal(n as nat).len(),
        1 <= width <= 20,
{
    let mut width: usize = 1;
    let mut rest: usize = n;
    proof {
        lemma_decimal_len(n as nat);
        assert(rest * pow10(0) == rest) by (nonlinear_arith)
            requires
                pow10(0) == 1,
        ;
    }
    while rest >= 10
        invariant
            1 <= width,
            width + decimal(rest as nat).len() == decimal(n as nat).len() + 1,
            rest * pow10((width - 1) as nat) <= usize::MAX,
            width <= 20,
        decreases rest,
    {
        proof {
            lemma_decimal_len(rest as nat);
            lemma_pow10_step(rest as nat, (width - 1) as nat);
            if width == 20 {
                lemma_pow10_19();
                assert(rest * pow10(19) >= 10 * pow10(19)) by (nonlinear_arith)
                    requires
                        rest >= 10,
                ;
            }
        }
        rest = rest / 10;
        width = width + 1;
    }
    proof {
        lemma_decimal_len(rest as nat);
    }
    width
}

/// Ten to the power `k`.
pub open spec fn pow10(k: nat) -> nat
    decreases k,
{
    if k == 0 {
        1
    } else {
        10 * pow10((k - 1) as nat)
    }
}

proof fn lemma_pow10_step(rest: nat, k: nat)
    requires
        rest >= 10,
    ensures
        (rest / 10) * pow10(k + 1) <= rest * pow10(k),
{
    assert(pow10(k + 1) == 10 * pow10(k));
    assert((rest / 10) * 10 <= rest);
    assert((rest / 10) * (10 * pow10(k)) == ((rest / 10) * 10) * pow10(k)) by (nonlinear_arith);
    assert(((rest / 10) * 10) * pow10(k) <= rest * pow10(k)) by (nonlinear_arith)
        requires
            (rest / 10) * 10 <= rest,
    ;
}

proof fn lemma_pow10_19()
    ensures
        10 * pow10(19) > usize::MAX,
{
    reveal_with_fuel(pow10, 20);
    assert(pow10(19) == 10_000_000_000_000_000_000nat);
}

/// Appends `n` copies of `c` to `out`.
pub fn push_run(out: &mut String, n: usize, c: char)
    ensures
        final(out)@ == old(out)@ + run(n as nat, c),
{
    let mut i: usize = 0;
    assert(out@ =~= old(out)@ + run(0, c));
    while i < n
        invariant
            i <= n,
            out@ == old(out)@ + run(i as nat, c),
        decreases n - i,
    {
        out.push(c);
        i = i + 1;
        assert(out@ =~= old(out)@ + run(i as nat, c));
    }
}

} // verus!
