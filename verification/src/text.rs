//! Character-level text building: decimal and hexadecimal renderings of
//! numbers, padding, and string concatenation with exact contracts.

use vstd::prelude::*;

verus! {

/// `String::push` appends one character.
pub assume_specification[ String::push ](s: &mut String, ch: char)
    ensures
        final(s)@ == old(s)@.push(ch),
;

/// `String::push_str` appends a string slice.
pub assume_specification[ String::push_str ](s: &mut String, other: &str)
    ensures
        final(s)@ == old(s)@ + other@,
;

/// The character of a digit value in base 16, upper case (`0`-`9`, `A`-`F`).
pub open spec fn hex_digit_char(d: int) -> char {
    if d == 0 { '0' }
    else if d == 1 { '1' }
    else if d == 2 { '2' }
    else if d == 3 { '3' }
    else if d == 4 { '4' }
    else if d == 5 { '5' }
    else if d == 6 { '6' }
    else if d == 7 { '7' }
    else if d == 8 { '8' }
    else if d == 9 { '9' }
    else if d == 10 { 'A' }
    else if d == 11 { 'B' }
    else if d == 12 { 'C' }
    else if d == 13 { 'D' }
    else if d == 14 { 'E' }
    else { 'F' }
}

/// Digits of `n` in `base` (most significant first), with no leading zeros;
/// zero renders as a single `0`.
pub open spec fn digits(n: nat, base: nat) -> Seq<char>
    decreases n,
{
    if base < 2 || n < base {
        seq![hex_digit_char(n as int)]
    } else {
        proof {
            assert(n / base < n) by (nonlinear_arith)
                requires
                    base >= 2,
                    n >= base,
            ;
        }
        digits(n / base, base).push(hex_digit_char((n % base) as int))
    }
}

/// Decimal rendering of a natural number, as `{}` prints it.
pub open spec fn decimal(n: nat) -> Seq<char> {
    digits(n, 10)
}

/// Upper-case hexadecimal rendering of a natural number, as `{:X}` prints it.
pub open spec fn hex_upper(n: nat) -> Seq<char> {
    digits(n, 16)
}

/// `s` preceded by as many copies of `c` as needed to reach `width`.
pub open spec fn pad_left(s: Seq<char>, width: nat, c: char) -> Seq<char> {
    if s.len() >= width {
        s
    } else {
        Seq::new((width - s.len()) as nat, |i: int| c) + s
    }
}

/// `s` followed by as many spaces as needed to reach `width`, as `{:<width}`
/// prints a string.
pub open spec fn pad_right(s: Seq<char>, width: nat) -> Seq<char> {
    if s.len() >= width {
        s
    } else {
        s + Seq::new((width - s.len()) as nat, |i: int| ' ')
    }
}

/// Upper-case hexadecimal, zero-padded to at least eight digits, as `{:08X}`
/// prints it.
pub open spec fn hex8(n: nat) -> Seq<char> {
    pad_left(hex_upper(n), 8, '0')
}

/// The character of a digit value below 16 (upper case above 9).
pub fn digit_char(d: u64) -> (c: char)
    requires
        d < 16,
    ensures
        c == hex_digit_char(d as int),
{
    if d == 0 { '0' }
    else if d == 1 { '1' }
    else if d == 2 { '2' }
    else if d == 3 { '3' }
    else if d == 4 { '4' }
    else if d == 5 { '5' }
    else if d == 6 { '6' }
    else if d == 7 { '7' }
    else if d == 8 { '8' }
    else if d == 9 { '9' }
    else if d == 10 { 'A' }
    else if d == 11 { 'B' }
    else if d == 12 { 'C' }
    else if d == 13 { 'D' }
    else if d == 14 { 'E' }
    else { 'F' }
}

fn render_digits(n: u64, base: u64) -> (s: String)
    requires
        2 <= base <= 16,
    ensures
        s@ == digits(n as nat, base as nat),
    decreases n,
{
    if n < base {
        let mut s = String::new();
        s.push(digit_char(n));
        s
    } else {
        assert(n / base < n) by (nonlinear_arith)
            requires
                base >= 2,
                n >= base,
        ;
        let mut s = render_digits(n / base, base);
        s.push(digit_char(n % base));
        s
    }
}

/// Decimal rendering of `n`.
pub fn u64_to_decimal(n: u64) -> (s: String)
    ensures
        s@ == decimal(n as nat),
{
    render_digits(n, 10)
}

/// Upper-case hexadecimal rendering of `n`, zero-padded to eight digits.
pub fn u64_to_hex8(n: u64) -> (s: String)
    ensures
        s@ == hex8(n as nat),
{
    let h = render_digits(n, 16);
    let mut s = String::new();
    let len: usize = h.as_str().unicode_len();
    let mut k: usize = len;
    while k < 8
        invariant
            len == h@.len(),
            len <= k <= 8 || (len > 8 && k == len),
            s@ == Seq::new((k - len) as nat, |i: int| '0'),
        decreases 8 - k,
    {
        s.push('0');
        k = k + 1;
        assert(s@ =~= Seq::new((k - len) as nat, |i: int| '0'));
    }
    s.push_str(h.as_str());
    assert(s@ =~= hex8(n as nat));
    s
}

/// `s` followed by spaces up to `width` characters.
pub fn pad_right_to(s: &str, width: usize) -> (r: String)
    ensures
        r@ == pad_right(s@, width as nat),
{
    let mut r = String::new();
    r.push_str(s);
    let len: usize = s.unicode_len();
    let mut k: usize = len;
    while k < width
        invariant
            len == s@.len(),
            len <= k <= width || (len > width && k == len),
            r@ == s@ + Seq::new((k - len) as nat, |i: int| ' '),
        decreases width - k,
    {
        r.push(' ');
        k = k + 1;
        assert(r@ =~= s@ + Seq::new((k - len) as nat, |i: int| ' '));
    }
    assert(r@ =~= pad_right(s@, width as nat));
    r
}

/// Whether two string slices hold the same characters.
pub fn str_eq(a: &str, b: &str) -> (r: bool)
    ensures
        r == (a@ == b@),
{
    let n: usize = a.unicode_len();
    let m: usize = b.unicode_len();
    if n != m {
        return false;
    }
    let mut i: usize = 0;
    while i < n
        invariant
            n == a@.len(),
            m == b@.len(),
            n == m,
            i <= n,
            forall|j: int| 0 <= j < i ==> a@[j] == b@[j],
        decreases n - i,
    {
        if a.get_char(i) != b.get_char(i) {
            return false;
        }
        i = i + 1;
    }
    assert(a@ =~= b@);
    true
}

/// A fresh `String` holding the characters of `s`.
pub fn owned(s: &str) -> (r: String)
    ensures
        r@ == s@,
{
    let mut r = String::new();
    r.push_str(s);
    assert(r@ =~= s@);
    r
}

/// Concatenation of two slices into a fresh `String`.
pub fn concat2(a: &str, b: &str) -> (r: String)
    ensures
        r@ == a@ + b@,
{
    let mut r = String::new();
    r.push_str(a);
    r.push_str(b);
    assert(r@ =~= a@ + b@);
    r
}

/// Concatenation of three slices into a fresh `String`.
pub fn concat3(a: &str, b: &str, c: &str) -> (r: String)
    ensures
        r@ == a@ + b@ + c@,
{
    let mut r = concat2(a, b);
    r.push_str(c);
    r
}

/// Appends the decimal rendering of `n`.
pub fn push_decimal(s: &mut String, n: u64)
    ensures
        final(s)@ == old(s)@ + decimal(n as nat),
{
    let d = u64_to_decimal(n);
    s.push_str(d.as_str());
}

/// Joins lines with `\n` between them.
pub open spec fn join_lines(lines: Seq<Seq<char>>) -> Seq<char>
    decreases lines.len(),
{
    if lines.len() == 0 {
        seq![]
    } else if lines.len() == 1 {
        lines[0]
    } else {
        join_lines(lines.drop_last()) + seq!['\n'] + lines.last()
    }
}

/// The characters of each string.
pub open spec fn texts(v: Seq<String>) -> Seq<Seq<char>> {
    Seq::new(v.len(), |i: int| v[i]@)
}

/// The characters of each string after a push.
pub proof fn lemma_texts_push(v: Seq<String>, x: String)
    ensures
        texts(v.push(x)) == texts(v).push(x@),
{
    assert(texts(v.push(x)) =~= texts(v).push(x@));
}

/// Joins strings with `\n` between them, as `lines.join("\n")` does.
pub fn join_with_newlines(lines: &Vec<String>) -> (r: String)
    ensures
        r@ == join_lines(texts(lines@)),
{
    let n: usize = lines.len();
    let mut r = String::new();
    let mut i: usize = 0;
    while i < n
        invariant
            n == lines@.len(),
            i <= n,
            r@ == join_lines(texts(lines@).take(i as int)),
        decreases n - i,
    {
        let ghost before = texts(lines@).take(i as int);
        let ghost after = texts(lines@).take(i + 1);
        assert(after.drop_last() =~= before);
        assert(after.last() == lines@[i as int]@);
        if i > 0 {
            r.push('\n');
        } else {
            assert(after =~= seq![lines@[0]@]);
        }
        r.push_str(lines[i].as_str());
        i = i + 1;
    }
    assert(texts(lines@).take(n as int) =~= texts(lines@));
    r
}

} // verus!
