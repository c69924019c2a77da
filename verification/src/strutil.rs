use vstd::prelude::*;
use vstd::string::{StrSliceExecFns, StringExecFns};

verus! {

// ---------------------------------------------------------------------------
// Character classes
// ---------------------------------------------------------------------------
/// An ASCII decimal digit, the only digits the number scanner accepts.
pub open spec fn is_digit_ch(c: char) -> bool {
    '0' <= c && c <= '9'
}

/// The numeric value of an ASCII digit.
pub open spec fn digit_val(c: char) -> int {
    c as int - '0' as int
}

pub fn digit_char_value(c: char) -> (d: u32)
    requires
        is_digit_ch(c),
    ensures
        d == digit_val(c),
        d <= 9,
{
    (c as u32) - ('0' as u32)
}

pub fn is_ascii_digit_char(c: char) -> (r: bool)
    ensures
        r == is_digit_ch(c),
{
    '0' <= c && c <= '9'
}

/// Whether `char::is_alphabetic` holds of `c`; a fixed classification of
/// each character, the same in every run.
pub uninterp spec fn alpha_char(c: char) -> bool;

/// Whether `char::is_numeric` holds of `c`.
pub uninterp spec fn numeric_char(c: char) -> bool;

/// Whether `char::is_alphanumeric` holds of `c`: alphabetic or numeric,
/// as its documentation defines it.
pub open spec fn alnum_char(c: char) -> bool {
    alpha_char(c) || numeric_char(c)
}

/// Whether `char::is_whitespace` holds of `c`.
pub uninterp spec fn ws_char(c: char) -> bool;

/// Relies on char::is_alphabetic: ASCII letters are alphabetic, and no
/// other ASCII character is.
#[verifier::external_body]
pub fn is_alphabetic_char(c: char) -> (r: bool)
    ensures
        r == alpha_char(c),
        ('a' <= c && c <= 'z') || ('A' <= c && c <= 'Z') ==> r,
        (c as u32) < 128 && !(('a' <= c && c <= 'z') || ('A' <= c && c <= 'Z')) ==> !r,
{
    c.is_alphabetic()
}

/// Relies on char::is_numeric: the ASCII digits are numeric, and no
/// other ASCII character is.
#[verifier::external_body]
pub fn is_numeric_char(c: char) -> (r: bool)
    ensures
        r == numeric_char(c),
        is_digit_ch(c) ==> r,
        (c as u32) < 128 && !is_digit_ch(c) ==> !r,
{
    c.is_numeric()
}

/// Whether `c` may continue an identifier: alphabetic or numeric.
pub fn is_alnum_char(c: char) -> (r: bool)
    ensures
        r == alnum_char(c),
{
    is_alphabetic_char(c) || is_numeric_char(c)
}

/// Relies on char::is_whitespace: of ASCII, exactly the space and the
/// five controls tab through carriage return are whitespace.
#[verifier::external_body]
pub fn is_whitespace_char(c: char) -> (r: bool)
    ensures
        r == ws_char(c),
        c == ' ' || ('\u{9}' <= c && c <= '\u{D}') ==> r,
        (c as u32) < 128 && !(c == ' ' || ('\u{9}' <= c && c <= '\u{D}')) ==> !r,
{
    c.is_whitespace()
}

// ---------------------------------------------------------------------------
// Strings and character vectors
// ---------------------------------------------------------------------------
/// Relies on FromIterator for String: collecting characters yields the
/// string holding exactly those characters in order.
#[verifier::external_body]
pub fn chars_string(v: &Vec<char>) -> (s: String)
    ensures
        s@ == v@,
{
    v.iter().collect::<String>()
}

/// The characters of a string slice, as a vector.
pub fn str_chars(s: &str) -> (v: Vec<char>)
    ensures
        v@ == s@,
{
    let n = s.unicode_len();
    let mut v: Vec<char> = Vec::new();
    let mut i: usize = 0;
    while i < n
        invariant
            n == s@.len(),
            i <= n,
            v@ == s@.subrange(0, i as int),
        decreases n - i,
    {
        v.push(s.get_char(i));
        i = i + 1;
        proof {
            assert(v@ =~= s@.subrange(0, i as int));
        }
    }
    proof {
        assert(v@ =~= s@);
    }
    v
}

/// Whether two string slices hold the same characters.
pub fn str_eq(a: &str, b: &str) -> (r: bool)
    ensures
        r == (a@ == b@),
{
    let na = a.unicode_len();
    let nb = b.unicode_len();
    if na != nb {
        proof {
            assert(a@.len() != b@.len());
        }
        return false;
    }
    let mut i: usize = 0;
    while i < na
        invariant
            na == a@.len(),
            nb == b@.len(),
            na == nb,
            i <= na,
            forall|j: int| 0 <= j < i ==> a@[j] == b@[j],
        decreases na - i,
    {
        if a.get_char(i) != b.get_char(i) {
            return false;
        }
        i = i + 1;
    }
    proof {
        assert(a@ =~= b@);
    }
    true
}

/// Whether the characters of `v` spell exactly the string `s`.
pub fn chars_eq_str(v: &Vec<char>, s: &str) -> (r: bool)
    ensures
        r == (v@ == s@),
{
    let n = s.unicode_len();
    if v.len() != n {
        proof {
            assert(v@.len() != s@.len());
        }
        return false;
    }
    let mut i: usize = 0;
    while i < n
        invariant
            n == s@.len(),
            v@.len() == n,
            i <= n,
            forall|j: int| 0 <= j < i ==> v@[j] == s@[j],
        decreases n - i,
    {
        if v[i] != s.get_char(i) {
            return false;
        }
        i = i + 1;
    }
    proof {
        assert(v@ =~= s@);
    }
    true
}

/// Whether the characters of `chars` starting at `pos` begin with `pat`.
pub open spec fn prefix_at(chars: Seq<char>, pos: int, pat: Seq<char>) -> bool {
    &&& 0 <= pos
    &&& pos + pat.len() <= chars.len()
    &&& chars.subrange(pos, pos + pat.len()) =~= pat
}

pub fn starts_with_at(chars: &Vec<char>, pos: usize, pat: &str) -> (r: bool)
    requires
        pos <= chars@.len(),
    ensures
        r == prefix_at(chars@, pos as int, pat@),
{
    let n = pat.unicode_len();
    let clen = chars.len();
    if n > clen - pos {
        return false;
    }
    let mut i: usize = 0;
    while i < n
        invariant
            n == pat@.len(),
            clen == chars@.len(),
            pos + n <= clen,
            i <= n,
            forall|j: int| 0 <= j < i ==> chars@[pos + j] == pat@[j],
        decreases n - i,
    {
        if chars[pos + i] != pat.get_char(i) {
            proof {
                assert(chars@.subrange(pos as int, pos + pat@.len())[i as int] != pat@[i as int]);
            }
            return false;
        }
        i = i + 1;
    }
    proof {
        assert(chars@.subrange(pos as int, pos + pat@.len()) =~= pat@);
    }
    true
}

// ---------------------------------------------------------------------------
// Decimal rendering of machine integers
// ---------------------------------------------------------------------------
/// The decimal digit characters of `n`, most significant first.
pub open spec fn dec_digits(n: nat) -> Seq<char>
    decreases n,
{
    if n < 10 {
        seq![digit_char(n as int)]
    } else {
        dec_digits(n / 10).push(digit_char(n as int % 10))
    }
}

/// The character for one decimal digit.
pub open spec fn digit_char(d: int) -> char {
    if d == 0 {
        '0'
    } else if d == 1 {
        '1'
    } else if d == 2 {
        '2'
    } else if d == 3 {
        '3'
    } else if d == 4 {
        '4'
    } else if d == 5 {
        '5'
    } else if d == 6 {
        '6'
    } else if d == 7 {
        '7'
    } else if d == 8 {
        '8'
    } else {
        '9'
    }
}

fn digit_char_of(d: u64) -> (c: char)
    requires
        d <= 9,
    ensures
        c == digit_char(d as int),
{
    if d == 0 {
        '0'
    } else if d == 1 {
        '1'
    } else if d == 2 {
        '2'
    } else if d == 3 {
        '3'
    } else if d == 4 {
        '4'
    } else if d == 5 {
        '5'
    } else if d == 6 {
        '6'
    } else if d == 7 {
        '7'
    } else if d == 8 {
        '8'
    } else {
        '9'
    }
}

/// Appends the decimal digits of `n` to `out`, most significant first.
pub fn push_dec_digits(n: u64, out: &mut Vec<char>)
    ensures
        final(out)@ == old(out)@ + dec_digits(n as nat),
    decreases n,
{
    if n < 10 {
        out.push(digit_char_of(n));
    } else {
        push_dec_digits(n / 10, out);
        out.push(digit_char_of(n % 10));
    }
}

} // verus!
