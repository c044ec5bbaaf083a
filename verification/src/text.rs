//! Small string utilities the parsers and the error messages share.

use vstd::prelude::*;
use vstd::utf8::*;

verus! {

broadcast use vstd::utf8::group_utf8_lib;

/// Whether two string slices hold the same characters.
///
/// Compared byte by byte, which is the same question because UTF-8 encodes
/// each character sequence one way.
pub fn str_eq(a: &str, b: &str) -> (r: bool)
    ensures
        r == (a@ == b@),
{
    let x = a.as_bytes();
    let y = b.as_bytes();
    if x.len() != y.len() {
        proof {
            if a@ == b@ {
                assert(x@ == y@);
            }
        }
        return false;
    }
    let mut i: usize = 0;
    while i < x.len()
        invariant
            x@ == encode_utf8(a@),
            y@ == encode_utf8(b@),
            x@.len() == y@.len(),
            i <= x@.len(),
            forall|j: int| 0 <= j < i ==> x@[j] == y@[j],
        decreases x@.len() - i,
    {
        if x[i] != y[i] {
            return false;
        }
        i = i + 1;
    }
    proof {
        assert(x@ =~= y@);
        assert(decode_utf8(encode_utf8(a@)) == a@);
        assert(decode_utf8(encode_utf8(b@)) == b@);
    }
    true
}

/// The characters of a string slice, in order.
pub fn chars_of(s: &str) -> (r: Vec<char>)
    ensures
        r@ == s@,
{
    let mut out: Vec<char> = Vec::new();
    for c in it: s.chars()
        invariant
            it.seq() == s@,
            out@ == it.seq().take(it.index() as int),
    {
        out.push(c);
    }
    assert(out@ =~= s@);
    out
}

/// What `{:?}` prints for a string: the text between double quotes, with the
/// characters that need it escaped.
pub uninterp spec fn debug_quoted(s: Seq<char>) -> Seq<char>;

/// Whether `c` is a character `Debug` never escapes in a string: an ASCII
/// letter or digit, `_` or `.`.
pub open spec fn plain_char(c: char) -> bool {
    ('a' <= c && c <= 'z') || ('A' <= c && c <= 'Z') || ('0' <= c && c <= '9') || c == '_' || c
        == '.'
}

/// The `Debug` rendering of a string slice, as `format!("{s:?}")` writes it.
///
/// Claims that the result is determined by the characters of `s`, and that
/// a string of plain characters comes out between double quotes,
/// unchanged; what the escaping does to other characters is std's and is
/// not restated.
#[verifier::external_body]
pub(crate) fn debug_str(s: &str) -> (r: String)
    ensures
        r@ == debug_quoted(s@),
        (forall|k: int| 0 <= k < s@.len() ==> plain_char(#[trigger] s@[k])) ==> r@ == seq!['"']
            + s@ + seq!['"'],
{
    format!("{s:?}")
}

/// A one-character string, as `char::to_string` makes it.
#[verifier::external_body]
pub(crate) fn char_string(c: char) -> (r: String)
    ensures
        r@ == seq![c],
{
    c.to_string()
}

/// The decimal spelling of a number, most significant digit first.
pub open spec fn decimal(n: nat) -> Seq<char>
    decreases n,
{
    if n < 10 {
        seq![digit_char(n)]
    } else {
        decimal(n / 10).push(digit_char(n % 10))
    }
}

/// The ASCII digit for a value below ten.
pub open spec fn digit_char(d: nat) -> char {
    (('0' as u32) + d) as char
}

fn digit(d: usize) -> (c: char)
    requires
        d < 10,
    ensures
        c == digit_char(d as nat),
{
    let v: u8 = 48u8 + (d as u8);
    proof {
        assert(('0' as u32) == 48u32);
    }
    v as char
}

/// The decimal spelling of `n`, as `{}` formats a `usize`.
pub fn decimal_string(n: usize) -> (r: String)
    ensures
        r@ == decimal(n as nat),
    decreases n,
{
    if n < 10 {
        char_string(digit(n))
    } else {
        let mut s = decimal_string(n / 10);
        let d = char_string(digit(n % 10));
        s.append(d.as_str());
        s
    }
}

/// The characters from `from` to `to`, as a string.
pub fn substring(chars: &Vec<char>, from: usize, to: usize) -> (r: String)
    requires
        from <= to <= chars@.len(),
    ensures
        r@ == chars@.subrange(from as int, to as int),
{
    let mut out = String::new();
    let mut k = from;
    while k < to
        invariant
            from <= k <= to <= chars@.len(),
            out@ == chars@.subrange(from as int, k as int),
        decreases to - k,
    {
        let one = char_string(chars[k]);
        out.append(one.as_str());
        assert(out@ =~= chars@.subrange(from as int, k + 1));
        k = k + 1;
    }
    out
}

} // verus!
