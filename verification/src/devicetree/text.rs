//! Text held in a blob: UTF-8 decoding, comparing and splitting strings.
use vstd::prelude::*;

verus! {

use vstd::utf8::{valid_utf8, decode_utf8, encode_utf8, encode_utf8_decode_utf8};
use crate::devtree::util::bytes_eq;
use vstd::string::{StringExecFns, StringSliceAdditionalSpecFns};

/// Reads `bytes` as UTF-8: calls `core::str::from_utf8`. It succeeds exactly
/// when the bytes are valid UTF-8, and then the string it gives is made of
/// those very bytes.
#[verifier::external_body]
pub(crate) fn utf8_str<'a>(bytes: &'a [u8]) -> (r: Option<&'a str>)
    ensures
        r is Some <==> valid_utf8(bytes@),
        r matches Some(s) ==> s.spec_bytes() == bytes@,
{
    core::str::from_utf8(bytes).ok()
}

/// Splits `s` at its first `c`: calls `str::split_once`. Without a `c` in
/// `s` the result is `None`; else it is the text before the first `c` and
/// the text after it.
#[verifier::external_body]
pub(crate) fn str_split_once<'a>(s: &'a str, c: char) -> (r: Option<(&'a str, &'a str)>)
    ensures
        r is None <==> !s@.contains(c),
        r matches Some((a, b)) ==> s@ == a@ + seq![c] + b@ && !a@.contains(c),
{
    s.split_once(c)
}

/// The characters of a string whose bytes are `bytes`.
pub proof fn lemma_chars_of_bytes(s: &str, bytes: Seq<u8>)
    requires
        s.spec_bytes() == bytes,
    ensures
        s@ == decode_utf8(bytes),
        valid_utf8(bytes),
{
    encode_utf8_decode_utf8(s@);
    vstd::utf8::encode_utf8_valid_utf8(s@);
}

/// Tests whether two strings hold the same characters.
pub fn str_eq(a: &str, b: &str) -> (r: bool)
    ensures
        r == (a@ == b@),
{
    let r = bytes_eq(a.as_bytes(), b.as_bytes());
    proof {
        encode_utf8_decode_utf8(a@);
        encode_utf8_decode_utf8(b@);
        if encode_utf8(a@) == encode_utf8(b@) {
            assert(a@ == b@);
        }
    }
    r
}

/// Where the first `c` of `v` stands: the length of `v` when it has none.
pub open spec fn char_index(v: Seq<char>, c: char) -> int
    decreases v.len(),
{
    if v.len() == 0 {
        0
    } else if v[0] == c {
        0
    } else {
        1 + char_index(v.drop_first(), c)
    }
}

/// The first `c` of `v` stands within `v`, or just after it; just after it
/// exactly when `v` has no `c`.
pub proof fn lemma_char_index_range(v: Seq<char>, c: char)
    ensures
        0 <= char_index(v, c) <= v.len(),
        char_index(v, c) == v.len() <==> !v.contains(c),
        char_index(v, c) < v.len() ==> v[char_index(v, c)] == c,
    decreases v.len(),
{
    if v.len() > 0 {
        if v[0] != c {
            lemma_char_index_range(v.drop_first(), c);
            if v.drop_first().contains(c) {
                let j = choose|j: int| 0 <= j < v.drop_first().len() && v.drop_first()[j] == c;
                assert(v[j + 1] == c);
            }
            if v.contains(c) {
                let j = choose|j: int| 0 <= j < v.len() && v[j] == c;
                assert(v.drop_first()[j - 1] == c);
            }
        } else {
            assert(v.contains(c));
        }
    }
}

/// The first `c` of `s` + `c` + `rest` is the one after `s` when `s` has
/// none.
pub proof fn lemma_char_index(s: Seq<char>, c: char, rest: Seq<char>)
    requires
        !s.contains(c),
    ensures
        char_index(s + seq![c] + rest, c) == s.len(),
    decreases s.len(),
{
    let v = s + seq![c] + rest;
    if s.len() == 0 {
        assert(v[0] == c);
    } else {
        assert(v[0] == s[0]);
        assert(!s.drop_first().contains(c)) by {
            if s.drop_first().contains(c) {
                let j = choose|j: int| 0 <= j < s.drop_first().len() && s.drop_first()[j] == c;
                assert(s[j + 1] == c);
            }
        }
        assert(v.drop_first() =~= s.drop_first() + seq![c] + rest);
        lemma_char_index(s.drop_first(), c, rest);
    }
}

/// What `format!("{:?}", s)` writes for a string with characters `s`: the
/// characters quoted, with the escapes of `<str as core::fmt::Debug>::fmt`.
pub uninterp spec fn str_debug_text(s: Seq<char>) -> Seq<char>;

/// Writes `s` as `{:?}` does: calls `<str as core::fmt::Debug>::fmt` through
/// `format!`. The text it gives depends on the characters of `s` alone.
#[verifier::external_body]
pub(crate) fn debug_text(s: &str) -> (r: String)
    ensures
        r@ == str_debug_text(s@),
{
    format!("{s:?}")
}

/// The lowercase hexadecimal digit of `d`, below 16.
pub open spec fn hex_digit(d: int) -> char {
    if d < 10 {
        (48 + d) as char
    } else {
        (87 + d) as char
    }
}

/// The hexadecimal digits of `n`, without leading zeros.
pub open spec fn hex_digits(n: nat) -> Seq<char>
    decreases n,
{
    if n < 16 {
        seq![hex_digit(n as int)]
    } else {
        hex_digits(n / 16).push(hex_digit((n % 16) as int))
    }
}

/// `n` as `{:#04x}` writes it: `0x` and at least two hexadecimal digits.
pub open spec fn hex_text(n: nat) -> Seq<char> {
    seq!['0', 'x'] + if n < 16 {
        seq!['0', hex_digit(n as int)]
    } else {
        hex_digits(n)
    }
}

/// `n` spaces.
pub open spec fn spaces(n: nat) -> Seq<char> {
    Seq::new(n, |i: int| ' ')
}

/// The text of the hexadecimal digit `d`.
fn digit_text(d: u64) -> (r: &'static str)
    requires
        d < 16,
    ensures
        r@ == seq![hex_digit(d as int)],
{
    let r = if d == 0 {
        "0"
    } else if d == 1 {
        "1"
    } else if d == 2 {
        "2"
    } else if d == 3 {
        "3"
    } else if d == 4 {
        "4"
    } else if d == 5 {
        "5"
    } else if d == 6 {
        "6"
    } else if d == 7 {
        "7"
    } else if d == 8 {
        "8"
    } else if d == 9 {
        "9"
    } else if d == 10 {
        "a"
    } else if d == 11 {
        "b"
    } else if d == 12 {
        "c"
    } else if d == 13 {
        "d"
    } else if d == 14 {
        "e"
    } else {
        "f"
    };
    proof {
        reveal_strlit("0");
        reveal_strlit("1");
        reveal_strlit("2");
        reveal_strlit("3");
        reveal_strlit("4");
        reveal_strlit("5");
        reveal_strlit("6");
        reveal_strlit("7");
        reveal_strlit("8");
        reveal_strlit("9");
        reveal_strlit("a");
        reveal_strlit("b");
        reveal_strlit("c");
        reveal_strlit("d");
        reveal_strlit("e");
        reveal_strlit("f");
        assert(r@ =~= seq![hex_digit(d as int)]);
    }
    r
}

/// Appends the hexadecimal digits of `n`.
fn push_hex_digits(out: &mut String, n: u64)
    ensures
        final(out)@ == old(out)@ + hex_digits(n as nat),
    decreases n,
{
    if n >= 16 {
        push_hex_digits(out, n / 16);
    }
    out.append(digit_text(n % 16));
    proof {
        if n >= 16 {
            assert(hex_digits(n as nat) == hex_digits((n / 16) as nat).push(hex_digit((n % 16) as int)));
        }
    }
    assert(final(out)@ =~= old(out)@ + hex_digits(n as nat));
}

/// Appends `n` as `{:#04x}` writes it.
pub fn push_hex(out: &mut String, n: u64)
    ensures
        final(out)@ == old(out)@ + hex_text(n as nat),
{
    proof {
        reveal_strlit("0x");
        reveal_strlit("0");
    }
    out.append("0x");
    if n < 16 {
        out.append("0");
    }
    push_hex_digits(out, n);
    assert(out@ =~= old(out)@ + hex_text(n as nat));
}

/// The decimal digits of `n`, without leading zeros, as `{}` writes it.
pub open spec fn dec_text(n: nat) -> Seq<char>
    decreases n,
{
    if n < 10 {
        seq![hex_digit(n as int)]
    } else {
        dec_text(n / 10).push(hex_digit((n % 10) as int))
    }
}

/// `n` as `{:#x}` writes it: `0x` and its hexadecimal digits.
pub open spec fn alt_hex_text(n: nat) -> Seq<char> {
    seq!['0', 'x'] + hex_digits(n)
}

/// Appends the decimal digits of `n`.
pub fn push_dec(out: &mut String, n: u64)
    ensures
        final(out)@ == old(out)@ + dec_text(n as nat),
    decreases n,
{
    if n >= 10 {
        push_dec(out, n / 10);
    }
    out.append(digit_text(n % 10));
    proof {
        if n >= 10 {
            assert(dec_text(n as nat) == dec_text((n / 10) as nat).push(hex_digit((n % 10) as int)));
        }
    }
    assert(final(out)@ =~= old(out)@ + dec_text(n as nat));
}

/// Appends `n` as `{:#x}` writes it.
pub fn push_alt_hex(out: &mut String, n: u64)
    ensures
        final(out)@ == old(out)@ + alt_hex_text(n as nat),
{
    proof {
        reveal_strlit("0x");
    }
    out.append("0x");
    push_hex_digits(out, n);
    assert(out@ =~= old(out)@ + alt_hex_text(n as nat));
}

/// Appends `n` spaces, four at a time: `4 * n` spaces.
pub fn push_indent(out: &mut String, n: usize)
    ensures
        final(out)@ == old(out)@ + spaces(4 * n as nat),
{
    let mut k: usize = 0;
    while k < n
        invariant
            k <= n,
            out@ == old(out)@ + spaces(4 * k as nat),
        decreases n - k,
    {
        proof {
            reveal_strlit("    ");
        }
        out.append("    ");
        k += 1;
        assert(out@ =~= old(out)@ + spaces(4 * k as nat));
    }
}

} // verus!
