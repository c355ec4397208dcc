//! Byte-level helpers shared by the parsers and writers: UTF-8
//! conversion, byte comparison, decimal numbers and ASCII case folding.

use vstd::prelude::*;

verus! {

use vstd::utf8::{valid_utf8, decode_utf8, encode_utf8, is_ascii_chars};
use vstd::utf8::{encode_utf8_valid_utf8, encode_utf8_decode_utf8, is_ascii_chars_encode_utf8};
use vstd::utf8::{encode_scalar, has_width_1_encoding, leading_byte_width_1};
use vstd::string::StringSliceAdditionalSpecFns;

/// Relies on `String::from_utf8`: returns the string whose UTF-8
/// encoding is `bytes` exactly when `bytes` is valid UTF-8.
#[verifier::external_body]
pub(crate) fn utf8_to_string(bytes: Vec<u8>) -> (r: Option<String>)
    ensures
        r is Some <==> valid_utf8(bytes@),
        r matches Some(s) ==> s@ == decode_utf8(bytes@),
{
    String::from_utf8(bytes).ok()
}

/// The characters whose one-byte UTF-8 encodings form `bytes`.
pub open spec fn ascii_view(bytes: Seq<u8>) -> Seq<char> {
    Seq::new(bytes.len(), |i: int| bytes[i] as char)
}

/// Every byte is in the ASCII range.
pub open spec fn all_ascii(bytes: Seq<u8>) -> bool {
    forall|i: int| 0 <= i < bytes.len() ==> bytes[i] < 0x80
}

/// A sequence of ASCII bytes is valid UTF-8 and decodes byte by byte.
pub proof fn lemma_ascii_bytes_decode(bytes: Seq<u8>)
    requires
        all_ascii(bytes),
    ensures
        valid_utf8(bytes),
        decode_utf8(bytes) == ascii_view(bytes),
{
    let chars = ascii_view(bytes);
    assert(is_ascii_chars(chars)) by {
        assert forall|i: int| 0 <= i < chars.len() implies '\0' <= #[trigger] chars[i]
            <= '\u{7f}' by {
            assert(bytes[i] < 0x80);
        }
    }
    is_ascii_chars_encode_utf8(chars);
    assert(encode_utf8(chars) =~= bytes);
    encode_utf8_valid_utf8(chars);
    encode_utf8_decode_utf8(chars);
}

/// UTF-8 encoding is injective on character sequences.
pub proof fn lemma_encode_utf8_injective(a: Seq<char>, b: Seq<char>)
    requires
        encode_utf8(a) == encode_utf8(b),
    ensures
        a == b,
{
    encode_utf8_decode_utf8(a);
    encode_utf8_decode_utf8(b);
}

/// Turns a sequence of ASCII bytes into the string they spell.
pub fn ascii_to_string(bytes: Vec<u8>) -> (r: String)
    requires
        all_ascii(bytes@),
    ensures
        r@ == ascii_view(bytes@),
{
    proof {
        lemma_ascii_bytes_decode(bytes@);
    }
    match utf8_to_string(bytes) {
        Some(s) => s,
        None => {
            proof {
                assert(false);
            }
            String::new()
        },
    }
}

/// Byte-for-byte equality of two slices.
pub fn bytes_eq(a: &[u8], b: &[u8]) -> (r: bool)
    ensures
        r == (a@ == b@),
{
    if a.len() != b.len() {
        return false;
    }
    for i in 0..a.len()
        invariant
            a@.len() == b@.len(),
            forall|j: int| 0 <= j < i ==> a@[j] == b@[j],
    {
        if a[i] != b[i] {
            return false;
        }
    }
    proof {
        assert(a@ =~= b@);
    }
    true
}

/// Equality of two string slices, decided on their UTF-8 bytes.
pub fn str_eq(a: &str, b: &str) -> (r: bool)
    ensures
        r == (a@ == b@),
{
    let r = bytes_eq(a.as_bytes(), b.as_bytes());
    proof {
        if a.spec_bytes() == b.spec_bytes() {
            lemma_encode_utf8_injective(a@, b@);
        }
    }
    r
}

/// Whether `b` is an ASCII decimal digit.
pub open spec fn is_dec_digit(b: u8) -> bool {
    48 <= b <= 57
}

pub open spec fn all_dec_digits(s: Seq<u8>) -> bool {
    forall|i: int| 0 <= i < s.len() ==> is_dec_digit(#[trigger] s[i])
}

/// The number spelt by a sequence of decimal digit bytes.
pub open spec fn dec_val(s: Seq<u8>) -> nat
    decreases s.len(),
{
    if s.len() == 0 {
        0
    } else {
        dec_val(s.drop_last()) * 10 + (s.last() - 48) as nat
    }
}

/// The decimal digit bytes of `n`, most significant first, no leading zeros.
pub open spec fn dec_digits(n: nat) -> Seq<u8>
    decreases n,
{
    if n < 10 {
        seq![(48 + n) as u8]
    } else {
        dec_digits(n / 10).push((48 + n % 10) as u8)
    }
}

/// What `str::parse::<usize>` accepts: an optional `+` sign followed by
/// at least one digit, with a value that fits in `usize`.
pub open spec fn parse_usize_spec(s: Seq<u8>) -> Option<usize> {
    let digits = if s.len() > 0 && s[0] == 43 {
        s.drop_first()
    } else {
        s
    };
    if digits.len() > 0 && all_dec_digits(digits) && dec_val(digits) <= usize::MAX {
        Some(dec_val(digits) as usize)
    } else {
        None
    }
}

/// Appending digits never shrinks the value.
proof fn lemma_dec_val_prefix(s: Seq<u8>, i: int)
    requires
        0 <= i <= s.len(),
    ensures
        dec_val(s.subrange(0, i)) <= dec_val(s),
    decreases s.len() - i,
{
    if i == s.len() {
        assert(s.subrange(0, i) =~= s);
    } else {
        let t = s.subrange(0, i + 1);
        assert(t.drop_last() =~= s.subrange(0, i));
        lemma_dec_val_prefix(s, i + 1);
    }
}

/// Parses a decimal integer as `str::parse::<usize>` would.
pub fn parse_usize(bytes: &[u8]) -> (r: Option<usize>)
    ensures
        r == parse_usize_spec(bytes@),
{
    let ghost whole = bytes@;
    let start: usize = if bytes.len() > 0 && bytes[0] == 43 {
        1
    } else {
        0
    };
    let ghost digits = if whole.len() > 0 && whole[0] == 43 {
        whole.drop_first()
    } else {
        whole
    };
    proof {
        assert(digits =~= whole.subrange(start as int, whole.len() as int));
        if whole.len() > 0 && whole[0] == 43 {
            assert(digits =~= whole.drop_first());
        }
    }
    if bytes.len() == start {
        return None;
    }
    let mut acc: usize = 0;
    let mut i: usize = start;
    while i < bytes.len()
        invariant
            start <= i <= bytes@.len(),
            start == 1 <==> bytes@.len() > 0 && bytes@[0] == 43,
            start <= 1,
            digits =~= bytes@.subrange(start as int, bytes@.len() as int),
            digits == (if bytes@.len() > 0 && bytes@[0] == 43 {
                bytes@.drop_first()
            } else {
                bytes@
            }),
            all_dec_digits(bytes@.subrange(start as int, i as int)),
            acc == dec_val(bytes@.subrange(start as int, i as int)),
        decreases bytes@.len() - i,
    {
        let b = bytes[i];
        if b < 48 || b > 57 {
            proof {
                assert(digits[i - start] == b);
                assert(!is_dec_digit(b));
                assert(!all_dec_digits(digits));
            }
            return None;
        }
        let shifted = match acc.checked_mul(10) {
            Some(v) => v,
            None => {
                proof {
                    let p = bytes@.subrange(start as int, i + 1);
                    assert(p.drop_last() =~= bytes@.subrange(start as int, i as int));
                    assert(dec_val(p) >= acc * 10);
                    lemma_dec_val_prefix(digits, i + 1 - start);
                    assert(p =~= digits.subrange(0, i + 1 - start));
                    assert(dec_val(digits) > usize::MAX);
                }
                return None;
            },
        };
        let next = match shifted.checked_add((b - 48) as usize) {
            Some(v) => v,
            None => {
                proof {
                    let p = bytes@.subrange(start as int, i + 1);
                    assert(p.drop_last() =~= bytes@.subrange(start as int, i as int));
                    assert(dec_val(p) == acc * 10 + (b - 48));
                    lemma_dec_val_prefix(digits, i + 1 - start);
                    assert(p =~= digits.subrange(0, i + 1 - start));
                    assert(dec_val(digits) > usize::MAX);
                }
                return None;
            },
        };
        proof {
            let p = bytes@.subrange(start as int, i + 1);
            assert(p.drop_last() =~= bytes@.subrange(start as int, i as int));
            assert(p.last() == b);
        }
        acc = next;
        i = i + 1;
    }
    proof {
        assert(bytes@.subrange(start as int, i as int) =~= digits);
    }
    Some(acc)
}

/// Writes the decimal digits of `n` onto the end of `out`.
pub fn push_dec_digits(n: usize, out: &mut Vec<u8>)
    ensures
        final(out)@ == old(out)@ + dec_digits(n as nat),
    decreases n,
{
    if n < 10 {
        out.push(48 + n as u8);
        proof {
            assert(final(out)@ =~= old(out)@ + dec_digits(n as nat));
        }
    } else {
        push_dec_digits(n / 10, out);
        out.push(48 + (n % 10) as u8);
        proof {
            assert(final(out)@ =~= old(out)@ + dec_digits(n as nat));
        }
    }
}

/// The decimal digit bytes of `n`.
pub fn dec_bytes(n: usize) -> (r: Vec<u8>)
    ensures
        r@ == dec_digits(n as nat),
{
    let mut out: Vec<u8> = Vec::new();
    push_dec_digits(n, &mut out);
    proof {
        assert(out@ =~= dec_digits(n as nat));
    }
    out
}

/// Decimal digits are ASCII.
pub proof fn lemma_dec_digits_ascii(n: nat)
    ensures
        all_ascii(dec_digits(n)),
        dec_digits(n).len() >= 1,
    decreases n,
{
    if n >= 10 {
        lemma_dec_digits_ascii(n / 10);
    }
}

/// ASCII upper-case letters folded to lower case; other bytes unchanged.
pub open spec fn lower_byte(b: u8) -> u8 {
    if 65 <= b <= 90 {
        (b + 32) as u8
    } else {
        b
    }
}

pub open spec fn lower_bytes(s: Seq<u8>) -> Seq<u8> {
    Seq::new(s.len(), |i: int| lower_byte(s[i]))
}

/// Folds ASCII letters to lower case, as the header comparison needs.
pub fn ascii_lowercase(bytes: &[u8]) -> (r: Vec<u8>)
    ensures
        r@ == lower_bytes(bytes@),
{
    let mut out: Vec<u8> = Vec::new();
    for i in 0..bytes.len()
        invariant
            out@.len() == i,
            forall|j: int| 0 <= j < i ==> out@[j] == lower_byte(bytes@[j]),
    {
        let b = bytes[i];
        if 65 <= b && b <= 90 {
            out.push(b + 32);
        } else {
            out.push(b);
        }
    }
    proof {
        assert(out@ =~= lower_bytes(bytes@));
    }
    out
}


/// The position of the first occurrence of `b`, or `-1`.
pub open spec fn find_byte(s: Seq<u8>, b: u8) -> int
    decreases s.len(),
{
    if s.len() == 0 {
        -1
    } else if s[0] == b {
        0
    } else {
        let r = find_byte(s.drop_first(), b);
        if r == -1 {
            -1
        } else {
            r + 1
        }
    }
}

/// `find_byte` returns the first occurrence and `-1` only when absent.
pub proof fn lemma_find_byte(s: Seq<u8>, b: u8)
    ensures
        find_byte(s, b) == -1 ==> forall|j: int| 0 <= j < s.len() ==> s[j] != b,
        find_byte(s, b) != -1 ==> 0 <= find_byte(s, b) < s.len() && s[find_byte(s, b)] == b
            && forall|j: int| 0 <= j < find_byte(s, b) ==> s[j] != b,
    decreases s.len(),
{
    if s.len() > 0 && s[0] != b {
        lemma_find_byte(s.drop_first(), b);
        assert(forall|j: int| 1 <= j < s.len() ==> s.drop_first()[j - 1] == s[j]);
    }
}

/// Searching a concatenation whose first part lacks `b` searches the rest.
pub proof fn lemma_find_byte_concat(a: Seq<u8>, t: Seq<u8>, b: u8)
    requires
        forall|j: int| 0 <= j < a.len() ==> a[j] != b,
    ensures
        find_byte(a + t, b) == (if find_byte(t, b) == -1 {
            -1
        } else {
            a.len() + find_byte(t, b)
        }),
    decreases a.len(),
{
    if a.len() == 0 {
        assert(a + t =~= t);
    } else {
        assert((a + t)[0] == a[0]);
        assert(a[0] != b);
        assert((a + t).drop_first() =~= a.drop_first() + t);
        assert(forall|j: int| 0 <= j < a.drop_first().len() ==> a.drop_first()[j] == a[j + 1]);
        lemma_find_byte_concat(a.drop_first(), t, b);
        let r = find_byte(a.drop_first() + t, b);
        assert((a + t).len() > 0);
        assert(find_byte(a + t, b) == (if r == -1 {
            -1int
        } else {
            r + 1
        }));
        lemma_find_byte(t, b);
    }
}

/// The position of the first occurrence of `c`, or `-1`.
pub open spec fn find_char(s: Seq<char>, c: char) -> int
    decreases s.len(),
{
    if s.len() == 0 {
        -1
    } else if s[0] == c {
        0
    } else {
        let r = find_char(s.drop_first(), c);
        if r == -1 {
            -1
        } else {
            r + 1
        }
    }
}

/// `find_char` returns the first occurrence and `-1` only when absent.
pub proof fn lemma_find_char(s: Seq<char>, c: char)
    ensures
        find_char(s, c) == -1 ==> forall|j: int| 0 <= j < s.len() ==> s[j] != c,
        find_char(s, c) != -1 ==> 0 <= find_char(s, c) < s.len() && s[find_char(s, c)] == c
            && forall|j: int| 0 <= j < find_char(s, c) ==> s[j] != c,
    decreases s.len(),
{
    if s.len() > 0 && s[0] != c {
        lemma_find_char(s.drop_first(), c);
        assert(forall|j: int| 1 <= j < s.len() ==> s.drop_first()[j - 1] == s[j]);
    }
}

/// Finds the first occurrence of `b` in a slice.
pub fn find_byte_in(s: &[u8], b: u8) -> (r: Option<usize>)
    ensures
        r is Some <==> find_byte(s@, b) != -1,
        r matches Some(i) ==> i == find_byte(s@, b),
{
    proof {
        lemma_find_byte(s@, b);
    }
    for i in 0..s.len()
        invariant
            forall|j: int| 0 <= j < i ==> s@[j] != b,
            find_byte(s@, b) == -1 || find_byte(s@, b) >= i,
    {
        proof {
            lemma_find_byte(s@, b);
        }
        if s[i] == b {
            return Some(i);
        }
    }
    proof {
        lemma_find_byte(s@, b);
    }
    None
}

/// Copies `s[from..to]` into a fresh vector.
pub fn sub_bytes(s: &[u8], from: usize, to: usize) -> (r: Vec<u8>)
    requires
        from <= to <= s@.len(),
    ensures
        r@ == s@.subrange(from as int, to as int),
{
    let mut out: Vec<u8> = Vec::new();
    for i in from..to
        invariant
            from <= i <= to <= s@.len(),
            out@ == s@.subrange(from as int, i as int),
    {
        out.push(s[i]);
        proof {
            assert(out@ =~= s@.subrange(from as int, i + 1));
        }
    }
    out
}

/// Multi-byte UTF-8 encodings hold no byte under `0x80`.
proof fn lemma_encode_scalar_non_ascii(u: u32, b: u8)
    requires
        vstd::utf8::is_scalar(u),
        b < 0x80,
        !vstd::utf8::has_width_1_encoding(u),
    ensures
        forall|j: int|
            0 <= j < vstd::utf8::encode_scalar(u).len() ==> vstd::utf8::encode_scalar(u)[j] != b,
{
    assert(forall|x: u8| 0xC0u8 | x >= 0x80) by (bit_vector);
    assert(forall|x: u8| 0xE0u8 | x >= 0x80) by (bit_vector);
    assert(forall|x: u8| 0xF0u8 | x >= 0x80) by (bit_vector);
    assert(forall|x: u8| 0x80u8 | x >= 0x80) by (bit_vector);
}

/// In the UTF-8 encoding of `chars`, the first occurrence of an ASCII
/// byte corresponds to the first occurrence of its character, and the
/// encoding splits around it.
pub proof fn lemma_find_ascii_byte(chars: Seq<char>, b: u8)
    requires
        b < 0x80,
    ensures
        find_byte(encode_utf8(chars), b) == -1 <==> find_char(chars, b as char) == -1,
        find_byte(encode_utf8(chars), b) != -1 ==> {
            let i = find_byte(encode_utf8(chars), b);
            let j = find_char(chars, b as char);
            &&& 0 <= j < chars.len()
            &&& 0 <= i < encode_utf8(chars).len()
            &&& encode_utf8(chars).subrange(0, i) == encode_utf8(chars.subrange(0, j))
            &&& encode_utf8(chars).subrange(i + 1, encode_utf8(chars).len() as int)
                == encode_utf8(chars.subrange(j + 1, chars.len() as int))
        },
    decreases chars.len(),
{
    if chars.len() == 0 {
    } else {
        let c = chars[0];
        let u = c as u32;
        vstd::utf8::char_is_scalar(c);
        let e = encode_scalar(u);
        let rest = chars.drop_first();
        let bytes = encode_utf8(chars);
        assert(bytes == e + encode_utf8(rest));
        if c == b as char {
            assert(u == b) by {
                vstd::utf8::char_u32_cast(c, u);
                assert((b as char) as u32 == b);
            }
            assert(has_width_1_encoding(u));
            assert(leading_byte_width_1(u) == b) by (bit_vector)
                requires
                    u == b,
                    b < 0x80,
            ;
            assert(e =~= seq![b]);
            assert(bytes[0] == b);
            assert(find_byte(bytes, b) == 0);
            assert(find_char(chars, b as char) == 0);
            assert(bytes.subrange(0, 0) =~= encode_utf8(chars.subrange(0, 0)));
            assert(chars.subrange(1, chars.len() as int) =~= rest);
            assert(bytes.subrange(1, bytes.len() as int) =~= encode_utf8(rest));
        } else {
            assert(forall|j: int| 0 <= j < e.len() ==> e[j] != b) by {
                if has_width_1_encoding(u) {
                    assert(e =~= seq![leading_byte_width_1(u)]);
                    if leading_byte_width_1(u) == b {
                        assert(u == b) by (bit_vector)
                            requires
                                u <= 0x7F,
                                leading_byte_width_1(u) == b,
                        ;
                        assert((u as char) == c) by {
                            vstd::utf8::char_u32_cast(c, u);
                        }
                        assert(c == b as char);
                        assert(false);
                    }
                } else {
                    lemma_encode_scalar_non_ascii(u, b);
                }
            }
            lemma_find_byte_concat(e, encode_utf8(rest), b);
            lemma_find_ascii_byte(rest, b);
            assert(find_char(chars, b as char) == (if find_char(rest, b as char) == -1 {
                -1
            } else {
                find_char(rest, b as char) + 1
            }));
            if find_byte(encode_utf8(rest), b) != -1 {
                let ir = find_byte(encode_utf8(rest), b);
                let jr = find_char(rest, b as char);
                let i = e.len() + ir;
                let j = jr + 1;
                assert(find_byte(bytes, b) == i);
                assert(find_char(chars, b as char) == j);
                assert(bytes.subrange(0, i as int) =~= e + encode_utf8(rest).subrange(0, ir));
                assert(chars.subrange(0, j) =~= seq![c] + rest.subrange(0, jr));
                assert(encode_utf8(chars.subrange(0, j)) == e + encode_utf8(
                    chars.subrange(0, j).drop_first(),
                )) by {
                    assert(chars.subrange(0, j).len() > 0);
                    assert(chars.subrange(0, j)[0] == c);
                }
                assert(chars.subrange(0, j).drop_first() =~= rest.subrange(0, jr));
                assert(bytes.subrange(i + 1, bytes.len() as int) =~= encode_utf8(
                    rest,
                ).subrange(ir + 1, encode_utf8(rest).len() as int));
                assert(chars.subrange(j + 1, chars.len() as int) =~= rest.subrange(
                    jr + 1,
                    rest.len() as int,
                ));
            }
        }
    }
}


/// Whether `pat` occurs in `b` at position `i`.
pub open spec fn match_at(b: Seq<u8>, pat: Seq<u8>, i: int) -> bool {
    0 <= i && i + pat.len() <= b.len() && b.subrange(i, i + pat.len() as int) == pat
}

/// The first position at or after `i` where `pat` occurs, or `-1`.
pub open spec fn find_pat_from(b: Seq<u8>, pat: Seq<u8>, i: int) -> int
    decreases b.len() + pat.len() - i,
{
    if pat.len() == 0 || i < 0 || i + pat.len() > b.len() {
        -1
    } else if match_at(b, pat, i) {
        i
    } else {
        find_pat_from(b, pat, i + 1)
    }
}

/// The first position where `pat` occurs in `b`, or `-1`.
pub open spec fn find_pat(b: Seq<u8>, pat: Seq<u8>) -> int {
    find_pat_from(b, pat, 0)
}

/// `find_pat_from` returns the first occurrence at or after `i`, and
/// `-1` only when there is none.
pub proof fn lemma_find_pat_from(b: Seq<u8>, pat: Seq<u8>, i: int)
    requires
        i >= 0,
        pat.len() >= 1,
    ensures
        find_pat_from(b, pat, i) == -1 ==> forall|j: int| i <= j ==> !match_at(b, pat, j),
        find_pat_from(b, pat, i) != -1 ==> i <= find_pat_from(b, pat, i) && match_at(
            b,
            pat,
            find_pat_from(b, pat, i),
        ) && forall|j: int| i <= j < find_pat_from(b, pat, i) ==> !match_at(b, pat, j),
    decreases b.len() + pat.len() - i,
{
    if i + pat.len() > b.len() {
        assert(forall|j: int| i <= j ==> !match_at(b, pat, j));
    } else if !match_at(b, pat, i) {
        lemma_find_pat_from(b, pat, i + 1);
    }
}

/// Whether `pat` occurs at position `i` of the slice.
pub fn match_at_in(s: &[u8], pat: &[u8], i: usize) -> (r: bool)
    requires
        i + pat@.len() <= s@.len(),
    ensures
        r == match_at(s@, pat@, i as int),
{
    let n = s.len();
    proof {
        assert(i + pat@.len() <= n);
    }
    let sub = sub_bytes(s, i, i + pat.len());
    bytes_eq(sub.as_slice(), pat)
}

/// Finds the first occurrence of `pat` in `s`.
pub fn find_pat_in(s: &[u8], pat: &[u8]) -> (r: Option<usize>)
    requires
        pat@.len() >= 1,
    ensures
        r is Some <==> find_pat(s@, pat@) != -1,
        r matches Some(i) ==> i == find_pat(s@, pat@),
{
    proof {
        lemma_find_pat_from(s@, pat@, 0);
    }
    if s.len() < pat.len() {
        return None;
    }
    let n = s.len();
    let last = n - pat.len();
    let mut i: usize = 0;
    while i <= last
        invariant
            pat@.len() >= 1,
            s@.len() <= usize::MAX,
            last == s@.len() - pat@.len(),
            0 <= i <= last + 1,
            forall|j: int| 0 <= j < i ==> !match_at(s@, pat@, j),
            find_pat(s@, pat@) == -1 || find_pat(s@, pat@) >= i,
        decreases last - i + 1,
    {
        proof {
            lemma_find_pat_from(s@, pat@, 0);
        }
        if match_at_in(s, pat, i) {
            return Some(i);
        }
        i = i + 1;
    }
    proof {
        lemma_find_pat_from(s@, pat@, 0);
        assert(forall|j: int| 0 <= j ==> j > last ==> !match_at(s@, pat@, j));
    }
    None
}

/// The pieces of `s` between occurrences of `pat`, empties preserved;
/// earlier occurrences are cut first.
pub open spec fn split_pat(s: Seq<u8>, pat: Seq<u8>) -> Seq<Seq<u8>>
    decreases s.len(),
    via split_pat_decreases
{
    let i = find_pat(s, pat);
    if pat.len() == 0 || i == -1 {
        seq![s]
    } else {
        seq![s.subrange(0, i)] + split_pat(s.subrange(i + pat.len() as int, s.len() as int), pat)
    }
}

#[via_fn]
proof fn split_pat_decreases(s: Seq<u8>, pat: Seq<u8>) {
    if pat.len() >= 1 {
        lemma_find_pat_from(s, pat, 0);
    }
}

/// The views of a vector of byte vectors.
pub open spec fn views_of(v: Seq<Vec<u8>>) -> Seq<Seq<u8>> {
    Seq::new(v.len(), |i: int| v[i]@)
}

/// Splits a byte slice on every occurrence of `pat`, empties preserved.
pub fn split_on_pat(s: &[u8], pat: &[u8]) -> (r: Vec<Vec<u8>>)
    requires
        pat@.len() >= 1,
    ensures
        views_of(r@) == split_pat(s@, pat@),
{
    let mut pieces: Vec<Vec<u8>> = Vec::new();
    let mut start: usize = 0;
    proof {
        assert(s@.skip(0) =~= s@);
    }
    loop
        invariant
            pat@.len() >= 1,
            0 <= start <= s@.len(),
            split_pat(s@, pat@) == views_of(pieces@) + split_pat(s@.skip(start as int), pat@),
        decreases s@.len() - start,
    {
        let ghost rest = s@.skip(start as int);
        let sub = sub_bytes(s, start, s.len());
        let nxt = find_pat_in(sub.as_slice(), pat);
        proof {
            lemma_find_pat_from(rest, pat@, 0);
        }
        match nxt {
            Some(off) => {
                let i = start + off;
                let piece = sub_bytes(s, start, i);
                pieces.push(piece);
                proof {
                    assert(rest.subrange(0, off as int) =~= s@.subrange(start as int, i as int));
                    assert(rest.subrange(off + pat@.len(), rest.len() as int) =~= s@.skip(
                        i + pat@.len(),
                    ));
                    assert(views_of(pieces@) =~= views_of(pieces@.drop_last()) + seq![
                        s@.subrange(start as int, i as int),
                    ]);
                    assert(views_of(pieces@) + split_pat(s@.skip(i + pat@.len()), pat@)
                        =~= views_of(pieces@.drop_last()) + split_pat(rest, pat@));
                    assert(start + off + pat@.len() <= s@.len());
                }
                start = i + pat.len();
            },
            None => {
                let piece = sub_bytes(s, start, s.len());
                pieces.push(piece);
                proof {
                    assert(rest =~= s@.subrange(start as int, s@.len() as int));
                    assert(views_of(pieces@) =~= views_of(pieces@.drop_last()) + split_pat(
                        rest,
                        pat@,
                    ));
                }
                return pieces;
            },
        }
    }
}


/// Appends all bytes of `s` to `out`.
pub fn push_bytes(out: &mut Vec<u8>, s: &[u8])
    ensures
        final(out)@ == old(out)@ + s@,
{
    let mut i: usize = 0;
    while i < s.len()
        invariant
            0 <= i <= s@.len(),
            out@ == old(out)@ + s@.subrange(0, i as int),
        decreases s@.len() - i,
    {
        out.push(s[i]);
        proof {
            assert(out@ =~= old(out)@ + s@.subrange(0, i + 1));
        }
        i = i + 1;
    }
    proof {
        assert(out@ =~= old(out)@ + s@);
    }
}


/// UTF-8 encoding distributes over concatenation.
pub proof fn lemma_encode_utf8_concat(a: Seq<char>, b: Seq<char>)
    ensures
        encode_utf8(a + b) == encode_utf8(a) + encode_utf8(b),
    decreases a.len(),
{
    if a.len() == 0 {
        assert(a + b =~= b);
        assert(encode_utf8(a) + encode_utf8(b) =~= encode_utf8(b));
    } else {
        assert((a + b)[0] == a[0]);
        assert((a + b).drop_first() =~= a.drop_first() + b);
        lemma_encode_utf8_concat(a.drop_first(), b);
        assert(encode_utf8(a + b) =~= encode_utf8(a) + encode_utf8(b));
    }
}

/// A UTF-8 encoding takes at most four bytes per character.
pub proof fn lemma_encode_utf8_len(chars: Seq<char>)
    ensures
        encode_utf8(chars).len() <= 4 * chars.len(),
    decreases chars.len(),
{
    if chars.len() > 0 {
        lemma_encode_utf8_len(chars.drop_first());
    }
}

} // verus!
