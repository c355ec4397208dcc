//! The URL query parser: splits `path?query`, percent-decodes the
//! `key=value` pairs and collects them into a parameter map.

use vstd::prelude::*;

verus! {

use crate::http::header::{HeaderMap, write_pair};
use crate::text::{
    find_byte,
    find_char,
    lemma_find_byte,
    lemma_find_char,
    lemma_find_ascii_byte,
    find_byte_in,
    sub_bytes,
    utf8_to_string,
};
use vstd::string::StrSliceExecFns;
use vstd::utf8::{valid_utf8, decode_utf8, encode_utf8};

/// Whether `b` is an ASCII hexadecimal digit, either case.
pub open spec fn is_hex_digit(b: u8) -> bool {
    (48 <= b <= 57) || (97 <= b <= 102) || (65 <= b <= 70)
}

/// The value of a hexadecimal digit byte.
pub open spec fn hex_val(b: u8) -> u8 {
    if 48 <= b <= 57 {
        (b - 48) as u8
    } else if 97 <= b <= 102 {
        (b - 87) as u8
    } else if 65 <= b <= 70 {
        (b - 55) as u8
    } else {
        0
    }
}

/// Percent-decoding of a byte sequence: `%XX` with two hexadecimal
/// digits becomes the byte `XX`; a malformed escape fails the whole
/// component; every other byte passes through.
pub open spec fn pct_decode(s: Seq<u8>) -> Option<Seq<u8>>
    decreases s.len(),
{
    if s.len() == 0 {
        Some(Seq::<u8>::empty())
    } else if s[0] == 37 {
        if s.len() >= 3 && is_hex_digit(s[1]) && is_hex_digit(s[2]) {
            match pct_decode(s.skip(3)) {
                Some(t) => Some(seq![(hex_val(s[1]) * 16 + hex_val(s[2])) as u8] + t),
                None => None,
            }
        } else {
            None
        }
    } else {
        match pct_decode(s.skip(1)) {
            Some(t) => Some(seq![s[0]] + t),
            None => None,
        }
    }
}

/// A decoded query component: percent-decoding followed by UTF-8.
pub open spec fn decode_component(s: Seq<u8>) -> Option<Seq<char>> {
    match pct_decode(s) {
        Some(b) => if valid_utf8(b) {
            Some(decode_utf8(b))
        } else {
            None
        },
        None => None,
    }
}

/// The pieces of `s` between occurrences of `b`, empties preserved.
pub open spec fn split_byte(s: Seq<u8>, b: u8) -> Seq<Seq<u8>>
    decreases s.len(),
    via split_byte_decreases
{
    let i = find_byte(s, b);
    if i == -1 {
        seq![s]
    } else {
        seq![s.subrange(0, i)] + split_byte(s.subrange(i + 1, s.len() as int), b)
    }
}

#[via_fn]
proof fn split_byte_decreases(s: Seq<u8>, b: u8) {
    lemma_find_byte(s, b);
}

/// The decoded pair a single `key=value` piece stands for, if any: the
/// piece splits at its first `=` (no `=` means an empty value), both
/// sides decode, and the key is not empty.
pub open spec fn pair_of(piece: Seq<u8>) -> Option<(Seq<char>, Seq<char>)> {
    let i = find_byte(piece, 61);
    let kb = if i == -1 {
        piece
    } else {
        piece.subrange(0, i)
    };
    let vb = if i == -1 {
        Seq::<u8>::empty()
    } else {
        piece.subrange(i + 1, piece.len() as int)
    };
    match (decode_component(kb), decode_component(vb)) {
        (Some(k), Some(v)) => if k.len() == 0 {
            None
        } else {
            Some((k, v))
        },
        _ => None,
    }
}

/// Writes the decoded pair of each piece into `ps`, in order; later
/// values overwrite earlier ones.
pub open spec fn add_pairs(
    ps: Seq<(Seq<char>, Seq<char>)>,
    pieces: Seq<Seq<u8>>,
) -> Seq<(Seq<char>, Seq<char>)>
    decreases pieces.len(),
{
    if pieces.len() == 0 {
        ps
    } else {
        match pair_of(pieces[0]) {
            Some(kv) => add_pairs(write_pair(ps, kv.0, kv.1), pieces.drop_first()),
            None => add_pairs(ps, pieces.drop_first()),
        }
    }
}

/// The parameter pairs of a raw query string.
pub open spec fn query_pairs(qs: Seq<u8>) -> Seq<(Seq<char>, Seq<char>)> {
    add_pairs(Seq::empty(), split_byte(qs, 38))
}

/// The part of `u` before its first `?`, or all of it.
pub open spec fn query_base(u: Seq<char>) -> Seq<char> {
    if find_char(u, '?') == -1 {
        u
    } else {
        u.subrange(0, find_char(u, '?'))
    }
}

/// The raw query bytes of `u`: what follows the first `?`, UTF-8 encoded.
pub open spec fn query_rest(u: Seq<char>) -> Seq<u8> {
    encode_utf8(u.subrange(find_char(u, '?') + 1, u.len() as int))
}

/// The base is always a prefix of the URL it was split from.
pub proof fn lemma_query_base_is_prefix(u: Seq<char>)
    ensures
        query_base(u).is_prefix_of(u),
{
    lemma_find_char(u, '?');
    if find_char(u, '?') != -1 {
        assert(u.subrange(0, find_char(u, '?')) =~= u.take(find_char(u, '?')));
    } else {
        assert(u =~= u.take(u.len() as int));
    }
}


/// A URL splits back together: the base never holds a `?`, and the
/// whole URL is the base, then the `?`, then what the query parser
/// consumed — or just the base when there is no query.
pub proof fn lemma_route_query_shape(u: Seq<char>)
    ensures
        forall|j: int| 0 <= j < query_base(u).len() ==> query_base(u)[j] != '?',
        find_char(u, '?') == -1 ==> query_base(u) == u,
        find_char(u, '?') != -1 ==> u == query_base(u) + seq!['?'] + u.subrange(
            find_char(u, '?') + 1,
            u.len() as int,
        ),
{
    lemma_find_char(u, '?');
    if find_char(u, '?') != -1 {
        assert(u =~= u.subrange(0, find_char(u, '?')) + seq!['?'] + u.subrange(
            find_char(u, '?') + 1,
            u.len() as int,
        ));
    }
}

/// Every pair produced for a query is the decoded pair of one of its
/// `&`-separated pieces.
pub proof fn lemma_query_pairs_decoded(qs: Seq<u8>)
    ensures
        forall|i: int|
            0 <= i < query_pairs(qs).len() ==> exists|k: int|
                0 <= k < split_byte(qs, 38).len() && pair_of(split_byte(qs, 38)[k]) == Some(
                    #[trigger] query_pairs(qs)[i],
                ),
{
    lemma_add_pairs_decoded(Seq::empty(), split_byte(qs, 38));
}

proof fn lemma_add_pairs_decoded(ps: Seq<(Seq<char>, Seq<char>)>, pieces: Seq<Seq<u8>>)
    ensures
        forall|i: int|
            0 <= i < add_pairs(ps, pieces).len() ==> (exists|j: int|
                0 <= j < ps.len() && ps[j] == #[trigger] add_pairs(ps, pieces)[i]) || (exists|
                k: int,
            |
                0 <= k < pieces.len() && pair_of(pieces[k]) == Some(add_pairs(ps, pieces)[i])),
    decreases pieces.len(),
{
    if pieces.len() == 0 {
        assert forall|i: int| 0 <= i < add_pairs(ps, pieces).len() implies (exists|j: int|
            0 <= j < ps.len() && ps[j] == #[trigger] add_pairs(ps, pieces)[i]) || (exists|k: int|
            0 <= k < pieces.len() && pair_of(pieces[k]) == Some(add_pairs(ps, pieces)[i])) by {
            assert(ps[i] == add_pairs(ps, pieces)[i]);
        }
    } else {
        match pair_of(pieces[0]) {
            Some(kv) => {
                let ps2 = write_pair(ps, kv.0, kv.1);
                crate::http::header::lemma_find_key(ps, kv.0);
                lemma_add_pairs_decoded(ps2, pieces.drop_first());
                assert forall|i: int| 0 <= i < add_pairs(ps, pieces).len() implies (exists|j: int|
                    0 <= j < ps.len() && ps[j] == #[trigger] add_pairs(ps, pieces)[i]) || (exists|
                    k: int,
                |
                    0 <= k < pieces.len() && pair_of(pieces[k]) == Some(
                        add_pairs(ps, pieces)[i],
                    )) by {
                    let e = add_pairs(ps, pieces)[i];
                    assert(add_pairs(ps, pieces) == add_pairs(ps2, pieces.drop_first()));
                    assert(e == add_pairs(ps2, pieces.drop_first())[i]);
                    if exists|j: int| 0 <= j < ps2.len() && ps2[j] == e {
                        let j = choose|j: int| 0 <= j < ps2.len() && ps2[j] == e;
                        if ps2[j] == (kv.0, kv.1) {
                            assert(pair_of(pieces[0]) == Some(e));
                        } else {
                            assert(ps[j] == e);
                        }
                    } else {
                        let k = choose|k: int|
                            0 <= k < pieces.drop_first().len() && pair_of(
                                pieces.drop_first()[k],
                            ) == Some(e);
                        assert(pieces.drop_first()[k] == pieces[k + 1]);
                    }
                }
            },
            None => {
                lemma_add_pairs_decoded(ps, pieces.drop_first());
                assert forall|i: int| 0 <= i < add_pairs(ps, pieces).len() implies (exists|j: int|
                    0 <= j < ps.len() && ps[j] == #[trigger] add_pairs(ps, pieces)[i]) || (exists|
                    k: int,
                |
                    0 <= k < pieces.len() && pair_of(pieces[k]) == Some(
                        add_pairs(ps, pieces)[i],
                    )) by {
                    let e = add_pairs(ps, pieces)[i];
                    assert(add_pairs(ps, pieces) == add_pairs(ps, pieces.drop_first()));
                    assert(e == add_pairs(ps, pieces.drop_first())[i]);
                    if exists|k: int|
                        0 <= k < pieces.drop_first().len() && pair_of(
                            pieces.drop_first()[k],
                        ) == Some(e) {
                        let k = choose|k: int|
                            0 <= k < pieces.drop_first().len() && pair_of(
                                pieces.drop_first()[k],
                            ) == Some(e);
                        assert(pieces.drop_first()[k] == pieces[k + 1]);
                    }
                }
            },
        }
    }
}

/// The value of a single hexadecimal digit byte, if it is one.
fn hex_digit_val(b: u8) -> (r: Option<u8>)
    ensures
        r is Some <==> is_hex_digit(b),
        r matches Some(v) ==> v == hex_val(b),
{
    if 48 <= b && b <= 57 {
        Some(b - 48)
    } else if 97 <= b && b <= 102 {
        Some(b - 87)
    } else if 65 <= b && b <= 70 {
        Some(b - 55)
    } else {
        None
    }
}

/// Percent-decodes one component into raw bytes.
fn pct_decode_bytes(s: &[u8]) -> (r: Option<Vec<u8>>)
    ensures
        r is Some <==> pct_decode(s@) is Some,
        r matches Some(v) ==> pct_decode(s@) == Some(v@),
{
    let mut out: Vec<u8> = Vec::new();
    let mut i: usize = 0;
    proof {
        assert(s@.skip(0) =~= s@);
    }
    while i < s.len()
        invariant
            0 <= i <= s@.len(),
            pct_decode(s@) == (match pct_decode(s@.skip(i as int)) {
                Some(t) => Some(out@ + t),
                None => None::<Seq<u8>>,
            }),
        decreases s@.len() - i,
    {
        let ghost rest = s@.skip(i as int);
        proof {
            assert(rest[0] == s@[i as int]);
        }
        if s[i] == 37 {
            if s.len() - i < 3 {
                proof {
                    assert(rest.len() < 3);
                }
                return None;
            }
            let h = hex_digit_val(s[i + 1]);
            let l = hex_digit_val(s[i + 2]);
            proof {
                assert(rest[1] == s@[i + 1]);
                assert(rest[2] == s@[i + 2]);
            }
            match (h, l) {
                (Some(hv), Some(lv)) => {
                    out.push(hv * 16 + lv);
                    proof {
                        assert(rest.skip(3) =~= s@.skip(i + 3));
                        let d = (hex_val(rest[1]) * 16 + hex_val(rest[2])) as u8;
                        assert(hv * 16 + lv == d);
                        match pct_decode(s@.skip(i + 3)) {
                            Some(t) => {
                                assert(out@ + t =~= out@.drop_last() + (seq![d] + t));
                            },
                            None => {},
                        }
                    }
                    i = i + 3;
                },
                _ => {
                    return None;
                },
            }
        } else {
            let b = s[i];
            out.push(b);
            proof {
                assert(rest.skip(1) =~= s@.skip(i + 1));
                match pct_decode(s@.skip(i + 1)) {
                    Some(t) => {
                        assert(out@ + t =~= out@.drop_last() + (seq![b] + t));
                    },
                    None => {},
                }
            }
            i = i + 1;
        }
    }
    proof {
        assert(s@.skip(i as int) =~= Seq::<u8>::empty());
        assert(pct_decode(s@.skip(i as int)) == Some(Seq::<u8>::empty()));
        assert(out@ + Seq::<u8>::empty() =~= out@);
    }
    Some(out)
}

/// Percent-decodes one component into text.
fn decode_string(s: &[u8]) -> (r: Option<String>)
    ensures
        r is Some <==> decode_component(s@) is Some,
        r matches Some(v) ==> decode_component(s@) == Some(v@),
{
    match pct_decode_bytes(s) {
        Some(raw) => utf8_to_string(raw),
        None => None,
    }
}

/// The views of a vector of byte vectors.
pub open spec fn vecs_view(v: Seq<Vec<u8>>) -> Seq<Seq<u8>> {
    Seq::new(v.len(), |i: int| v[i]@)
}

/// Splits a byte slice on every occurrence of `b`, empties preserved.
pub(crate) fn split_on(s: &[u8], b: u8) -> (r: Vec<Vec<u8>>)
    ensures
        vecs_view(r@) == split_byte(s@, b),
{
    let mut pieces: Vec<Vec<u8>> = Vec::new();
    let mut start: usize = 0;
    proof {
        assert(s@.skip(0) =~= s@);
    }
    loop
        invariant
            0 <= start <= s@.len(),
            split_byte(s@, b) == vecs_view(pieces@) + split_byte(s@.skip(start as int), b),
        decreases s@.len() - start,
    {
        let ghost rest = s@.skip(start as int);
        let mut i: usize = start;
        let mut found: bool = false;
        while i < s.len() && !found
            invariant
                start <= i <= s@.len(),
                !found ==> forall|j: int| start <= j < i ==> s@[j] != b,
                found ==> start <= i < s@.len() && s@[i as int] == b && forall|j: int|
                    start <= j < i ==> s@[j] != b,
            decreases s@.len() - i + (if found {
                0int
            } else {
                1int
            }),
        {
            if s[i] == b {
                found = true;
            } else {
                i = i + 1;
            }
        }
        proof {
            lemma_find_byte(rest, b);
            assert(forall|j: int| 0 <= j < rest.len() ==> rest[j] == s@[start + j]);
        }
        if found {
            proof {
                assert(rest[i - start] == b);
                assert(forall|j: int| 0 <= j < i - start ==> rest[j] != b);
                assert(find_byte(rest, b) == i - start);
            }
            let piece = sub_bytes(s, start, i);
            pieces.push(piece);
            proof {
                assert(rest.subrange(0, i - start) =~= s@.subrange(start as int, i as int));
                assert(rest.subrange(i - start + 1, rest.len() as int) =~= s@.skip(i + 1));
                assert(vecs_view(pieces@) =~= vecs_view(pieces@.drop_last()) + seq![
                    s@.subrange(start as int, i as int),
                ]);
                assert(vecs_view(pieces@) + split_byte(s@.skip(i + 1), b) =~= (vecs_view(
                    pieces@.drop_last(),
                ) + split_byte(rest, b)));
            }
            start = i + 1;
        } else {
            proof {
                assert(forall|j: int| 0 <= j < rest.len() ==> rest[j] != b);
                assert(find_byte(rest, b) == -1);
            }
            let piece = sub_bytes(s, start, s.len());
            pieces.push(piece);
            proof {
                assert(rest =~= s@.subrange(start as int, s@.len() as int));
                assert(vecs_view(pieces@) =~= vecs_view(pieces@.drop_last()) + seq![rest]);
                assert(vecs_view(pieces@) =~= vecs_view(pieces@.drop_last()) + split_byte(
                    rest,
                    b,
                ));
            }
            return pieces;
        }
    }
}

/// Splits a URL at its first `?` and collects the percent-decoded
/// query pairs that follow it.  The part before the `?` is handed back
/// unchanged; pairs with malformed escapes or empty keys are dropped;
/// a repeated key keeps its last value.
pub fn parse_query_params_and_urldecode(url: &str) -> (r: (String, HeaderMap))
    ensures
        r.0@ == query_base(url@),
        find_char(url@, '?') == -1 ==> r.1.pairs().len() == 0,
        find_char(url@, '?') != -1 ==> r.1.pairs() == query_pairs(query_rest(url@)),
{
    let bytes = url.as_bytes();
    proof {
        lemma_find_ascii_byte(url@, 63);
    }
    let q = match find_byte_in(bytes, 63) {
        None => {
            return (url.to_owned(), HeaderMap::empty());
        },
        Some(q) => q,
    };
    let ghost j = find_char(url@, '?');
    proof {
        assert(q < bytes@.len());
    }
    let prefix = sub_bytes(bytes, 0, q);
    proof {
        assert(prefix@ == encode_utf8(url@.subrange(0, j)));
        vstd::utf8::encode_utf8_valid_utf8(url@.subrange(0, j));
        vstd::utf8::encode_utf8_decode_utf8(url@.subrange(0, j));
    }
    let base = match utf8_to_string(prefix) {
        Some(s) => s,
        None => {
            proof {
                assert(false);
            }
            String::new()
        },
    };
    let blen = bytes.len();
    proof {
        assert(q < blen);
    }
    let qs = sub_bytes(bytes, q + 1, blen);
    proof {
        assert(qs@ == query_rest(url@));
    }
    let pieces = split_on(qs.as_slice(), 38);
    let ghost pv = split_byte(qs@, 38);
    let mut params = HeaderMap::empty();
    proof {
        assert(pv.skip(0) =~= pv);
    }
    let n = pieces.len();
    for k in 0..n
        invariant
            n == pieces@.len(),
            vecs_view(pieces@) == pv,
            query_pairs(qs@) == add_pairs(params.pairs(), pv.skip(k as int)),
        {
        let ghost rest = pv.skip(k as int);
        proof {
            assert(rest[0] == pv[k as int]);
            assert(rest.drop_first() =~= pv.skip(k + 1));
        }
        let piece = &pieces[k];
        proof {
            assert(piece@ == pv[k as int]);
        }
        let eq = find_byte_in(piece.as_slice(), 61);
        let (kb, vb) = match eq {
            Some(e) => {
                let plen = piece.len();
                proof {
                    lemma_find_byte(piece@, 61);
                    assert(e < plen);
                }
                (sub_bytes(piece.as_slice(), 0, e), sub_bytes(piece.as_slice(), e + 1, plen))
            },
            None => ((*piece).clone(), Vec::new()),
        };
        proof {
            if find_byte(piece@, 61) == -1 {
                assert(vb@ =~= Seq::<u8>::empty());
            }
        }
        let kd = decode_string(kb.as_slice());
        let vd = decode_string(vb.as_slice());
        match (kd, vd) {
            (Some(ks), Some(vs)) => {
                if ks.as_str().unicode_len() == 0 {
                    proof {
                        assert(pair_of(pv[k as int]) is None);
                    }
                } else {
                    proof {
                        assert(pair_of(pv[k as int]) == Some((ks@, vs@)));
                    }
                    params.insert(ks.as_str(), vs);
                }
            },
            _ => {
                proof {
                    assert(pair_of(pv[k as int]) is None);
                }
            },
        }
    }
    proof {
        assert(pv.skip(n as int) =~= Seq::<Seq<u8>>::empty());
    }
    (base, params)
}

} // verus!
