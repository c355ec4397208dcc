//! The header map: an association from header names to single values,
//! also reused for query and route parameters.

use vstd::prelude::*;

verus! {

use crate::text::{str_eq, parse_usize, parse_usize_spec, find_byte, lemma_find_byte,
    find_byte_in, sub_bytes, split_pat, split_on_pat, views_of, utf8_to_string};
use vstd::utf8::{valid_utf8, decode_utf8, encode_utf8};

/// A mapping from case-sensitive names to single string values.  The
/// pairs sit in insertion order; writing to a present name updates its
/// pair in place, so names never repeat.
#[derive(Debug, Clone, PartialEq, Eq)]
pub struct HeaderMap {
    values: Vec<(String, String)>,
}

/// The position of the first pair with key `k`, or `-1`.
pub open spec fn find_key(ps: Seq<(Seq<char>, Seq<char>)>, k: Seq<char>) -> int
    decreases ps.len(),
{
    if ps.len() == 0 {
        -1
    } else if ps[0].0 == k {
        0
    } else {
        let r = find_key(ps.drop_first(), k);
        if r == -1 {
            -1
        } else {
            r + 1
        }
    }
}

/// `find_key` returns the first matching position and `-1` only when
/// no pair matches.
pub proof fn lemma_find_key(ps: Seq<(Seq<char>, Seq<char>)>, k: Seq<char>)
    ensures
        find_key(ps, k) == -1 ==> forall|j: int| 0 <= j < ps.len() ==> (#[trigger] ps[j]).0 != k,
        find_key(ps, k) != -1 ==> 0 <= find_key(ps, k) < ps.len() && ps[find_key(ps, k)].0 == k
            && forall|j: int| 0 <= j < find_key(ps, k) ==> (#[trigger] ps[j]).0 != k,
    decreases ps.len(),
{
    if ps.len() > 0 && ps[0].0 != k {
        lemma_find_key(ps.drop_first(), k);
        assert forall|j: int| 1 <= j < ps.len() implies ps.drop_first()[j - 1] == #[trigger] ps[j] by {}
    }
}

/// The result of writing `(k, v)` into a pair sequence: the first pair
/// with key `k` is replaced, or the pair is appended.
pub open spec fn write_pair(
    ps: Seq<(Seq<char>, Seq<char>)>,
    k: Seq<char>,
    v: Seq<char>,
) -> Seq<(Seq<char>, Seq<char>)> {
    if find_key(ps, k) == -1 {
        ps.push((k, v))
    } else {
        ps.update(find_key(ps, k), (k, v))
    }
}


/// The result of writing each pair of `qs` into `ps`, in order.
pub open spec fn write_all(
    ps: Seq<(Seq<char>, Seq<char>)>,
    qs: Seq<(Seq<char>, Seq<char>)>,
) -> Seq<(Seq<char>, Seq<char>)>
    decreases qs.len(),
{
    if qs.len() == 0 {
        ps
    } else {
        write_all(write_pair(ps, qs[0].0, qs[0].1), qs.drop_first())
    }
}



/// The result of taking the pair named `k` out of a pair sequence:
/// the first pair with that name is removed, or nothing changes.
pub open spec fn drop_pair(
    ps: Seq<(Seq<char>, Seq<char>)>,
    k: Seq<char>,
) -> Seq<(Seq<char>, Seq<char>)> {
    if find_key(ps, k) == -1 {
        ps
    } else {
        ps.remove(find_key(ps, k))
    }
}

/// The pair one `name=value` cookie piece stands for, if it has the
/// `=` and both sides are text.
pub open spec fn cookie_pair_of(piece: Seq<u8>) -> Option<(Seq<char>, Seq<char>)> {
    let i = find_byte(piece, 61);
    if i == -1 {
        None
    } else {
        let kb = piece.subrange(0, i);
        let vb = piece.subrange(i + 1, piece.len() as int);
        if valid_utf8(kb) && valid_utf8(vb) {
            Some((decode_utf8(kb), decode_utf8(vb)))
        } else {
            None
        }
    }
}

/// Whether every `"; "`-separated piece of a cookie value is a pair.
pub open spec fn all_cookies_ok(pieces: Seq<Seq<u8>>) -> bool {
    forall|k: int| 0 <= k < pieces.len() ==> cookie_pair_of(#[trigger] pieces[k]) is Some
}

/// The pairs of the pieces written in order.
pub open spec fn cookie_fold(
    ps: Seq<(Seq<char>, Seq<char>)>,
    pieces: Seq<Seq<u8>>,
) -> Seq<(Seq<char>, Seq<char>)>
    decreases pieces.len(),
{
    if pieces.len() == 0 {
        ps
    } else {
        match cookie_pair_of(pieces[0]) {
            Some(kv) => cookie_fold(write_pair(ps, kv.0, kv.1), pieces.drop_first()),
            None => cookie_fold(ps, pieces.drop_first()),
        }
    }
}

/// The cookie pairs of a `Cookie` value: the value splits on `"; "`,
/// each piece on its first `=`; one malformed piece empties the map.
pub open spec fn cookies_of(v: Seq<u8>) -> Seq<(Seq<char>, Seq<char>)> {
    let pieces = split_pat(v, seq![59u8, 32u8]);
    if all_cookies_ok(pieces) {
        cookie_fold(Seq::empty(), pieces)
    } else {
        Seq::empty()
    }
}

impl HeaderMap {
    /// The name/value pairs as mathematical sequences, in map order.
    pub closed spec fn pairs(&self) -> Seq<(Seq<char>, Seq<char>)> {
        Seq::new(self.values@.len(), |i: int| (self.values@[i].0@, self.values@[i].1@))
    }

    /// Whether the map holds a pair named `k`.
    pub open spec fn has_key(&self, k: Seq<char>) -> bool {
        find_key(self.pairs(), k) != -1
    }

    /// The value stored under `k`.
    pub open spec fn value_of(&self, k: Seq<char>) -> Seq<char> {
        self.pairs()[find_key(self.pairs(), k)].1
    }

    /// A map with no pairs.
    pub fn empty() -> (r: Self)
        ensures
            r.pairs() == Seq::<(Seq<char>, Seq<char>)>::empty(),
    {
        let r = HeaderMap { values: Vec::new() };
        proof {
            assert(r.pairs() =~= Seq::<(Seq<char>, Seq<char>)>::empty());
        }
        r
    }

    /// Whether the map holds no pairs.
    pub fn is_empty(&self) -> (r: bool)
        ensures
            r == (self.pairs().len() == 0),
    {
        self.values.len() == 0
    }

    /// How many pairs the map holds.
    pub fn len(&self) -> (r: usize)
        ensures
            r == self.pairs().len(),
    {
        self.values.len()
    }

    /// Looks a name up and hands back its value.
    pub fn get(&self, key: &str) -> (r: Option<&String>)
        ensures
            r is Some <==> self.has_key(key@),
            r matches Some(v) ==> self.has_key(key@) && v@ == self.value_of(key@),
    {
        proof {
            lemma_find_key(self.pairs(), key@);
        }
        let n = self.values.len();
        for i in 0..n
            invariant
                n == self.values@.len(),
                forall|j: int| 0 <= j < i ==> (#[trigger] self.pairs()[j]).0 != key@,
                find_key(self.pairs(), key@) == -1 || find_key(self.pairs(), key@) >= i,
        {
            proof {
                lemma_find_key(self.pairs(), key@);
            }
            if str_eq(self.values[i].0.as_str(), key) {
                proof {
                    assert(self.pairs()[i as int].0 == key@);
                    lemma_find_key(self.pairs(), key@);
                    assert(find_key(self.pairs(), key@) == i);
                }
                return Some(&self.values[i].1);
            }
        }
        proof {
            lemma_find_key(self.pairs(), key@);
        }
        None
    }

    /// Writes a value under a name; a present name keeps its position.
    pub fn insert(&mut self, key: &str, value: String)
        ensures
            final(self).pairs() == write_pair(old(self).pairs(), key@, value@),
    {
        proof {
            lemma_find_key(self.pairs(), key@);
        }
        let n = self.values.len();
        for i in 0..n
            invariant
                n == self.values@.len(),
                *self == *old(self),
                forall|j: int| 0 <= j < i ==> (#[trigger] self.pairs()[j]).0 != key@,
        {
            if str_eq(self.values[i].0.as_str(), key) {
                proof {
                    assert(self.pairs()[i as int].0 == key@);
                    lemma_find_key(self.pairs(), key@);
                    assert(find_key(self.pairs(), key@) == i);
                }
                let ghost before = self.pairs();
                let pair = (key.to_owned(), value);
                self.values.set(i, pair);
                proof {
                    assert(self.pairs() =~= before.update(i as int, (key@, value@)));
                }
                return;
            }
        }
        proof {
            lemma_find_key(self.pairs(), key@);
            assert(find_key(self.pairs(), key@) == -1);
        }
        let ghost before = self.pairs();
        self.values.push((key.to_owned(), value));
        proof {
            assert(self.pairs() =~= before.push((key@, value@)));
        }
    }

    /// Takes a name out of the map, if it is present.
    pub fn remove(&mut self, key: &str)
        ensures
            final(self).pairs() == drop_pair(old(self).pairs(), key@),
    {
        proof {
            lemma_find_key(self.pairs(), key@);
        }
        let n = self.values.len();
        for i in 0..n
            invariant
                n == self.values@.len(),
                *self == *old(self),
                forall|j: int| 0 <= j < i ==> (#[trigger] self.pairs()[j]).0 != key@,
        {
            if str_eq(self.values[i].0.as_str(), key) {
                proof {
                    assert(self.pairs()[i as int].0 == key@);
                    lemma_find_key(self.pairs(), key@);
                    assert(find_key(self.pairs(), key@) == i);
                }
                let ghost before = self.pairs();
                self.values.remove(i);
                proof {
                    assert(self.pairs() =~= before.remove(i as int));
                }
                return;
            }
        }
        proof {
            lemma_find_key(self.pairs(), key@);
            assert(find_key(self.pairs(), key@) == -1);
        }
    }

    /// Builds a map by writing the given pairs in order.
    pub fn from_pairs(items: Vec<(String, String)>) -> (r: Self)
        ensures
            r.pairs() == write_all(
                Seq::<(Seq<char>, Seq<char>)>::empty(),
                Seq::new(items@.len(), |i: int| (items@[i].0@, items@[i].1@)),
            ),
    {
        let ghost iv = Seq::new(items@.len(), |i: int| (items@[i].0@, items@[i].1@));
        let mut r = HeaderMap { values: Vec::new() };
        proof {
            assert(r.pairs() =~= Seq::<(Seq<char>, Seq<char>)>::empty());
            assert(iv.skip(0) =~= iv);
        }
        let n = items.len();
        for i in 0..n
            invariant
                n == items@.len(),
                iv == Seq::new(items@.len(), |j: int| (items@[j].0@, items@[j].1@)),
                write_all(Seq::<(Seq<char>, Seq<char>)>::empty(), iv) == write_all(
                    r.pairs(),
                    iv.skip(i as int),
                ),
        {
            proof {
                assert(iv.skip(i as int)[0] == iv[i as int]);
                assert(iv.skip(i as int).drop_first() =~= iv.skip(i + 1));
            }
            let pair = &items[i];
            r.insert(pair.0.as_str(), pair.1.clone());
        }
        proof {
            assert(iv.skip(n as int) =~= Seq::<(Seq<char>, Seq<char>)>::empty());
        }
        r
    }

    /// Writes every pair of `other` into this map, in `other`'s order.
    pub fn extend(&mut self, other: &HeaderMap)
        ensures
            final(self).pairs() == write_all(old(self).pairs(), other.pairs()),
    {
        let ghost qs = other.pairs();
        proof {
            assert(qs.skip(0) =~= qs);
        }
        let entries = other.entries();
        let n = entries.len();
        for i in 0..n
            invariant
                n == entries@.len(),
                n == qs.len(),
                forall|j: int|
                    0 <= j < n ==> (#[trigger] entries@[j]).0@ == qs[j].0 && entries@[j].1@
                        == qs[j].1,
                write_all(old(self).pairs(), qs) == write_all(self.pairs(), qs.skip(i as int)),
        {
            proof {
                assert(qs.skip(i as int)[0] == qs[i as int]);
                assert(qs.skip(i as int).drop_first() =~= qs.skip(i + 1));
            }
            let pair = &entries[i];
            self.insert(pair.0.as_str(), pair.1.clone());
        }
        proof {
            assert(qs.skip(n as int) =~= Seq::<(Seq<char>, Seq<char>)>::empty());
        }
    }

    /// The advertised body length: the `Content-Length` value parsed as
    /// a decimal number, if it is one.
    pub fn content_length(&self) -> (r: Option<usize>)
        ensures
            r == (if self.has_key(crate::consts::CONTENT_LEN@) {
                parse_usize_spec(
                    vstd::utf8::encode_utf8(self.value_of(crate::consts::CONTENT_LEN@)),
                )
            } else {
                None::<usize>
            }),
    {
        if let Some(value) = self.get(crate::consts::CONTENT_LEN) {
            parse_usize(value.as_str().as_bytes())
        } else {
            None
        }
    }

    /// The stored pairs, for rendering in map order.
    pub fn entries(&self) -> (r: &Vec<(String, String)>)
        ensures
            r@.len() == self.pairs().len(),
            forall|i: int|
                0 <= i < r@.len() ==> (#[trigger] r@[i]).0@ == self.pairs()[i].0 && r@[i].1@
                    == self.pairs()[i].1,
    {
        &self.values
    }

    /// The pairs of the `Cookie` header, split on `"; "` and `=`; an
    /// absent header or any malformed piece gives an empty map.
    pub fn cookies(&self) -> (r: HeaderMap)
        ensures
            r.pairs() == (if self.has_key(crate::consts::COOKIES@) {
                cookies_of(encode_utf8(self.value_of(crate::consts::COOKIES@)))
            } else {
                Seq::<(Seq<char>, Seq<char>)>::empty()
            }),
    {
        let cookies_str = match self.get(crate::consts::COOKIES) {
            Some(v) => v,
            None => {
                return HeaderMap::empty();
            },
        };
        let bytes = cookies_str.as_str().as_bytes();
        let mut sep: Vec<u8> = Vec::new();
        sep.push(59);
        sep.push(32);
        proof {
            assert(sep@ =~= seq![59u8, 32u8]);
        }
        let pieces = split_on_pat(bytes, sep.as_slice());
        let ghost pv = split_pat(bytes@, seq![59u8, 32u8]);
        let mut out = HeaderMap::empty();
        let n = pieces.len();
        proof {
            assert(pv.skip(0) =~= pv);
        }
        for k in 0..n
            invariant
                n == pieces@.len(),
                views_of(pieces@) == pv,
                self.has_key(crate::consts::COOKIES@),
                pv == split_pat(
                    encode_utf8(self.value_of(crate::consts::COOKIES@)),
                    seq![59u8, 32u8],
                ),
                all_cookies_ok(pv.take(k as int)),
                cookie_fold(Seq::<(Seq<char>, Seq<char>)>::empty(), pv) == cookie_fold(
                    out.pairs(),
                    pv.skip(k as int),
                ),
        {
            let ghost rest = pv.skip(k as int);
            proof {
                assert(rest[0] == pv[k as int]);
                assert(rest.drop_first() =~= pv.skip(k + 1));
            }
            let piece = &pieces[k];
            proof {
                assert(piece@ == pv[k as int]);
            }
            let eq = match find_byte_in(piece.as_slice(), 61) {
                Some(e) => e,
                None => {
                    proof {
                        assert(cookie_pair_of(pv[k as int]) is None);
                    }
                    return HeaderMap::empty();
                },
            };
            let plen = piece.len();
            proof {
                lemma_find_byte(piece@, 61);
                assert(eq < plen);
            }
            let kb = sub_bytes(piece.as_slice(), 0, eq);
            let vb = sub_bytes(piece.as_slice(), eq + 1, plen);
            let name = match utf8_to_string(kb) {
                Some(s) => s,
                None => {
                    proof {
                        assert(cookie_pair_of(pv[k as int]) is None);
                    }
                    return HeaderMap::empty();
                },
            };
            let value = match utf8_to_string(vb) {
                Some(s) => s,
                None => {
                    proof {
                        assert(cookie_pair_of(pv[k as int]) is None);
                    }
                    return HeaderMap::empty();
                },
            };
            proof {
                assert(cookie_pair_of(pv[k as int]) == Some((name@, value@)));
                assert(pv.take(k + 1).drop_last() =~= pv.take(k as int));
                assert(pv.take(k + 1).last() == pv[k as int]);
            }
            out.insert(name.as_str(), value);
        }
        proof {
            assert(pv.take(n as int) =~= pv);
            assert(pv.skip(n as int) =~= Seq::<Seq<u8>>::empty());
            assert(all_cookies_ok(pv));
        }
        out
    }

    /// The `Content-Type` value, if one is present.
    pub fn content_type(&self) -> (r: Option<&str>)
        ensures
            r is Some <==> self.has_key(crate::consts::CONTENT_TYPE@),
            r matches Some(v) ==> self.has_key(crate::consts::CONTENT_TYPE@) && v@ == self.value_of(
                crate::consts::CONTENT_TYPE@,
            ),
    {
        match self.get(crate::consts::CONTENT_TYPE) {
            Some(v) => Some(v.as_str()),
            None => None,
        }
    }
}

} // verus!
