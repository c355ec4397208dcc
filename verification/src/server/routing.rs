//! The route table: templates are split into `/`-separated segments; a
//! segment beginning with `:` captures the request segment under its
//! name.  Resolution walks the table in order and the first path match
//! wins, whatever its method.

use vstd::prelude::*;

verus! {

use crate::http::header::{HeaderMap, write_pair};
use crate::http::request::HttpRequest;
use crate::http::status::Method;
use crate::text::{find_char, lemma_find_char, str_eq};
use vstd::string::StrSliceExecFns;

/// The pieces of `s` between occurrences of `c`, empties preserved.
pub open spec fn split_char_seq(s: Seq<char>, c: char) -> Seq<Seq<char>>
    decreases s.len(),
    via split_char_seq_decreases
{
    let i = find_char(s, c);
    if i == -1 {
        seq![s]
    } else {
        seq![s.subrange(0, i)] + split_char_seq(s.subrange(i + 1, s.len() as int), c)
    }
}

#[via_fn]
proof fn split_char_seq_decreases(s: Seq<char>, c: char) {
    lemma_find_char(s, c);
}

/// The `/`-separated segments of a path.
pub open spec fn segments(path: Seq<char>) -> Seq<Seq<char>> {
    split_char_seq(path, '/')
}

/// Whether a template segment begins with `:`.
pub open spec fn is_capture_seg(seg: Seq<char>) -> bool {
    seg.len() > 0 && seg[0] == ':'
}

/// Whether one template segment accepts one request segment.
pub open spec fn seg_matches(tseg: Seq<char>, rseg: Seq<char>) -> bool {
    if is_capture_seg(tseg) {
        true
    } else {
        tseg == rseg
    }
}

/// Whether a template accepts a path: same number of segments, each
/// accepted in place.
pub open spec fn template_matches(template: Seq<char>, path: Seq<char>) -> bool {
    let ts = segments(template);
    let ps = segments(path);
    ts.len() == ps.len() && forall|i: int| 0 <= i < ts.len() ==> seg_matches(ts[i], ps[i])
}

/// The captures a matching template takes from a path, in segment
/// order: each `:name` segment captures the request segment there.
pub open spec fn captures_from(
    acc: Seq<(Seq<char>, Seq<char>)>,
    ts: Seq<Seq<char>>,
    ps: Seq<Seq<char>>,
    i: int,
) -> Seq<(Seq<char>, Seq<char>)>
    decreases ts.len() - i,
{
    if i < 0 || i >= ts.len() {
        acc
    } else if is_capture_seg(ts[i]) {
        captures_from(write_pair(acc, ts[i].drop_first(), if i < ps.len() {
            ps[i]
        } else {
            Seq::empty()
        }), ts, ps, i + 1)
    } else {
        captures_from(acc, ts, ps, i + 1)
    }
}

/// All captures of a template applied to a path.
pub open spec fn captures_of(template: Seq<char>, path: Seq<char>) -> Seq<(Seq<char>, Seq<char>)> {
    captures_from(Seq::empty(), segments(template), segments(path), 0)
}

/// The positions and names of the capturing segments of a template.
pub open spec fn capture_positions(ts: Seq<Seq<char>>, i: int) -> Seq<(int, Seq<char>)>
    decreases ts.len() - i,
{
    if i < 0 || i >= ts.len() {
        Seq::empty()
    } else if is_capture_seg(ts[i]) {
        seq![(i, ts[i].drop_first())] + capture_positions(ts, i + 1)
    } else {
        capture_positions(ts, i + 1)
    }
}

/// One compiled route: a template, classified at server start.
#[derive(Debug, Clone)]
pub enum Route {
    /// No segment of the template captures.
    Static { route: String, method: Method },
    /// At least one segment captures; the positions and names of the
    /// capturing segments are recorded.
    Dynamic { route: String, dynamic_component_positions: Vec<(usize, String)>, method: Method },
}

impl Route {
    /// The template the route was registered under.
    pub open spec fn template(&self) -> Seq<char> {
        match self {
            Route::Static { route, .. } => route@,
            Route::Dynamic { route, .. } => route@,
        }
    }

    /// The method the route answers to.
    pub open spec fn spec_method(&self) -> Method {
        match self {
            Route::Static { method, .. } => *method,
            Route::Dynamic { method, .. } => *method,
        }
    }

    /// A route is compiled as static exactly when nothing captures.
    pub open spec fn well_classified(&self) -> bool {
        match self {
            Route::Static { route, .. } => forall|i: int|
                0 <= i < segments(route@).len() ==> !is_capture_seg(#[trigger] segments(route@)[i]),
            Route::Dynamic { route, dynamic_component_positions, .. } => {
                let cp = capture_positions(segments(route@), 0);
                &&& cp.len() > 0
                &&& dynamic_component_positions@.len() == cp.len()
                &&& forall|i: int|
                    0 <= i < cp.len() ==> (#[trigger] dynamic_component_positions@[i]).0 == cp[i].0
                        && dynamic_component_positions@[i].1@ == cp[i].1
            },
        }
    }
}

/// What resolution decides for a request.
#[derive(Debug)]
pub enum RouteMatch {
    /// The first route whose template accepts the path, together with
    /// its captures; its method equals the request method.
    Found { index: usize, params: HeaderMap },
    /// A route accepts the path, but the first such route answers to a
    /// different method.
    MethodNotAllowed,
    /// No template accepts the path.
    NotFound,
}

/// The position of the first route whose template accepts the path,
/// or `-1`.
pub open spec fn first_template_match(rs: Seq<Route>, path: Seq<char>) -> int
    decreases rs.len(),
{
    if rs.len() == 0 {
        -1
    } else if template_matches(rs[0].template(), path) {
        0
    } else {
        let r = first_template_match(rs.drop_first(), path);
        if r == -1 {
            -1
        } else {
            r + 1
        }
    }
}

/// `first_template_match` returns the first accepting position and
/// `-1` only when no template accepts.
pub proof fn lemma_first_template_match(rs: Seq<Route>, path: Seq<char>)
    ensures
        first_template_match(rs, path) == -1 ==> forall|j: int|
            0 <= j < rs.len() ==> !template_matches((#[trigger] rs[j]).template(), path),
        first_template_match(rs, path) != -1 ==> {
            let f = first_template_match(rs, path);
            &&& 0 <= f < rs.len()
            &&& template_matches(rs[f].template(), path)
            &&& forall|j: int|
                0 <= j < f ==> !template_matches((#[trigger] rs[j]).template(), path)
        },
    decreases rs.len(),
{
    if rs.len() > 0 && !template_matches(rs[0].template(), path) {
        lemma_first_template_match(rs.drop_first(), path);
        assert(forall|j: int| 1 <= j < rs.len() ==> rs.drop_first()[j - 1] == rs[j]);
    }
}

/// Splits a path into its `/`-separated segments.
pub fn split_segments(s: &str) -> (r: Vec<String>)
    ensures
        r@.len() == segments(s@).len(),
        forall|i: int| 0 <= i < r@.len() ==> (#[trigger] r@[i])@ == segments(s@)[i],
    decreases s@.len(),
{
    let n = s.unicode_len();
    let mut segs: Vec<String> = Vec::new();
    let mut start: usize = 0;
    proof {
        assert(s@.skip(0) =~= s@);
    }
    loop
        invariant
            0 <= start <= s@.len(),
            n == s@.len(),
            split_char_seq(s@, '/') == Seq::new(segs@.len(), |i: int| segs@[i]@) + split_char_seq(
                s@.skip(start as int),
                '/',
            ),
        decreases s@.len() - start,
    {
        let ghost rest = s@.skip(start as int);
        let mut i: usize = start;
        let mut found: bool = false;
        while i < n && !found
            invariant
                n == s@.len(),
                start <= i <= n,
                !found ==> forall|j: int| start <= j < i ==> s@[j] != '/',
                found ==> start <= i < n && s@[i as int] == '/' && forall|j: int|
                    start <= j < i ==> s@[j] != '/',
            decreases n - i + (if found {
                0int
            } else {
                1int
            }),
        {
            if s.get_char(i) == '/' {
                found = true;
            } else {
                i = i + 1;
            }
        }
        proof {
            lemma_find_char(rest, '/');
            assert(forall|j: int| 0 <= j < rest.len() ==> rest[j] == s@[start + j]);
        }
        if found {
            proof {
                assert(rest[i - start] == '/');
                assert(forall|j: int| 0 <= j < i - start ==> rest[j] != '/');
                assert(find_char(rest, '/') == i - start);
            }
            let seg = String::from_str(s.substring_char(start, i));
            segs.push(seg);
            proof {
                assert(rest.subrange(0, i - start) =~= s@.subrange(start as int, i as int));
                assert(rest.subrange(i - start + 1, rest.len() as int) =~= s@.skip(i + 1));
                assert(Seq::new(segs@.len(), |k: int| segs@[k]@) =~= Seq::new(
                    segs@.drop_last().len(),
                    |k: int| segs@.drop_last()[k]@,
                ) + seq![s@.subrange(start as int, i as int)]);
                assert(Seq::new(segs@.len(), |k: int| segs@[k]@) + split_char_seq(
                    s@.skip(i + 1),
                    '/',
                ) =~= Seq::new(segs@.drop_last().len(), |k: int| segs@.drop_last()[k]@)
                    + split_char_seq(rest, '/'));
            }
            start = i + 1;
        } else {
            proof {
                assert(forall|j: int| 0 <= j < rest.len() ==> rest[j] != '/');
                assert(find_char(rest, '/') == -1);
            }
            let seg = String::from_str(s.substring_char(start, n));
            segs.push(seg);
            proof {
                assert(rest =~= s@.subrange(start as int, s@.len() as int));
                assert(Seq::new(segs@.len(), |k: int| segs@[k]@) =~= Seq::new(
                    segs@.drop_last().len(),
                    |k: int| segs@.drop_last()[k]@,
                ) + split_char_seq(rest, '/'));
            }
            return segs;
        }
    }
}

/// Compiles each registered `(template, method)` pair into a route:
/// static when no segment captures, dynamic with its capture positions
/// otherwise.  Table order is registration order.
pub fn build_dynamic_routes(handlers: Vec<(String, Method)>) -> (r: Vec<Route>)
    ensures
        r@.len() == handlers@.len(),
        forall|i: int|
            0 <= i < r@.len() ==> (#[trigger] r@[i]).template() == handlers@[i].0@
                && r@[i].spec_method() == handlers@[i].1 && r@[i].well_classified(),
{
    let mut routes: Vec<Route> = Vec::new();
    let n = handlers.len();
    for h in 0..n
        invariant
            n == handlers@.len(),
            routes@.len() == h,
            forall|i: int|
                0 <= i < h ==> (#[trigger] routes@[i]).template() == handlers@[i].0@
                    && routes@[i].spec_method() == handlers@[i].1 && routes@[i].well_classified(),
    {
        let route = handlers[h].0.clone();
        let method = handlers[h].1;
        let segs = split_segments(route.as_str());
        let ghost ts = segments(route@);
        let mut positions: Vec<(usize, String)> = Vec::new();
        let m = segs.len();
        for i in 0..m
            invariant
                m == segs@.len(),
                m == ts.len(),
                forall|k: int| 0 <= k < m ==> (#[trigger] segs@[k])@ == ts[k],
                Seq::new(positions@.len(), |k: int| ((positions@[k].0 as int), positions@[k].1@))
                    + capture_positions(ts, i as int) == capture_positions(ts, 0),
        {
            let ghost before = Seq::new(
                positions@.len(),
                |k: int| ((positions@[k].0 as int), positions@[k].1@),
            );
            let seg = &segs[i];
            let is_cap = seg.as_str().unicode_len() > 0 && seg.as_str().get_char(0) == ':';
            if is_cap {
                let name = String::from_str(
                    seg.as_str().substring_char(1, seg.as_str().unicode_len()),
                );
                proof {
                    assert(name@ =~= ts[i as int].drop_first());
                }
                positions.push((i, name));
                proof {
                    assert(Seq::new(
                        positions@.len(),
                        |k: int| ((positions@[k].0 as int), positions@[k].1@),
                    ) =~= before + seq![(i as int, ts[i as int].drop_first())]);
                    assert(before + seq![(i as int, ts[i as int].drop_first())]
                        + capture_positions(ts, i + 1) =~= before + capture_positions(
                        ts,
                        i as int,
                    ));
                }
            } else {
                proof {
                    assert(!is_capture_seg(ts[i as int]));
                }
            }
        }
        proof {
            assert(capture_positions(ts, m as int) =~= Seq::<(int, Seq<char>)>::empty());
        }
        if positions.len() == 0 {
            proof {
                lemma_no_positions_no_captures(ts, 0);
            }
            routes.push(Route::Static { route, method });
        } else {
            routes.push(Route::Dynamic { route, dynamic_component_positions: positions, method });
        }
    }
    routes
}

/// Where `capture_positions` is empty, no segment captures.
proof fn lemma_no_positions_no_captures(ts: Seq<Seq<char>>, i: int)
    requires
        i >= 0,
        capture_positions(ts, i).len() == 0,
    ensures
        forall|j: int| i <= j < ts.len() ==> !is_capture_seg(#[trigger] ts[j]),
    decreases ts.len() - i,
{
    if 0 <= i < ts.len() {
        if is_capture_seg(ts[i]) {
            assert(capture_positions(ts, i).len() >= 1);
            assert(false);
        } else {
            lemma_no_positions_no_captures(ts, i + 1);
        }
    }
}

/// Finds the first route whose template accepts the request path, and
/// its captures.
pub fn match_route(routes: &Vec<Route>, request: &HttpRequest) -> (r: Option<(usize, HeaderMap)>)
    ensures
        r is Some <==> first_template_match(routes@, request.route@) != -1,
        r matches Some(m) ==> m.0 == first_template_match(routes@, request.route@)
            && m.1.pairs() == captures_of(routes@[m.0 as int].template(), request.route@),
{
    proof {
        lemma_first_template_match(routes@, request.route@);
    }
    let path_segs = split_segments(request.route.as_str());
    let ghost ps = segments(request.route@);
    let n = routes.len();
    for idx in 0..n
        invariant
            n == routes@.len(),
            ps == segments(request.route@),
            path_segs@.len() == ps.len(),
            forall|k: int| 0 <= k < ps.len() ==> (#[trigger] path_segs@[k])@ == ps[k],
            forall|j: int|
                0 <= j < idx ==> !template_matches((#[trigger] routes@[j]).template(),
                request.route@),
            first_template_match(routes@, request.route@) == -1 || first_template_match(
                routes@,
                request.route@,
            ) >= idx,
    {
        proof {
            lemma_first_template_match(routes@, request.route@);
        }
        let template = match &routes[idx] {
            Route::Static { route, .. } => route,
            Route::Dynamic { route, .. } => route,
        };
        let tsegs = split_segments(template.as_str());
        let ghost ts = segments(routes@[idx as int].template());
        let mut params = HeaderMap::empty();
        let mut ok = true;
        let m = tsegs.len();
        if m == path_segs.len() {
            for i in 0..m
                invariant
                    m == ts.len(),
                    m == ps.len(),
                    m == tsegs@.len(),
                    m == path_segs@.len(),
                    forall|k: int| 0 <= k < m ==> (#[trigger] tsegs@[k])@ == ts[k],
                    forall|k: int| 0 <= k < m ==> (#[trigger] path_segs@[k])@ == ps[k],
                    ok ==> forall|k: int| 0 <= k < i ==> seg_matches(ts[k], ps[k]),
                    !ok ==> exists|k: int| 0 <= k < m && !seg_matches(ts[k], ps[k]),
                    ok ==> captures_of(
                        routes@[idx as int].template(),
                        request.route@,
                    ) == captures_from(params.pairs(), ts, ps, i as int),
            {
                let tseg = &tsegs[i];
                let tlen = tseg.as_str().unicode_len();
                if tlen > 0 && tseg.as_str().get_char(0) == ':' {
                    if ok {
                        let name = String::from_str(tseg.as_str().substring_char(1, tlen));
                        proof {
                            assert(name@ =~= ts[i as int].drop_first());
                        }
                        params.insert(name.as_str(), path_segs[i].clone());
                    }
                } else {
                    if !str_eq(tseg.as_str(), path_segs[i].as_str()) {
                        ok = false;
                        proof {
                            assert(!seg_matches(ts[i as int], ps[i as int]));
                        }
                    }
                }
            }
            if ok {
                proof {
                    assert(template_matches(routes@[idx as int].template(), request.route@));
                    assert(first_template_match(routes@, request.route@) == idx);
                    assert(captures_from(params.pairs(), ts, ps, m as int) == params.pairs());
                }
                return Some((idx, params));
            }
            proof {
                assert(!template_matches(routes@[idx as int].template(), request.route@));
            }
        } else {
            proof {
                assert(!template_matches(routes@[idx as int].template(), request.route@));
            }
        }
    }
    proof {
        lemma_first_template_match(routes@, request.route@);
    }
    None
}

/// Resolves a request against the table: the first path match wins;
/// its method must then agree, else the request is method-not-allowed;
/// no path match at all is not-found.
pub fn router(routes: &Vec<Route>, current_request: &HttpRequest) -> (r: RouteMatch)
    ensures
        ({
            let f = first_template_match(routes@, current_request.route@);
            match r {
                RouteMatch::Found { index, params } => f == index && routes@[f].spec_method()
                    == current_request.method && params.pairs() == captures_of(
                    routes@[f].template(),
                    current_request.route@,
                ),
                RouteMatch::MethodNotAllowed => f != -1 && routes@[f].spec_method()
                    != current_request.method,
                RouteMatch::NotFound => f == -1,
            }
        }),
{
    proof {
        lemma_first_template_match(routes@, current_request.route@);
    }
    match match_route(routes, current_request) {
        Some((index, params)) => {
            let method = match &routes[index] {
                Route::Static { method, .. } => *method,
                Route::Dynamic { method, .. } => *method,
            };
            if method == current_request.method {
                RouteMatch::Found { index, params }
            } else {
                RouteMatch::MethodNotAllowed
            }
        },
        None => RouteMatch::NotFound,
    }
}

} // verus!
