//! The pattern-matching router. A pattern is split into segments on `/`
//! after trimming outer slashes; a segment wrapped in angle brackets is a
//! placeholder binding one path segment; every other segment must match
//! literally. Routes are tried in registration order and the first full
//! match wins.
use vstd::prelude::*;
use crate::chars::upper_seq;
use crate::table::{StrMap, Table};
use crate::text::{split_on, split_str, str_eq, to_upper_string, trim_char, trimmed, views_of};

verus! {

/// The segments of a path or pattern: outer slashes trimmed, then split
/// on `/`, empty segments kept.
pub open spec fn segments_of(s: Seq<char>) -> Seq<Seq<char>> {
    split_on(trimmed(s, '/'), '/')
}

pub open spec fn is_placeholder(seg: Seq<char>) -> bool {
    seg.len() > 0 && seg.first() == '<' && seg.last() == '>'
}

pub open spec fn placeholder_name(seg: Seq<char>) -> Seq<char> {
    seg.subrange(1, seg.len() - 1)
}

pub open spec fn seg_matches(pat: Seq<char>, val: Seq<char>) -> bool {
    is_placeholder(pat) || pat == val
}

pub open spec fn segs_match(pat: Seq<Seq<char>>, path: Seq<Seq<char>>) -> bool {
    pat.len() == path.len() && forall|i: int| 0 <= i < pat.len()
        ==> seg_matches(pat[i], path[i])
}

/// Whether `pattern` accepts `path`: equal segment counts, placeholders
/// free, literals exact.
pub open spec fn route_matches(pattern: Seq<char>, path: Seq<char>) -> bool {
    segs_match(segments_of(pattern), segments_of(path))
}

/// The value the parameter `name` ends up bound to: the value of the last
/// placeholder segment carrying that name, as repeated map insertion gives.
pub open spec fn bound_value(pat: Seq<Seq<char>>, path: Seq<Seq<char>>, name: Seq<char>)
    -> Option<Seq<char>>
    decreases pat.len(),
{
    if pat.len() == 0 || path.len() == 0 {
        None
    } else if is_placeholder(pat.last()) && placeholder_name(pat.last()) == name {
        Some(path.last())
    } else {
        bound_value(pat.drop_last(), path.drop_last(), name)
    }
}

pub open spec fn has_placeholder(pat: Seq<Seq<char>>) -> bool {
    exists|i: int| 0 <= i < pat.len() && is_placeholder(pat[i])
}

/// The parameter table a successful match produces.
pub open spec fn params_ok(pat: Seq<Seq<char>>, path: Seq<Seq<char>>, params: StrMap) -> bool {
    &&& params.wf()
    &&& forall|name: Seq<char>| #[trigger] params.spec_lookup(name)
        == bound_value(pat, path, name)
    &&& !has_placeholder(pat) ==> params.pairs().len() == 0
}

/// Splits a request path or route pattern into its segments.
pub fn path_segments(s: &str) -> (segs: Vec<String>)
    ensures
        views_of(segs@) == segments_of(s@),
        segs@.len() >= 1,
{
    let t = trim_char(s, '/');
    split_str(t.as_str(), '/')
}

/// Matches one pattern against one path, binding placeholder parameters.
pub fn match_route(pattern: &str, path: &str) -> (r: Option<StrMap>)
    ensures
        match r {
            Some(params) => route_matches(pattern@, path@)
                && params_ok(segments_of(pattern@), segments_of(path@), params),
            None => !route_matches(pattern@, path@),
        },
{
    let pat_parts = path_segments(pattern);
    let path_parts = path_segments(path);
    let ghost pat_segs = segments_of(pattern@);
    let ghost path_segs = segments_of(path@);
    let n = pat_parts.len();
    if n != path_parts.len() {
        return None;
    }
    let mut params: StrMap = Table::new();
    let mut i: usize = 0;
    proof {
        assert(pat_segs.take(0) =~= Seq::<Seq<char>>::empty());
        assert(path_segs.take(0) =~= Seq::<Seq<char>>::empty());
    }
    while i < n
        invariant
            0 <= i <= n,
            n == pat_parts@.len() == path_parts@.len(),
            views_of(pat_parts@) == pat_segs,
            views_of(path_parts@) == path_segs,
            pat_segs == segments_of(pattern@),
            path_segs == segments_of(path@),
            n == pat_segs.len() == path_segs.len(),
            forall|j: int| 0 <= j < i ==> seg_matches(pat_segs[j], path_segs[j]),
            params.wf(),
            forall|name: Seq<char>| #[trigger] params.spec_lookup(name)
                == bound_value(pat_segs.take(i as int), path_segs.take(i as int), name),
            (forall|j: int| 0 <= j < i ==> !is_placeholder(pat_segs[j]))
                ==> params.pairs().len() == 0,
        decreases n - i,
    {
        proof {
            assert(pat_segs.take(i + 1).drop_last() =~= pat_segs.take(i as int));
            assert(path_segs.take(i + 1).drop_last() =~= path_segs.take(i as int));
            assert(pat_segs.take(i + 1).last() == pat_segs[i as int]);
            assert(path_segs.take(i + 1).last() == path_segs[i as int]);
        }
        let pat_seg: &String = &pat_parts[i];
        let val_seg: &String = &path_parts[i];
        let m = pat_seg.as_str().unicode_len();
        assert(pat_seg@ == pat_segs[i as int]);
        assert(val_seg@ == path_segs[i as int]);
        if m > 0 && pat_seg.as_str().get_char(0) == '<'
            && pat_seg.as_str().get_char(m - 1) == '>' {
            assert(is_placeholder(pat_segs[i as int]));
            let name = pat_seg.as_str().substring_char(1, m - 1);
            params.insert(String::from_str(name), val_seg.clone());
            proof {
                assert(name@ == placeholder_name(pat_segs[i as int]));
                assert(forall|nm: Seq<char>| #[trigger] params.spec_lookup(nm)
                    == bound_value(pat_segs.take(i + 1), path_segs.take(i + 1), nm));
            }
        } else {
            assert(!is_placeholder(pat_segs[i as int]));
            if !str_eq(pat_seg.as_str(), val_seg.as_str()) {
                proof {
                    assert(!seg_matches(segments_of(pattern@)[i as int],
                        segments_of(path@)[i as int]));
                    assert(!route_matches(pattern@, path@));
                }
                return None;
            }
        }
        i += 1;
    }
    proof {
        assert(pat_segs.take(n as int) =~= pat_segs);
        assert(path_segs.take(n as int) =~= path_segs);
    }
    Some(params)
}

/// One registered route: an upper-cased method, a pattern and the handler
/// capability the application supplied.
pub struct Route<H> {
    pub method: String,
    pub pattern: String,
    pub handler: H,
}

/// Routes in registration order.
pub struct Router<H> {
    pub routes: Vec<Route<H>>,
}

/// Whether the route at `i` accepts the (not yet upper-cased) method and
/// the path.
pub open spec fn matches_at<H>(routes: Seq<Route<H>>, i: int, method: Seq<char>,
    path: Seq<char>) -> bool {
    routes[i].method@ == upper_seq(method) && route_matches(routes[i].pattern@, path)
}

/// Index of the first route accepting the request, if any: registration
/// order is the precedence order.
pub open spec fn first_match<H>(routes: Seq<Route<H>>, method: Seq<char>, path: Seq<char>)
    -> Option<int>
    decreases routes.len(),
{
    if routes.len() == 0 {
        None
    } else if matches_at(routes, 0, method, path) {
        Some(0)
    } else {
        match first_match(routes.drop_first(), method, path) {
            None => None,
            Some(i) => Some(i + 1),
        }
    }
}

pub proof fn lemma_first_match_at<H>(routes: Seq<Route<H>>, method: Seq<char>,
    path: Seq<char>, i: int)
    requires
        0 <= i < routes.len(),
        matches_at(routes, i, method, path),
        forall|j: int| 0 <= j < i ==> !matches_at(routes, j, method, path),
    ensures
        first_match(routes, method, path) == Some(i),
    decreases i,
{
    if i > 0 {
        let d = routes.drop_first();
        assert(d[i - 1] == routes[i]);
        assert(matches_at(d, i - 1, method, path));
        assert forall|j: int| 0 <= j < i - 1 implies !matches_at(d, j, method, path) by {
            assert(d[j] == routes[j + 1]);
            assert(!matches_at(routes, j + 1, method, path));
        }
        lemma_first_match_at(d, method, path, i - 1);
    }
}

pub proof fn lemma_first_match_none<H>(routes: Seq<Route<H>>, method: Seq<char>,
    path: Seq<char>)
    requires
        forall|j: int| 0 <= j < routes.len() ==> !matches_at(routes, j, method, path),
    ensures
        first_match(routes, method, path) is None,
    decreases routes.len(),
{
    if routes.len() > 0 {
        let d = routes.drop_first();
        assert forall|j: int| 0 <= j < d.len() implies !matches_at(d, j, method, path) by {
            assert(d[j] == routes[j + 1]);
            assert(!matches_at(routes, j + 1, method, path));
        }
        lemma_first_match_none(d, method, path);
    }
}

/// Registration-order precedence: when two registered routes both accept a
/// path, resolution never goes past the earlier one.
pub proof fn lemma_registration_order<H>(routes: Seq<Route<H>>, method: Seq<char>,
    path: Seq<char>, i: int, j: int)
    requires
        0 <= i < j < routes.len(),
        matches_at(routes, i, method, path),
        matches_at(routes, j, method, path),
    ensures
        first_match(routes, method, path) is Some,
        0 <= first_match(routes, method, path).unwrap() <= i < j,
        matches_at(routes, first_match(routes, method, path).unwrap(), method, path),
    decreases i,
{
    if matches_at(routes, 0, method, path) {
    } else {
        let d = routes.drop_first();
        assert(d[i - 1] == routes[i] && d[j - 1] == routes[j]);
        lemma_registration_order(d, method, path, i - 1, j - 1);
        let k = first_match(d, method, path).unwrap();
        assert(d[k] == routes[k + 1]);
    }
}

/// A pattern with a different segment count never matches: `/a/<b>`
/// accepts neither `/a` nor `/a/b/c`.
pub proof fn lemma_segment_count_mismatch(pattern: Seq<char>, path: Seq<char>)
    requires
        segments_of(pattern).len() != segments_of(path).len(),
    ensures
        !route_matches(pattern, path),
{
}

/// A pattern without placeholders matches itself, binding nothing: the
/// round trip of registering a literal pattern and resolving that very
/// path.
pub proof fn lemma_literal_self_match(pattern: Seq<char>)
    requires
        !has_placeholder(segments_of(pattern)),
    ensures
        route_matches(pattern, pattern),
        forall|name: Seq<char>| bound_value(segments_of(pattern), segments_of(pattern),
            name) is None,
{
    let segs = segments_of(pattern);
    assert forall|name: Seq<char>| bound_value(segs, segs, name) is None by {
        lemma_bound_value_no_placeholder(segs, segs, name);
    }
}

proof fn lemma_bound_value_no_placeholder(pat: Seq<Seq<char>>, path: Seq<Seq<char>>,
    name: Seq<char>)
    requires
        !has_placeholder(pat),
    ensures
        bound_value(pat, path, name) is None,
    decreases pat.len(),
{
    if pat.len() > 0 && path.len() > 0 {
        assert(!is_placeholder(pat.last()));
        assert(!has_placeholder(pat.drop_last())) by {
            assert(forall|i: int| 0 <= i < pat.len() - 1
                ==> pat.drop_last()[i] == pat[i]);
        }
        lemma_bound_value_no_placeholder(pat.drop_last(), path.drop_last(), name);
    }
}

/// The round trip of registration and resolution: a literal pattern just
/// registered, with no earlier route accepting the request, resolves to
/// the new route, and a literal pattern binds no parameters.
pub proof fn lemma_register_then_resolve<H>(routes: Seq<Route<H>>, route: Route<H>,
    method: Seq<char>, pattern: Seq<char>)
    requires
        route.method@ == upper_seq(method),
        route.pattern@ == pattern,
        !has_placeholder(segments_of(pattern)),
        forall|j: int| 0 <= j < routes.len() ==> !matches_at(routes, j, method, pattern),
    ensures
        first_match(routes.push(route), method, pattern) == Some(routes.len() as int),
        forall|name: Seq<char>| bound_value(segments_of(pattern), segments_of(pattern),
            name) is None,
{
    lemma_literal_self_match(pattern);
    let all = routes.push(route);
    let n = routes.len() as int;
    assert(all[n] == route);
    assert(matches_at(all, n, method, pattern));
    assert forall|j: int| 0 <= j < n implies !matches_at(all, j, method, pattern) by {
        assert(all[j] == routes[j]);
        assert(!matches_at(routes, j, method, pattern));
    }
    lemma_first_match_at(all, method, pattern, n);
}

impl<H> Router<H> {
    pub fn new() -> (r: Self)
        ensures
            r.routes@.len() == 0,
    {
        Router { routes: Vec::new() }
    }

    /// Appends a route; the method is stored upper-cased.
    pub fn add_route(&mut self, method: &str, path: &str, handler: H)
        ensures
            final(self).routes@.len() == old(self).routes@.len() + 1,
            final(self).routes@.last().method@ == upper_seq(method@),
            final(self).routes@.last().pattern@ == path@,
            final(self).routes@.last().handler == handler,
            forall|i: int| 0 <= i < old(self).routes@.len()
                ==> final(self).routes@[i] == old(self).routes@[i],
    {
        self.routes.push(Route {
            method: to_upper_string(method),
            pattern: String::from_str(path),
            handler,
        });
    }

    /// Resolves a request to the first matching route, in registration
    /// order, handing back its handler and the bound parameters.
    pub fn find(&self, method: &str, path: &str) -> (r: Option<(&H, StrMap)>)
        ensures
            match r {
                Some((h, params)) => {
                    let fm = first_match(self.routes@, method@, path@);
                    &&& fm is Some
                    &&& h == &self.routes@[fm.unwrap()].handler
                    &&& params_ok(segments_of(self.routes@[fm.unwrap()].pattern@),
                        segments_of(path@), params)
                },
                None => first_match(self.routes@, method@, path@) is None,
            },
    {
        let upper = to_upper_string(method);
        let n = self.routes.len();
        let mut i: usize = 0;
        while i < n
            invariant
                0 <= i <= n,
                n == self.routes@.len(),
                upper@ == upper_seq(method@),
                forall|j: int| 0 <= j < i ==> !matches_at(self.routes@, j, method@, path@),
            decreases n - i,
        {
            let route = &self.routes[i];
            if str_eq(route.method.as_str(), upper.as_str()) {
                if let Some(params) = match_route(route.pattern.as_str(), path) {
                    proof {
                        lemma_first_match_at(self.routes@, method@, path@, i as int);
                    }
                    return Some((&route.handler, params));
                }
            }
            i += 1;
        }
        proof {
            lemma_first_match_none(self.routes@, method@, path@);
        }
        None
    }
}

} // verus!
