//! The request model and the parser that builds it from the received
//! header text and body bytes: request line into method and target, the
//! target into path and query pairs (first occurrence of a key wins),
//! header lines into a lower-cased-name table (last occurrence wins), and
//! URL-encoded bodies into form data.
use vstd::prelude::*;
use crate::chars::lower_seq;
use crate::numfmt::{all_digits, dec_value, parse_u64};
use crate::table::{StrMap, Table};
use crate::text::{split_on, split_once_at, split_once_str, split_str, to_lower_string,
    trim_ws_str, trimmed_ws, views_of};

verus! {

/// The largest header block accepted before `HeaderTooLarge`.
pub const MAX_HEADER_BYTES: usize = 8192;

/// Why a byte stream failed to become a request.
#[derive(Clone, Copy, Debug, PartialEq, Eq, Structural)]
pub enum HttpError {
    MalformedRequest,
    HeaderTooLarge,
    BodyTooLarge,
}

impl HttpError {
    /// The response status the failure synthesizes.
    pub fn code(&self) -> (r: u16)
        ensures
            r == match *self {
                HttpError::MalformedRequest => 400u16,
                HttpError::HeaderTooLarge => 431u16,
                HttpError::BodyTooLarge => 413u16,
            },
    {
        match *self {
            HttpError::MalformedRequest => 400,
            HttpError::HeaderTooLarge => 431,
            HttpError::BodyTooLarge => 413,
        }
    }
}

/// A line with its trailing carriage return removed.
pub open spec fn strip_cr(s: Seq<char>) -> Seq<char> {
    if s.len() > 0 && s.last() == '\r' {
        s.drop_last()
    } else {
        s
    }
}

/// The lines of the header text: split on line feeds, carriage returns
/// stripped.
pub open spec fn lines_of(head: Seq<char>) -> Seq<Seq<char>> {
    split_on(head, '\n').map_values(|l: Seq<char>| strip_cr(l))
}

/// The non-empty parts, in order: whitespace-separated tokens.
pub open spec fn nonempty_of(parts: Seq<Seq<char>>) -> Seq<Seq<char>>
    decreases parts.len(),
{
    if parts.len() == 0 {
        Seq::<Seq<char>>::empty()
    } else if parts.first().len() > 0 {
        seq![parts.first()] + nonempty_of(parts.drop_first())
    } else {
        nonempty_of(parts.drop_first())
    }
}

/// The space-separated tokens of a request line.
pub open spec fn tokens_of(line: Seq<char>) -> Seq<Seq<char>> {
    nonempty_of(split_on(line, ' '))
}

/// The lines before the first empty one: the header block.
pub open spec fn until_empty(ls: Seq<Seq<char>>) -> Seq<Seq<char>>
    decreases ls.len(),
{
    if ls.len() == 0 {
        Seq::<Seq<char>>::empty()
    } else if ls.first().len() == 0 {
        Seq::<Seq<char>>::empty()
    } else {
        seq![ls.first()] + until_empty(ls.drop_first())
    }
}

proof fn lemma_until_empty(ls: Seq<Seq<char>>, m: int)
    requires
        0 <= m <= ls.len(),
        forall|j: int| 0 <= j < m ==> ls[j].len() > 0,
        m == ls.len() || ls[m].len() == 0,
    ensures
        until_empty(ls) =~~= ls.take(m),
    decreases m,
{
    if m == 0 {
        if ls.len() > 0 {
            assert(ls.take(0) =~= Seq::<Seq<char>>::empty());
        }
    } else {
        let d = ls.drop_first();
        lemma_until_empty(d, m - 1);
        assert(d.take(m - 1) =~= ls.take(m).drop_first());
        assert(seq![ls.first()] + ls.take(m).drop_first() =~= ls.take(m));
    }
}

/// The value of query key `k`: pairs split on `&`, each on its first `=`,
/// a pair without `=` dropped, the first occurrence winning.
pub open spec fn query_value(parts: Seq<Seq<char>>, k: Seq<char>) -> Option<Seq<char>>
    decreases parts.len(),
{
    if parts.len() == 0 {
        None
    } else {
        match split_once_at(parts.first(), '=') {
            Some(kv) => if kv.0 == k {
                Some(kv.1)
            } else {
                query_value(parts.drop_first(), k)
            },
            None => query_value(parts.drop_first(), k),
        }
    }
}

/// The value of header `k` (already lower-cased): each line split on its
/// first `:`, name trimmed and lower-cased, value trimmed, the last
/// occurrence winning.
pub open spec fn header_value(hl: Seq<Seq<char>>, k: Seq<char>) -> Option<Seq<char>>
    decreases hl.len(),
{
    if hl.len() == 0 {
        None
    } else {
        match split_once_at(hl.last(), ':') {
            Some(kv) => if lower_seq(trimmed_ws(kv.0)) == k {
                Some(trimmed_ws(kv.1))
            } else {
                header_value(hl.drop_last(), k)
            },
            None => header_value(hl.drop_last(), k),
        }
    }
}

/// The value of form key `k`: pairs split on `&`, each on its first `=`,
/// a pair without `=` dropped, the last occurrence winning.
pub open spec fn form_value(parts: Seq<Seq<char>>, k: Seq<char>) -> Option<Seq<char>>
    decreases parts.len(),
{
    if parts.len() == 0 {
        None
    } else {
        match split_once_at(parts.last(), '=') {
            Some(kv) => if kv.0 == k {
                Some(kv.1)
            } else {
                form_value(parts.drop_last(), k)
            },
            None => form_value(parts.drop_last(), k),
        }
    }
}

/// What `String::from_utf8_lossy` decodes the bytes to.
pub uninterp spec fn lossy_decode(bytes: Seq<u8>) -> Seq<char>;

/// Relies on `String::from_utf8_lossy`: the decoding depends on the bytes
/// alone, and bytes that are valid UTF-8 decode exactly; in particular
/// ASCII bytes decode to their own characters.
#[verifier::external_body]
fn utf8_lossy(data: &[u8]) -> (r: String)
    ensures
        r@ == lossy_decode(data@),
        (forall|i: int| 0 <= i < data@.len() ==> data@[i] < 128)
            ==> r@ == data@.map_values(|b: u8| b as char),
{
    String::from_utf8_lossy(data).into_owned()
}

/// Parses URL-encoded data into a table; the last occurrence of a key
/// wins, as repeated map insertion gives.
pub fn parse_urlencoded(data: &[u8]) -> (r: StrMap)
    ensures
        r.wf(),
        forall|k: Seq<char>| #[trigger] r.spec_lookup(k)
            == form_value(split_on(lossy_decode(data@), '&'), k),
{
    let s = utf8_lossy(data);
    let parts = split_str(s.as_str(), '&');
    let ghost all = split_on(lossy_decode(data@), '&');
    let n = parts.len();
    let mut out: StrMap = Table::new();
    let mut i: usize = 0;
    proof {
        assert(all.take(0) =~= Seq::<Seq<char>>::empty());
    }
    while i < n
        invariant
            0 <= i <= n,
            n == parts@.len(),
            views_of(parts@) == all,
            out.wf(),
            forall|k: Seq<char>| #[trigger] out.spec_lookup(k)
                == form_value(all.take(i as int), k),
        decreases n - i,
    {
        proof {
            assert(all.take(i + 1).drop_last() =~= all.take(i as int));
            assert(all.take(i + 1).last() == all[i as int]);
            assert(parts@[i as int]@ == all[i as int]);
        }
        match split_once_str(parts[i].as_str(), '=') {
            Some((k, v)) => {
                out.insert(k, v);
            },
            None => {},
        }
        i += 1;
    }
    proof {
        assert(all.take(n as int) =~= all);
    }
    out
}

/// Parses a query string into a table; the first occurrence of a key wins.
pub fn parse_query(qs: &str) -> (r: StrMap)
    ensures
        r.wf(),
        forall|k: Seq<char>| #[trigger] r.spec_lookup(k)
            == query_value(split_on(qs@, '&'), k),
{
    let parts = split_str(qs, '&');
    let ghost all = split_on(qs@, '&');
    let n = parts.len();
    let mut out: StrMap = Table::new();
    let mut i: usize = 0;
    proof {
        assert(all.skip(0) =~= all);
    }
    while i < n
        invariant
            0 <= i <= n,
            n == parts@.len(),
            views_of(parts@) == all,
            out.wf(),
            forall|k: Seq<char>| #[trigger] query_value(all, k) == match out.spec_lookup(k) {
                Some(v) => Some(v),
                None => query_value(all.skip(i as int), k),
            },
        decreases n - i,
    {
        proof {
            assert(all.skip(i as int).first() == all[i as int]);
            assert(all.skip(i as int).drop_first() =~= all.skip(i + 1));
            assert(parts@[i as int]@ == all[i as int]);
        }
        let ghost before = out;
        match split_once_str(parts[i].as_str(), '=') {
            Some((k, v)) => {
                let ghost kv = (k@, v@);
                out.insert_if_absent(k, v);
                proof {
                    assert forall|k2: Seq<char>| #[trigger] query_value(all, k2)
                        == match out.spec_lookup(k2) {
                            Some(v2) => Some(v2),
                            None => query_value(all.skip(i + 1), k2),
                        } by {
                        if k2 == kv.0 {
                            if before.contains_key(k2) {
                            } else {
                                assert(query_value(all.skip(i as int), k2) == Some(kv.1));
                            }
                        } else {
                            assert(query_value(all.skip(i as int), k2)
                                == query_value(all.skip(i + 1), k2));
                        }
                    }
                }
            },
            None => {},
        }
        i += 1;
    }
    proof {
        assert(all.skip(n as int) =~= Seq::<Seq<char>>::empty());
    }
    out
}

/// One parsed request. Everything a handler reads is already structured;
/// `raw` keeps the received header text for diagnostics.
pub struct Request {
    pub method: String,
    pub path: String,
    pub raw: String,
    pub headers: StrMap,
    pub query: StrMap,
    pub body: Vec<u8>,
}

impl Request {
    pub open spec fn wf(&self) -> bool {
        &&& self.headers.wf()
        &&& self.query.wf()
    }

    /// A header by case-insensitive name: names are stored lower-cased.
    pub fn header(&self, key: &str) -> (r: Option<&String>)
        ensures
            match r {
                Some(v) => self.headers.spec_lookup(lower_seq(key@)) == Some(v@),
                None => self.headers.spec_lookup(lower_seq(key@)) is None,
            },
    {
        let lk = to_lower_string(key);
        self.headers.get(lk.as_str())
    }

    /// A query parameter by name.
    pub fn param(&self, key: &str) -> (r: Option<&String>)
        ensures
            match r {
                Some(v) => self.query.spec_lookup(key@) == Some(v@),
                None => self.query.spec_lookup(key@) is None,
            },
    {
        self.query.get(key)
    }

    /// The query parameters, as an owned table.
    pub fn query_params(&self) -> (r: StrMap)
        ensures
            r.pairs() == self.query.pairs(),
    {
        self.query.duplicate()
    }

    /// The body parsed as URL-encoded form data.
    pub fn form_data(&self) -> (r: StrMap)
        ensures
            r.wf(),
            forall|k: Seq<char>| #[trigger] r.spec_lookup(k)
                == form_value(split_on(lossy_decode(self.body@), '&'), k),
    {
        parse_urlencoded(self.body.as_slice())
    }
}

/// The request line: the first received line.
pub open spec fn spec_request_line(head: Seq<char>) -> Seq<char> {
    lines_of(head).first()
}

/// The request method: the first token of the request line.
pub open spec fn spec_method(head: Seq<char>) -> Seq<char> {
    tokens_of(spec_request_line(head))[0]
}

/// The request target: the second token of the request line.
pub open spec fn spec_target(head: Seq<char>) -> Seq<char> {
    tokens_of(spec_request_line(head))[1]
}

/// The path: the target up to the first `?`, or all of it.
pub open spec fn spec_path(head: Seq<char>) -> Seq<char> {
    match split_once_at(spec_target(head), '?') {
        None => spec_target(head),
        Some(pq) => pq.0,
    }
}

/// The query string after the first `?` of the target, if any.
pub open spec fn spec_query_string(head: Seq<char>) -> Option<Seq<char>> {
    match split_once_at(spec_target(head), '?') {
        None => None,
        Some(pq) => Some(pq.1),
    }
}

/// What the query table of a parse must say for key `k`.
pub open spec fn spec_query_lookup(head: Seq<char>, k: Seq<char>) -> Option<Seq<char>> {
    match spec_query_string(head) {
        None => None,
        Some(qs) => query_value(split_on(qs, '&'), k),
    }
}

/// What the header table of a parse must say for key `k`.
pub open spec fn spec_header_lookup(head: Seq<char>, k: Seq<char>) -> Option<Seq<char>> {
    header_value(until_empty(lines_of(head).skip(1)), k)
}

/// The received lines, carriage returns stripped.
fn head_lines(head: &str) -> (lines: Vec<String>)
    ensures
        views_of(lines@) == lines_of(head@),
        lines@.len() >= 1,
{
    let raw = split_str(head, '\n');
    let n = raw.len();
    let mut lines: Vec<String> = Vec::new();
    let mut i: usize = 0;
    while i < n
        invariant
            0 <= i <= n,
            n == raw@.len(),
            views_of(raw@) == split_on(head@, '\n'),
            lines@.len() == i,
            forall|j: int| 0 <= j < i ==> lines@[j]@ == strip_cr(split_on(head@, '\n')[j]),
        decreases n - i,
    {
        let line = &raw[i];
        let m = line.as_str().unicode_len();
        assert(line@ == split_on(head@, '\n')[i as int]);
        if m > 0 && line.as_str().get_char(m - 1) == '\r' {
            let stripped = String::from_str(line.as_str().substring_char(0, m - 1));
            proof {
                assert(stripped@ =~= strip_cr(line@));
            }
            lines.push(stripped);
        } else {
            lines.push(line.clone());
        }
        i += 1;
    }
    proof {
        assert(views_of(lines@) =~= lines_of(head@));
    }
    lines
}

/// The whitespace-separated tokens of a line.
fn line_tokens(line: &str) -> (toks: Vec<String>)
    ensures
        views_of(toks@) == tokens_of(line@),
{
    let parts = split_str(line, ' ');
    let ghost all = split_on(line@, ' ');
    let n = parts.len();
    let mut toks: Vec<String> = Vec::new();
    let mut i: usize = 0;
    proof {
        assert(all.skip(0) =~= all);
        assert(views_of(toks@).add(nonempty_of(all)) =~= nonempty_of(all));
    }
    while i < n
        invariant
            0 <= i <= n,
            n == parts@.len(),
            views_of(parts@) == all,
            nonempty_of(all) =~~= views_of(toks@).add(nonempty_of(all.skip(i as int))),
        decreases n - i,
    {
        proof {
            assert(all.skip(i as int).first() == all[i as int]);
            assert(all.skip(i as int).drop_first() =~= all.skip(i + 1));
            assert(parts@[i as int]@ == all[i as int]);
        }
        let ghost before = toks@;
        let part = &parts[i];
        if part.as_str().unicode_len() > 0 {
            toks.push(part.clone());
            proof {
                assert(views_of(toks@) =~= views_of(before).push(all[i as int]));
                assert(seq![all[i as int]].add(nonempty_of(all.skip(i + 1)))
                    =~= nonempty_of(all.skip(i as int)));
            }
        }
        i += 1;
    }
    proof {
        assert(all.skip(n as int) =~= Seq::<Seq<char>>::empty());
        assert(views_of(toks@).add(Seq::<Seq<char>>::empty()) =~= views_of(toks@));
    }
    toks
}

/// Parses the received header text and the body bytes into a request.
/// The request line must hold at least a method and a target; anything
/// shorter is malformed.
pub fn parse_http_request(head: &str, body: Vec<u8>) -> (r: Result<Request, HttpError>)
    ensures
        match r {
            Ok(req) => {
                &&& tokens_of(spec_request_line(head@)).len() >= 2
                &&& req.wf()
                &&& req.method@ == tokens_of(spec_request_line(head@))[0]
                &&& req.path@ == spec_path(head@)
                &&& req.raw@ == head@
                &&& req.body@ == body@
                &&& forall|k: Seq<char>| #[trigger] req.query.spec_lookup(k)
                    == spec_query_lookup(head@, k)
                &&& forall|k: Seq<char>| #[trigger] req.headers.spec_lookup(k)
                    == spec_header_lookup(head@, k)
            },
            Err(e) => {
                &&& e == HttpError::MalformedRequest
                &&& tokens_of(spec_request_line(head@)).len() < 2
            },
        },
{
    let lines = head_lines(head);
    let ghost lv = lines_of(head@);
    assert(lines@[0]@ == spec_request_line(head@));
    let toks = line_tokens(lines[0].as_str());
    if toks.len() < 2 {
        return Err(HttpError::MalformedRequest);
    }
    assert(toks@[0]@ == tokens_of(spec_request_line(head@))[0]);
    assert(toks@[1]@ == spec_target(head@));
    let method = toks[0].clone();
    let target = toks[1].clone();

    let (path, query) = match split_once_str(target.as_str(), '?') {
        Some((p, q)) => {
            let qt = parse_query(q.as_str());
            (p, qt)
        },
        None => {
            let empty: StrMap = Table::new();
            proof {
                assert forall|k: Seq<char>| #[trigger] empty.spec_lookup(k) is None by {
                    crate::table::lemma_lookup_none(empty.pairs(), k);
                }
            }
            (target, empty)
        },
    };

    let ghost hl = until_empty(lv.skip(1));
    let mut headers: StrMap = Table::new();
    let n = lines.len();
    let mut i: usize = 1;
    proof {
        assert(lv.skip(1).take(0) =~= Seq::<Seq<char>>::empty());
        assert forall|k: Seq<char>| #[trigger] headers.spec_lookup(k) is None by {
            crate::table::lemma_lookup_none(headers.pairs(), k);
        }
    }
    while i < n && lines[i].as_str().unicode_len() > 0
        invariant
            1 <= i <= n,
            n == lines@.len(),
            views_of(lines@) == lv,
            lv == lines_of(head@),
            forall|j: int| 1 <= j < i ==> lv[j].len() > 0,
            headers.wf(),
            forall|k: Seq<char>| #[trigger] headers.spec_lookup(k)
                == header_value(lv.skip(1).take(i - 1), k),
        decreases n - i,
    {
        let line = &lines[i];
        assert(line@ == lv[i as int]);
        assert(lv.skip(1)[i - 1] == lv[i as int]);
        proof {
            assert(lv.skip(1).take(i as int).drop_last() =~= lv.skip(1).take(i - 1));
            assert(lv.skip(1).take(i as int).last() == lv[i as int]);
        }
        match split_once_str(line.as_str(), ':') {
            Some((k_raw, v_raw)) => {
                let name = to_lower_string(trim_ws_str(k_raw.as_str()).as_str());
                let value = trim_ws_str(v_raw.as_str());
                headers.insert(name, value);
            },
            None => {},
        }
        i += 1;
    }
    proof {
        assert(i == n || lines@[i as int]@.len() == 0);
        lemma_until_empty(lv.skip(1), i - 1);
        assert(hl =~~= lv.skip(1).take(i - 1));
    }

    Ok(Request {
        method,
        path,
        raw: String::from_str(head),
        headers,
        query,
        body,
    })
}

/// The declared body length: the `content-length` header parsed as a
/// decimal number, if it is one.
pub fn content_length(headers: &StrMap) -> (r: Option<u64>)
    ensures
        match headers.spec_lookup(("content-length")@) {
            None => r is None,
            Some(v) => match r {
                Some(n) => all_digits(v) && n as int == dec_value(v),
                None => !all_digits(v) || dec_value(v) > u64::MAX,
            },
        },
{
    match headers.get("content-length") {
        Some(v) => parse_u64(v.as_str()),
        None => None,
    }
}

} // verus!
