//! Session identity: recognizing a `SESSIONID` pair in a `Cookie` header,
//! issuing fresh identifiers from a clock sample and a counter, echoing
//! the identifier in a `Set-Cookie` header, and the store of per-session
//! key/value bags. The store is plain data; callers serialize access.
use vstd::prelude::*;
use crate::numfmt::{hex_chars, u64_to_hex};
use crate::table::{distinct_keys, StrMap, Table};
use crate::text::{split_on, split_once_at, split_once_str, split_str, str_eq, trim_ws_str,
    trimmed_ws};

verus! {

/// The identifier the last well-formed `SESSIONID` pair among the parts
/// supplies, if any.
pub open spec fn session_of_parts(parts: Seq<Seq<char>>) -> Option<Seq<char>>
    decreases parts.len(),
{
    if parts.len() == 0 {
        None
    } else {
        let t = trimmed_ws(parts.last());
        match split_once_at(t, '=') {
            Some(kv) => if kv.0 == ("SESSIONID")@ {
                Some(kv.1)
            } else {
                session_of_parts(parts.drop_last())
            },
            None => session_of_parts(parts.drop_last()),
        }
    }
}

/// The session identifier a `Cookie` header carries: pairs split on `;`,
/// each trimmed and split on its first `=`; the last `SESSIONID` pair wins.
pub open spec fn cookie_session_id(header: Seq<char>) -> Option<Seq<char>> {
    session_of_parts(split_on(header, ';'))
}

/// Reads the session identifier out of a `Cookie` header value.
pub fn identify(cookie_header: &str) -> (r: Option<String>)
    ensures
        match r {
            Some(id) => cookie_session_id(cookie_header@) == Some(id@),
            None => cookie_session_id(cookie_header@) is None,
        },
{
    let parts = split_str(cookie_header, ';');
    let ghost part_views = split_on(cookie_header@, ';');
    let n = parts.len();
    let mut found: Option<String> = None;
    let mut i: usize = 0;
    proof {
        assert(part_views.take(0) =~= Seq::<Seq<char>>::empty());
    }
    while i < n
        invariant
            0 <= i <= n,
            n == parts@.len(),
            crate::text::views_of(parts@) == part_views,
            part_views == split_on(cookie_header@, ';'),
            match found {
                Some(id) => session_of_parts(part_views.take(i as int)) == Some(id@),
                None => session_of_parts(part_views.take(i as int)) is None,
            },
        decreases n - i,
    {
        proof {
            assert(part_views.take(i + 1).drop_last() =~= part_views.take(i as int));
            assert(part_views.take(i + 1).last() == part_views[i as int]);
            assert(parts@[i as int]@ == part_views[i as int]);
        }
        let t = trim_ws_str(parts[i].as_str());
        match split_once_str(t.as_str(), '=') {
            Some((k, v)) => {
                if str_eq(k.as_str(), "SESSIONID") {
                    found = Some(v);
                }
            },
            None => {},
        }
        i += 1;
    }
    proof {
        assert(part_views.take(n as int) =~= part_views);
    }
    found
}

/// An identifier composed from a clock sample and a counter value, both in
/// hexadecimal, as `{:x}{:x}` renders them.
pub fn generate_session_id(now_nanos: u64, count: u64) -> (r: String)
    ensures
        r@ == hex_chars(now_nanos as int) + hex_chars(count as int),
{
    let a = u64_to_hex(now_nanos);
    a.concat(u64_to_hex(count).as_str())
}

/// The `Set-Cookie` value re-asserting identifier `id`.
pub open spec fn cookie_chars(id: Seq<char>) -> Seq<char> {
    ("SESSIONID=")@ + id + ("; HttpOnly; Path=/")@
}

/// The `Set-Cookie` value re-asserting the identifier, HTTP-only and
/// scoped to the root path.
pub fn set_cookie_value(id: &str) -> (r: String)
    ensures
        r@ == cookie_chars(id@),
{
    let mut s = String::from_str("SESSIONID=");
    s.append(id);
    s.append("; HttpOnly; Path=/");
    s
}

/// The identifier round-trips: a client echoing the issued cookie pair is
/// recognized as the same session, so re-issuing `Set-Cookie` never
/// changes the identifier.
pub proof fn lemma_cookie_roundtrip(id: Seq<char>)
    requires
        forall|i: int| 0 <= i < id.len() ==> id[i] != ';' && !crate::chars::is_ws(id[i]),
    ensures
        cookie_session_id(("SESSIONID=")@ + id) == Some(id),
{
    reveal_strlit("SESSIONID=");
    reveal_strlit("SESSIONID");
    let h = ("SESSIONID=")@ + id;
    assert(h.len() == 10 + id.len());
    assert forall|j: int| 0 <= j < h.len() implies h[j] != ';' by {
        if j >= 10 {
            assert(h[j] == id[j - 10]);
        }
    }
    crate::text::lemma_split_on_block(h, ';', h.len() as int);
    assert(split_on(h, ';') =~~= seq![h]);
    assert(seq![h].last() == h);
    assert(seq![h].drop_last() =~= Seq::<Seq<char>>::empty());
    assert forall|c: char| crate::text::ws_chars().contains(c) == crate::chars::is_ws(c) by {
        crate::text::lemma_ws_chars(c);
    }
    assert forall|j: int| 0 <= j < h.len() implies !crate::text::ws_chars().contains(h[j]) by {
        if j >= 10 {
            assert(h[j] == id[j - 10]);
        }
    }
    crate::text::lemma_trim_in_subrange(h, crate::text::ws_chars(), 0, h.len() as int);
    assert(h.subrange(0, h.len() as int) =~= h);
    assert(trimmed_ws(h) == h);
    assert(h[9] == '=');
    crate::text::lemma_first_pos_at(h, '=', 9);
    assert(h.take(9) =~= ("SESSIONID")@);
    assert(h.skip(10) =~= id);
}

/// The store of session bags, plus the issuance counter. The counter only
/// moves when a fresh identifier is minted; the bag table only grows.
pub struct SessionStore {
    pub sessions: Table<StrMap>,
    pub counter: u64,
}

impl SessionStore {
    pub open spec fn wf(&self) -> bool {
        &&& self.sessions.wf()
        &&& forall|i: int| 0 <= i < self.sessions.pairs().len()
            ==> distinct_keys(#[trigger] self.sessions.pairs()[i].1)
    }

    pub fn new() -> (r: Self)
        ensures
            r.wf(),
            r.sessions.pairs().len() == 0,
            r.counter == 0,
    {
        SessionStore { sessions: Table::new(), counter: 0 }
    }

    /// Creates the session's bag when absent; an existing bag, and every
    /// other session, is left exactly as it was.
    pub fn ensure(&mut self, id: &str)
        requires
            old(self).wf(),
        ensures
            final(self).wf(),
            final(self).counter == old(self).counter,
            final(self).sessions.contains_key(id@),
            old(self).sessions.contains_key(id@) ==> *final(self) == *old(self),
            !old(self).sessions.contains_key(id@) ==> final(self).sessions.pairs()
                =~= old(self).sessions.pairs().push((id@,
                    Seq::<(Seq<char>, Seq<char>)>::empty())),
            forall|k2: Seq<char>| k2 != id@ ==> final(self).sessions.spec_lookup(k2)
                == old(self).sessions.spec_lookup(k2),
    {
        let ghost before = *self;
        let empty_bag: StrMap = Table::new();
        self.sessions.insert_if_absent(String::from_str(id), empty_bag);
        proof {
            if !before.sessions.contains_key(id@) {
                assert forall|i: int| 0 <= i < self.sessions.pairs().len()
                    implies distinct_keys(#[trigger] self.sessions.pairs()[i].1) by {
                    if i < before.sessions.pairs().len() {
                        assert(self.sessions.pairs()[i] == before.sessions.pairs()[i]);
                    } else {
                        assert(self.sessions.pairs()[i].1
                            =~= Seq::<(Seq<char>, Seq<char>)>::empty());
                    }
                }
            }
        }
    }

    /// Looks a session's bag up.
    pub fn session_bag(&self, id: &str) -> (r: Option<&StrMap>)
        ensures
            match r {
                Some(bag) => self.sessions.spec_lookup(id@) == Some(bag@),
                None => self.sessions.spec_lookup(id@) is None,
            },
    {
        self.sessions.get(id)
    }

    /// Resolves a request to its session: the identifier the `Cookie`
    /// header claims, or a freshly minted one; either way the session's
    /// bag exists afterwards and no other session is touched.
    pub fn resolve(&mut self, req: &crate::request::Request, now_nanos: u64) -> (sid: String)
        requires
            old(self).wf(),
        ensures
            final(self).wf(),
            ({
                let claimed = match req.headers.spec_lookup(("cookie")@) {
                    None => None,
                    Some(h) => cookie_session_id(h),
                };
                match claimed {
                    Some(id) => sid@ == id && final(self).counter == old(self).counter,
                    None => sid@ == hex_chars(now_nanos as int)
                        + hex_chars(old(self).counter as int),
                }
            }),
            final(self).sessions.spec_lookup(sid@) is Some,
            old(self).sessions.contains_key(sid@)
                ==> final(self).sessions == old(self).sessions,
            !old(self).sessions.contains_key(sid@) ==> final(self).sessions.pairs()
                =~= old(self).sessions.pairs().push((sid@,
                    Seq::<(Seq<char>, Seq<char>)>::empty())),
            forall|k2: Seq<char>| k2 != sid@ ==> final(self).sessions.spec_lookup(k2)
                == old(self).sessions.spec_lookup(k2),
    {
        let claimed = match req.headers.get("cookie") {
            Some(h) => identify(h.as_str()),
            None => None,
        };
        let sid = match claimed {
            Some(id) => id,
            None => self.fresh_id(now_nanos),
        };
        self.ensure(sid.as_str());
        sid
    }

    /// Mints a fresh identifier from a clock sample, stepping the counter.
    pub fn fresh_id(&mut self, now_nanos: u64) -> (r: String)
        requires
            old(self).wf(),
        ensures
            final(self).wf(),
            r@ == hex_chars(now_nanos as int) + hex_chars(old(self).counter as int),
            final(self).sessions == old(self).sessions,
            final(self).counter == if old(self).counter == u64::MAX {
                0u64
            } else {
                (old(self).counter + 1) as u64
            },
    {
        let id = generate_session_id(now_nanos, self.counter);
        self.counter = if self.counter == u64::MAX {
            0
        } else {
            self.counter + 1
        };
        id
    }
}

} // verus!
