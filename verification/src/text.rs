//! Verified text primitives: splitting on a separator, trimming, prefix
//! tests and case mapping over whole strings. Every exec function is proved
//! against a direct specification over `Seq<char>`; the rest of the library
//! states its contracts in terms of these spec functions.
use vstd::prelude::*;
use crate::chars::{upper_char, lower_char, upper_seq, lower_seq, is_ws, to_upper, to_lower,
    char_is_ws};

verus! {

/// Splitting on `sep`, keeping empty parts: always at least one part,
/// exactly as `str::split` behaves.
pub open spec fn split_on(s: Seq<char>, sep: char) -> Seq<Seq<char>>
    decreases s.len(),
{
    if s.len() == 0 {
        seq![Seq::<char>::empty()]
    } else if s[0] == sep {
        seq![Seq::<char>::empty()].add(split_on(s.drop_first(), sep))
    } else {
        let r = split_on(s.drop_first(), sep);
        seq![seq![s[0]].add(r[0])].add(r.drop_first())
    }
}

pub proof fn lemma_split_on_len(s: Seq<char>, sep: char)
    ensures
        split_on(s, sep).len() >= 1,
    decreases s.len(),
{
    if s.len() != 0 {
        lemma_split_on_len(s.drop_first(), sep);
    }
}

/// The first block of a split: if no separator stands before `k`, the
/// split starts with `s[0..k]` whenever `s[k]` is the separator, and is
/// the single part `s` when `k` reaches the end.
pub proof fn lemma_split_on_block(s: Seq<char>, sep: char, k: int)
    requires
        0 <= k <= s.len(),
        forall|j: int| 0 <= j < k ==> s[j] != sep,
        k == s.len() || s[k] == sep,
    ensures
        k == s.len() ==> split_on(s, sep) =~~= seq![s],
        k < s.len() ==> split_on(s, sep) =~~= seq![s.take(k)].add(
            split_on(s.skip(k + 1), sep)),
    decreases k,
{
    lemma_split_on_len(s, sep);
    if k == 0 {
        if s.len() > 0 && s[0] == sep {
            assert(s.take(0) =~= Seq::<char>::empty());
            assert(s.skip(1) =~= s.drop_first());
        }
    } else {
        let d = s.drop_first();
        lemma_split_on_block(d, sep, k - 1);
        lemma_split_on_len(d, sep);
        if k == s.len() {
            assert(split_on(d, sep) =~~= seq![d]);
            assert(seq![s[0]].add(d) =~= s);
        } else {
            assert(d.take(k - 1) =~= s.take(k).drop_first());
            assert(d.skip(k) =~= s.skip(k + 1));
            assert(seq![s[0]].add(s.take(k).drop_first()) =~= s.take(k));
        }
    }
}

pub open spec fn views_of(parts: Seq<String>) -> Seq<Seq<char>> {
    parts.map_values(|p: String| p@)
}

/// `str::split(sep)` collected into owned parts.
pub fn split_str(s: &str, sep: char) -> (parts: Vec<String>)
    ensures
        views_of(parts@) == split_on(s@, sep),
        parts@.len() >= 1,
{
    let n = s.unicode_len();
    let mut parts: Vec<String> = Vec::new();
    let mut start: usize = 0;
    let mut i: usize = 0;
    proof {
        assert(s@.subrange(0, n as int) =~= s@);
        assert(views_of(parts@).add(split_on(s@, sep)) =~= split_on(s@, sep));
    }
    while i < n
        invariant
            start <= i <= n,
            n == s@.len(),
            forall|j: int| start <= j < i ==> s@[j] != sep,
            split_on(s@, sep) =~~= views_of(parts@).add(
                split_on(s@.subrange(start as int, n as int), sep)),
        decreases n - i,
    {
        let c = s.get_char(i);
        if c == sep {
            let piece = s.substring_char(start, i);
            let ghost old_parts = parts@;
            parts.push(String::from_str(piece));
            proof {
                let rest = s@.subrange(start as int, n as int);
                lemma_split_on_block(rest, sep, i - start);
                assert(rest.take(i - start) =~= s@.subrange(start as int, i as int));
                assert(rest.skip(i - start + 1) =~= s@.subrange(i + 1, n as int));
                assert(views_of(parts@) =~= views_of(old_parts).push(piece@));
            }
            start = i + 1;
        }
        i += 1;
    }
    let piece = s.substring_char(start, n);
    let ghost old_parts = parts@;
    parts.push(String::from_str(piece));
    proof {
        let rest = s@.subrange(start as int, n as int);
        lemma_split_on_block(rest, sep, n - start);
        assert(views_of(parts@) =~= views_of(old_parts).push(piece@));
        assert(views_of(parts@).add(Seq::<Seq<char>>::empty()) =~= views_of(parts@));
    }
    parts
}

pub open spec fn trim_start_in(s: Seq<char>, cs: Seq<char>) -> Seq<char>
    decreases s.len(),
{
    if s.len() > 0 && cs.contains(s[0]) {
        trim_start_in(s.drop_first(), cs)
    } else {
        s
    }
}

pub open spec fn trim_end_in(s: Seq<char>, cs: Seq<char>) -> Seq<char>
    decreases s.len(),
{
    if s.len() > 0 && cs.contains(s.last()) {
        trim_end_in(s.drop_last(), cs)
    } else {
        s
    }
}

/// Both ends trimmed of the characters in `cs`, as `str::trim_matches`.
pub open spec fn trim_in(s: Seq<char>, cs: Seq<char>) -> Seq<char> {
    trim_end_in(trim_start_in(s, cs), cs)
}

proof fn lemma_trim_start_in(s: Seq<char>, cs: Seq<char>, a: int)
    requires
        0 <= a <= s.len(),
        forall|j: int| 0 <= j < a ==> cs.contains(s[j]),
        a == s.len() || !cs.contains(s[a]),
    ensures
        trim_start_in(s, cs) == s.skip(a),
    decreases a,
{
    if a == 0 {
        assert(s.skip(0) =~= s);
    } else {
        lemma_trim_start_in(s.drop_first(), cs, a - 1);
        assert(s.drop_first().skip(a - 1) =~= s.skip(a));
    }
}

proof fn lemma_trim_end_in(s: Seq<char>, cs: Seq<char>, b: int)
    requires
        0 <= b <= s.len(),
        forall|j: int| b <= j < s.len() ==> cs.contains(s[j]),
        b == 0 || !cs.contains(s[b - 1]),
    ensures
        trim_end_in(s, cs) == s.take(b),
    decreases s.len() - b,
{
    if b == s.len() {
        if s.len() > 0 && cs.contains(s.last()) {
            lemma_trim_end_in(s.drop_last(), cs, b - 1);
            assert(s.take(b - 1) =~= s.drop_last());
            assert(s.take(b) =~= s);
            assert(s.drop_last().take(b - 1) =~= s.drop_last());
        } else {
            assert(s.take(b) =~= s);
        }
    } else {
        lemma_trim_end_in(s.drop_last(), cs, b);
        assert(s.drop_last().take(b) =~= s.take(b));
    }
}

/// One statement serving both exec trimmers: scanning bounds pin the spec
/// value down to a plain subrange.
pub proof fn lemma_trim_in_subrange(s: Seq<char>, cs: Seq<char>, a: int, b: int)
    requires
        0 <= a <= b <= s.len(),
        forall|j: int| 0 <= j < a ==> cs.contains(s[j]),
        forall|j: int| b <= j < s.len() ==> cs.contains(s[j]),
        a == b || (!cs.contains(s[a]) && !cs.contains(s[b - 1])),
    ensures
        trim_in(s, cs) == s.subrange(a, b),
    decreases s.len(),
{
    if a == b {
        lemma_trim_start_in(s, cs, s.len() as int);
        assert(s.skip(s.len() as int) =~= Seq::<char>::empty());
        assert(s.subrange(a, b) =~= Seq::<char>::empty());
    } else {
        lemma_trim_start_in(s, cs, a);
        let t = s.skip(a);
        lemma_trim_end_in(t, cs, b - a);
        assert(t.take(b - a) =~= s.subrange(a, b));
    }
}

/// Both ends trimmed of `sep`.
pub open spec fn trimmed(s: Seq<char>, sep: char) -> Seq<char> {
    trim_in(s, seq![sep])
}

/// The whitespace characters, as a set to trim.
pub open spec fn ws_chars() -> Seq<char> {
    seq![' ', '\t', '\r', '\n']
}

/// Both ends trimmed of whitespace.
pub open spec fn trimmed_ws(s: Seq<char>) -> Seq<char> {
    trim_in(s, ws_chars())
}

pub proof fn lemma_ws_chars(c: char)
    ensures
        ws_chars().contains(c) == is_ws(c),
{
    if is_ws(c) {
        if c == ' ' {
            assert(ws_chars()[0] == c);
        } else if c == '\t' {
            assert(ws_chars()[1] == c);
        } else if c == '\r' {
            assert(ws_chars()[2] == c);
        } else {
            assert(ws_chars()[3] == c);
        }
    }
}

pub proof fn lemma_single_contains(sep: char, c: char)
    ensures
        seq![sep].contains(c) == (c == sep),
{
    if c == sep {
        assert(seq![sep][0] == c);
    }
}

/// `str::trim_matches(sep)`.
pub fn trim_char(s: &str, sep: char) -> (r: String)
    ensures
        r@ == trimmed(s@, sep),
{
    let n = s.unicode_len();
    let mut a: usize = 0;
    while a < n && s.get_char(a) == sep
        invariant
            0 <= a <= n,
            n == s@.len(),
            forall|j: int| 0 <= j < a ==> s@[j] == sep,
        decreases n - a,
    {
        a += 1;
    }
    let mut b: usize = n;
    while b > a && s.get_char(b - 1) == sep
        invariant
            a <= b <= n,
            n == s@.len(),
            forall|j: int| b <= j < n ==> s@[j] == sep,
        decreases b,
    {
        b -= 1;
    }
    proof {
        assert forall|c: char| seq![sep].contains(c) == (c == sep) by {
            lemma_single_contains(sep, c);
        }
        lemma_trim_in_subrange(s@, seq![sep], a as int, b as int);
    }
    String::from_str(s.substring_char(a, b))
}

/// `str::trim`, over the whitespace class of this library.
pub fn trim_ws_str(s: &str) -> (r: String)
    ensures
        r@ == trimmed_ws(s@),
{
    let n = s.unicode_len();
    let mut a: usize = 0;
    while a < n && char_is_ws(s.get_char(a))
        invariant
            0 <= a <= n,
            n == s@.len(),
            forall|j: int| 0 <= j < a ==> is_ws(s@[j]),
        decreases n - a,
    {
        a += 1;
    }
    let mut b: usize = n;
    while b > a && char_is_ws(s.get_char(b - 1))
        invariant
            a <= b <= n,
            n == s@.len(),
            forall|j: int| b <= j < n ==> is_ws(s@[j]),
        decreases b,
    {
        b -= 1;
    }
    proof {
        assert forall|c: char| ws_chars().contains(c) == is_ws(c) by {
            lemma_ws_chars(c);
        }
        lemma_trim_in_subrange(s@, ws_chars(), a as int, b as int);
    }
    String::from_str(s.substring_char(a, b))
}

/// Character-for-character equality of two slices.
pub fn str_eq(a: &str, b: &str) -> (r: bool)
    ensures
        r == (a@ == b@),
{
    let na = a.unicode_len();
    let nb = b.unicode_len();
    if na != nb {
        assert(a@ != b@);
        return false;
    }
    let mut i: usize = 0;
    while i < na
        invariant
            0 <= i <= na,
            na == a@.len() == b@.len(),
            forall|j: int| 0 <= j < i ==> a@[j] == b@[j],
        decreases na - i,
    {
        if a.get_char(i) != b.get_char(i) {
            return false;
        }
        i += 1;
    }
    proof {
        assert(a@ =~= b@);
    }
    true
}

/// First occurrence of `c` in `s`.
pub fn find_char(s: &str, c: char) -> (r: Option<usize>)
    ensures
        match r {
            Some(i) => i < s@.len() && s@[i as int] == c && forall|j: int|
                0 <= j < i ==> s@[j] != c,
            None => forall|j: int| 0 <= j < s@.len() ==> s@[j] != c,
        },
{
    let n = s.unicode_len();
    let mut i: usize = 0;
    while i < n
        invariant
            0 <= i <= n,
            n == s@.len(),
            forall|j: int| 0 <= j < i ==> s@[j] != c,
        decreases n - i,
    {
        if s.get_char(i) == c {
            return Some(i);
        }
        i += 1;
    }
    None
}

/// Index of the first occurrence of `c` in `s`.
pub open spec fn first_pos(s: Seq<char>, c: char) -> Option<int>
    decreases s.len(),
{
    if s.len() == 0 {
        None
    } else if s[0] == c {
        Some(0int)
    } else {
        match first_pos(s.drop_first(), c) {
            None => None,
            Some(i) => Some(i + 1),
        }
    }
}

pub proof fn lemma_first_pos_at(s: Seq<char>, c: char, i: int)
    requires
        0 <= i < s.len(),
        s[i] == c,
        forall|j: int| 0 <= j < i ==> s[j] != c,
    ensures
        first_pos(s, c) == Some(i),
    decreases i,
{
    if i > 0 {
        lemma_first_pos_at(s.drop_first(), c, i - 1);
    }
}

pub proof fn lemma_first_pos_none(s: Seq<char>, c: char)
    requires
        forall|j: int| 0 <= j < s.len() ==> s[j] != c,
    ensures
        first_pos(s, c) is None,
    decreases s.len(),
{
    if s.len() > 0 {
        lemma_first_pos_none(s.drop_first(), c);
    }
}

/// `str::split_once`: the parts before and after the first `c`.
pub open spec fn split_once_at(s: Seq<char>, c: char) -> Option<(Seq<char>, Seq<char>)> {
    match first_pos(s, c) {
        None => None,
        Some(i) => Some((s.take(i), s.skip(i + 1))),
    }
}

pub fn split_once_str(s: &str, c: char) -> (r: Option<(String, String)>)
    ensures
        match r {
            Some(kv) => split_once_at(s@, c) == Some((kv.0@, kv.1@)),
            None => split_once_at(s@, c) is None,
        },
{
    let n = s.unicode_len();
    match find_char(s, c) {
        Some(i) => {
            proof {
                lemma_first_pos_at(s@, c, i as int);
            }
            let k = String::from_str(s.substring_char(0, i));
            let v = String::from_str(s.substring_char(i + 1, n));
            proof {
                assert(k@ =~= s@.take(i as int));
                assert(v@ =~= s@.skip(i + 1));
            }
            Some((k, v))
        },
        None => {
            proof {
                lemma_first_pos_none(s@, c);
            }
            None
        },
    }
}

/// Whether `pat` stands at position `at` of `s`.
pub open spec fn has_prefix_at(s: Seq<char>, pat: Seq<char>, at: int) -> bool {
    0 <= at && at + pat.len() <= s.len() && s.subrange(at, at + pat.len()) == pat
}

pub fn starts_with_at(s: &str, pat: &str, at: usize) -> (r: bool)
    requires
        at <= s@.len(),
    ensures
        r == has_prefix_at(s@, pat@, at as int),
{
    let n = s.unicode_len();
    let m = pat.unicode_len();
    if m > n - at {
        assert(!has_prefix_at(s@, pat@, at as int));
        return false;
    }
    let mut i: usize = 0;
    while i < m
        invariant
            0 <= i <= m,
            n == s@.len(),
            m == pat@.len(),
            at + m <= n,
            forall|j: int| 0 <= j < i ==> s@[at + j] == pat@[j],
        decreases m - i,
    {
        if s.get_char(at + i) != pat.get_char(i) {
            assert(s@.subrange(at as int, at + m) != pat@) by {
                assert(s@.subrange(at as int, at + m)[i as int] != pat@[i as int]);
            }
            return false;
        }
        i += 1;
    }
    proof {
        assert(s@.subrange(at as int, at + m) =~= pat@);
    }
    true
}

/// Relies on `String::push`: appends the character to the end of the string.
#[verifier::external_body]
pub fn push_char(s: &mut String, c: char)
    ensures
        final(s)@ == old(s)@.push(c),
{
    s.push(c);
}

/// `str::to_uppercase`, restricted to the ASCII letters.
pub fn to_upper_string(s: &str) -> (r: String)
    ensures
        r@ == upper_seq(s@),
{
    let n = s.unicode_len();
    let mut r = String::new();
    let mut i: usize = 0;
    while i < n
        invariant
            0 <= i <= n,
            n == s@.len(),
            r@ == upper_seq(s@.take(i as int)),
        decreases n - i,
    {
        push_char(&mut r, to_upper(s.get_char(i)));
        proof {
            assert(upper_seq(s@.take(i + 1)) =~= upper_seq(s@.take(i as int)).push(
                upper_char(s@[i as int])));
        }
        i += 1;
    }
    proof {
        assert(s@.take(n as int) =~= s@);
    }
    r
}

/// `str::to_lowercase`, restricted to the ASCII letters.
pub fn to_lower_string(s: &str) -> (r: String)
    ensures
        r@ == lower_seq(s@),
{
    let n = s.unicode_len();
    let mut r = String::new();
    let mut i: usize = 0;
    while i < n
        invariant
            0 <= i <= n,
            n == s@.len(),
            r@ == lower_seq(s@.take(i as int)),
        decreases n - i,
    {
        push_char(&mut r, to_lower(s.get_char(i)));
        proof {
            assert(lower_seq(s@.take(i + 1)) =~= lower_seq(s@.take(i as int)).push(
                lower_char(s@[i as int])));
        }
        i += 1;
    }
    proof {
        assert(s@.take(n as int) =~= s@);
    }
    r
}

} // verus!
