//! Template substitution: every occurrence of `{{key}}` or `{{ key }}`
//! is replaced by the context value, keys applied in context order;
//! unresolved keys stay verbatim. The engine trait is the interface the
//! server passes through to handlers; reading a template from a file is
//! the caller's business.
use vstd::prelude::*;
use crate::table::StrMap;
use crate::text::{has_prefix_at, push_char, starts_with_at};

verus! {

/// Every occurrence of `pat` replaced by `val`, scanning left to right,
/// non-overlapping.
pub open spec fn replaced(s: Seq<char>, pat: Seq<char>, val: Seq<char>) -> Seq<char>
    decreases s.len(),
{
    if s.len() == 0 {
        s
    } else if pat.len() > 0 && has_prefix_at(s, pat, 0) {
        val + replaced(s.skip(pat.len() as int), pat, val)
    } else {
        seq![s[0]] + replaced(s.drop_first(), pat, val)
    }
}

/// `str::replace`.
pub fn replace_all(s: &str, pat: &str, val: &str) -> (r: String)
    ensures
        r@ == replaced(s@, pat@, val@),
{
    let n = s.unicode_len();
    let m = pat.unicode_len();
    let mut out = String::new();
    let mut i: usize = 0;
    proof {
        assert(s@.skip(0) =~= s@);
        assert(out@ + replaced(s@, pat@, val@) =~= replaced(s@, pat@, val@));
    }
    while i < n
        invariant
            0 <= i <= n,
            n == s@.len(),
            m == pat@.len(),
            replaced(s@, pat@, val@) =~= out@ + replaced(s@.skip(i as int), pat@, val@),
        decreases n - i,
    {
        let ghost rest = s@.skip(i as int);
        if m > 0 && starts_with_at(s, pat, i) {
            proof {
                assert(rest.subrange(0, m as int) =~= s@.subrange(i as int, i + m));
                assert(has_prefix_at(rest, pat@, 0));
                assert(rest.skip(m as int) =~= s@.skip(i + m));
            }
            out.append(val);
            i += m;
        } else {
            proof {
                if m > 0 && i + m <= n {
                    if has_prefix_at(rest, pat@, 0) {
                        assert(s@.subrange(i as int, i + m)
                            =~= rest.subrange(0, m as int));
                        assert(has_prefix_at(s@, pat@, i as int));
                    }
                }
                assert(rest[0] == s@[i as int]);
                assert(rest.drop_first() =~= s@.skip(i + 1));
            }
            push_char(&mut out, s.get_char(i));
            i += 1;
        }
    }
    proof {
        assert(s@.skip(n as int) =~= Seq::<char>::empty());
        assert(out@ + Seq::<char>::empty() =~= out@);
    }
    out
}

/// One context pair applied: the spaced form first, then the tight form,
/// exactly as two replacements run.
pub open spec fn apply_pair(s: Seq<char>, key: Seq<char>, val: Seq<char>) -> Seq<char> {
    replaced(replaced(s, ("{{ ")@ + key + (" }}")@, val), ("{{")@ + key + ("}}")@, val)
}

/// The whole context applied, pairs in storage order.
pub open spec fn rendered(s: Seq<char>, pairs: Seq<(Seq<char>, Seq<char>)>) -> Seq<char>
    decreases pairs.len(),
{
    if pairs.len() == 0 {
        s
    } else {
        rendered(apply_pair(s, pairs.first().0, pairs.first().1), pairs.drop_first())
    }
}

/// The rendering capability the server passes through to handlers: one
/// method resolving a template by name or path, one substituting into a
/// template string directly. Implementations live with the application.
pub trait TemplateEngine {
    fn render(&self, template: &str, context: &StrMap) -> String;

    fn render_str(&self, template: &str, context: &StrMap) -> String;
}

/// The plain substitution engine.
pub struct SimpleTemplateEngine;

impl SimpleTemplateEngine {
    pub fn new() -> (r: Self)
    {
        SimpleTemplateEngine
    }

    /// Substitutes the context into a template string.
    pub fn render_str(&self, template: &str, context: &StrMap) -> (r: String)
        ensures
            r@ == rendered(template@, context.pairs()),
    {
        let ghost pairs = context.pairs();
        let n = context.entries.len();
        let mut cur = String::from_str(template);
        let mut i: usize = 0;
        proof {
            assert(pairs.skip(0) =~= pairs);
        }
        while i < n
            invariant
                0 <= i <= n,
                n == context.entries@.len(),
                pairs == context.pairs(),
                rendered(template@, pairs) == rendered(cur@, pairs.skip(i as int)),
            decreases n - i,
        {
            proof {
                assert(pairs.skip(i as int).first() == pairs[i as int]);
                assert(pairs.skip(i as int).drop_first() =~= pairs.skip(i + 1));
            }
            let key = &context.entries[i].0;
            let val = &context.entries[i].1;
            let mut spaced = String::from_str("{{ ");
            spaced.append(key.as_str());
            spaced.append(" }}");
            let mut tight = String::from_str("{{");
            tight.append(key.as_str());
            tight.append("}}");
            let once = replace_all(cur.as_str(), spaced.as_str(), val.as_str());
            cur = replace_all(once.as_str(), tight.as_str(), val.as_str());
            proof {
                assert(pairs[i as int].0 == key@ && pairs[i as int].1 == val@);
            }
            i += 1;
        }
        proof {
            assert(pairs.skip(n as int) =~= Seq::<(Seq<char>, Seq<char>)>::empty());
        }
        cur
    }
}

} // verus!
