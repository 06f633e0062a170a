//! Helpers of the encounter queries: SQL text building and the reductions
//! that the death recap applies to its rows.

pub mod breakdown;
pub mod death_recap;
pub mod effects;
pub mod overview;

use vstd::prelude::*;

verus! {

/// `s` with each single quote doubled, as a SQL string literal writes it.
pub open spec fn sql_escaped(s: Seq<char>) -> Seq<char>
    decreases s.len(),
{
    if s.len() == 0 {
        s
    } else {
        sql_escaped(s.drop_last()) + if s.last() == '\'' {
            seq!['\'', '\'']
        } else {
            seq![s.last()]
        }
    }
}

/// Escapes a value for use inside a single-quoted SQL string literal.
pub fn sql_escape(s: &str) -> (r: String)
    ensures
        r@ == sql_escaped(s@),
{
    let chars = crate::text::chars_of(s);
    let mut out: Vec<char> = Vec::new();
    let mut i: usize = 0;
    while i < chars.len()
        invariant
            i <= chars.len(),
            out@ == sql_escaped(chars@.take(i as int)),
        decreases chars.len() - i,
    {
        let c = chars[i];
        proof {
            assert(chars@.take(i + 1).drop_last() =~= chars@.take(i as int));
        }
        let ghost before = out@;
        out.push(c);
        if c == '\'' {
            out.push('\'');
        }
        assert(out@ =~= sql_escaped(chars@.take(i + 1)));
        i = i + 1;
    }
    assert(chars@.take(chars.len() as int) =~= chars@);
    crate::text::string_of(out.as_slice())
}

/// The value of an escaped literal: each doubled quote read as one quote.
pub open spec fn sql_unescaped(t: Seq<char>) -> Seq<char>
    decreases t.len(),
{
    if t.len() == 0 {
        t
    } else if t.len() >= 2 && t.last() == '\'' && t[t.len() - 2] == '\'' {
        sql_unescaped(t.subrange(0, t.len() - 2)).push('\'')
    } else {
        sql_unescaped(t.drop_last()).push(t.last())
    }
}

/// Escaping loses nothing: reading the escaped literal back gives the value.
pub proof fn law_sql_escape_round_trip(s: Seq<char>)
    ensures
        sql_unescaped(sql_escaped(s)) == s,
    decreases s.len(),
{
    if s.len() > 0 {
        let p = s.drop_last();
        law_sql_escape_round_trip(p);
        let e = sql_escaped(p);
        if s.last() == '\'' {
            let t = e + seq!['\'', '\''];
            assert(sql_escaped(s) == t);
            assert(t.subrange(0, t.len() - 2) =~= e);
            assert(sql_unescaped(t) == sql_unescaped(e).push('\''));
        } else {
            let t = e.push(s.last());
            assert(sql_escaped(s) =~= t);
            assert(t.drop_last() =~= e);
        }
        assert(p.push(s.last()) =~= s);
    }
}

} // verus!
