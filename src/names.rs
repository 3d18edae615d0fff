//! How bracket and roster pages write player names, read as grammars over characters.
//!
//! A name is `Last`, `Last, First` or `Last, First (Nick)`; a team cell lists its players as
//! `Last, First` fragments joined by hyphens.
use vstd::prelude::*;

use crate::roster::{FindPlayerQuery, QuerySpec};
use crate::text::{
    chars_of, lemma_stop_at, replace, replace_spec, scan_until, slice_chars, stop_at, string_of,
    trim, trim_spec,
};

verus! {

/// The first index at or after `i` whose character is not `c`, or the length of `s`.
pub open spec fn skip_char(s: Seq<char>, i: int, c: char) -> int
    decreases s.len() - i,
{
    if i < 0 {
        0
    } else if i >= s.len() {
        s.len() as int
    } else if s[i] == c {
        skip_char(s, i + 1, c)
    } else {
        i
    }
}

fn skip_all(s: &Vec<char>, start: usize, c: char) -> (r: usize)
    requires
        start <= s@.len(),
    ensures
        r == skip_char(s@, start as int, c),
        start <= r <= s@.len(),
{
    let mut i: usize = start;
    while i < s.len() && s[i] == c
        invariant
            start <= i <= s@.len(),
            skip_char(s@, i as int, c) == skip_char(s@, start as int, c),
        decreases s@.len() - i,
    {
        i = i + 1;
    }
    i
}

pub open spec fn opens_group(c: char) -> bool {
    c == '<' || c == '('
}

/// The query that a name written `Last[, First[ (Nick)]]` asks for. The last name is the
/// first run of characters without a comma; after its comma and one optional space, the
/// first name runs up to a `<` or `(` and is trimmed; a nickname stands in parentheses after
/// it. Text with no character but commas names nobody.
pub open spec fn name_query_of(s: Seq<char>) -> Option<QuerySpec> {
    let p = skip_char(s, 0, ',');
    if p >= s.len() {
        None
    } else {
        let q = stop_at(s, p, ',', ',');
        let last = s.subrange(p, q);
        let bare = QuerySpec { first: None, nick: None, last };
        if q >= s.len() {
            Some(bare)
        } else {
            let g = if q + 2 < s.len() && s[q + 1] == ' ' && !opens_group(s[q + 2]) {
                q + 2
            } else {
                q + 1
            };
            if g >= s.len() || opens_group(s[g]) {
                Some(bare)
            } else {
                let e = stop_at(s, g, '<', '(');
                let f = stop_at(s, e + 1, ')', ')');
                let nick = if e < s.len() && s[e] == '(' && e + 1 < f < s.len() {
                    Some(s.subrange(e + 1, f))
                } else {
                    None
                };
                Some(QuerySpec { first: Some(trim_spec(s.subrange(g, e))), nick, last })
            }
        }
    }
}

pub open spec fn nbsp() -> Seq<char> {
    seq!['&', 'n', 'b', 's', 'p', ';']
}

/// The text with each `&nbsp;` written as a plain space.
pub open spec fn sanitize_spec(s: Seq<char>) -> Seq<char> {
    replace_spec(s, nbsp(), seq![' '])
}

/// Writes each `&nbsp;` of `name` as a plain space.
pub fn sanitize_name(name: &str) -> (r: String)
    ensures
        r@ == sanitize_spec(name@),
{
    string_of(&sanitize_chars(&chars_of(name)))
}

/// Writes each `&nbsp;` of `name` as a plain space, in characters.
pub fn sanitize_chars(name: &Vec<char>) -> (r: Vec<char>)
    ensures
        r@ == sanitize_spec(name@),
{
    let pat = vec!['&', 'n', 'b', 's', 'p', ';'];
    let rep = vec![' '];
    assert(pat@ =~= nbsp());
    assert(rep@ =~= seq![' ']);
    replace(name, &pat, &rep)
}

/// The query that a name asks for, as `name_query_of` reads it, from characters.
pub fn query_of_chars(s: &Vec<char>) -> (r: Option<FindPlayerQuery>)
    ensures
        match name_query_of(s@) {
            Some(q) => r is Some && r->0@ == q,
            None => r is None,
        },
{
    let p = skip_all(s, 0, ',');
    if p >= s.len() {
        return None;
    }
    let q = scan_until(s, p, ',', ',');
    let last = slice_chars(s, p, q);
    if q >= s.len() {
        return Some(FindPlayerQuery { first_name: None, nick_name: None, last_name: string_of(&last) });
    }
    let g: usize = if s.len() - q > 2 && s[q + 1] == ' ' && s[q + 2] != '<' && s[q + 2] != '(' {
        q + 2
    } else {
        q + 1
    };
    if g >= s.len() || s[g] == '<' || s[g] == '(' {
        return Some(FindPlayerQuery { first_name: None, nick_name: None, last_name: string_of(&last) });
    }
    let e = scan_until(s, g, '<', '(');
    let first = trim(&slice_chars(s, g, e));
    let nick: Option<String> = if e < s.len() && s[e] == '(' {
        let f = scan_until(s, e + 1, ')', ')');
        if e + 1 < f && f < s.len() {
            Some(string_of(&slice_chars(s, e + 1, f)))
        } else {
            None
        }
    } else {
        None
    };
    Some(FindPlayerQuery { first_name: Some(string_of(&first)), nick_name: nick, last_name: string_of(&last) })
}

/// The query that a name written `Last[, First[ (Nick)]]` asks for, once each `&nbsp;` is a
/// space; `None` for text made of commas alone.
pub fn name_to_query(name: &str) -> (r: Option<FindPlayerQuery>)
    ensures
        match name_query_of(sanitize_spec(name@)) {
            Some(q) => r is Some && r->0@ == q,
            None => r is None,
        },
{
    let sanitized = sanitize_chars(&chars_of(name));
    query_of_chars(&sanitized)
}

/// The player fragments (`Last, First`) of a team cell at or after `pos`: each is a run
/// without a comma, a comma, and a non-empty run without a hyphen; a hyphen after a fragment
/// belongs to no fragment.
pub open spec fn fragments_from(s: Seq<char>, pos: int) -> Seq<Seq<char>>
    decreases s.len() - pos via fragments_from_decreases
{
    if pos < 0 || pos >= s.len() {
        Seq::<Seq<char>>::empty()
    } else if s[pos] == ',' {
        fragments_from(s, pos + 1)
    } else {
        let q = stop_at(s, pos, ',', ',');
        if q >= s.len() {
            Seq::<Seq<char>>::empty()
        } else if q + 1 >= s.len() || s[q + 1] == '-' {
            fragments_from(s, q + 1)
        } else {
            let r = stop_at(s, q + 1, '-', '-');
            let next = if r < s.len() {
                r + 1
            } else {
                r
            };
            seq![s.subrange(pos, r)] + fragments_from(s, next)
        }
    }
}

#[via_fn]
proof fn fragments_from_decreases(s: Seq<char>, pos: int) {
    if 0 <= pos < s.len() && s[pos] != ',' {
        lemma_stop_at(s, pos, ',', ',');
        let q = stop_at(s, pos, ',', ',');
        if q < s.len() && q + 1 < s.len() {
            lemma_stop_at(s, q + 1, '-', '-');
        }
    }
}

/// The player fragments of a team cell, in order.
pub fn player_fragments(s: &Vec<char>) -> (r: Vec<Vec<char>>)
    ensures
        r@.len() == fragments_from(s@, 0).len(),
        forall|k: int| 0 <= k < r@.len() ==> #[trigger] r@[k]@ == fragments_from(s@, 0)[k],
{
    let mut out: Vec<Vec<char>> = Vec::new();
    let ghost acc: Seq<Seq<char>> = Seq::empty();
    let mut pos: usize = 0;
    while pos < s.len()
        invariant
            pos <= s@.len(),
            acc + fragments_from(s@, pos as int) == fragments_from(s@, 0),
            out@.len() == acc.len(),
            forall|k: int| 0 <= k < out@.len() ==> #[trigger] out@[k]@ == acc[k],
        decreases s@.len() - pos,
    {
        if s[pos] == ',' {
            pos = pos + 1;
        } else {
            let q = scan_until(s, pos, ',', ',');
            if q >= s.len() {
                assert(fragments_from(s@, pos as int) =~= Seq::<Seq<char>>::empty());
                assert(fragments_from(s@, s@.len() as int) =~= Seq::<Seq<char>>::empty());
                assert(acc + Seq::<Seq<char>>::empty() =~= acc);
                pos = s.len();
            } else if q + 1 >= s.len() || s[q + 1] == '-' {
                pos = q + 1;
            } else {
                let r = scan_until(s, q + 1, '-', '-');
                let frag = slice_chars(s, pos, r);
                let ghost rest_before = fragments_from(s@, pos as int);
                let next: usize = if r < s.len() {
                    r + 1
                } else {
                    r
                };
                proof {
                    assert(acc.push(frag@) + fragments_from(s@, next as int) =~= acc + (seq![frag@]
                        + fragments_from(s@, next as int)));
                    acc = acc.push(frag@);
                }
                out.push(frag);
                pos = next;
            }
        }
    }
    assert(fragments_from(s@, pos as int) =~= Seq::<Seq<char>>::empty());
    assert(acc + Seq::<Seq<char>>::empty() =~= acc);
    out
}

} // verus!
