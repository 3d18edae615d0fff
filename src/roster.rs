//! Players, queries for them, and the resolution of free text to known players and teams.
use vstd::prelude::*;

use crate::text::{chars_of, contains, contains_spec, string_of};

verus! {

/// A player of a tournament's roster; `id` is the origin site's number for the player.
#[derive(Clone, Debug)]
pub struct Player {
    pub id: usize,
    pub first_name: String,
    pub last_name: String,
    pub nick_name: Option<String>,
    pub from: String,
}

pub open spec fn opt_view(o: Option<String>) -> Option<Seq<char>> {
    match o {
        Some(s) => Some(s@),
        None => None,
    }
}

fn copy_opt(o: &Option<String>) -> (r: Option<String>)
    ensures
        r == *o,
{
    match o {
        Some(s) => Some(s.clone()),
        None => None,
    }
}

impl Player {
    /// A copy of the player, field for field.
    pub fn duplicate(&self) -> (r: Player)
        ensures
            r == *self,
    {
        Player {
            id: self.id,
            first_name: self.first_name.clone(),
            last_name: self.last_name.clone(),
            nick_name: copy_opt(&self.nick_name),
            from: self.from.clone(),
        }
    }
}

/// A copy of a list of players, player for player.
pub fn copy_players(ps: &[Player]) -> (r: Vec<Player>)
    ensures
        r@ == ps@,
{
    let mut r: Vec<Player> = Vec::new();
    let mut i: usize = 0;
    while i < ps.len()
        invariant
            i <= ps@.len(),
            r@ == ps@.subrange(0, i as int),
        decreases ps@.len() - i,
    {
        r.push(ps[i].duplicate());
        i = i + 1;
        assert(r@ =~= ps@.subrange(0, i as int));
    }
    assert(ps@.subrange(0, ps@.len() as int) =~= ps@);
    r
}

/// What a query asks for, as character sequences.
pub ghost struct QuerySpec {
    pub first: Option<Seq<char>>,
    pub nick: Option<Seq<char>>,
    pub last: Seq<char>,
}

/// A search for a player by name; the last name is always given.
#[derive(Clone, Debug)]
pub struct FindPlayerQuery {
    /// Either a first name or a nickname: the page does not say which.
    pub first_name: Option<String>,
    /// When given, certainly a nickname.
    pub nick_name: Option<String>,
    pub last_name: String,
}

impl View for FindPlayerQuery {
    type V = QuerySpec;

    open spec fn view(&self) -> QuerySpec {
        QuerySpec {
            first: opt_view(self.first_name),
            nick: opt_view(self.nick_name),
            last: self.last_name@,
        }
    }
}

pub open spec fn last_name_query(last: Seq<char>) -> QuerySpec {
    QuerySpec { first: None, nick: None, last }
}

impl FindPlayerQuery {
    /// A query for a last name alone.
    pub fn from_last_name(last_name: &str) -> (r: FindPlayerQuery)
        ensures
            r@ == last_name_query(last_name@),
    {
        FindPlayerQuery { first_name: None, nick_name: None, last_name: last_name.to_owned() }
    }

    pub(crate) fn from_last_chars(last: &Vec<char>) -> (r: FindPlayerQuery)
        ensures
            r@ == last_name_query(last@),
    {
        FindPlayerQuery { first_name: None, nick_name: None, last_name: string_of(last) }
    }
}

/// The player answers the query: the same last name, the nickname if one is asked for, and
/// the first name or the nickname if a first name is asked for.
pub open spec fn query_matches(q: QuerySpec, p: Player) -> bool {
    &&& q.last == p.last_name@
    &&& (q.nick is None || q.nick == opt_view(p.nick_name))
    &&& (q.first is None || q.first == Some(p.first_name@) || q.first == opt_view(p.nick_name))
}

/// A player of `exclude` has the id of `p`.
pub open spec fn excluded(p: Player, exclude: Seq<Player>) -> bool {
    exists|k: int| 0 <= k < exclude.len() && exclude[k].id == p.id
}

/// The player's name as a page writes it out: `First (Nick) Last`, or `First Last`.
pub open spec fn full_name(p: Player) -> Seq<char> {
    match p.nick_name {
        Some(n) => p.first_name@ + seq![' ', '('] + n@ + seq![')', ' '] + p.last_name@,
        None => p.first_name@ + seq![' '] + p.last_name@,
    }
}

/// A candidate of the query that is not excluded and, where a text is given, whose full
/// name stands in it.
pub open spec fn acceptable(
    q: QuerySpec,
    p: Player,
    exclude: Seq<Player>,
    context: Option<Seq<char>>,
) -> bool {
    &&& query_matches(q, p)
    &&& !excluded(p, exclude)
    &&& (context is None || contains_spec(context->0, full_name(p)))
}

/// The first index at or after `i` of an acceptable player.
pub open spec fn first_acceptable(
    q: QuerySpec,
    players: Seq<Player>,
    exclude: Seq<Player>,
    context: Option<Seq<char>>,
    i: int,
) -> Option<int>
    decreases players.len() - i,
{
    if i < 0 || i >= players.len() {
        None
    } else if acceptable(q, players[i], exclude, context) {
        Some(i)
    } else {
        first_acceptable(q, players, exclude, context, i + 1)
    }
}

/// Which player `find_player` picks: among the candidates, the first whose full name stands
/// in the context text; failing that, or without a text, the first candidate.
pub open spec fn find_player_spec(
    q: QuerySpec,
    players: Seq<Player>,
    exclude: Seq<Player>,
    context: Option<Seq<char>>,
) -> Option<int> {
    match context {
        Some(t) => match first_acceptable(q, players, exclude, Some(t), 0) {
            Some(i) => Some(i),
            None => first_acceptable(q, players, exclude, None, 0),
        },
        None => first_acceptable(q, players, exclude, None, 0),
    }
}

proof fn lemma_first_acceptable(
    q: QuerySpec,
    players: Seq<Player>,
    exclude: Seq<Player>,
    context: Option<Seq<char>>,
    i: int,
    found: Option<int>,
)
    requires
        0 <= i <= players.len(),
        forall|j: int| i <= j < players.len() && found is None ==> !acceptable(q, #[trigger] players[j], exclude, context),
        found is Some ==> i <= found->0 < players.len() && acceptable(q, players[found->0], exclude, context)
            && forall|j: int| i <= j < found->0 ==> !acceptable(q, #[trigger] players[j], exclude, context),
    ensures
        first_acceptable(q, players, exclude, context, i) == found,
    decreases players.len() - i,
{
    if i < players.len() {
        if found is Some && found->0 == i {
        } else {
            lemma_first_acceptable(q, players, exclude, context, i + 1, found);
        }
    }
}

fn eq_opt(a: &Option<String>, b: &Option<String>) -> (r: bool)
    ensures
        r == (opt_view(*a) == opt_view(*b)),
{
    match a {
        Some(x) => match b {
            Some(y) => {
                let same = *x == *y;
                proof {
                    if same {
                        assert(opt_view(*a) == opt_view(*b));
                    } else {
                        assert(opt_view(*a)->0 != opt_view(*b)->0);
                    }
                }
                same
            },
            None => false,
        },
        None => b.is_none(),
    }
}

fn matches_query(q: &FindPlayerQuery, p: &Player) -> (r: bool)
    ensures
        r == query_matches(q@, *p),
{
    if !(q.last_name == p.last_name) {
        return false;
    }
    if q.nick_name.is_some() && !eq_opt(&q.nick_name, &p.nick_name) {
        return false;
    }
    match &q.first_name {
        None => true,
        Some(f) => {
            let same_first = *f == p.first_name;
            same_first || eq_opt(&q.first_name, &p.nick_name)
        },
    }
}

fn is_excluded(p: &Player, exclude: &[Player]) -> (r: bool)
    ensures
        r == excluded(*p, exclude@),
{
    let mut k: usize = 0;
    while k < exclude.len()
        invariant
            k <= exclude@.len(),
            forall|m: int| 0 <= m < k ==> exclude@[m].id != p.id,
        decreases exclude@.len() - k,
    {
        if exclude[k].id == p.id {
            return true;
        }
        k = k + 1;
    }
    false
}

pub(crate) fn push_all(out: &mut Vec<char>, s: &Vec<char>)
    ensures
        final(out)@ == old(out)@ + s@,
{
    let mut i: usize = 0;
    let ghost base = out@;
    while i < s.len()
        invariant
            i <= s@.len(),
            out@ == base + s@.subrange(0, i as int),
        decreases s@.len() - i,
    {
        out.push(s[i]);
        i = i + 1;
        assert(out@ =~= base + s@.subrange(0, i as int));
    }
    assert(s@.subrange(0, s@.len() as int) =~= s@);
}

/// The player's full name, as `full_name` gives it.
pub fn full_name_of(p: &Player) -> (r: Vec<char>)
    ensures
        r@ == full_name(*p),
{
    let mut r = chars_of(p.first_name.as_str());
    match &p.nick_name {
        Some(n) => {
            r.push(' ');
            r.push('(');
            push_all(&mut r, &chars_of(n.as_str()));
            r.push(')');
            r.push(' ');
        },
        None => {
            r.push(' ');
        },
    }
    push_all(&mut r, &chars_of(p.last_name.as_str()));
    assert(r@ =~= full_name(*p));
    r
}

/// Finds the player that a query names: the candidates are the players that answer the
/// query and are not in `exclude` (by id); of several, the first whose full name stands in
/// `context` is preferred, else the first candidate.
pub fn find_player<'a>(
    query: &FindPlayerQuery,
    players: &'a [Player],
    exclude: Option<&[Player]>,
    context: Option<&str>,
) -> (r: Option<&'a Player>)
    ensures
        ({
            let ex = match exclude {
                Some(e) => e@,
                None => Seq::<Player>::empty(),
            };
            let ctx = match context {
                Some(t) => Some(t@),
                None => None,
            };
            match find_player_spec(query@, players@, ex, ctx) {
                Some(i) => r is Some && 0 <= i < players@.len() && *r->0 == players@[i],
                None => r is None,
            }
        }),
{
    let empty: Vec<Player> = Vec::new();
    let ex: &[Player] = match exclude {
        Some(e) => e,
        None => empty.as_slice(),
    };
    let text: Option<Vec<char>> = match context {
        Some(t) => Some(chars_of(t)),
        None => None,
    };
    let ghost ctx = match context {
        Some(t) => Some(t@),
        None => None::<Seq<char>>,
    };
    let mut first: Option<usize> = None;
    let mut first_in_text: Option<usize> = None;
    let mut i: usize = 0;
    while i < players.len()
        invariant
            i <= players@.len(),
            ctx == match text {
                Some(t) => Some(t@),
                None => None::<Seq<char>>,
            },
            match first {
                Some(k) => k < i && acceptable(query@, players@[k as int], ex@, None) && forall|
                    j: int,
                | 0 <= j < k ==> !acceptable(query@, #[trigger] players@[j], ex@, None),
                None => forall|j: int|
                    0 <= j < i ==> !acceptable(query@, #[trigger] players@[j], ex@, None),
            },
            ctx is Some ==> match first_in_text {
                Some(k) => k < i && acceptable(query@, players@[k as int], ex@, ctx) && forall|
                    j: int,
                | 0 <= j < k ==> !acceptable(query@, #[trigger] players@[j], ex@, ctx),
                None => forall|j: int|
                    0 <= j < i ==> !acceptable(query@, #[trigger] players@[j], ex@, ctx),
            },
        decreases players@.len() - i,
    {
        let p = &players[i];
        if matches_query(query, p) && !is_excluded(p, ex) {
            if first.is_none() {
                first = Some(i);
            }
            match &text {
                Some(t) => {
                    if first_in_text.is_none() && contains(t, &full_name_of(p)) {
                        first_in_text = Some(i);
                    }
                },
                None => {},
            }
        }
        i = i + 1;
    }
    proof {
        let f1: Option<int> = match first {
            Some(k) => Some(k as int),
            None => None,
        };
        lemma_first_acceptable(query@, players@, ex@, None, 0, f1);
        if ctx is Some {
            let f2: Option<int> = match first_in_text {
                Some(k) => Some(k as int),
                None => None,
            };
            lemma_first_acceptable(query@, players@, ex@, ctx, 0, f2);
        }
    }
    match (&text, first_in_text) {
        (Some(_), Some(k)) => Some(&players[k]),
        _ => match first {
            Some(k) => Some(&players[k]),
            None => None,
        },
    }
}

} // verus!
