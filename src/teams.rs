//! Resolution of the free text of bracket and roster cells to known players and teams.
use vstd::prelude::*;

use crate::names::{fragments_from, name_query_of, player_fragments, query_of_chars, sanitize_chars, sanitize_spec};
use crate::roster::{find_player, find_player_spec, last_name_query, FindPlayerQuery, Player, QuerySpec};
use crate::text::{chars_of, join_range, join_spec, split, split_spec, lemma_split_nonempty};

verus! {

/// The query that a name asks for once each `&nbsp;` is a space.
pub open spec fn name_query(name: Seq<char>) -> Option<QuerySpec> {
    name_query_of(sanitize_spec(name))
}

/// The player that a name written on a page stands for, among `players`, with the page's
/// text `source` to tell namesakes apart.
pub open spec fn name_player_spec(name: Seq<char>, players: Seq<Player>, source: Seq<char>) -> Option<
    Player,
> {
    match name_query(name) {
        Some(q) => match find_player_spec(q, players, Seq::empty(), Some(source)) {
            Some(i) => Some(players[i]),
            None => None,
        },
        None => None,
    }
}

/// The player that a name written on a page stands for, as `name_player_spec` says.
pub fn name_to_player(name: &str, players: &[Player], source: &str) -> (r: Option<Player>)
    ensures
        r == name_player_spec(name@, players@, source@),
{
    let chars = chars_of(name);
    name_chars_to_player(&chars, players, source)
}

fn name_chars_to_player(name: &Vec<char>, players: &[Player], source: &str) -> (r: Option<Player>)
    ensures
        r == name_player_spec(name@, players@, source@),
{
    match query_of_chars(&sanitize_chars(name)) {
        Some(q) => match find_player(&q, players, None, Some(source)) {
            Some(p) => Some(p.duplicate()),
            None => None,
        },
        None => None,
    }
}

/// The players that the names stand for, in order, leaving out names that stand for nobody.
pub open spec fn players_named(names: Seq<Seq<char>>, players: Seq<Player>, source: Seq<char>) -> Seq<
    Player,
>
    decreases names.len(),
{
    if names.len() == 0 {
        Seq::empty()
    } else {
        let rest = players_named(names.drop_last(), players, source);
        match name_player_spec(names.last(), players, source) {
            Some(p) => rest.push(p),
            None => rest,
        }
    }
}

pub open spec fn views_of(v: Seq<Vec<char>>) -> Seq<Seq<char>> {
    v.map_values(|c: Vec<char>| c@)
}

/// The players that the names stand for, in order.
pub fn players_of_names(names: &Vec<Vec<char>>, players: &[Player], source: &str) -> (r: Vec<Player>)
    ensures
        r@ == players_named(views_of(names@), players@, source@),
{
    let ghost all = views_of(names@);
    let mut r: Vec<Player> = Vec::new();
    let mut i: usize = 0;
    while i < names.len()
        invariant
            i <= names@.len(),
            all == views_of(names@),
            r@ == players_named(all.subrange(0, i as int), players@, source@),
        decreases names@.len() - i,
    {
        assert(all.subrange(0, i + 1).drop_last() =~= all.subrange(0, i as int));
        match name_chars_to_player(&names[i], players, source) {
            Some(p) => r.push(p),
            None => {},
        }
        i = i + 1;
    }
    assert(all.subrange(0, names@.len() as int) =~= all);
    r
}

/// The queries of the names, leaving out those that ask for nothing.
pub open spec fn queries_of(names: Seq<Seq<char>>) -> Seq<QuerySpec>
    decreases names.len(),
{
    if names.len() == 0 {
        Seq::empty()
    } else {
        let rest = queries_of(names.drop_last());
        match name_query(names.last()) {
            Some(q) => rest.push(q),
            None => rest,
        }
    }
}

/// Each query in turn finds a player of `team` not yet found.
pub open spec fn team_accepts(queries: Seq<QuerySpec>, team: Seq<Player>, found: Seq<Player>) -> bool
    decreases queries.len(),
{
    if queries.len() == 0 {
        true
    } else {
        match find_player_spec(queries[0], team, found, None) {
            Some(i) => team_accepts(queries.drop_first(), team, found.push(team[i])),
            None => false,
        }
    }
}

/// The team has one player for each query, and the queries find them all, one each.
pub open spec fn team_fits(queries: Seq<QuerySpec>, team: Seq<Player>) -> bool {
    team.len() == queries.len() && team_accepts(queries, team, Seq::empty())
}

/// The first index at or after `i` of a team that the queries fit.
pub open spec fn first_team_from(queries: Seq<QuerySpec>, teams: Seq<Vec<Player>>, i: int) -> Option<int>
    decreases teams.len() - i,
{
    if i < 0 || i >= teams.len() {
        None
    } else if team_fits(queries, teams[i]@) {
        Some(i)
    } else {
        first_team_from(queries, teams, i + 1)
    }
}

pub open spec fn query_views(queries: Seq<FindPlayerQuery>) -> Seq<QuerySpec> {
    queries.map_values(|q: FindPlayerQuery| q@)
}

fn team_fits_exec(queries: &Vec<FindPlayerQuery>, team: &Vec<Player>) -> (r: bool)
    ensures
        r == team_fits(query_views(queries@), team@),
{
    let ghost qs = query_views(queries@);
    if team.len() != queries.len() {
        return false;
    }
    let mut found: Vec<Player> = Vec::new();
    let mut k: usize = 0;
    assert(qs.subrange(0, qs.len() as int) =~= qs);
    assert(found@ =~= Seq::<Player>::empty());
    while k < queries.len()
        invariant
            k <= queries@.len(),
            qs == query_views(queries@),
            team_accepts(qs, team@, Seq::empty()) == team_accepts(
                qs.subrange(k as int, qs.len() as int),
                team@,
                found@,
            ),
        decreases queries@.len() - k,
    {
        let ghost rest = qs.subrange(k as int, qs.len() as int);
        assert(rest[0] == queries@[k as int]@);
        assert(rest.drop_first() =~= qs.subrange(k + 1, qs.len() as int));
        match find_player(&queries[k], team.as_slice(), Some(found.as_slice()), None) {
            Some(p) => {
                found.push(p.duplicate());
            },
            None => {
                return false;
            },
        }
        k = k + 1;
    }
    assert(qs.subrange(qs.len() as int, qs.len() as int) =~= Seq::<QuerySpec>::empty());
    true
}

/// The index of the first team that the queries fit.
pub fn query_teams(queries: &Vec<FindPlayerQuery>, teams: &[Vec<Player>]) -> (r: Option<usize>)
    ensures
        match first_team_from(query_views(queries@), teams@, 0) {
            Some(i) => r == Some(i as usize),
            None => r is None,
        },
{
    let ghost qs = query_views(queries@);
    let mut i: usize = 0;
    while i < teams.len()
        invariant
            i <= teams@.len(),
            qs == query_views(queries@),
            first_team_from(qs, teams@, 0) == first_team_from(qs, teams@, i as int),
        decreases teams@.len() - i,
    {
        if team_fits_exec(queries, &teams[i]) {
            return Some(i);
        }
        i = i + 1;
    }
    None
}

pub open spec fn either(a: Option<int>, b: Option<int>) -> Option<int> {
    match a {
        Some(i) => Some(i),
        None => b,
    }
}

/// The team that a cell's text names, among `teams`. Text with `Last, First` fragments is
/// read as one query per fragment. Text without them is read as hyphen-joined last names:
/// one piece is one name; two pieces are first tried as one hyphenated name, then as two
/// names; three pieces as a hyphenated name and a plain one, in either order; more as two
/// hyphenated names of two and of the rest of the pieces.
pub open spec fn resolve_team_spec(text: Seq<char>, teams: Seq<Vec<Player>>) -> Option<int> {
    let frags = fragments_from(text, 0);
    if frags.len() > 0 {
        let qs = queries_of(frags);
        if qs.len() == 0 {
            None
        } else {
            first_team_from(qs, teams, 0)
        }
    } else {
        let parts = split_spec(text, '-');
        if parts.len() == 1 {
            first_team_from(seq![last_name_query(parts[0])], teams, 0)
        } else if parts.len() == 2 {
            either(
                first_team_from(seq![last_name_query(text)], teams, 0),
                first_team_from(
                    seq![last_name_query(parts[0]), last_name_query(parts[1])],
                    teams,
                    0,
                ),
            )
        } else if parts.len() == 3 {
            either(
                first_team_from(
                    seq![
                        last_name_query(join_spec(parts.subrange(0, 2), '-')),
                        last_name_query(parts[2]),
                    ],
                    teams,
                    0,
                ),
                first_team_from(
                    seq![
                        last_name_query(parts[0]),
                        last_name_query(join_spec(parts.subrange(1, 3), '-')),
                    ],
                    teams,
                    0,
                ),
            )
        } else {
            first_team_from(
                seq![
                    last_name_query(join_spec(parts.subrange(0, 2), '-')),
                    last_name_query(join_spec(parts.subrange(2, parts.len() as int), '-')),
                ],
                teams,
                0,
            )
        }
    }
}

fn last_queries(names: Vec<Vec<char>>) -> (r: Vec<FindPlayerQuery>)
    ensures
        r@.len() == names@.len(),
        forall|k: int| 0 <= k < names@.len() ==> #[trigger] r@[k]@ == last_name_query(names@[k]@),
{
    let mut r: Vec<FindPlayerQuery> = Vec::new();
    let mut i: usize = 0;
    while i < names.len()
        invariant
            i <= names@.len(),
            r@.len() == i,
            forall|k: int| 0 <= k < i ==> #[trigger] r@[k]@ == last_name_query(names@[k]@),
        decreases names@.len() - i,
    {
        r.push(FindPlayerQuery::from_last_chars(&names[i]));
        i = i + 1;
    }
    r
}

fn teams_for_last_names(names: Vec<Vec<char>>, teams: &[Vec<Player>]) -> (r: Option<usize>)
    ensures
        match first_team_from(
            views_of(names@).map_values(|s: Seq<char>| last_name_query(s)),
            teams@,
            0,
        ) {
            Some(i) => r == Some(i as usize),
            None => r is None,
        },
{
    let ghost views = views_of(names@).map_values(|s: Seq<char>| last_name_query(s));
    let queries = last_queries(names);
    assert(query_views(queries@) =~= views);
    query_teams(&queries, teams)
}

/// The team that a cell's text names, as `resolve_team_spec` reads it.
pub fn resolve_team<'a>(text: &str, teams: &'a [Vec<Player>]) -> (r: Option<&'a Vec<Player>>)
    ensures
        match resolve_team_spec(text@, teams@) {
            Some(i) => r is Some && 0 <= i < teams@.len() && *r->0 == teams@[i],
            None => r is None,
        },
{
    match resolve_team_index(text, teams) {
        Some(i) => Some(&teams[i]),
        None => None,
    }
}

/// The index of the team that a cell's text names, as `resolve_team_spec` reads it.
pub fn resolve_team_index(text: &str, teams: &[Vec<Player>]) -> (r: Option<usize>)
    ensures
        match resolve_team_spec(text@, teams@) {
            Some(i) => r == Some(i as usize) && 0 <= i < teams@.len(),
            None => r is None,
        },
{
    let s = chars_of(text);
    let frags = player_fragments(&s);
    let ghost fv = fragments_from(s@, 0);
    if frags.len() > 0 {
        let mut queries: Vec<FindPlayerQuery> = Vec::new();
        let mut i: usize = 0;
        while i < frags.len()
            invariant
                i <= frags@.len(),
                frags@.len() == fv.len(),
                forall|k: int| 0 <= k < frags@.len() ==> #[trigger] frags@[k]@ == fv[k],
                query_views(queries@) == queries_of(fv.subrange(0, i as int)),
            decreases frags@.len() - i,
        {
            assert(fv.subrange(0, i + 1).drop_last() =~= fv.subrange(0, i as int));
            let ghost before = queries@;
            match query_of_chars(&sanitize_chars(&frags[i])) {
                Some(q) => {
                    queries.push(q);
                    assert(query_views(queries@) =~= query_views(before).push(q@));
                },
                None => {},
            }
            i = i + 1;
        }
        assert(fv.subrange(0, fv.len() as int) =~= fv);
        if queries.len() == 0 {
            return None;
        }
        proof {
            lemma_first_team_bound(query_views(queries@), teams@, 0);
        }
        return query_teams(&queries, teams);
    }
    let parts = split(&s, '-');
    let ghost pv = split_spec(s@, '-');
    assert(views_of(parts@) =~= pv);
    proof {
        lemma_split_nonempty(s@, '-');
    }
    let n = parts.len();
    if n == 1 {
        let names = vec![s];
        proof {
            assert(pv[0] == s@) by {
                lemma_single_piece(s@, '-');
            }
            assert(views_of(names@).map_values(|x: Seq<char>| last_name_query(x)) =~= seq![
                last_name_query(pv[0]),
            ]);
            lemma_first_team_bound(seq![last_name_query(pv[0])], teams@, 0);
        }
        teams_for_last_names(names, teams)
    } else if n == 2 {
        let whole = vec![s];
        proof {
            assert(views_of(whole@).map_values(|x: Seq<char>| last_name_query(x)) =~= seq![
                last_name_query(s@),
            ]);
            lemma_first_team_bound(seq![last_name_query(s@)], teams@, 0);
        }
        match teams_for_last_names(whole, teams) {
            Some(i) => Some(i),
            None => {
                let names = vec![
                    join_range(&parts, 0, 1, '-'),
                    join_range(&parts, 1, 2, '-'),
                ];
                proof {
                    lemma_join_one(pv, 0);
                    lemma_join_one(pv, 1);
                    assert(parts@.subrange(0, 1).map_values(|p: Vec<char>| p@) =~= pv.subrange(0, 1));
                    assert(parts@.subrange(1, 2).map_values(|p: Vec<char>| p@) =~= pv.subrange(1, 2));
                    assert(views_of(names@).map_values(|x: Seq<char>| last_name_query(x)) =~= seq![
                        last_name_query(pv[0]),
                        last_name_query(pv[1]),
                    ]);
                    lemma_first_team_bound(
                        seq![last_name_query(pv[0]), last_name_query(pv[1])],
                        teams@,
                        0,
                    );
                }
                teams_for_last_names(names, teams)
            },
        }
    } else if n == 3 {
        let a = vec![join_range(&parts, 0, 2, '-'), join_range(&parts, 2, 3, '-')];
        proof {
            lemma_join_one(pv, 2);
            assert(parts@.subrange(0, 2).map_values(|p: Vec<char>| p@) =~= pv.subrange(0, 2));
            assert(parts@.subrange(2, 3).map_values(|p: Vec<char>| p@) =~= pv.subrange(2, 3));
            assert(views_of(a@).map_values(|x: Seq<char>| last_name_query(x)) =~= seq![
                last_name_query(join_spec(pv.subrange(0, 2), '-')),
                last_name_query(pv[2]),
            ]);
            lemma_first_team_bound(
                seq![
                    last_name_query(join_spec(pv.subrange(0, 2), '-')),
                    last_name_query(pv[2]),
                ],
                teams@,
                0,
            );
        }
        match teams_for_last_names(a, teams) {
            Some(i) => Some(i),
            None => {
                let b = vec![join_range(&parts, 0, 1, '-'), join_range(&parts, 1, 3, '-')];
                proof {
                    lemma_join_one(pv, 0);
                    assert(parts@.subrange(0, 1).map_values(|p: Vec<char>| p@) =~= pv.subrange(0, 1));
                    assert(parts@.subrange(1, 3).map_values(|p: Vec<char>| p@) =~= pv.subrange(1, 3));
                    assert(views_of(b@).map_values(|x: Seq<char>| last_name_query(x)) =~= seq![
                        last_name_query(pv[0]),
                        last_name_query(join_spec(pv.subrange(1, 3), '-')),
                    ]);
                    lemma_first_team_bound(
                        seq![
                            last_name_query(pv[0]),
                            last_name_query(join_spec(pv.subrange(1, 3), '-')),
                        ],
                        teams@,
                        0,
                    );
                }
                teams_for_last_names(b, teams)
            },
        }
    } else {
        let c = vec![join_range(&parts, 0, 2, '-'), join_range(&parts, 2, n, '-')];
        proof {
            assert(parts@.subrange(0, 2).map_values(|p: Vec<char>| p@) =~= pv.subrange(0, 2));
            assert(parts@.subrange(2, n as int).map_values(|p: Vec<char>| p@) =~= pv.subrange(
                2,
                pv.len() as int,
            ));
            assert(views_of(c@).map_values(|x: Seq<char>| last_name_query(x)) =~= seq![
                last_name_query(join_spec(pv.subrange(0, 2), '-')),
                last_name_query(join_spec(pv.subrange(2, pv.len() as int), '-')),
            ]);
            lemma_first_team_bound(
                seq![
                    last_name_query(join_spec(pv.subrange(0, 2), '-')),
                    last_name_query(join_spec(pv.subrange(2, pv.len() as int), '-')),
                ],
                teams@,
                0,
            );
        }
        teams_for_last_names(c, teams)
    }
}

proof fn lemma_first_team_bound(queries: Seq<QuerySpec>, teams: Seq<Vec<Player>>, i: int)
    requires
        0 <= i,
    ensures
        first_team_from(queries, teams, i) matches Some(k) ==> i <= k < teams.len(),
    decreases teams.len() - i,
{
    if i < teams.len() {
        lemma_first_team_bound(queries, teams, i + 1);
    }
}

pub(crate) proof fn lemma_join_one(parts: Seq<Seq<char>>, i: int)
    requires
        0 <= i < parts.len(),
    ensures
        join_spec(parts.subrange(i, i + 1), '-') == parts[i],
{
    assert(parts.subrange(i, i + 1).len() == 1);
}

proof fn lemma_single_piece(s: Seq<char>, sep: char)
    requires
        split_spec(s, sep).len() == 1,
    ensures
        split_spec(s, sep)[0] == s,
    decreases s.len(),
{
    if s.len() > 0 {
        lemma_split_nonempty(s.drop_last(), sep);
        let rest = split_spec(s.drop_last(), sep);
        if s.last() == sep {
        } else {
            lemma_single_piece(s.drop_last(), sep);
            assert(s.drop_last().push(s.last()) =~= s);
        }
    }
}

} // verus!

verus! {

/// Text with `Last, First` fragments is resolved by its fragments alone: the readings of
/// hyphen-joined last names are not tried.
pub proof fn lemma_fragments_decide(text: Seq<char>, teams: Seq<Vec<Player>>)
    requires
        fragments_from(text, 0).len() > 0,
    ensures
        resolve_team_spec(text, teams) == (if queries_of(fragments_from(text, 0)).len() == 0 {
            None
        } else {
            first_team_from(queries_of(fragments_from(text, 0)), teams, 0)
        }),
{
}

/// Two hyphen-joined pieces are first read as one hyphenated last name: where that names a
/// team, that team is the answer, whatever the two names apart would name.
pub proof fn lemma_unsplit_preferred(text: Seq<char>, teams: Seq<Vec<Player>>, i: int)
    requires
        fragments_from(text, 0).len() == 0,
        split_spec(text, '-').len() == 2,
        first_team_from(seq![last_name_query(text)], teams, 0) == Some(i),
    ensures
        resolve_team_spec(text, teams) == Some(i),
{
}

} // verus!
