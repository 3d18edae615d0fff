//! The teams of an event, read from the entry cells of its bracket page.
use vstd::prelude::*;

use crate::error::ScrapeError;
use crate::names::{fragments_from, player_fragments};
use crate::roster::Player;
use crate::teams::{lemma_join_one, name_player_spec, players_named, players_of_names, views_of};
use crate::text::{chars_of, contains, contains_spec, join_range, join_spec, lemma_split_nonempty, slice_chars, split, split_spec, string_views, trim, trim_spec};

verus! {

/// The players that a cell's `Last, First` fragments name.
pub open spec fn cell_team(t: Seq<char>, players: Seq<Player>, source: Seq<char>) -> Seq<Player> {
    players_named(fragments_from(t, 0), players, source)
}

/// The players that a cell's `Last, First` fragments name, in order.
pub fn fragment_team(t: &Vec<char>, players: &[Player], source: &str) -> (r: Vec<Player>)
    ensures
        r@ == cell_team(t@, players@, source@),
{
    let frags = player_fragments(t);
    assert(views_of(frags@) =~= fragments_from(t@, 0));
    players_of_names(&frags, players, source)
}

/// The players that a cell of hyphen-joined last names names: one piece is one name; two
/// pieces are one hyphenated name where that names a player, else two names; of three
/// pieces, the hyphenated name may be the first two or the last two, and the reading that
/// names more players wins (the first on a tie); more pieces are two hyphenated names, of
/// the first two pieces and of the rest.
pub open spec fn hyphen_team(t: Seq<char>, players: Seq<Player>, source: Seq<char>) -> Seq<Player> {
    let parts = split_spec(t, '-');
    if parts.len() <= 1 {
        players_named(seq![t], players, source)
    } else if parts.len() == 2 {
        match name_player_spec(t, players, source) {
            Some(p) => seq![p],
            None => players_named(seq![parts[0], parts[1]], players, source),
        }
    } else if parts.len() == 3 {
        let a = players_named(seq![join_spec(parts.subrange(0, 2), '-'), parts[2]], players, source);
        let b = players_named(seq![parts[0], join_spec(parts.subrange(1, 3), '-')], players, source);
        if a.len() >= b.len() {
            a
        } else {
            b
        }
    } else {
        players_named(
            seq![
                join_spec(parts.subrange(0, 2), '-'),
                join_spec(parts.subrange(2, parts.len() as int), '-'),
            ],
            players,
            source,
        )
    }
}

/// The players of a cell of hyphen-joined last names, as `hyphen_team` reads it.
pub fn surname_team(t: &Vec<char>, players: &[Player], source: &str) -> (r: Vec<Player>)
    ensures
        r@ == hyphen_team(t@, players@, source@),
{
    let parts = split(t, '-');
    let ghost pv = split_spec(t@, '-');
    assert(views_of(parts@) =~= pv);
    proof {
        lemma_split_nonempty(t@, '-');
    }
    let n = parts.len();
    if n <= 1 {
        let names = vec![slice_chars(t, 0, t.len())];
        assert(t@.subrange(0, t@.len() as int) =~= t@);
        assert(views_of(names@) =~= seq![t@]);
        players_of_names(&names, players, source)
    } else if n == 2 {
        let whole = vec![slice_chars(t, 0, t.len())];
        assert(t@.subrange(0, t@.len() as int) =~= t@);
        assert(views_of(whole@) =~= seq![t@]);
        let found = players_of_names(&whole, players, source);
        proof {
            assert(seq![t@].drop_last() =~= Seq::<Seq<char>>::empty());
            assert(seq![t@].last() == t@);
            assert(players_named(Seq::<Seq<char>>::empty(), players@, source@) =~= Seq::<
                Player,
            >::empty());
            match name_player_spec(t@, players@, source@) {
                Some(p) => {
                    assert(found@ =~= seq![p]);
                },
                None => {
                    assert(found@.len() == 0);
                },
            }
        }
        if found.len() == 1 {
            found
        } else {
            let names = vec![join_range(&parts, 0, 1, '-'), join_range(&parts, 1, 2, '-')];
            proof {
                lemma_join_one(pv, 0);
                lemma_join_one(pv, 1);
                assert(parts@.subrange(0, 1).map_values(|p: Vec<char>| p@) =~= pv.subrange(0, 1));
                assert(parts@.subrange(1, 2).map_values(|p: Vec<char>| p@) =~= pv.subrange(1, 2));
                assert(views_of(names@) =~= seq![pv[0], pv[1]]);
            }
            players_of_names(&names, players, source)
        }
    } else if n == 3 {
        let a_names = vec![join_range(&parts, 0, 2, '-'), join_range(&parts, 2, 3, '-')];
        let b_names = vec![join_range(&parts, 0, 1, '-'), join_range(&parts, 1, 3, '-')];
        proof {
            lemma_join_one(pv, 0);
            lemma_join_one(pv, 2);
            assert(parts@.subrange(0, 1).map_values(|p: Vec<char>| p@) =~= pv.subrange(0, 1));
            assert(parts@.subrange(0, 2).map_values(|p: Vec<char>| p@) =~= pv.subrange(0, 2));
            assert(parts@.subrange(1, 3).map_values(|p: Vec<char>| p@) =~= pv.subrange(1, 3));
            assert(parts@.subrange(2, 3).map_values(|p: Vec<char>| p@) =~= pv.subrange(2, 3));
            assert(views_of(a_names@) =~= seq![join_spec(pv.subrange(0, 2), '-'), pv[2]]);
            assert(views_of(b_names@) =~= seq![pv[0], join_spec(pv.subrange(1, 3), '-')]);
        }
        let a = players_of_names(&a_names, players, source);
        let b = players_of_names(&b_names, players, source);
        if a.len() >= b.len() {
            a
        } else {
            b
        }
    } else {
        let names = vec![join_range(&parts, 0, 2, '-'), join_range(&parts, 2, n, '-')];
        proof {
            assert(parts@.subrange(0, 2).map_values(|p: Vec<char>| p@) =~= pv.subrange(0, 2));
            assert(parts@.subrange(2, n as int).map_values(|p: Vec<char>| p@) =~= pv.subrange(
                2,
                pv.len() as int,
            ));
            assert(views_of(names@) =~= seq![
                join_spec(pv.subrange(0, 2), '-'),
                join_spec(pv.subrange(2, pv.len() as int), '-'),
            ]);
        }
        players_of_names(&names, players, source)
    }
}

pub open spec fn team_views(teams: Seq<Vec<Player>>) -> Seq<Seq<Player>> {
    teams.map_values(|t: Vec<Player>| t@)
}

/// The non-empty teams that the cells' fragments name, in order.
pub open spec fn fragment_teams(cells: Seq<Seq<char>>, players: Seq<Player>, source: Seq<char>) -> Seq<
    Seq<Player>,
>
    decreases cells.len(),
{
    if cells.len() == 0 {
        Seq::empty()
    } else {
        let rest = fragment_teams(cells.drop_last(), players, source);
        let t = cell_team(cells.last(), players, source);
        if t.len() > 0 {
            rest.push(t)
        } else {
            rest
        }
    }
}

/// A row of a pool's totals rather than of a team.
pub open spec fn is_summary(t: Seq<char>) -> bool {
    contains_spec(t, "Matches Won"@) || contains_spec(t, "Point Differential"@)
}

/// The non-empty teams that the cells name as hyphen-joined last names, skipping the rows
/// of totals.
pub open spec fn hyphen_teams(cells: Seq<Seq<char>>, players: Seq<Player>, source: Seq<char>) -> Seq<
    Seq<Player>,
>
    decreases cells.len(),
{
    if cells.len() == 0 {
        Seq::empty()
    } else {
        let rest = hyphen_teams(cells.drop_last(), players, source);
        let t = hyphen_team(cells.last(), players, source);
        if !is_summary(cells.last()) && t.len() > 0 {
            rest.push(t)
        } else {
            rest
        }
    }
}

/// The teams of a round-robin pool, from the cell that names each pool row's team: read as
/// `Last, First` fragments; where no row yields a team that way, read as hyphen-joined last
/// names.
pub open spec fn round_robin_teams_spec(cells: Seq<Seq<char>>, players: Seq<Player>, source: Seq<
    char,
>) -> Seq<Seq<Player>> {
    let by_fragments = fragment_teams(cells, players, source);
    if by_fragments.len() > 0 {
        by_fragments
    } else {
        hyphen_teams(cells, players, source)
    }
}

/// The cell that names a pool row's team: the second of the row.
pub open spec fn pool_cells(rows: Seq<Vec<String>>) -> Seq<Seq<char>> {
    rows.map_values(|r: Vec<String>| r@[1]@)
}

/// The teams of a round-robin pool from its rows below the two heading rows, each row given
/// as its cells' text. A row with fewer than two cells is a layout this reader does not know.
pub fn round_robin_team_list(rows: &Vec<Vec<String>>, players: &[Player], source: &str) -> (r:
    Result<Vec<Vec<Player>>, ScrapeError>)
    ensures
        (exists|k: int| 0 <= k < rows@.len() && #[trigger] rows@[k]@.len() < 2) <==> r is Err,
        r matches Ok(teams) ==> team_views(teams@) == round_robin_teams_spec(
            pool_cells(rows@),
            players@,
            source@,
        ),
{
    let mut cells: Vec<Vec<char>> = Vec::new();
    let mut i: usize = 0;
    while i < rows.len()
        invariant
            i <= rows@.len(),
            forall|k: int| 0 <= k < i ==> #[trigger] rows@[k]@.len() >= 2,
            views_of(cells@) == pool_cells(rows@.subrange(0, i as int)),
        decreases rows@.len() - i,
    {
        if rows[i].len() < 2 {
            return Err(ScrapeError::from_str("unexpected round-robin layout"));
        }
        let ghost before = views_of(cells@);
        let cell = chars_of(rows[i][1].as_str());
        cells.push(cell);
        assert(views_of(cells@) =~= before.push(rows@[i as int]@[1]@));
        assert(pool_cells(rows@.subrange(0, i + 1)) =~= pool_cells(rows@.subrange(0, i as int)).push(
            rows@[i as int]@[1]@,
        ));
        i = i + 1;
    }
    assert(rows@.subrange(0, rows@.len() as int) =~= rows@);
    let ghost cv = views_of(cells@);
    let mut teams: Vec<Vec<Player>> = Vec::new();
    let mut j: usize = 0;
    while j < cells.len()
        invariant
            j <= cells@.len(),
            cv == views_of(cells@),
            team_views(teams@) == fragment_teams(cv.subrange(0, j as int), players@, source@),
        decreases cells@.len() - j,
    {
        assert(cv.subrange(0, j + 1).drop_last() =~= cv.subrange(0, j as int));
        let t = fragment_team(&cells[j], players, source);
        if t.len() > 0 {
            let ghost before = teams@;
            teams.push(t);
            assert(team_views(teams@) =~= team_views(before).push(t@));
        }
        j = j + 1;
    }
    assert(cv.subrange(0, cv.len() as int) =~= cv);
    if teams.len() > 0 {
        return Ok(teams);
    }
    let won = chars_of("Matches Won");
    let differential = chars_of("Point Differential");
    let mut fallback: Vec<Vec<Player>> = Vec::new();
    let mut j: usize = 0;
    while j < cells.len()
        invariant
            j <= cells@.len(),
            cv == views_of(cells@),
            won@ == "Matches Won"@,
            differential@ == "Point Differential"@,
            team_views(fallback@) == hyphen_teams(cv.subrange(0, j as int), players@, source@),
        decreases cells@.len() - j,
    {
        assert(cv.subrange(0, j + 1).drop_last() =~= cv.subrange(0, j as int));
        let summary = contains(&cells[j], &won) || contains(&cells[j], &differential);
        let t = surname_team(&cells[j], players, source);
        if !summary && t.len() > 0 {
            let ghost before = fallback@;
            fallback.push(t);
            assert(team_views(fallback@) =~= team_views(before).push(t@));
        }
        j = j + 1;
    }
    Ok(fallback)
}

/// The text of a double-elimination entry row that names its team: the first cell, or, for
/// a `(bye)`, the second; `None` where that cell is missing or empty.
pub open spec fn entry_text(row: Seq<String>) -> Option<Seq<char>> {
    if row.len() == 0 || row[0]@.len() == 0 {
        None
    } else if row[0]@ == "(bye)"@ {
        if row.len() >= 2 && row[1]@.len() > 0 {
            Some(row[1]@)
        } else {
            None
        }
    } else {
        Some(row[0]@)
    }
}

/// The non-empty teams that the entry rows name, in order.
pub open spec fn entry_teams(rows: Seq<Vec<String>>, players: Seq<Player>, source: Seq<char>) -> Seq<
    Seq<Player>,
>
    decreases rows.len(),
{
    if rows.len() == 0 {
        Seq::empty()
    } else {
        let rest = entry_teams(rows.drop_last(), players, source);
        match entry_text(rows.last()@) {
            Some(t) => {
                let team = cell_team(t, players, source);
                if team.len() > 0 {
                    rest.push(team)
                } else {
                    rest
                }
            },
            None => rest,
        }
    }
}

fn entry_text_exec(row: &Vec<String>) -> (r: Option<Vec<char>>)
    ensures
        match entry_text(row@) {
            Some(t) => r is Some && r->0@ == t,
            None => r is None,
        },
{
    if row.len() == 0 {
        return None;
    }
    let first = chars_of(row[0].as_str());
    if first.len() == 0 {
        return None;
    }
    let bye = chars_of("(bye)");
    let mut same = first.len() == bye.len();
    let mut k: usize = 0;
    while same && k < first.len()
        invariant
            k <= first@.len(),
            same ==> first@.len() == bye@.len(),
            same ==> forall|m: int| 0 <= m < k ==> first@[m] == bye@[m],
            !same ==> first@ != bye@,
        decreases first@.len() - k,
    {
        if first[k] != bye[k] {
            same = false;
        }
        k = k + 1;
    }
    if same {
        assert(first@ =~= bye@);
        if row.len() >= 2 {
            let second = chars_of(row[1].as_str());
            if second.len() > 0 {
                return Some(second);
            }
        }
        None
    } else {
        Some(first)
    }
}

/// The teams of a double-elimination bracket from its entry rows (each row given as its
/// cells' text), as `entry_teams` reads them.
pub fn double_elim_team_list(rows: &Vec<Vec<String>>, players: &[Player], source: &str) -> (r: Vec<
    Vec<Player>,
>)
    ensures
        team_views(r@) == entry_teams(rows@, players@, source@),
{
    let mut teams: Vec<Vec<Player>> = Vec::new();
    let mut i: usize = 0;
    while i < rows.len()
        invariant
            i <= rows@.len(),
            team_views(teams@) == entry_teams(rows@.subrange(0, i as int), players@, source@),
        decreases rows@.len() - i,
    {
        assert(rows@.subrange(0, i + 1).drop_last() =~= rows@.subrange(0, i as int));
        match entry_text_exec(&rows[i]) {
            Some(t) => {
                let team = fragment_team(&t, players, source);
                if team.len() > 0 {
                    let ghost before = teams@;
                    teams.push(team);
                    assert(team_views(teams@) =~= team_views(before).push(team@));
                }
            },
            None => {},
        }
        i = i + 1;
    }
    assert(rows@.subrange(0, rows@.len() as int) =~= rows@);
    teams
}

} // verus!

verus! {

/// The pieces of `s` between slashes that are not blank.
pub open spec fn nonblank_pieces(pieces: Seq<Seq<char>>) -> Seq<Seq<char>>
    decreases pieces.len(),
{
    if pieces.len() == 0 {
        Seq::empty()
    } else {
        let rest = nonblank_pieces(pieces.drop_last());
        if trim_spec(pieces.last()).len() > 0 {
            rest.push(pieces.last())
        } else {
            rest
        }
    }
}

/// The players of a team written as names separated by slashes, blank pieces left out.
pub open spec fn slash_team(t: Seq<char>, players: Seq<Player>, source: Seq<char>) -> Seq<Player> {
    players_named(nonblank_pieces(split_spec(t, '/')), players, source)
}

/// The players of a team written as names separated by slashes, as `slash_team` reads them.
pub fn slash_separated_team(t: &str, players: &[Player], source: &str) -> (r: Vec<Player>)
    ensures
        r@ == slash_team(t@, players@, source@),
{
    let pieces = split(&chars_of(t), '/');
    let ghost pv = split_spec(t@, '/');
    assert(views_of(pieces@) =~= pv);
    let mut kept: Vec<Vec<char>> = Vec::new();
    let mut i: usize = 0;
    while i < pieces.len()
        invariant
            i <= pieces@.len(),
            views_of(pieces@) == pv,
            views_of(kept@) == nonblank_pieces(pv.subrange(0, i as int)),
        decreases pieces@.len() - i,
    {
        assert(pv.subrange(0, i + 1).drop_last() =~= pv.subrange(0, i as int));
        assert(pv[i as int] == pieces@[i as int]@);
        if trim(&pieces[i]).len() > 0 {
            let ghost before = views_of(kept@);
            kept.push(slice_chars(&pieces[i], 0, pieces[i].len()));
            assert(pieces@[i as int]@.subrange(0, pieces@[i as int]@.len() as int) =~= pieces@[
                i as int
            ]@);
            assert(views_of(kept@) =~= before.push(pv[i as int]));
        }
        i = i + 1;
    }
    assert(pv.subrange(0, pv.len() as int) =~= pv);
    players_of_names(&kept, players, source)
}

/// The players that the names of a team block stand for, in order.
pub fn block_team(names: &Vec<String>, players: &[Player], source: &str) -> (r: Vec<Player>)
    ensures
        r@ == players_named(string_views(names@), players@, source@),
{
    let mut cs: Vec<Vec<char>> = Vec::new();
    let mut i: usize = 0;
    while i < names.len()
        invariant
            i <= names@.len(),
            views_of(cs@) == string_views(names@.subrange(0, i as int)),
        decreases names@.len() - i,
    {
        let ghost before = views_of(cs@);
        cs.push(chars_of(names[i].as_str()));
        assert(views_of(cs@) =~= before.push(names@[i as int]@));
        assert(string_views(names@.subrange(0, i + 1)) =~= string_views(names@.subrange(0, i as int)).push(
            names@[i as int]@,
        ));
        i = i + 1;
    }
    assert(names@.subrange(0, names@.len() as int) =~= names@);
    players_of_names(&cs, players, source)
}

} // verus!

verus! {

/// The non-empty teams of a page's team blocks, each block given as the names it lists.
pub open spec fn block_teams_spec(blocks: Seq<Vec<String>>, players: Seq<Player>, source: Seq<char>) -> Seq<
    Seq<Player>,
>
    decreases blocks.len(),
{
    if blocks.len() == 0 {
        Seq::empty()
    } else {
        let rest = block_teams_spec(blocks.drop_last(), players, source);
        let t = players_named(string_views(blocks.last()@), players, source);
        if t.len() > 0 {
            rest.push(t)
        } else {
            rest
        }
    }
}

/// The non-empty teams of a page's team blocks, as `block_teams_spec` reads them.
pub fn block_teams(blocks: &Vec<Vec<String>>, players: &[Player], source: &str) -> (r: Vec<Vec<Player>>)
    ensures
        team_views(r@) == block_teams_spec(blocks@, players@, source@),
{
    let mut teams: Vec<Vec<Player>> = Vec::new();
    let mut i: usize = 0;
    while i < blocks.len()
        invariant
            i <= blocks@.len(),
            team_views(teams@) == block_teams_spec(blocks@.subrange(0, i as int), players@, source@),
        decreases blocks@.len() - i,
    {
        assert(blocks@.subrange(0, i + 1).drop_last() =~= blocks@.subrange(0, i as int));
        let t = block_team(&blocks[i], players, source);
        if t.len() > 0 {
            let ghost before = teams@;
            teams.push(t);
            assert(team_views(teams@) =~= team_views(before).push(t@));
        }
        i = i + 1;
    }
    assert(blocks@.subrange(0, blocks@.len() as int) =~= blocks@);
    teams
}

} // verus!
