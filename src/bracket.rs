//! Brackets of an event: the format of a bracket page and the matches read from its tables.
use vstd::prelude::*;

use crate::error::ScrapeError;
use crate::grid::{BracketGrid, BracketNode};
use crate::matches::{label_number, parse_label, BracketMatch};
use crate::roster::Player;

verus! {

/// The bracket of an event: the matches of a double-elimination bracket, one per section
/// (each the section's final), or the pools of a round robin, each a list of matches.
pub enum Bracket {
    DoubleElim(Vec<BracketMatch>),
    RoundRobin(Vec<Vec<BracketMatch>>),
}

impl Default for Bracket {
    /// An empty round robin.
    fn default() -> (r: Bracket)
        ensures
            r matches Bracket::RoundRobin(pools) && pools@.len() == 0,
    {
        Bracket::RoundRobin(Vec::new())
    }
}

/// A page lays out a round robin where its header row's cells are all empty; any other
/// layout, or a page without such a row, is a double-elimination bracket.
pub open spec fn round_robin_spec(header: Option<Seq<String>>) -> bool {
    match header {
        Some(cells) => all_empty(cells),
        None => false,
    }
}

/// Every cell is empty.
pub open spec fn all_empty(cells: Seq<String>) -> bool {
    forall|k: int| 0 <= k < cells.len() ==> (#[trigger] cells[k])@.len() == 0
}

/// Whether a page lays out a round robin, from the cells of its header row (`None` where the
/// page has no such row).
pub fn is_round_robin(header: Option<&Vec<String>>) -> (r: bool)
    ensures
        r == round_robin_spec(
            match header {
                Some(h) => Some(h@),
                None => None,
            },
        ),
{
    match header {
        None => false,
        Some(cells) => {
            let mut k: usize = 0;
            while k < cells.len()
                invariant
                    header == Some(cells),
                    k <= cells@.len(),
                    forall|m: int| 0 <= m < k ==> (#[trigger] cells@[m])@.len() == 0,
                decreases cells@.len() - k,
            {
                if !cells[k].as_str().is_empty() {
                    assert(cells@[k as int]@.len() != 0);
                    assert(!all_empty(cells@));
                    return false;
                }
                k = k + 1;
            }
            true
        },
    }
}

/// (r1, c1) comes after (r2, c2) in reading order.
pub open spec fn after(r1: int, c1: int, r2: int, c2: int) -> bool {
    r1 > r2 || (r1 == r2 && c1 > c2)
}

impl BracketGrid {
    /// The cell at (r, c) holds a match label.
    pub open spec fn labelled(&self, r: int, c: int) -> bool {
        self.valid(r, c) && self.cell(r, c).label is Some
    }

    /// The number of the label at (r, c).
    pub open spec fn label_at(&self, r: int, c: int) -> Option<usize> {
        label_number(self.cell(r, c).label->0@)
    }

    /// Every label of the table can be read as a number.
    pub open spec fn labels_readable(&self) -> bool {
        forall|r: int, c: int| #[trigger] self.labelled(r, c) ==> self.label_at(r, c) is Some
    }

    /// (r, c) holds the label of the final: the greatest number, and the last one in reading
    /// order among equals.
    pub open spec fn final_label(&self, r: int, c: int) -> bool {
        &&& self.labelled(r, c)
        &&& forall|r2: int, c2: int| #[trigger]
            self.labelled(r2, c2) ==> self.label_at(r2, c2)->0 <= self.label_at(r, c)->0 && (
            after(r2, c2, r, c) ==> self.label_at(r2, c2)->0 < self.label_at(r, c)->0)
    }

    /// Finds the label of the section's final: `Ok(None)` where the table has no label, an
    /// error where a label is not a number.
    pub fn find_final_label(&self) -> (r: Result<Option<(usize, usize)>, ScrapeError>)
        ensures
            r is Err <==> !self.labels_readable(),
            r matches Ok(Some((a, b))) ==> self.final_label(a as int, b as int),
            r matches Ok(None) ==> forall|a: int, b: int| !#[trigger] self.labelled(a, b),
    {
        let mut best: Option<(usize, usize, usize)> = None;
        let mut i: usize = 0;
        while i < self.rows.len()
            invariant
                i <= self.rows@.len(),
                forall|a: int, b: int|
                    #[trigger] self.labelled(a, b) && a < i ==> self.label_at(a, b) is Some,
                match best {
                    None => forall|a: int, b: int| #[trigger] self.labelled(a, b) ==> a >= i,
                    Some((br, bc, n)) => self.labelled(br as int, bc as int) && (br as int) < i
                        && self.label_at(br as int, bc as int) == Some(n) && forall|a: int, b: int|
                        #[trigger] self.labelled(a, b) && a < i ==> self.label_at(a, b)->0 <= n
                            && (after(a, b, br as int, bc as int) ==> self.label_at(a, b)->0 < n),
                },
            decreases self.rows@.len() - i,
        {
            let row = &self.rows[i];
            let mut j: usize = 0;
            while j < row.len()
                invariant
                    i < self.rows@.len(),
                    row == &self.rows@[i as int],
                    j <= row@.len(),
                    forall|a: int, b: int|
                        #[trigger] self.labelled(a, b) && (a < i || (a == i && b < j))
                            ==> self.label_at(a, b) is Some,
                    match best {
                        None => forall|a: int, b: int|
                            #[trigger] self.labelled(a, b) ==> (a > i || (a == i && b >= j)),
                        Some((br, bc, n)) => self.labelled(br as int, bc as int) && after(
                            i as int,
                            j as int,
                            br as int,
                            bc as int,
                        ) && self.label_at(br as int, bc as int) == Some(n) && forall|
                            a: int,
                            b: int,
                        |
                            #[trigger] self.labelled(a, b) && (a < i || (a == i && b < j))
                                ==> self.label_at(a, b)->0 <= n && (after(
                                a,
                                b,
                                br as int,
                                bc as int,
                            ) ==> self.label_at(a, b)->0 < n),
                    },
                decreases row@.len() - j,
            {
                match &row[j] .label {
                    Some(l) => {
                        match parse_label(l.as_str()) {
                            None => {
                                assert(self.labelled(i as int, j as int));
                                return Err(ScrapeError::from_str("unreadable match label"));
                            },
                            Some(n) => {
                                let replace = match best {
                                    None => true,
                                    Some((_, _, m)) => n >= m,
                                };
                                if replace {
                                    best = Some((i, j, n));
                                }
                            },
                        }
                    },
                    None => {},
                }
                j = j + 1;
            }
            i = i + 1;
        }
        match best {
            None => Ok(None),
            Some((br, bc, _)) => Ok(Some((br, bc))),
        }
    }

    /// The table has a final: a slot after its final's label.
    pub open spec fn has_final(&self) -> bool {
        exists|r: int, c: int| self.final_slot(r, c)
    }

    /// The crawl from the table's final slot does not finish.
    pub open spec fn final_lost(&self) -> bool {
        exists|r: int, c: int|
            #[trigger] self.final_slot(r, c) && !self.crawl_ok(r, c, self.budget(), self.budget())
    }

    /// A table has one final label at most.
    pub proof fn lemma_final_label_unique(&self, r1: int, c1: int, r2: int, c2: int)
        requires
            self.final_label(r1, c1),
            self.final_label(r2, c2),
        ensures
            r1 == r2 && c1 == c2,
    {
        assert(self.labelled(r2, c2) && self.labelled(r1, c1));
        if after(r2, c2, r1, c1) {
            assert(self.label_at(r2, c2)->0 < self.label_at(r1, c1)->0);
        } else if after(r1, c1, r2, c2) {
            assert(self.label_at(r1, c1)->0 < self.label_at(r2, c2)->0);
        }
    }

    /// `m` is the match read from the crawl of the slot at (r, c).
    pub open spec fn read_at(&self, r: int, c: int, teams: Seq<Vec<Player>>, m: BracketMatch) -> bool {
        exists|n: BracketNode|
            n.row == r && n.col == c && #[trigger] self.crawled(n, self.budget())
                && self.built_from(n, teams, m)
    }

    /// `m` is the match of the section's final: read from the slot after the final's label.
    pub open spec fn final_read(&self, teams: Seq<Vec<Player>>, m: BracketMatch) -> bool {
        exists|r: int, c: int| #[trigger] self.final_slot(r, c) && self.read_at(r, c, teams, m)
    }

    /// `ms` are the matches of the pool column `c`, one per slot of the column.
    pub open spec fn column_read(&self, c: int, teams: Seq<Vec<Player>>, ms: Seq<BracketMatch>) -> bool {
        &&& ms.len() == self.column_slots(4, c).len()
        &&& forall|k: int|
            0 <= k < ms.len() ==> self.read_at(
                self.column_slots(4, c)[k].0,
                self.column_slots(4, c)[k].1,
                teams,
                #[trigger] ms[k],
            )
    }

    /// The slot of the section's final: the cell after its label.
    pub open spec fn final_slot(&self, r: int, c: int) -> bool {
        exists|lc: int| self.final_label(r, lc) && c == lc + 1 && self.valid(r, c)
    }

    /// How far a crawl of this table may go: four turns for each cell, and nesting as deep as
    /// the table has cells.
    pub open spec fn budget(&self) -> nat {
        let n = 4 * self.size_from(0) + 4;
        if n <= usize::MAX {
            n
        } else {
            usize::MAX as nat
        }
    }

    pub proof fn lemma_size_from(&self, r: int)
        requires
            0 <= r <= self.rows@.len(),
        ensures
            self.size_from(r) >= 0,
        decreases self.rows@.len() - r,
    {
        if r < self.rows@.len() {
            self.lemma_size_from(r + 1);
        }
    }

    /// How far a crawl of this table may go, as `budget` says.
    pub fn crawl_budget(&self) -> (b: usize)
        ensures
            b as nat == self.budget(),
    {
        let mut total: usize = 4;
        let mut i: usize = self.rows.len();
        let mut capped = false;
        while i > 0
            invariant
                i <= self.rows@.len(),
                !capped ==> total as nat == 4 * self.size_from(i as int) + 4,
                capped ==> 4 * self.size_from(i as int) + 4 > usize::MAX,
            decreases i,
        {
            i = i - 1;
            let add = self.rows[i].len();
            proof {
                self.lemma_size_from(i + 1);
            }
            if !capped {
                if add <= (usize::MAX - total) / 4 {
                    total = total + 4 * add;
                } else {
                    capped = true;
                }
            }
        }
        if capped {
            usize::MAX
        } else {
            total
        }
    }

    /// The match of the section's final, when the table has one: the slot after the greatest
    /// label, crawled and read.
    pub fn section_final(&self, teams: &[Vec<Player>]) -> (r: Result<Option<BracketMatch>, ScrapeError>)
        ensures
            r is Err <==> !self.labels_readable() || self.final_lost(),
            r matches Ok(Some(m)) ==> self.has_final() && self.final_read(teams@, m),
            r matches Ok(None) ==> !self.has_final(),
    {
        let label = self.find_final_label()?;
        match label {
            None => {
                assert(!self.has_final()) by {
                    if self.has_final() {
                        let (a, b) = choose|a: int, b: int| self.final_slot(a, b);
                        let lc = choose|lc: int| self.final_label(a, lc) && b == lc + 1 && self.valid(a, b);
                        assert(self.labelled(a, lc));
                    }
                }
                Ok(None)
            },
            Some((r, c)) => match self.neighbor(r, c, crate::direction::Direction::Right) {
                None => {
                    assert(!self.has_final()) by {
                        if self.has_final() {
                            let (a, b) = choose|a: int, b: int| self.final_slot(a, b);
                            let lc = choose|lc: int| self.final_label(a, lc) && b == lc + 1 && self.valid(a, b);
                            self.lemma_final_label_unique(a, lc, r as int, c as int);
                        }
                    }
                    Ok(None)
                },
                Some((sr, sc)) => {
                    let budget = self.crawl_budget();
                    assert(self.final_slot(sr as int, sc as int));
                    proof {
                        assert forall|a: int, b: int| #[trigger] self.final_slot(a, b) implies a == sr
                            && b == sc by {
                            let lc = choose|lc: int| self.final_label(a, lc) && b == lc + 1 && self.valid(a, b);
                            self.lemma_final_label_unique(a, lc, r as int, c as int);
                        }
                    }
                    let node = self.crawl_from(sr, sc, budget, budget)?;
                    proof {
                        self.lemma_crawled_holds(node, budget as nat);
                    }
                    let m = self.from_node(&node, teams);
                    assert(self.final_label(r as int, c as int) && sc as int == c + 1);
                    assert(self.final_slot(sr as int, sc as int));
                    assert(self.crawled(node, self.budget()));
                    assert(self.read_at(sr as int, sc as int, teams@, m));
                    Ok(Some(m))
                },
            },
        }
    }

    /// The slots of a pool column from row `r` down: every fourth row while the column runs
    /// on without a gap.
    pub open spec fn column_slots(&self, r: int, c: int) -> Seq<(int, int)>
        decreases self.rows@.len() - r,
    {
        if r < 0 || !self.valid(r, c) {
            Seq::empty()
        } else if self.valid(r + 1, c) && self.valid(r + 2, c) && self.valid(r + 3, c)
            && self.valid(r + 4, c) {
            seq![(r, c)] + self.column_slots(r + 4, c)
        } else {
            seq![(r, c)]
        }
    }

    /// The crawl from some slot of the pool column `c` does not finish.
    pub open spec fn column_lost(&self, c: int) -> bool {
        exists|k: int|
            0 <= k < self.column_slots(4, c).len() && !self.crawl_ok(
                #[trigger] self.column_slots(4, c)[k].0,
                self.column_slots(4, c)[k].1,
                self.budget(),
                self.budget(),
            )
    }

    /// The matches of a pool column, each crawled from its slot and read.
    pub fn pool_column(&self, c: usize, teams: &[Vec<Player>]) -> (r: Result<Vec<BracketMatch>, ScrapeError>)
        ensures
            r is Err <==> self.column_lost(c as int),
            r matches Ok(ms) ==> self.column_read(c as int, teams@, ms@),
    {
        let budget = self.crawl_budget();
        let mut out: Vec<BracketMatch> = Vec::new();
        let mut r: usize = 4;
        let ghost all = self.column_slots(4, c as int);
        let ghost done: Seq<(int, int)> = Seq::empty();
        assert(done + self.column_slots(4, c as int) =~= all);
        while r < self.rows.len() && c < self.rows[r].len()
            invariant
                budget as nat == self.budget(),
                r >= 4,
                all == self.column_slots(4, c as int),
                done + self.column_slots(r as int, c as int) == all,
                out@.len() == done.len(),
                forall|k: int|
                    0 <= k < out@.len() ==> self.read_at(done[k].0, done[k].1, teams@, #[trigger] out@[k]),
                forall|k: int|
                    0 <= k < done.len() ==> self.crawl_ok(
                        #[trigger] done[k].0,
                        done[k].1,
                        self.budget(),
                        self.budget(),
                    ),
            decreases self.rows@.len() - r,
        {
            assert(self.column_slots(r as int, c as int)[0] == (r as int, c as int));
            assert(all[done.len() as int] == (r as int, c as int));
            let node = match self.crawl_from(r, c, budget, budget) {
                Ok(n) => n,
                Err(e) => {
                    assert(!self.crawl_ok(all[done.len() as int].0, all[done.len() as int].1, self.budget(), self.budget()));
                    return Err(e);
                },
            };
            proof {
                self.lemma_crawled_holds(node, budget as nat);
            }
            let m = self.from_node(&node, teams);
            assert(self.crawled(node, self.budget()));
            assert(self.read_at(r as int, c as int, teams@, m));
            let ghost before = out@;
            let ghost done_before = done;
            out.push(m);
            proof {
                done = done.push((r as int, c as int));
                assert forall|k: int| 0 <= k < out@.len() implies self.read_at(
                    done[k].0,
                    done[k].1,
                    teams@,
                    #[trigger] out@[k],
                ) by {
                    if k < before.len() {
                        assert(out@[k] == before[k]);
                        assert(done[k] == done_before[k]);
                    }
                }
            }
            let n = self.rows.len();
            if n - r > 4 && c < self.rows[r + 1].len() && c < self.rows[r + 2].len() && c
                < self.rows[r + 3].len() && c < self.rows[r + 4].len() {
                assert(done + self.column_slots(r + 4, c as int) =~= all);
                r = r + 4;
            } else {
                assert(done =~= all);
                assert(self.column_slots(n as int, c as int) =~= Seq::<(int, int)>::empty());
                assert(done + self.column_slots(n as int, c as int) =~= all);
                r = n;
            }
        }
        proof {
            if r < self.rows@.len() {
                assert(!self.valid(r as int, c as int));
            }
            assert(done + Seq::<(int, int)>::empty() =~= done);
            assert(done == all);
        }
        Ok(out)
    }
}

/// `ms` are the finals of the tables' sections, in order: one for each table that has a
/// final, read from it.
pub open spec fn finals_read(tables: Seq<BracketGrid>, teams: Seq<Vec<Player>>, ms: Seq<BracketMatch>) -> bool
    decreases tables.len(),
{
    if tables.len() == 0 {
        ms.len() == 0
    } else if tables.last().has_final() {
        ms.len() > 0 && tables.last().final_read(teams, ms.last()) && finals_read(
            tables.drop_last(),
            teams,
            ms.drop_last(),
        )
    } else {
        finals_read(tables.drop_last(), teams, ms)
    }
}

/// The double-elimination bracket of a page: the final of each section whose table has one,
/// in the order of the tables.
pub fn double_elim_bracket(tables: &Vec<BracketGrid>, teams: &[Vec<Player>]) -> (r: Result<
    Vec<BracketMatch>,
    ScrapeError,
>)
    ensures
        r is Err <==> exists|t: int|
            0 <= t < tables@.len() && (!(#[trigger] tables@[t]).labels_readable()
                || tables@[t].final_lost()),
        r matches Ok(ms) ==> finals_read(tables@, teams@, ms@),
{
    let mut out: Vec<BracketMatch> = Vec::new();
    let mut t: usize = 0;
    while t < tables.len()
        invariant
            t <= tables@.len(),
            forall|u: int|
                0 <= u < t ==> (#[trigger] tables@[u]).labels_readable() && !tables@[u].final_lost(),
            finals_read(tables@.subrange(0, t as int), teams@, out@),
        decreases tables@.len() - t,
    {
        let ghost prefix = tables@.subrange(0, t as int);
        assert(tables@.subrange(0, t + 1).drop_last() =~= prefix);
        match tables[t].section_final(teams) {
            Err(e) => {
                return Err(e);
            },
            Ok(found) => {
                assert(tables@[t as int].labels_readable() && !tables@[t as int].final_lost());
                match found {
                    Some(m) => {
                        let ghost before = out@;
                        out.push(m);
                        assert(out@.drop_last() =~= before);
                    },
                    None => {},
                }
            },
        }
        t = t + 1;
    }
    assert(tables@.subrange(0, tables@.len() as int) =~= tables@);
    Ok(out)
}

/// The number of pool columns of a round robin whose fifth row has `width` cells: every
/// third cell from the second on.
pub open spec fn pool_count(width: int) -> int {
    if width <= 1 {
        0
    } else {
        (width + 1) / 3
    }
}

/// The round-robin bracket of a page's first bracket table: one list of matches per pool
/// column (every third cell of the fifth row, from the second on), each as `pool_column`
/// reads it; no pools where the table has no fifth row.
pub fn round_robin_bracket(table: &BracketGrid, teams: &[Vec<Player>]) -> (r: Result<
    Vec<Vec<BracketMatch>>,
    ScrapeError,
>)
    ensures
        r is Err <==> table.rows@.len() > 4 && exists|k: int|
            0 <= k < pool_count(table.rows@[4]@.len() as int) && #[trigger] table.column_lost(
                1 + 3 * k,
            ),
        r matches Ok(pools) ==> (table.rows@.len() > 4 ==> pools@.len() == pool_count(
            table.rows@[4]@.len() as int,
        )) && (table.rows@.len() <= 4 ==> pools@.len() == 0) && forall|k: int|
            0 <= k < pools@.len() ==> table.column_read(1 + 3 * k, teams@, (#[trigger] pools@[k])@),
{
    let mut pools: Vec<Vec<BracketMatch>> = Vec::new();
    if table.rows.len() <= 4 {
        return Ok(pools);
    }
    let width = table.rows[4].len();
    let mut c: usize = 1;
    while c < width
        invariant
            table.rows@.len() > 4,
            width == table.rows@[4]@.len(),
            c < width ==> c == 1 + 3 * pools@.len(),
            pools@.len() <= pool_count(width as int),
            c < width ==> pools@.len() < pool_count(width as int),
            c >= width ==> pools@.len() == pool_count(width as int),
            forall|k: int|
                0 <= k < pools@.len() ==> table.column_read(1 + 3 * k, teams@, (#[trigger] pools@[k])@),
            forall|k: int| 0 <= k < pools@.len() ==> !(#[trigger] table.column_lost(1 + 3 * k)),
        decreases width - c,
    {
        let column = match table.pool_column(c, teams) {
            Ok(col) => col,
            Err(e) => {
                assert(table.column_lost(1 + 3 * pools@.len() as int));
                return Err(e);
            },
        };
        let ghost before = pools@;
        pools.push(column);
        assert forall|k: int| 0 <= k < pools@.len() implies table.column_read(
            1 + 3 * k,
            teams@,
            (#[trigger] pools@[k])@,
        ) by {
            if k < before.len() {
                assert(pools@[k] == before[k]);
            }
        }
        assert(!table.column_lost(1 + 3 * before.len() as int));
        if width - c > 3 {
            c = c + 3;
        } else {
            c = width;
        }
    }
    Ok(pools)
}

} // verus!

verus! {

/// A page with one section whose table has a final yields exactly one root match, and every
/// match of its tree below the root feeds from at least one slot, so every leaf is a seed.
pub proof fn lemma_single_final_tree(
    table: BracketGrid,
    teams: Seq<Vec<Player>>,
    ms: Seq<BracketMatch>,
)
    requires
        finals_read(seq![table], teams, ms),
        table.has_final(),
    ensures
        ms.len() == 1,
        crate::matches::well_formed(ms[0]),
{
    let tables = seq![table];
    assert(tables.last() == table);
    assert(tables.drop_last() =~= Seq::<BracketGrid>::empty());
    assert(finals_read(Seq::<BracketGrid>::empty(), teams, ms.drop_last()));
    assert(ms.drop_last().len() == 0);
    let m = ms.last();
    assert(ms[0] == m);
    let (r, c) = choose|r: int, c: int| #[trigger] table.final_slot(r, c) && table.read_at(r, c, teams, m);
    let n = choose|n: BracketNode|
        n.row == r && n.col == c && #[trigger] table.crawled(n, table.budget()) && table.built_from(
            n,
            teams,
            m,
        );
    crate::matches::lemma_built_well_formed(table, n, teams, m);
}

} // verus!
