//! A rendered bracket table as a grid of cells, and the crawl that follows its drawn lines
//! from a match back to the slots that feed it.
use vstd::prelude::*;

use crate::direction::Direction;
use crate::error::ScrapeError;
use crate::text::{chars_of, lemma_stop_at, matches_at, occurs_at, scan_until, stop_at};

verus! {

/// One cell of a bracket table, as the page renders it.
#[derive(Clone, Debug)]
pub struct BracketCell {
    /// The cell's contents.
    pub inner_html: String,
    /// The value of the cell's `style` attribute; empty where it has none.
    pub style: String,
    /// The contents of the first link in the cell: a match label such as `#12`.
    pub label: Option<String>,
    /// The contents of the first cell of a table nested in this cell, or else the cell's own
    /// contents: where a match's scores are written.
    pub score_text: String,
    /// The contents of the first italic note in the cell: where a match's advancement is
    /// written.
    pub note: Option<String>,
}

/// A bracket table: its rows, each a list of cells.
#[derive(Clone, Debug)]
pub struct BracketGrid {
    pub rows: Vec<Vec<BracketCell>>,
}

pub open spec fn bottom_prefix() -> Seq<char> {
    "border-bottom:"@
}

pub open spec fn left_prefix() -> Seq<char> {
    "border-left:"@
}

/// Where the `border-bottom` declaration of a style ends, or 0 where the style does not open
/// with a non-empty one.
pub open spec fn bottom_end(s: Seq<char>) -> int {
    let n = bottom_prefix().len() as int;
    if occurs_at(s, bottom_prefix(), 0) && n < s.len() && s[n] != ';' {
        stop_at(s, n, ';', ';')
    } else {
        0
    }
}

/// The borders that a cell's style draws, as (bottom, left). A style is read as an optional
/// non-empty `border-bottom:` declaration, an optional `;`, and an optional non-empty
/// `border-left:` declaration that runs to the end; a style of any other shape draws neither.
pub open spec fn borders_spec(s: Seq<char>) -> (bool, bool) {
    let h = bottom_end(s);
    let i = if h < s.len() && s[h] == ';' {
        h + 1
    } else {
        h
    };
    if i >= s.len() {
        (h > 0, false)
    } else if occurs_at(s, left_prefix(), i) && i + left_prefix().len() < s.len() {
        (h > 0, true)
    } else {
        (false, false)
    }
}

/// The borders that a cell's style draws, as (bottom, left).
pub fn borders(style: &str) -> (r: (bool, bool))
    ensures
        r == borders_spec(style@),
{
    let s = chars_of(style);
    let bottom = chars_of("border-bottom:");
    let left = chars_of("border-left:");
    let n = bottom.len();
    let h: usize = if matches_at(&s, &bottom, 0) && n < s.len() && s[n] != ';' {
        scan_until(&s, n, ';', ';')
    } else {
        0
    };
    proof {
        if occurs_at(s@, bottom_prefix(), 0) && n < s@.len() && s@[n as int] != ';' {
            lemma_stop_at(s@, n as int, ';', ';');
        }
    }
    let i: usize = if h < s.len() && s[h] == ';' {
        h + 1
    } else {
        h
    };
    if i >= s.len() {
        (h > 0, false)
    } else if matches_at(&s, &left, i) && left.len() < s.len() - i {
        (h > 0, true)
    } else {
        (false, false)
    }
}

/// What a walk along a drawn line comes to.
pub ghost enum WalkEnd {
    /// The line ends without reaching another slot.
    Nothing,
    /// The line leads left into a filled cell: the slot at (row, column).
    Reached(int, int),
    /// The line went on longer than the table has room for: the table is drawn in a way
    /// this reader does not know.
    Lost,
}

impl BracketGrid {
    pub open spec fn valid(&self, r: int, c: int) -> bool {
        0 <= r < self.rows@.len() && 0 <= c < self.rows@[r]@.len()
    }

    pub open spec fn cell(&self, r: int, c: int) -> BracketCell {
        self.rows@[r]@[c]
    }

    /// The number of cells of the table.
    pub open spec fn size_from(&self, r: int) -> nat
        decreases self.rows@.len() - r,
    {
        if r < 0 || r >= self.rows@.len() {
            0
        } else {
            self.rows@[r]@.len() + self.size_from(r + 1)
        }
    }

    /// The cell next to (r, c) in direction `d`: the same column of the row above or below,
    /// or the cell before or after in the same row.
    pub open spec fn neighbor_spec(&self, r: int, c: int, d: Direction) -> Option<(int, int)> {
        match d {
            Direction::Up => if r > 0 && self.valid(r - 1, c) {
                Some((r - 1, c))
            } else {
                None
            },
            Direction::Down => if self.valid(r + 1, c) {
                Some((r + 1, c))
            } else {
                None
            },
            Direction::Right => if self.valid(r, c + 1) {
                Some((r, c + 1))
            } else {
                None
            },
            Direction::Left => if c > 0 && self.valid(r, c - 1) {
                Some((r, c - 1))
            } else {
                None
            },
        }
    }

    /// The cell next to (r, c) in direction `d`.
    pub fn neighbor(&self, r: usize, c: usize, d: Direction) -> (n: Option<(usize, usize)>)
        requires
            self.valid(r as int, c as int),
        ensures
            match n {
                Some((a, b)) => self.neighbor_spec(r as int, c as int, d) == Some((a as int, b as int))
                    && self.valid(a as int, b as int),
                None => self.neighbor_spec(r as int, c as int, d) is None,
            },
    {
        match d {
            Direction::Up => if r > 0 && c < self.rows[r - 1].len() {
                Some((r - 1, c))
            } else {
                None
            },
            Direction::Down => if r < self.rows.len() - 1 && c < self.rows[r + 1].len() {
                Some((r + 1, c))
            } else {
                None
            },
            Direction::Right => if c < self.rows[r].len() - 1 {
                Some((r, c + 1))
            } else {
                None
            },
            Direction::Left => if c > 0 {
                Some((r, c - 1))
            } else {
                None
            },
        }
    }

    /// The borders of the cell at `pos`, or none where there is no cell.
    pub open spec fn borders_at(&self, pos: Option<(int, int)>) -> (bool, bool) {
        match pos {
            Some((r, c)) => borders_spec(self.cell(r, c).style@),
            None => (false, false),
        }
    }

    /// The ways a line leaves the cell at (r, c), in the order up, right, down, left: up
    /// where the cell draws its left border, right where it draws its bottom border, down
    /// where the cell below draws its left border, left where the cell before draws its
    /// bottom border.
    pub open spec fn paths_spec(&self, r: int, c: int) -> Seq<Direction> {
        let own = borders_spec(self.cell(r, c).style@);
        let below = self.borders_at(self.neighbor_spec(r, c, Direction::Down));
        let before = self.borders_at(self.neighbor_spec(r, c, Direction::Left));
        (if own.1 {
            seq![Direction::Up]
        } else {
            Seq::empty()
        }) + (if own.0 {
            seq![Direction::Right]
        } else {
            Seq::empty()
        }) + (if below.1 {
            seq![Direction::Down]
        } else {
            Seq::empty()
        }) + (if before.0 {
            seq![Direction::Left]
        } else {
            Seq::empty()
        })
    }

    fn borders_of(&self, pos: Option<(usize, usize)>) -> (b: (bool, bool))
        requires
            pos matches Some((r, c)) ==> self.valid(r as int, c as int),
        ensures
            b == self.borders_at(
                match pos {
                    Some((r, c)) => Some((r as int, c as int)),
                    None => None,
                },
            ),
    {
        match pos {
            Some((r, c)) => borders(self.rows[r][c].style.as_str()),
            None => (false, false),
        }
    }

    /// The ways a line leaves the cell at (r, c), as `paths_spec` lists them.
    pub fn paths(&self, r: usize, c: usize) -> (p: Vec<Direction>)
        requires
            self.valid(r as int, c as int),
        ensures
            p@ == self.paths_spec(r as int, c as int),
    {
        let own = borders(self.rows[r][c].style.as_str());
        let below = self.borders_of(self.neighbor(r, c, Direction::Down));
        let before = self.borders_of(self.neighbor(r, c, Direction::Left));
        let mut p: Vec<Direction> = Vec::new();
        if own.1 {
            p.push(Direction::Up);
        }
        if own.0 {
            p.push(Direction::Right);
        }
        if below.1 {
            p.push(Direction::Down);
        }
        if before.0 {
            p.push(Direction::Left);
        }
        assert(p@ =~= self.paths_spec(r as int, c as int));
        p
    }

    /// The first way out of (r, c) that does not lead back in direction `back`.
    pub open spec fn turn_spec(&self, r: int, c: int, back: Direction) -> Option<Direction> {
        let p = self.paths_spec(r, c);
        if p.len() > 0 && p[0] != back {
            Some(p[0])
        } else if p.len() > 1 && p[1] != back {
            Some(p[1])
        } else if p.len() > 2 && p[2] != back {
            Some(p[2])
        } else if p.len() > 3 && p[3] != back {
            Some(p[3])
        } else {
            None
        }
    }

    fn turn(&self, r: usize, c: usize, back: Direction) -> (t: Option<Direction>)
        requires
            self.valid(r as int, c as int),
        ensures
            t == self.turn_spec(r as int, c as int, back),
    {
        let p = self.paths(r, c);
        let mut k: usize = 0;
        while k < p.len()
            invariant
                p@ == self.paths_spec(r as int, c as int),
                p@.len() <= 4,
                k <= p@.len(),
                forall|m: int| 0 <= m < k ==> p@[m] == back,
            decreases p@.len() - k,
        {
            if p[k] != back {
                return Some(p[k]);
            }
            k = k + 1;
        }
        None
    }

    /// Where a line leaving (r, c) in direction `d` leads, within `steps` turns: into the
    /// next cell; if the line went left and that cell is filled (not `&nbsp;`), it is the
    /// slot reached; otherwise the line turns the first way that does not lead back.
    pub open spec fn walk_spec(&self, r: int, c: int, d: Direction, steps: nat) -> WalkEnd
        decreases steps,
    {
        match self.neighbor_spec(r, c, d) {
            None => WalkEnd::Nothing,
            Some((nr, nc)) => if d == Direction::Left && self.cell(nr, nc).inner_html@
                != "&nbsp;"@ {
                WalkEnd::Reached(nr, nc)
            } else {
                match self.turn_spec(nr, nc, d.opposite_spec()) {
                    None => WalkEnd::Nothing,
                    Some(e) => if steps == 0 {
                        WalkEnd::Lost
                    } else {
                        self.walk_spec(nr, nc, e, (steps - 1) as nat)
                    },
                }
            },
        }
    }

    /// Where a line leaving (r, c) in direction `d` leads, as `walk_spec` says.
    pub fn walk(&self, r: usize, c: usize, d: Direction, steps: usize) -> (w: Result<
        Option<(usize, usize)>,
        (),
    >)
        requires
            self.valid(r as int, c as int),
        ensures
            match w {
                Ok(Some((a, b))) => self.walk_spec(r as int, c as int, d, steps as nat)
                    == WalkEnd::Reached(a as int, b as int) && self.valid(a as int, b as int),
                Ok(None) => self.walk_spec(r as int, c as int, d, steps as nat) is Nothing,
                Err(_) => self.walk_spec(r as int, c as int, d, steps as nat) is Lost,
            },
    {
        let nbsp = chars_of("&nbsp;");
        let mut cr = r;
        let mut cc = c;
        let mut dir = d;
        let mut left: usize = steps;
        loop
            invariant
                self.valid(cr as int, cc as int),
                nbsp@ == "&nbsp;"@,
                self.walk_spec(cr as int, cc as int, dir, left as nat) == self.walk_spec(
                    r as int,
                    c as int,
                    d,
                    steps as nat,
                ),
            decreases left,
        {
            match self.neighbor(cr, cc, dir) {
                None => {
                    return Ok(None);
                },
                Some((nr, nc)) => {
                    let is_left = match dir {
                        Direction::Left => true,
                        _ => false,
                    };
                    if is_left && !same_chars(&chars_of(self.rows[nr][nc].inner_html.as_str()), &nbsp) {
                        return Ok(Some((nr, nc)));
                    }
                    match self.turn(nr, nc, dir.opposite()) {
                        None => {
                            return Ok(None);
                        },
                        Some(e) => {
                            if left == 0 {
                                return Err(());
                            }
                            left = left - 1;
                            cr = nr;
                            cc = nc;
                            dir = e;
                        },
                    }
                },
            }
        }
    }

    /// The slots that feed the match at (r, c): where its up and down lines lead, in that
    /// order, each line followed within `steps` turns.
    pub open spec fn feeders(&self, r: int, c: int, steps: nat) -> Seq<(int, int)> {
        let p = self.paths_spec(r, c);
        let up = if p.contains(Direction::Up) {
            self.walk_spec(r, c, Direction::Up, steps)
        } else {
            WalkEnd::Nothing
        };
        let down = if p.contains(Direction::Down) {
            self.walk_spec(r, c, Direction::Down, steps)
        } else {
            WalkEnd::Nothing
        };
        (match up {
            WalkEnd::Reached(a, b) => seq![(a, b)],
            _ => Seq::empty(),
        }) + (match down {
            WalkEnd::Reached(a, b) => seq![(a, b)],
            _ => Seq::empty(),
        })
    }

    /// Some line of the match at (r, c) runs on past `steps` turns.
    pub open spec fn feeder_lost(&self, r: int, c: int, steps: nat) -> bool {
        let p = self.paths_spec(r, c);
        (p.contains(Direction::Up) && self.walk_spec(r, c, Direction::Up, steps) is Lost) || (
        p.contains(Direction::Down) && self.walk_spec(r, c, Direction::Down, steps) is Lost)
    }

    /// The crawl from (r, c) finishes: no line is lost, and the slots that feed it can be
    /// crawled in turn, nested at most `depth` deep.
    pub open spec fn crawl_ok(&self, r: int, c: int, depth: nat, steps: nat) -> bool
        decreases depth,
    {
        &&& !self.feeder_lost(r, c, steps)
        &&& (self.feeders(r, c, steps).len() > 0 ==> depth > 0)
        &&& (depth > 0 ==> forall|k: int|
            0 <= k < self.feeders(r, c, steps).len() ==> self.crawl_ok(
                #[trigger] self.feeders(r, c, steps)[k].0,
                self.feeders(r, c, steps)[k].1,
                (depth - 1) as nat,
                steps,
            ))
    }

    /// The node was crawled from its cell: its children are the crawls from the slots that
    /// feed it, in order.
    pub open spec fn crawled(&self, n: BracketNode, steps: nat) -> bool
        decreases n,
    {
        let f = self.feeders(n.row as int, n.col as int, steps);
        &&& self.valid(n.row as int, n.col as int)
        &&& n.children@.len() == f.len()
        &&& forall|k: int|
            0 <= k < n.children@.len() ==> (#[trigger] n.children@[k]).row == f[k].0
                && n.children@[k].col == f[k].1 && self.crawled(n.children@[k], steps)
    }

    /// Crawls the bracket from the match at (row, col): each up or down line of the cell is
    /// followed to the slot it feeds from, and that slot is crawled in turn. A line that
    /// runs on past `steps` turns, or nesting deeper than `depth`, is a layout this reader
    /// does not know.
    pub fn crawl_from(&self, row: usize, col: usize, depth: usize, steps: usize) -> (r: Result<
        BracketNode,
        ScrapeError,
    >)
        requires
            self.valid(row as int, col as int),
        ensures
            r is Ok <==> self.crawl_ok(row as int, col as int, depth as nat, steps as nat),
            r matches Ok(n) ==> n.row == row && n.col == col && self.crawled(n, steps as nat),
        decreases depth,
    {
        let p = self.paths(row, col);
        let mut has_up = false;
        let mut has_down = false;
        let mut k: usize = 0;
        while k < p.len()
            invariant
                k <= p@.len(),
                has_up == exists|m: int| 0 <= m < k && p@[m] == Direction::Up,
                has_down == exists|m: int| 0 <= m < k && p@[m] == Direction::Down,
            decreases p@.len() - k,
        {
            match p[k] {
                Direction::Up => {
                    has_up = true;
                },
                Direction::Down => {
                    has_down = true;
                },
                _ => {},
            }
            k = k + 1;
        }
        let ghost ps = self.paths_spec(row as int, col as int);
        assert(has_up == ps.contains(Direction::Up));
        assert(has_down == ps.contains(Direction::Down));
        let up: Result<Option<(usize, usize)>, ()> = if has_up {
            self.walk(row, col, Direction::Up, steps)
        } else {
            Ok(None)
        };
        let down: Result<Option<(usize, usize)>, ()> = if has_down {
            self.walk(row, col, Direction::Down, steps)
        } else {
            Ok(None)
        };
        let ghost f = self.feeders(row as int, col as int, steps as nat);
        let (up, down) = match (up, down) {
            (Ok(u), Ok(d)) => (u, d),
            _ => {
                return Err(ScrapeError::from_str("bracket line runs on without end"));
            },
        };
        let mut slots: Vec<(usize, usize)> = Vec::new();
        match up {
            Some(s) => slots.push(s),
            None => {},
        }
        match down {
            Some(s) => slots.push(s),
            None => {},
        }
        assert(slots@.len() == f.len());
        assert(forall|m: int|
            0 <= m < f.len() ==> slots@[m].0 as int == f[m].0 && slots@[m].1 as int == f[m].1
                && self.valid(f[m].0, f[m].1));
        if slots.len() > 0 && depth == 0 {
            return Err(ScrapeError::from_str("bracket nested deeper than its table"));
        }
        let mut children: Vec<BracketNode> = Vec::new();
        let mut i: usize = 0;
        while i < slots.len()
            invariant
                depth > 0 || slots@.len() == 0,
                i <= slots@.len(),
                slots@.len() == f.len(),
                f == self.feeders(row as int, col as int, steps as nat),
                forall|m: int|
                    0 <= m < f.len() ==> slots@[m].0 as int == f[m].0 && slots@[m].1 as int
                        == f[m].1 && self.valid(f[m].0, f[m].1),
                children@.len() == i,
                forall|m: int|
                    0 <= m < i ==> (#[trigger] children@[m]).row == f[m].0 && children@[m].col
                        == f[m].1 && self.crawled(children@[m], steps as nat),
                forall|m: int|
                    0 <= m < i ==> self.crawl_ok(
                        #[trigger] f[m].0,
                        f[m].1,
                        (depth - 1) as nat,
                        steps as nat,
                    ),
            decreases slots@.len() - i,
        {
            let (sr, sc) = slots[i];
            assert(sr as int == f[i as int].0 && sc as int == f[i as int].1);
            match self.crawl_from(sr, sc, depth - 1, steps) {
                Ok(n) => children.push(n),
                Err(e) => {
                    assert(!self.crawl_ok(
                        self.feeders(row as int, col as int, steps as nat)[i as int].0,
                        self.feeders(row as int, col as int, steps as nat)[i as int].1,
                        (depth - 1) as nat,
                        steps as nat,
                    ));
                    return Err(e);
                },
            }
            i = i + 1;
        }
        Ok(BracketNode { row, col, children })
    }
}

/// The same characters in the same order.
pub fn same_chars(a: &Vec<char>, b: &Vec<char>) -> (r: bool)
    ensures
        r == (a@ == b@),
{
    if a.len() != b.len() {
        return false;
    }
    let mut k: usize = 0;
    while k < a.len()
        invariant
            a@.len() == b@.len(),
            k <= a@.len(),
            forall|m: int| 0 <= m < k ==> a@[m] == b@[m],
        decreases a@.len() - k,
    {
        if a[k] != b[k] {
            return false;
        }
        k = k + 1;
    }
    assert(a@ =~= b@);
    true
}

/// A match slot of a crawled bracket, with the slots that feed it.
pub struct BracketNode {
    pub row: usize,
    pub col: usize,
    pub children: Vec<BracketNode>,
}

} // verus!
