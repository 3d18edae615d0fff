//! Matches of a bracket, read from the crawled slots of its table.
use vstd::prelude::*;

use crate::direction::Direction;
use crate::grid::{BracketGrid, BracketNode};
use crate::roster::{copy_players, Player};
use crate::teams::{resolve_team, resolve_team_spec};
use crate::text::{chars_of, is_digit, parse_usize, parse_usize_spec, slice_chars};

verus! {

/// The first index at or after `i` that holds no decimal digit, or the length of `s`.
pub open spec fn digits_end(s: Seq<char>, i: int) -> int
    decreases s.len() - i,
{
    if i < 0 {
        0
    } else if i >= s.len() {
        s.len() as int
    } else if is_digit(s[i]) {
        digits_end(s, i + 1)
    } else {
        i
    }
}

pub(crate) fn digits_end_exec(s: &Vec<char>, start: usize) -> (r: usize)
    requires
        start <= s@.len(),
    ensures
        r == digits_end(s@, start as int),
        start <= r <= s@.len(),
{
    let mut i: usize = start;
    while i < s.len() && '0' <= s[i] && s[i] <= '9'
        invariant
            start <= i <= s@.len(),
            digits_end(s@, i as int) == digits_end(s@, start as int),
        decreases s@.len() - i,
    {
        i = i + 1;
    }
    i
}

/// A score `a-b` written at `i`: a run of digits, a hyphen, a run of digits. Gives where the
/// hyphen stands and where the second run ends.
pub open spec fn score_at(s: Seq<char>, i: int) -> Option<(int, int)> {
    let k = digits_end(s, i);
    let m = digits_end(s, k + 1);
    if 0 <= i && i < k && k < s.len() && s[k] == '-' && k + 1 < m {
        Some((k, m))
    } else {
        None
    }
}

/// The scores written one after another from `i`, each but the last followed by a comma.
pub open spec fn scores_from(s: Seq<char>, i: int) -> Seq<(Seq<char>, Seq<char>)>
    decreases s.len() - i,
{
    match score_at(s, i) {
        Some((k, m)) => if m < s.len() && s[m] == ',' && m + 1 > i {
            seq![(s.subrange(i, k), s.subrange(k + 1, m))] + scores_from(s, m + 1)
        } else {
            seq![(s.subrange(i, k), s.subrange(k + 1, m))]
        },
        None => Seq::empty(),
    }
}

/// The first index at or after `i` where a score is written.
pub open spec fn first_score(s: Seq<char>, i: int) -> Option<int>
    decreases s.len() - i,
{
    if i < 0 || i >= s.len() {
        None
    } else if score_at(s, i) is Some {
        Some(i)
    } else {
        first_score(s, i + 1)
    }
}

/// The pairs of numbers that the scores write, leaving out any number too large to hold.
pub open spec fn score_values(scores: Seq<(Seq<char>, Seq<char>)>) -> Seq<(usize, usize)>
    decreases scores.len(),
{
    if scores.len() == 0 {
        Seq::empty()
    } else {
        let rest = score_values(scores.drop_last());
        let (a, b) = scores.last();
        match (parse_usize_spec(a), parse_usize_spec(b)) {
            (Some(x), Some(y)) => rest.push((x, y)),
            _ => rest,
        }
    }
}

/// The game scores of a match: the first run of comma-separated `a-b` scores in the text.
pub open spec fn scores_spec(s: Seq<char>) -> Seq<(usize, usize)> {
    match first_score(s, 0) {
        Some(p) => score_values(scores_from(s, p)),
        None => Seq::empty(),
    }
}

fn score_at_exec(s: &Vec<char>, i: usize) -> (r: Option<(usize, usize)>)
    requires
        i <= s@.len(),
    ensures
        match r {
            Some((k, m)) => score_at(s@, i as int) == Some((k as int, m as int)),
            None => score_at(s@, i as int) is None,
        },
        r matches Some((k, m)) ==> i < k < m <= s@.len(),
{
    let k = digits_end_exec(s, i);
    if !(i < k && k < s.len() && s[k] == '-') {
        return None;
    }
    let m = digits_end_exec(s, k + 1);
    if k + 1 < m {
        Some((k, m))
    } else {
        None
    }
}

/// The game scores written in a cell, as `scores_spec` reads them.
pub fn parse_scores(text: &str) -> (r: Vec<(usize, usize)>)
    ensures
        r@ == scores_spec(text@),
{
    let s = chars_of(text);
    let mut p: usize = 0;
    while p < s.len() && score_at_exec(&s, p).is_none()
        invariant
            p <= s@.len(),
            first_score(s@, 0) == first_score(s@, p as int),
        decreases s@.len() - p,
    {
        p = p + 1;
    }
    if p >= s.len() {
        return Vec::new();
    }
    let ghost all = scores_from(s@, p as int);
    let mut out: Vec<(usize, usize)> = Vec::new();
    let ghost done: Seq<(Seq<char>, Seq<char>)> = Seq::empty();
    let mut i: usize = p;
    let mut more = true;
    while more
        invariant
            i <= s@.len(),
            more ==> done + scores_from(s@, i as int) == all,
            more ==> score_at(s@, i as int) is Some,
            !more ==> done == all,
            out@ == score_values(done),
        decreases s@.len() - i + (if more { 1int } else { 0int }),
    {
        match score_at_exec(&s, i) {
            Some((k, m)) => {
                let a = slice_chars(&s, i, k);
                let b = slice_chars(&s, k + 1, m);
                let ghost unit = (a@, b@);
                assert(done.push(unit).drop_last() =~= done);
                match (parse_usize(&a), parse_usize(&b)) {
                    (Some(x), Some(y)) => out.push((x, y)),
                    _ => {},
                }
                proof {
                    done = done.push(unit);
                }
                if m < s.len() && s[m] == ',' && m + 1 < s.len() && score_at_exec(&s, m + 1).is_some() {
                    assert(done + scores_from(s@, m + 1) =~= (done.drop_last() + (seq![unit]
                        + scores_from(s@, m + 1))));
                    i = m + 1;
                } else {
                    proof {
                        if m < s@.len() && s@[m as int] == ',' {
                            assert(scores_from(s@, m + 1) =~= Seq::empty());
                        }
                        assert(done.drop_last() + seq![unit] =~= done);
                        assert(done.drop_last() + (seq![unit] + Seq::empty()) =~= done);
                    }
                    more = false;
                }
            },
            None => {
                more = false;
            },
        }
    }
    out
}

pub open spec fn is_word_char(c: char) -> bool {
    ('a' <= c && c <= 'z') || ('A' <= c && c <= 'Z') || ('0' <= c && c <= '9') || c == '_'
}

/// The first index at or after `i` that holds no word character, or the length of `s`.
pub open spec fn word_end(s: Seq<char>, i: int) -> int
    decreases s.len() - i,
{
    if i < 0 {
        0
    } else if i >= s.len() {
        s.len() as int
    } else if is_word_char(s[i]) {
        word_end(s, i + 1)
    } else {
        i
    }
}

fn word_end_exec(s: &Vec<char>, start: usize) -> (r: usize)
    requires
        start <= s@.len(),
    ensures
        r == word_end(s@, start as int),
        start <= r <= s@.len(),
{
    let mut i: usize = start;
    while i < s.len() && (('a' <= s[i] && s[i] <= 'z') || ('A' <= s[i] && s[i] <= 'Z') || ('0'
        <= s[i] && s[i] <= '9') || s[i] == '_')
        invariant
            start <= i <= s@.len(),
            word_end(s@, i as int) == word_end(s@, start as int),
        decreases s@.len() - i,
    {
        i = i + 1;
    }
    i
}

pub open spec fn to_hash() -> Seq<char> {
    seq![' ', 't', 'o', ' ', '#']
}

/// An advancement note `(Word to #N)` written at `i`: the word and the number's digits.
pub open spec fn note_at(s: Seq<char>, i: int) -> Option<(Seq<char>, Seq<char>)> {
    let w = word_end(s, i + 1);
    let d = digits_end(s, w + 5);
    if 0 <= i < s.len() && s[i] == '(' && i + 1 < w && w + 5 <= s.len() && s.subrange(w, w + 5)
        == to_hash() && w + 5 < d && d < s.len() && s[d] == ')' {
        Some((s.subrange(i + 1, w), s.subrange(w + 5, d)))
    } else {
        None
    }
}

/// The first advancement note written at or after `i`.
pub open spec fn first_note(s: Seq<char>, i: int) -> Option<(Seq<char>, Seq<char>)>
    decreases s.len() - i,
{
    if i < 0 || i >= s.len() {
        None
    } else if note_at(s, i) is Some {
        note_at(s, i)
    } else {
        first_note(s, i + 1)
    }
}

/// Where a match's loser and winner go next, as its first advancement note says:
/// `(Loser to #N)` sends the loser to match N, `(Winner to #N)` the winner.
pub open spec fn links_spec(s: Seq<char>) -> (Option<usize>, Option<usize>) {
    match first_note(s, 0) {
        Some((word, digits)) => match parse_usize_spec(digits) {
            Some(n) => if word == seq!['L', 'o', 's', 'e', 'r'] {
                (Some(n), None)
            } else if word == seq!['W', 'i', 'n', 'n', 'e', 'r'] {
                (None, Some(n))
            } else {
                (None, None)
            },
            None => (None, None),
        },
        None => (None, None),
    }
}

fn note_at_exec(s: &Vec<char>, i: usize) -> (r: Option<(Vec<char>, Vec<char>)>)
    requires
        i < s@.len(),
    ensures
        match note_at(s@, i as int) {
            Some((w, d)) => r matches Some((a, b)) && a@ == w && b@ == d,
            None => r is None,
        },
{
    let n = s.len();
    if s[i] != '(' {
        return None;
    }
    let w = word_end_exec(s, i + 1);
    if !(i + 1 < w && s.len() - w >= 5) {
        return None;
    }
    let marker = vec![' ', 't', 'o', ' ', '#'];
    let mut same = true;
    let mut k: usize = 0;
    while k < 5
        invariant
            n == s@.len(),
            w + 5 <= s@.len(),
            marker@ == to_hash(),
            k <= 5,
            same == forall|m: int| 0 <= m < k ==> s@[w + m] == marker@[m],
        decreases 5 - k,
    {
        if s[w + k] != marker[k] {
            same = false;
        }
        k = k + 1;
    }
    if !same {
        assert(s@.subrange(w as int, w + 5) != to_hash()) by {
            let m = choose|m: int| 0 <= m < 5 && s@[w + m] != marker@[m];
            assert(s@.subrange(w as int, w + 5)[m] != to_hash()[m]);
        }
        return None;
    }
    assert(s@.subrange(w as int, w + 5) =~= to_hash());
    let d = digits_end_exec(s, w + 5);
    if w + 5 < d && d < s.len() && s[d] == ')' {
        Some((slice_chars(s, i + 1, w), slice_chars(s, w + 5, d)))
    } else {
        None
    }
}

fn is_word(a: &Vec<char>, word: &Vec<char>) -> (r: bool)
    ensures
        r == (a@ == word@),
{
    if a.len() != word.len() {
        return false;
    }
    let mut k: usize = 0;
    while k < a.len()
        invariant
            a@.len() == word@.len(),
            k <= a@.len(),
            forall|m: int| 0 <= m < k ==> a@[m] == word@[m],
        decreases a@.len() - k,
    {
        if a[k] != word[k] {
            return false;
        }
        k = k + 1;
    }
    assert(a@ =~= word@);
    true
}

/// Where a match's loser and winner go next, as `links_spec` reads the note.
pub fn parse_links(text: &str) -> (r: (Option<usize>, Option<usize>))
    ensures
        r == links_spec(text@),
{
    let s = chars_of(text);
    let mut i: usize = 0;
    while i < s.len()
        invariant
            i <= s@.len(),
            s@ == text@,
            first_note(s@, 0) == first_note(s@, i as int),
        decreases s@.len() - i,
    {
        match note_at_exec(&s, i) {
            Some((word, digits)) => {
                assert(note_at(s@, i as int) == Some((word@, digits@)));
                assert(first_note(s@, i as int) == Some((word@, digits@)));
                let loser = vec!['L', 'o', 's', 'e', 'r'];
                let winner = vec!['W', 'i', 'n', 'n', 'e', 'r'];
                assert(loser@ =~= seq!['L', 'o', 's', 'e', 'r']);
                assert(winner@ =~= seq!['W', 'i', 'n', 'n', 'e', 'r']);
                let num = parse_usize(&digits);
                let is_loser = is_word(&word, &loser);
                let is_winner = is_word(&word, &winner);
                let res: (Option<usize>, Option<usize>) = match num {
                    Some(n) => if is_loser {
                        (Some(n), None)
                    } else if is_winner {
                        (None, Some(n))
                    } else {
                        (None, None)
                    },
                    None => (None, None),
                };
                return res;
            },
            None => {},
        }
        i = i + 1;
    }
    (None, None)
}

/// The number of a match label such as `#12`: what follows its first character, read as a
/// decimal number.
pub open spec fn label_number(l: Seq<char>) -> Option<usize> {
    if l.len() == 0 {
        None
    } else {
        parse_usize_spec(l.drop_first())
    }
}

/// The number of a match label, as `label_number` reads it.
pub fn parse_label(label: &str) -> (r: Option<usize>)
    ensures
        r == label_number(label@),
{
    let s = chars_of(label);
    if s.len() == 0 {
        return None;
    }
    let rest = slice_chars(&s, 1, s.len());
    assert(rest@ =~= s@.drop_first());
    parse_usize(&rest)
}

/// One child slot of a match: the match whose winner comes from it, or a seeded team.
pub enum BracketMatchChild {
    Winner(BracketMatch),
    Seed(Vec<Player>),
}

/// A match of a double-elimination bracket, with the matches and seeds that feed it.
pub struct BracketMatch {
    pub id: usize,
    pub winner: Vec<Player>,
    pub loser_to: Option<usize>,
    pub winner_to: Option<usize>,
    pub format: Option<String>,
    pub scores: Vec<(usize, usize)>,
    pub children: Vec<BracketMatchChild>,
}

impl BracketGrid {
    /// Every slot of the crawled tree is a cell of the table.
    pub open spec fn holds(&self, n: BracketNode) -> bool
        decreases n,
    {
        &&& self.valid(n.row as int, n.col as int)
        &&& forall|k: int| 0 <= k < n.children@.len() ==> self.holds(#[trigger] n.children@[k])
    }

    pub proof fn lemma_crawled_holds(&self, n: BracketNode, steps: nat)
        requires
            self.crawled(n, steps),
        ensures
            self.holds(n),
        decreases n,
    {
        assert forall|k: int| 0 <= k < n.children@.len() implies self.holds(
            #[trigger] n.children@[k],
        ) by {
            self.lemma_crawled_holds(n.children@[k], steps);
        }
    }

    /// The number of the match in the slot at (r, c): its label, written in the cell before
    /// it; 0 where there is none.
    pub open spec fn id_spec(&self, r: int, c: int) -> usize {
        match self.neighbor_spec(r, c, Direction::Left) {
            Some((a, b)) => match self.cell(a, b).label {
                Some(l) => match label_number(l@) {
                    Some(n) => n,
                    None => 0,
                },
                None => 0,
            },
            None => 0,
        }
    }

    /// The team named in the slot at (r, c), or no players where the text names no team.
    pub open spec fn team_spec(&self, r: int, c: int, teams: Seq<Vec<Player>>) -> Seq<Player> {
        match resolve_team_spec(self.cell(r, c).inner_html@, teams) {
            Some(i) => teams[i]@,
            None => Seq::empty(),
        }
    }

    /// The scores written in the cell below the slot at (r, c).
    pub open spec fn slot_scores(&self, r: int, c: int) -> Seq<(usize, usize)> {
        match self.neighbor_spec(r, c, Direction::Down) {
            Some((a, b)) => scores_spec(self.cell(a, b).score_text@),
            None => Seq::empty(),
        }
    }

    /// Where the loser and winner of the match in the slot at (r, c) go next, as the note in
    /// the cell below it says.
    pub open spec fn slot_links(&self, r: int, c: int) -> (Option<usize>, Option<usize>) {
        match self.neighbor_spec(r, c, Direction::Down) {
            Some((a, b)) => match self.cell(a, b).note {
                Some(t) => links_spec(t@),
                None => (None, None),
            },
            None => (None, None),
        }
    }

    /// The match `m` is the one read from the crawled slot `n`: its number, winner, scores
    /// and links from the slot's cells, and one child per feeding slot, a seed where that
    /// slot is fed by nothing and otherwise the match read from it.
    pub open spec fn built_from(&self, n: BracketNode, teams: Seq<Vec<Player>>, m: BracketMatch) -> bool
        decreases n,
    {
        &&& m.id == self.id_spec(n.row as int, n.col as int)
        &&& m.winner@ == self.team_spec(n.row as int, n.col as int, teams)
        &&& m.scores@ == self.slot_scores(n.row as int, n.col as int)
        &&& (m.loser_to, m.winner_to) == self.slot_links(n.row as int, n.col as int)
        &&& m.format is None
        &&& m.children@.len() == n.children@.len()
        &&& forall|k: int|
            0 <= k < n.children@.len() ==> match #[trigger] m.children@[k] {
                BracketMatchChild::Seed(p) => n.children@[k].children@.len() == 0 && p@
                    == self.team_spec(n.children@[k].row as int, n.children@[k].col as int, teams),
                BracketMatchChild::Winner(c) => n.children@[k].children@.len() > 0
                    && self.built_from(n.children@[k], teams, c),
            }
    }

    fn team_at(&self, r: usize, c: usize, teams: &[Vec<Player>]) -> (t: Vec<Player>)
        requires
            self.valid(r as int, c as int),
        ensures
            t@ == self.team_spec(r as int, c as int, teams@),
    {
        match resolve_team(self.rows[r][c].inner_html.as_str(), teams) {
            Some(team) => copy_players(team.as_slice()),
            None => Vec::new(),
        }
    }

    /// Reads the match in a crawled slot, as `built_from` says.
    pub fn from_node(&self, node: &BracketNode, teams: &[Vec<Player>]) -> (m: BracketMatch)
        requires
            self.holds(*node),
        ensures
            self.built_from(*node, teams@, m),
        decreases node,
    {
        let r = node.row;
        let c = node.col;
        let id: usize = match self.neighbor(r, c, Direction::Left) {
            Some((a, b)) => match &self.rows[a][b].label {
                Some(l) => match parse_label(l.as_str()) {
                    Some(n) => n,
                    None => 0,
                },
                None => 0,
            },
            None => 0,
        };
        let below = self.neighbor(r, c, Direction::Down);
        let scores: Vec<(usize, usize)> = match below {
            Some((a, b)) => parse_scores(self.rows[a][b].score_text.as_str()),
            None => Vec::new(),
        };
        let links: (Option<usize>, Option<usize>) = match below {
            Some((a, b)) => match &self.rows[a][b].note {
                Some(t) => parse_links(t.as_str()),
                None => (None, None),
            },
            None => (None, None),
        };
        let winner = self.team_at(r, c, teams);
        let mut children: Vec<BracketMatchChild> = Vec::new();
        let mut k: usize = 0;
        while k < node.children.len()
            invariant
                self.holds(*node),
                k <= node.children@.len(),
                children@.len() == k,
                forall|j: int|
                    0 <= j < k ==> match #[trigger] children@[j] {
                        BracketMatchChild::Seed(p) => node.children@[j].children@.len() == 0 && p@
                            == self.team_spec(
                            node.children@[j].row as int,
                            node.children@[j].col as int,
                            teams@,
                        ),
                        BracketMatchChild::Winner(m) => node.children@[j].children@.len() > 0
                            && self.built_from(node.children@[j], teams@, m),
                    },
            decreases node.children@.len() - k,
        {
            let child = &node.children[k];
            assert(self.holds(node.children@[k as int]));
            if child.children.len() == 0 {
                children.push(BracketMatchChild::Seed(self.team_at(child.row, child.col, teams)));
            } else {
                children.push(BracketMatchChild::Winner(self.from_node(child, teams)));
            }
            k = k + 1;
        }
        BracketMatch {
            id,
            winner,
            loser_to: links.0,
            winner_to: links.1,
            format: None,
            scores,
            children,
        }
    }
}

/// Every match below the root feeds from at least one slot: every leaf of the tree is a
/// seed.
pub open spec fn well_formed(m: BracketMatch) -> bool
    decreases m,
{
    forall|k: int|
        0 <= k < m.children@.len() ==> match #[trigger] m.children@[k] {
            BracketMatchChild::Winner(c) => c.children@.len() > 0 && well_formed(c),
            BracketMatchChild::Seed(_) => true,
        }
}

/// A match read from a crawled slot is well formed: each child that is a match has children
/// of its own, so that every leaf of the tree is a seed.
pub proof fn lemma_built_well_formed(
    g: BracketGrid,
    n: BracketNode,
    teams: Seq<Vec<Player>>,
    m: BracketMatch,
)
    requires
        g.built_from(n, teams, m),
    ensures
        well_formed(m),
    decreases n,
{
    assert forall|k: int| 0 <= k < m.children@.len() implies match #[trigger] m.children@[k] {
        BracketMatchChild::Winner(c) => c.children@.len() > 0 && well_formed(c),
        BracketMatchChild::Seed(_) => true,
    } by {
        match m.children@[k] {
            BracketMatchChild::Winner(c) => {
                lemma_built_well_formed(g, n.children@[k], teams, c);
                assert(c.children@.len() == n.children@[k].children@.len());
            },
            BracketMatchChild::Seed(_) => {},
        }
    }
}

} // verus!
