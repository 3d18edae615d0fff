use pbt_scrape::bracket::{double_elim_bracket, is_round_robin, round_robin_bracket, Bracket};
use pbt_scrape::direction::Direction;
use pbt_scrape::grid::{borders, BracketCell, BracketGrid};
use pbt_scrape::matches::{parse_label, parse_links, parse_scores, BracketMatchChild};
use pbt_scrape::roster::Player;

fn player(id: usize, first: &str, last: &str) -> Player {
    Player {
        id,
        first_name: first.to_string(),
        last_name: last.to_string(),
        nick_name: None,
        from: String::new(),
    }
}

fn cell(inner: &str, style: &str) -> BracketCell {
    BracketCell {
        inner_html: inner.to_string(),
        style: style.to_string(),
        label: None,
        score_text: inner.to_string(),
        note: None,
    }
}

fn blank() -> BracketCell {
    cell("&nbsp;", "")
}

/// A section whose final, labelled #3, is fed by two seeded teams.
fn single_final() -> BracketGrid {
    let mut label = blank();
    label.label = Some("#3".to_string());
    let mut below = cell("&nbsp;", "border-left:1px solid");
    below.score_text = "11-9,11-5".to_string();
    below.note = Some("(Winner to #7)".to_string());
    BracketGrid {
        rows: vec![
            vec![blank(), blank(), blank()],
            vec![blank(), cell("Smith, John-Doe, Jane", "border-bottom:1px solid"), blank()],
            vec![blank(), label, cell("Smith, John-Doe, Jane", "border-left:1px solid")],
            vec![blank(), cell("Lee, Ann-Kim, Ben", "border-bottom:1px solid"), below],
        ],
    }
}

fn teams() -> Vec<Vec<Player>> {
    vec![
        vec![player(1, "John", "Smith"), player(2, "Jane", "Doe")],
        vec![player(3, "Ann", "Lee"), player(4, "Ben", "Kim")],
    ]
}

fn seed_ids(child: &BracketMatchChild) -> Option<Vec<usize>> {
    match child {
        BracketMatchChild::Seed(players) => Some(players.iter().map(|p| p.id).collect()),
        BracketMatchChild::Winner(_) => None,
    }
}

#[test]
fn borders_read_from_style() {
    assert_eq!(borders("border-bottom:1px solid;border-left:1px solid"), (true, true));
    assert_eq!(borders("border-left:1px solid"), (false, true));
    assert_eq!(borders("border-bottom:1px solid"), (true, false));
    assert_eq!(borders("border-bottom:1px solid;"), (true, false));
    assert_eq!(borders("width:3px"), (false, false));
    assert_eq!(borders("border-bottom:1px;width:3px"), (false, false));
    assert_eq!(borders(""), (false, false));
}

#[test]
fn scores_read_from_first_run() {
    assert_eq!(parse_scores("11-9,11-7"), vec![(11, 9), (11, 7)]);
    assert_eq!(parse_scores("Games: 11-9,5-11,11-3 (final)"), vec![(11, 9), (5, 11), (11, 3)]);
    assert_eq!(parse_scores("11-9, 5-11"), vec![(11, 9)]);
    assert_eq!(parse_scores("1-23-4"), vec![(1, 23)]);
    assert_eq!(parse_scores("no scores"), vec![]);
    assert_eq!(parse_scores(""), vec![]);
}

#[test]
fn links_read_from_note() {
    assert_eq!(parse_links("(Loser to #7)"), (Some(7), None));
    assert_eq!(parse_links("W (Winner to #12)"), (None, Some(12)));
    assert_eq!(parse_links("(Bye to #3) (Loser to #5)"), (None, None));
    assert_eq!(parse_links("no note"), (None, None));
}

#[test]
fn labels_read_as_numbers() {
    assert_eq!(parse_label("#12"), Some(12));
    assert_eq!(parse_label("#"), None);
    assert_eq!(parse_label(""), None);
    assert_eq!(parse_label("#x1"), None);
}

#[test]
fn header_with_empty_cells_is_round_robin() {
    let empty = vec![String::new(), String::new()];
    assert!(is_round_robin(Some(&empty)));
    let filled = vec![String::new(), "Pool A".to_string()];
    assert!(!is_round_robin(Some(&filled)));
    assert!(!is_round_robin(None));
    let no_cells: Vec<String> = Vec::new();
    assert!(is_round_robin(Some(&no_cells)));
}

#[test]
fn neighbors_and_paths_of_grid() {
    let grid = single_final();
    assert_eq!(grid.neighbor(2, 2, Direction::Up), Some((1, 2)));
    assert_eq!(grid.neighbor(2, 2, Direction::Right), None);
    assert_eq!(grid.neighbor(0, 0, Direction::Left), None);
    assert_eq!(grid.paths(2, 2), vec![Direction::Up, Direction::Down]);
    assert_eq!(grid.paths(1, 2), vec![Direction::Down, Direction::Left]);
    assert_eq!(Direction::Left.opposite(), Direction::Right);
}

#[test]
fn single_final_tree_is_well_formed() {
    let grid = single_final();
    let matches = double_elim_bracket(&vec![grid], &teams()).unwrap();
    assert_eq!(matches.len(), 1);
    let root = &matches[0];
    assert_eq!(root.id, 3);
    assert_eq!(root.winner.iter().map(|p| p.id).collect::<Vec<_>>(), vec![1, 2]);
    assert_eq!(root.scores, vec![(11, 9), (11, 5)]);
    assert_eq!((root.loser_to, root.winner_to), (None, Some(7)));
    assert_eq!(root.children.len(), 2);
    assert_eq!(seed_ids(&root.children[0]), Some(vec![1, 2]));
    assert_eq!(seed_ids(&root.children[1]), Some(vec![3, 4]));
}

#[test]
fn crawl_follows_lines_to_seeds() {
    let grid = single_final();
    let node = grid.crawl_from(2, 2, 16, 16).unwrap();
    assert_eq!(node.children.iter().map(|c| (c.row, c.col)).collect::<Vec<_>>(), vec![(1, 1), (3, 1)]);
    assert!(node.children.iter().all(|c| c.children.is_empty()));
    assert!(grid.crawl_from(2, 2, 0, 16).is_err());
}

#[test]
fn unreadable_label_is_an_error() {
    let mut grid = single_final();
    grid.rows[0][0].label = Some("#x".to_string());
    assert!(double_elim_bracket(&vec![grid], &teams()).is_err());
}

#[test]
fn table_without_labels_has_no_final() {
    let grid = BracketGrid { rows: vec![vec![blank(), blank()]] };
    assert_eq!(double_elim_bracket(&vec![grid], &teams()).unwrap().len(), 0);
}

#[test]
fn round_robin_pools_by_column() {
    let short = BracketGrid { rows: vec![vec![blank()]; 4] };
    assert_eq!(round_robin_bracket(&short, &teams()).unwrap().len(), 0);
    let grid = BracketGrid { rows: vec![vec![blank(), blank(), blank(), blank(), blank()]; 9] };
    let pools = round_robin_bracket(&grid, &teams()).unwrap();
    assert_eq!(pools.len(), 2);
    assert_eq!(pools[0].len(), 2);
    assert_eq!(pools[1].len(), 2);
    assert!(matches!(Bracket::default(), Bracket::RoundRobin(p) if p.is_empty()));
}
