use pbt_scrape::names::name_to_query;
use pbt_scrape::roster::{find_player, FindPlayerQuery, Player};
use pbt_scrape::team_list::{double_elim_team_list, round_robin_team_list};
use pbt_scrape::teams::{name_to_player, resolve_team};

fn player(id: usize, first: &str, last: &str, nick: Option<&str>) -> Player {
    Player {
        id,
        first_name: first.to_string(),
        last_name: last.to_string(),
        nick_name: nick.map(|n| n.to_string()),
        from: "Springfield".to_string(),
    }
}

fn ids(players: &[Player]) -> Vec<usize> {
    players.iter().map(|p| p.id).collect()
}

#[test]
fn query_reads_last_first_and_nick() {
    let q = name_to_query("Smith, John (Jack)").unwrap();
    assert_eq!(q.last_name, "Smith");
    assert_eq!(q.first_name.as_deref(), Some("John"));
    assert_eq!(q.nick_name.as_deref(), Some("Jack"));
}

#[test]
fn query_reads_last_name_alone() {
    let q = name_to_query("Smith").unwrap();
    assert_eq!(q.last_name, "Smith");
    assert_eq!(q.first_name, None);
    assert_eq!(q.nick_name, None);
}

#[test]
fn query_reads_nbsp_as_space() {
    let q = name_to_query("Doe,&nbsp;Jane").unwrap();
    assert_eq!(q.last_name, "Doe");
    assert_eq!(q.first_name.as_deref(), Some("Jane"));
}

#[test]
fn query_of_commas_alone_is_none() {
    assert!(name_to_query(",,,").is_none());
    assert!(name_to_query("").is_none());
}

#[test]
fn query_trims_first_name_and_skips_leading_commas() {
    let q = name_to_query(",Lee,  Ann  <br>").unwrap();
    assert_eq!(q.last_name, "Lee");
    assert_eq!(q.first_name.as_deref(), Some("Ann"));
    assert_eq!(q.nick_name, None);
}

#[test]
fn find_player_by_last_name() {
    let players = vec![player(1, "John", "Smith", None), player(2, "Jane", "Doe", None)];
    let q = FindPlayerQuery::from_last_name("Doe");
    assert_eq!(find_player(&q, &players, None, None).map(|p| p.id), Some(2));
    let q = FindPlayerQuery::from_last_name("Nobody");
    assert!(find_player(&q, &players, None, None).is_none());
}

#[test]
fn find_player_matches_first_name_or_nickname() {
    let players = vec![
        player(1, "Robert", "Brown", Some("Bob")),
        player(2, "Alice", "Brown", None),
    ];
    let mut q = FindPlayerQuery::from_last_name("Brown");
    q.first_name = Some("Bob".to_string());
    assert_eq!(find_player(&q, &players, None, None).map(|p| p.id), Some(1));
    q.first_name = Some("Alice".to_string());
    assert_eq!(find_player(&q, &players, None, None).map(|p| p.id), Some(2));
    q.first_name = None;
    q.nick_name = Some("Bob".to_string());
    assert_eq!(find_player(&q, &players, None, None).map(|p| p.id), Some(1));
}

#[test]
fn find_player_skips_excluded_ids() {
    let players = vec![player(1, "Ann", "Lee", None), player(2, "Ben", "Lee", None)];
    let taken = vec![player(1, "Ann", "Lee", None)];
    let q = FindPlayerQuery::from_last_name("Lee");
    assert_eq!(find_player(&q, &players, Some(taken.as_slice()), None).map(|p| p.id), Some(2));
    let all = players.clone();
    assert!(find_player(&q, &players, Some(all.as_slice()), None).is_none());
}

#[test]
fn find_player_prefers_name_in_context() {
    let players = vec![
        player(1, "Ann", "Lee", None),
        player(2, "Ben", "Lee", Some("Benny")),
    ];
    let q = FindPlayerQuery::from_last_name("Lee");
    let text = "<td>Ben (Benny) Lee</td>";
    assert_eq!(find_player(&q, &players, None, Some(text)).map(|p| p.id), Some(2));
    let text = "<td>nobody here</td>";
    assert_eq!(find_player(&q, &players, None, Some(text)).map(|p| p.id), Some(1));
    assert_eq!(find_player(&q, &players, None, None).map(|p| p.id), Some(1));
}

#[test]
fn name_to_player_uses_page_text() {
    let players = vec![player(1, "Ann", "Lee", None), player(2, "Ben", "Lee", None)];
    let found = name_to_player("Lee", &players, "Ben Lee won").unwrap();
    assert_eq!(found.id, 2);
    assert!(name_to_player("Kim, Joe", &players, "").is_none());
}

#[test]
fn resolve_team_by_comma_fragments() {
    let teams = vec![
        vec![player(1, "Ann", "Lee", None), player(2, "Ben", "Kim", None)],
        vec![player(3, "John", "Smith", None), player(4, "Jane", "Doe", None)],
    ];
    let team = resolve_team("Smith, John-Doe, Jane", &teams).unwrap();
    assert_eq!(ids(team), vec![3, 4]);
}

#[test]
fn resolve_team_prefers_unsplit_hyphenated_name() {
    let teams = vec![
        vec![player(1, "Ann", "Smith", None), player(2, "Ben", "Jones", None)],
        vec![player(3, "Cara", "Smith-Jones", None)],
    ];
    let team = resolve_team("Smith-Jones", &teams).unwrap();
    assert_eq!(ids(team), vec![3]);
}

#[test]
fn resolve_team_splits_two_names() {
    let teams = vec![vec![player(1, "Ann", "Smith", None), player(2, "Ben", "Jones", None)]];
    let team = resolve_team("Jones-Smith", &teams).unwrap();
    assert_eq!(ids(team), vec![1, 2]);
}

#[test]
fn resolve_team_three_pieces_either_way() {
    let teams = vec![
        vec![player(1, "Ann", "Lee-Park", None), player(2, "Ben", "Cho", None)],
        vec![player(3, "Cal", "Lee", None), player(4, "Dee", "Park-Cho", None)],
    ];
    assert_eq!(ids(resolve_team("Lee-Park-Cho", &teams).unwrap()), vec![1, 2]);
    let only_second = vec![teams[1].clone()];
    assert_eq!(ids(resolve_team("Lee-Park-Cho", &only_second).unwrap()), vec![3, 4]);
}

#[test]
fn resolve_team_four_pieces_as_two_hyphenated_names() {
    let teams = vec![vec![player(1, "Ann", "Lee-Park", None), player(2, "Ben", "Cho-Kim", None)]];
    assert_eq!(ids(resolve_team("Lee-Park-Cho-Kim", &teams).unwrap()), vec![1, 2]);
}

#[test]
fn resolve_team_needs_whole_team() {
    let teams = vec![vec![player(1, "Ann", "Lee", None), player(2, "Ben", "Kim", None)]];
    assert!(resolve_team("Lee, Ann", &teams).is_none());
    assert!(resolve_team("Smith", &teams).is_none());
    assert!(resolve_team("", &teams).is_none());
}

#[test]
fn resolve_team_same_surname_teammates() {
    let teams = vec![vec![player(1, "Ann", "Lee", None), player(2, "Ben", "Lee", None)]];
    assert_eq!(ids(resolve_team("Lee-Lee", &teams).unwrap()), vec![1, 2]);
}

#[test]
fn round_robin_teams_from_fragments() {
    let players = vec![
        player(1, "Ann", "Lee", None),
        player(2, "Ben", "Kim", None),
        player(3, "Cal", "Ray", None),
    ];
    let rows = vec![
        vec!["1".to_string(), "Lee, Ann-Kim, Ben".to_string()],
        vec!["2".to_string(), "Ray, Cal".to_string()],
        vec!["3".to_string(), "Matches Won".to_string()],
    ];
    let teams = round_robin_team_list(&rows, &players, "").unwrap();
    assert_eq!(teams.iter().map(|t| ids(t)).collect::<Vec<_>>(), vec![vec![1, 2], vec![3]]);
}

#[test]
fn round_robin_teams_from_surnames() {
    let players = vec![
        player(1, "Ann", "Lee", None),
        player(2, "Ben", "Kim", None),
        player(3, "Cal", "Ray-Ford", None),
        player(4, "Dee", "Moss", None),
    ];
    let rows = vec![
        vec!["1".to_string(), "Lee-Kim".to_string()],
        vec!["2".to_string(), "Ray-Ford-Moss".to_string()],
        vec!["3".to_string(), "Point Differential".to_string()],
    ];
    let teams = round_robin_team_list(&rows, &players, "").unwrap();
    assert_eq!(teams.iter().map(|t| ids(t)).collect::<Vec<_>>(), vec![vec![1, 2], vec![3, 4]]);
}

#[test]
fn round_robin_row_without_name_cell_is_an_error() {
    let rows = vec![vec!["1".to_string()]];
    assert!(round_robin_team_list(&rows, &[], "").is_err());
}

#[test]
fn double_elim_teams_skip_byes_and_empty_rows() {
    let players = vec![player(1, "Ann", "Lee", None), player(2, "Ben", "Kim", None)];
    let rows = vec![
        vec!["Lee, Ann".to_string(), "x".to_string()],
        vec!["".to_string(), "Kim, Ben".to_string()],
        vec!["(bye)".to_string(), "Kim, Ben".to_string()],
        vec!["(bye)".to_string()],
        vec!["Nobody, Here".to_string()],
    ];
    let teams = double_elim_team_list(&rows, &players, "");
    assert_eq!(teams.iter().map(|t| ids(t)).collect::<Vec<_>>(), vec![vec![1], vec![2]]);
}

#[test]
fn team_blocks_and_slash_lists() {
    let players = vec![player(1, "Ann", "Lee", None), player(2, "Ben", "Kim", None)];
    let blocks = vec![
        vec!["Lee, Ann".to_string(), "Kim, Ben".to_string()],
        vec!["Nobody, Here".to_string()],
    ];
    let teams = pbt_scrape::team_list::block_teams(&blocks, &players, "");
    assert_eq!(teams.iter().map(|t| ids(t)).collect::<Vec<_>>(), vec![vec![1, 2]]);
    let team = pbt_scrape::team_list::slash_separated_team("Lee, Ann/Kim, Ben/ ", &players, "");
    assert_eq!(ids(&team), vec![1, 2]);
}
