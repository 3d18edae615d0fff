//! Mirrors a tournament web site's listings, rosters, schedules and brackets.
//!
//! The library holds the parts that decide: a cache cell with a refresh interval
//! (`cache`), a table of such cells by key (`cache_map`), the scopes that lead to a cached
//! value (`guard_stack`), the classification of fetched pages (`error`), the resolution of
//! names written on pages to known players and teams (`names`, `roster`, `teams`,
//! `team_list`), the reconstruction of a bracket's match tree from its rendered table
//! (`grid`, `matches`, `bracket`), and the reading of the site's listings, events, schedules
//! and small markup fragments (`listing`, `events`, `schedule`, `markup`), all over
//! character sequences (`text`). Fetching pages and walking their markup into these types is
//! left to the caller.
use vstd::prelude::*;

pub mod bracket;
pub mod cache;
pub mod cache_map;
pub mod direction;
pub mod error;
pub mod events;
pub mod grid;
pub mod listing;
pub mod guard_stack;
pub mod markup;
pub mod matches;
pub mod names;
pub mod roster;
pub mod schedule;
pub mod team_list;
pub mod teams;
pub mod text;

verus! {

} // verus!
