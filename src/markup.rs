//! Small grammars of the site's markup: links, roster rows, schedule entries and event
//! names.
use vstd::prelude::*;

use crate::error::ScrapeError;
use crate::matches::{digits_end, digits_end_exec};
use crate::roster::{Player, opt_view};
use crate::text::{chars_of, contains, contains_spec, matches_at, occurs_at, parse_usize, parse_usize_spec, scan_until, slice_chars, stop_at, string_of, trim, trim_spec};

verus! {

pub open spec fn href_key() -> Seq<char> {
    "href=\""@
}

/// A link `href="…"` at `p`, with a non-empty target: the target.
pub open spec fn href_at(s: Seq<char>, p: int) -> Option<Seq<char>> {
    let a = p + href_key().len();
    let q = stop_at(s, a, '"', '"');
    if occurs_at(s, href_key(), p) && a < q && q < s.len() {
        Some(s.subrange(a, q))
    } else {
        None
    }
}

/// The target of the first link at or after `i`.
pub open spec fn first_href_from(s: Seq<char>, i: int) -> Option<Seq<char>>
    decreases s.len() - i,
{
    if i < 0 || i >= s.len() {
        None
    } else if href_at(s, i) is Some {
        href_at(s, i)
    } else {
        first_href_from(s, i + 1)
    }
}

/// The target of the first link `href="…"` in the markup.
pub fn first_href(html: &str) -> (r: Option<String>)
    ensures
        match first_href_from(html@, 0) {
            Some(t) => r matches Some(u) && u@ == t,
            None => r is None,
        },
{
    let s = chars_of(html);
    let n = s.len();
    let key = chars_of("href=\"");
    let mut i: usize = 0;
    while i < s.len()
        invariant
            i <= s@.len(),
            n == s@.len(),
            s@ == html@,
            key@ == href_key(),
            first_href_from(s@, 0) == first_href_from(s@, i as int),
        decreases s@.len() - i,
    {
        if matches_at(&s, &key, i) {
            let a = i + key.len();
            let q = scan_until(&s, a, '"', '"');
            if a < q && q < s.len() {
                return Some(string_of(&slice_chars(&s, a, q)));
            }
        }
        i = i + 1;
    }
    None
}

/// The number in the first `&amp;id=` followed by digits, at or after `i`.
pub open spec fn id_from(s: Seq<char>, i: int) -> Option<Seq<char>>
    decreases s.len() - i,
{
    let key = "&amp;id="@;
    let a = i + key.len();
    let d = digits_end(s, a);
    if i < 0 || i >= s.len() {
        None
    } else if occurs_at(s, key, i) && a < d {
        Some(s.subrange(a, d))
    } else {
        id_from(s, i + 1)
    }
}

/// A roster name `<span>Last</span>, First (Nick)` at `p`: last name, first name (not
/// trimmed), and nickname where one stands in parentheses.
pub open spec fn roster_name_at(s: Seq<char>, p: int) -> Option<(Seq<char>, Seq<char>, Option<Seq<char>>)> {
    let open = "<span>"@;
    let close = "</span>, "@;
    let a = p + open.len();
    let q = stop_at(s, a, '<', '<');
    let b = q + close.len();
    let e = stop_at(s, b, '(', '<');
    let f = stop_at(s, e + 1, ')', ')');
    if occurs_at(s, open, p) && a < q && occurs_at(s, close, q) && b < e {
        Some(
            (
                s.subrange(a, q),
                s.subrange(b, e),
                if e < s.len() && s[e] == '(' && e + 1 < f && f < s.len() {
                    Some(s.subrange(e + 1, f))
                } else {
                    None
                },
            ),
        )
    } else {
        None
    }
}

/// The first roster name at or after `i`.
pub open spec fn roster_name_from(s: Seq<char>, i: int) -> Option<(Seq<char>, Seq<char>, Option<Seq<char>>)>
    decreases s.len() - i,
{
    if i < 0 || i >= s.len() {
        None
    } else if roster_name_at(s, i) is Some {
        roster_name_at(s, i)
    } else {
        roster_name_from(s, i + 1)
    }
}

/// The player that a roster row describes, from the markup of its name link and the text
/// of its home town: the first `&amp;id=` number is the id, and the first
/// `<span>Last</span>, First (Nick)` the name, the first name trimmed.
pub open spec fn roster_player_spec(name_html: Seq<char>, from: Seq<char>, p: Player) -> bool {
    match (id_from(name_html, 0), roster_name_from(name_html, 0)) {
        (Some(digits), Some((last, first, nick))) => parse_usize_spec(digits) == Some(p.id)
            && p.last_name@ == last && p.first_name@ == trim_spec(first) && opt_view(p.nick_name)
            == nick && p.from@ == from,
        _ => false,
    }
}

fn id_exec(s: &Vec<char>) -> (r: Option<Vec<char>>)
    ensures
        match id_from(s@, 0) {
            Some(d) => r matches Some(v) && v@ == d,
            None => r is None,
        },
{
    let n = s.len();
    let key = chars_of("&amp;id=");
    let mut i: usize = 0;
    while i < s.len()
        invariant
            i <= s@.len(),
            n == s@.len(),
            key@ == "&amp;id="@,
            id_from(s@, 0) == id_from(s@, i as int),
        decreases s@.len() - i,
    {
        if matches_at(s, &key, i) {
            let a = i + key.len();
            let d = digits_end_exec(s, a);
            if a < d {
                return Some(slice_chars(s, a, d));
            }
        }
        i = i + 1;
    }
    None
}

fn roster_name_exec(s: &Vec<char>) -> (r: Option<(Vec<char>, Vec<char>, Option<Vec<char>>)>)
    ensures
        match roster_name_from(s@, 0) {
            Some((l, f, k)) => r matches Some((a, b, c)) && a@ == l && b@ == f && match c {
                Some(v) => k == Some(v@),
                None => k is None,
            },
            None => r is None,
        },
{
    let n = s.len();
    let open = chars_of("<span>");
    let close = chars_of("</span>, ");
    let mut i: usize = 0;
    while i < s.len()
        invariant
            i <= s@.len(),
            n == s@.len(),
            open@ == "<span>"@,
            close@ == "</span>, "@,
            roster_name_from(s@, 0) == roster_name_from(s@, i as int),
        decreases s@.len() - i,
    {
        if matches_at(s, &open, i) {
            let a = i + open.len();
            let q = scan_until(s, a, '<', '<');
            if a < q && matches_at(s, &close, q) {
                let b = q + close.len();
                let e = scan_until(s, b, '(', '<');
                if b < e {
                    let nick: Option<Vec<char>> = if e < s.len() && s[e] == '(' {
                        let f = scan_until(s, e + 1, ')', ')');
                        if e + 1 < f && f < s.len() {
                            Some(slice_chars(s, e + 1, f))
                        } else {
                            None
                        }
                    } else {
                        None
                    };
                    return Some((slice_chars(s, a, q), slice_chars(s, b, e), nick));
                }
            }
        }
        i = i + 1;
    }
    None
}

/// The player that a roster row describes, as `roster_player_spec` reads it; an error where
/// the row has no id or no name.
pub fn roster_player(name_html: &str, from: &str) -> (r: Result<Player, ScrapeError>)
    ensures
        match r {
            Ok(p) => roster_player_spec(name_html@, from@, p),
            Err(_) => !exists|p: Player| roster_player_spec(name_html@, from@, p),
        },
{
    let s = chars_of(name_html);
    let id = match id_exec(&s) {
        Some(d) => match parse_usize(&d) {
            Some(v) => v,
            None => {
                return Err(ScrapeError::from_str("unreadable player id"));
            },
        },
        None => {
            return Err(ScrapeError::from_str("player without id"));
        },
    };
    match roster_name_exec(&s) {
        Some((last, first, nick)) => {
            let p = Player {
                id,
                first_name: string_of(&trim(&first)),
                last_name: string_of(&last),
                nick_name: match nick {
                    Some(v) => Some(string_of(&v)),
                    None => None,
                },
                from: from.to_owned(),
            };
            Ok(p)
        },
        None => Err(ScrapeError::from_str("player without name")),
    }
}

/// The event named by a schedule entry: the whole entry, or the text of the one link it
/// consists of (optionally after a colon); `None` for an entry of another shape.
pub open spec fn schedule_name_spec(e: Seq<char>) -> Option<Seq<char>> {
    let o = if e.len() > 0 && e[0] == ':' {
        1int
    } else {
        0
    };
    let g = stop_at(e, o + "<a"@.len(), '>', '>');
    let k = g + 1;
    let m = stop_at(e, k, '<', '<');
    let bare = stop_at(e, 0, '<', '<');
    if occurs_at(e, "<a"@, o) && o + "<a"@.len() < g && g < e.len() && k < m && (m == e.len()
        || e.subrange(m, e.len() as int) == "</a>"@) {
        Some(e.subrange(k, m))
    } else if 0 < bare && (bare == e.len() || e.subrange(bare, e.len() as int) == "</a>"@) {
        Some(e.subrange(0, bare))
    } else {
        None
    }
}

fn ends_with_close(e: &Vec<char>, m: usize, close: &Vec<char>) -> (r: bool)
    requires
        m <= e@.len(),
        close@ == "</a>"@,
    ensures
        r == (m == e@.len() || e@.subrange(m as int, e@.len() as int) == "</a>"@),
{
    if m == e.len() {
        return true;
    }
    let at = matches_at(e, close, m);
    let rest = e.len() - m == close.len();
    proof {
        if at && rest {
            assert(e@.subrange(m as int, e@.len() as int) =~= e@.subrange(
                m as int,
                m + close@.len(),
            ));
        }
        if e@.subrange(m as int, e@.len() as int) == "</a>"@ {
            assert(e@.subrange(m as int, m + close@.len()) =~= e@.subrange(
                m as int,
                e@.len() as int,
            ));
        }
    }
    at && rest
}

/// The event named by a schedule entry, as `schedule_name_spec` reads it; an error for an
/// entry of another shape.
pub fn schedule_entry_name(entry: &str) -> (r: Result<String, ScrapeError>)
    ensures
        match schedule_name_spec(entry@) {
            Some(n) => r matches Ok(s) && s@ == n,
            None => r is Err,
        },
{
    let e = chars_of(entry);
    let close = chars_of("</a>");
    let opening = chars_of("<a");
    let o: usize = if e.len() > 0 && e[0] == ':' {
        1
    } else {
        0
    };
    if matches_at(&e, &opening, o) {
        let g = scan_until(&e, o + opening.len(), '>', '>');
        if o + opening.len() < g && g < e.len() {
            let k = g + 1;
            let m = scan_until(&e, k, '<', '<');
            if k < m && ends_with_close(&e, m, &close) {
                return Ok(string_of(&slice_chars(&e, k, m)));
            }
        }
    }
    let bare = scan_until(&e, 0, '<', '<');
    if 0 < bare && ends_with_close(&e, bare, &close) {
        return Ok(string_of(&slice_chars(&e, 0, bare)));
    }
    Err(ScrapeError::from_str("unreadable schedule entry"))
}

} // verus!

verus! {

/// What `str::to_lowercase` makes of a text.
pub uninterp spec fn lower_of(s: Seq<char>) -> Seq<char>;

/// Relies on `str::to_lowercase`: the lower-case form of `s`, which depends on its
/// characters alone.
#[verifier::external_body]
fn lowercase(s: &str) -> (r: String)
    ensures
        r@ == lower_of(s@),
{
    s.to_lowercase()
}

/// The text without its spaces and hyphens.
pub open spec fn squeeze(s: Seq<char>) -> Seq<char>
    decreases s.len(),
{
    if s.len() == 0 {
        Seq::empty()
    } else if s.last() == ' ' || s.last() == '-' {
        squeeze(s.drop_last())
    } else {
        squeeze(s.drop_last()).push(s.last())
    }
}

/// A lower-cased event name names a wait list: without spaces and hyphens it holds
/// `waitlist`.
pub open spec fn waitlist_folded(lowered: Seq<char>) -> bool {
    contains_spec(squeeze(lowered), "waitlist"@)
}

/// The text without its spaces and hyphens.
pub fn squeeze_name(s: &str) -> (r: String)
    ensures
        r@ == squeeze(s@),
{
    let cs = chars_of(s);
    let mut kept: Vec<char> = Vec::new();
    let mut i: usize = 0;
    while i < cs.len()
        invariant
            i <= cs@.len(),
            cs@ == s@,
            kept@ == squeeze(cs@.subrange(0, i as int)),
        decreases cs@.len() - i,
    {
        assert(cs@.subrange(0, i + 1).drop_last() =~= cs@.subrange(0, i as int));
        if cs[i] != ' ' && cs[i] != '-' {
            kept.push(cs[i]);
        }
        i = i + 1;
    }
    assert(cs@.subrange(0, cs@.len() as int) =~= cs@);
    string_of(&kept)
}

/// An event name in lower case, without spaces and hyphens.
pub fn sanitize_name(name: &str) -> (r: String)
    ensures
        r@ == squeeze(lower_of(name@)),
{
    squeeze_name(lowercase(name).as_str())
}

/// Whether a lower-cased event name names a wait list.
pub fn is_waitlist_folded(lowered: &str) -> (r: bool)
    ensures
        r == waitlist_folded(lowered@),
{
    contains(&chars_of(squeeze_name(lowered).as_str()), &chars_of("waitlist"))
}

/// Whether an event name names a wait list, in any case.
pub fn is_waitlist(name: &str) -> (r: bool)
    ensures
        r == waitlist_folded(lower_of(name@)),
{
    is_waitlist_folded(lowercase(name).as_str())
}

} // verus!

verus! {

/// A navigation link that leads to a section of tournament information: a target within the
/// page (`#…`) other than the schedule, the player list, the event list, the partner search
/// and the player search.
pub open spec fn info_target_spec(t: Seq<char>) -> bool {
    &&& t.len() > 0
    &&& t[0] == '#'
    &&& t != "#menuSchedule"@
    &&& t != "#menuPlayerList"@
    &&& t != "#menuEventList"@
    &&& t != "#menuPlayersNeedingPartners"@
    &&& t != "#menuFindPlayer"@
}

/// Whether a navigation link's target is a section of tournament information.
pub fn is_info_target(target: &str) -> (r: bool)
    ensures
        r == info_target_spec(target@),
{
    let t = chars_of(target);
    if t.len() == 0 || t[0] != '#' {
        return false;
    }
    let same = |s: &str| -> (b: bool)
        ensures
            b == (t@ == s@),
        { crate::grid::same_chars(&t, &chars_of(s)) };
    !(same("#menuSchedule") || same("#menuPlayerList") || same("#menuEventList") || same(
        "#menuPlayersNeedingPartners",
    ) || same("#menuFindPlayer"))
}

} // verus!
