//! The site's tournament listings: what each listing card says of a tournament.
use vstd::prelude::*;

use crate::error::ScrapeError;
use crate::matches::{digits_end, digits_end_exec};
use crate::text::{chars_of, is_digit, matches_at, occurs_at, parse_usize, parse_usize_spec, scan_until, slice_chars, stop_at, string_of};

verus! {

/// Whether, and until when, a tournament takes registrations.
#[derive(Clone, Debug)]
pub enum RegistrationStatus {
    NotOpen,
    Closed,
    OpenSoon { start_date: String, start_time: String },
    Open { deadline: String },
    ClosedToNew { payment_deadline: String },
}

/// A tournament as the listing shows it; dates are written `yyyy-mm-dd`.
#[derive(Clone, Debug)]
pub struct TournamentListing {
    pub id: usize,
    pub name: String,
    pub location: String,
    pub start_date: String,
    pub end_date: String,
    pub tag_urls: Vec<String>,
    pub logo_url: Option<String>,
    pub registration_status: RegistrationStatus,
}

/// The registration box of a listing card, as the page shows it.
#[derive(Clone, Debug)]
pub struct RegistrationMarkup {
    /// The box's markup.
    pub html: String,
    /// The box marks the tournament as advertised only.
    pub ad_only: bool,
    /// The text of the box's opening date, where it has one.
    pub soon: Option<String>,
}

/// The parts of a listing card, as the page shows them.
#[derive(Clone, Debug)]
pub struct ListingMarkup {
    /// The markup of the title link.
    pub title_html: String,
    /// The title link's text.
    pub title: String,
    pub location: String,
    /// The text of the dates box.
    pub dates: String,
    /// The markup of each tag.
    pub tags: Vec<String>,
    /// The markup of the logo box.
    pub logo: String,
    pub registration: Option<RegistrationMarkup>,
}

pub open spec fn is_leap(y: int) -> bool {
    (y % 4 == 0 && y % 100 != 0) || y % 400 == 0
}

pub open spec fn days_in_month(y: int, m: int) -> int {
    if m == 2 {
        if is_leap(y) {
            29
        } else {
            28
        }
    } else if m == 4 || m == 6 || m == 9 || m == 11 {
        30
    } else {
        31
    }
}

/// A day of the calendar.
pub open spec fn valid_date(y: int, m: int, d: int) -> bool {
    1 <= m <= 12 && 1 <= d <= days_in_month(y, m)
}

/// `n` written with `width` digits, zeros in front.
pub open spec fn padded(n: nat, width: nat) -> Seq<char>
    decreases width,
{
    if width == 0 {
        Seq::empty()
    } else {
        padded(n / 10, (width - 1) as nat).push(crate::error::digit_char_spec(n % 10))
    }
}

/// A date written `yyyy-mm-dd`.
pub open spec fn iso_date_spec(y: nat, m: nat, d: nat) -> Seq<char> {
    padded(y, 4) + seq!['-'] + padded(m, 2) + seq!['-'] + padded(d, 2)
}

/// Relies on `chrono::NaiveDate::from_ymd_opt`, which gives `None` exactly for a day that is
/// not on the calendar (within its range of years), and on `format("%Y-%m-%d")`, which writes
/// a year of this century with four digits and month and day with two.
#[verifier::external_body]
fn calendar_date(y: i32, m: u32, d: u32) -> (r: Option<String>)
    requires
        2000 <= y <= 2099,
    ensures
        r is Some <==> valid_date(y as int, m as int, d as int),
        r matches Some(s) ==> s@ == iso_date_spec(y as nat, m as nat, d as nat),
{
    chrono::NaiveDate::from_ymd_opt(y, m, d).map(|date| date.format("%Y-%m-%d").to_string())
}

/// Where a one- or two-digit number followed by a slash, at `p`, puts its slash.
pub open spec fn part_end(s: Seq<char>, p: int) -> Option<int> {
    if 0 <= p && p + 2 < s.len() && is_digit(s[p]) && is_digit(s[p + 1]) && s[p + 2] == '/' {
        Some(p + 2)
    } else if 0 <= p && p + 1 < s.len() && is_digit(s[p]) && s[p + 1] == '/' {
        Some(p + 1)
    } else {
        None
    }
}

/// A date `m/d/yy` at `p`: month, day and year digits, and where the date ends.
pub open spec fn date_at(s: Seq<char>, p: int) -> Option<(Seq<char>, Seq<char>, Seq<char>, int)> {
    match part_end(s, p) {
        Some(a) => match part_end(s, a + 1) {
            Some(b) => if b + 2 < s.len() && is_digit(s[b + 1]) && is_digit(s[b + 2]) {
                Some((s.subrange(p, a), s.subrange(a + 1, b), s.subrange(b + 1, b + 3), b + 3))
            } else {
                None
            },
            None => None,
        },
        None => None,
    }
}

/// The first date at or after `i`.
pub open spec fn first_date(s: Seq<char>, i: int) -> Option<(Seq<char>, Seq<char>, Seq<char>, int)>
    decreases s.len() - i,
{
    if i < 0 || i >= s.len() {
        None
    } else if date_at(s, i) is Some {
        date_at(s, i)
    } else {
        first_date(s, i + 1)
    }
}

fn part_end_exec(s: &Vec<char>, p: usize) -> (r: Option<usize>)
    ensures
        match part_end(s@, p as int) {
            Some(a) => r == Some(a as usize),
            None => r is None,
        },
{
    let n = s.len();
    if p < n && n - p > 2 && '0' <= s[p] && s[p] <= '9' && '0' <= s[p + 1] && s[p + 1] <= '9'
        && s[p + 2] == '/' {
        Some(p + 2)
    } else if p < n && n - p > 1 && '0' <= s[p] && s[p] <= '9' && s[p + 1] == '/' {
        Some(p + 1)
    } else {
        None
    }
}

fn date_at_exec(s: &Vec<char>, p: usize) -> (r: Option<(usize, usize, usize)>)
    ensures
        match date_at(s@, p as int) {
            Some((_, _, _, e)) => r matches Some((a, b, end)) && part_end(s@, p as int) == Some(
                a as int,
            ) && part_end(s@, a + 1) == Some(b as int) && end == e && e == b + 3,
            None => r is None,
        },
{
    let n = s.len();
    match part_end_exec(s, p) {
        Some(a) => match part_end_exec(s, a + 1) {
            Some(b) => {
                if n - b > 3 - 1 && b + 2 < n && '0' <= s[b + 1] && s[b + 1] <= '9' && '0' <= s[b
                    + 2] && s[b + 2] <= '9' {
                    Some((a, b, b + 3))
                } else {
                    None
                }
            },
            None => None,
        },
        None => None,
    }
}

fn first_date_exec(s: &Vec<char>, start: usize) -> (r: Option<(usize, usize, usize, usize)>)
    requires
        start <= s@.len(),
    ensures
        match first_date(s@, start as int) {
            Some((_, _, _, e)) => r matches Some((p, a, b, end)) && date_at(s@, p as int)
                == first_date(s@, start as int) && part_end(s@, p as int) == Some(a as int)
                && part_end(s@, a + 1) == Some(b as int) && end == e && end <= s@.len(),
            None => r is None,
        },
{
    let mut i: usize = start;
    while i < s.len()
        invariant
            start <= i <= s@.len(),
            first_date(s@, start as int) == first_date(s@, i as int),
        decreases s@.len() - i,
    {
        match date_at_exec(s, i) {
            Some((a, b, end)) => {
                return Some((i, a, b, end));
            },
            None => {},
        }
        i = i + 1;
    }
    None
}

/// The date that month, day and two-digit year digits write, in the 2000s, as
/// `yyyy-mm-dd`; `None` where it is not a day of the calendar.
pub open spec fn date_text(m: Seq<char>, d: Seq<char>, y: Seq<char>) -> Option<Seq<char>> {
    match (parse_usize_spec(m), parse_usize_spec(d), parse_usize_spec(y)) {
        (Some(mm), Some(dd), Some(yy)) => if yy < 100 && valid_date(2000 + yy, mm as int, dd as int) {
            Some(iso_date_spec((2000 + yy) as nat, mm as nat, dd as nat))
        } else {
            None
        },
        _ => None,
    }
}

fn date_text_exec(s: &Vec<char>, p: usize, a: usize, b: usize) -> (r: Result<String, ScrapeError>)
    requires
        p < a < b,
        b + 3 <= s@.len(),
    ensures
        match date_text(
            s@.subrange(p as int, a as int),
            s@.subrange(a + 1, b as int),
            s@.subrange(b + 1, b + 3),
        ) {
            Some(t) => r matches Ok(v) && v@ == t,
            None => r is Err,
        },
{
    let n = s.len();
    let m = parse_usize(&slice_chars(s, p, a));
    let d = parse_usize(&slice_chars(s, a + 1, b));
    let y = parse_usize(&slice_chars(s, b + 1, b + 3));
    match (m, d, y) {
        (Some(mm), Some(dd), Some(yy)) => {
            if yy < 100 && mm <= u32::MAX as usize && dd <= u32::MAX as usize {
                match calendar_date((2000 + yy) as i32, mm as u32, dd as u32) {
                    Some(t) => Ok(t),
                    None => Err(ScrapeError::from_str("not a calendar date")),
                }
            } else {
                proof {
                    if yy < 100 {
                        assert(!valid_date(2000 + yy, mm as int, dd as int));
                    }
                }
                Err(ScrapeError::from_str("not a calendar date"))
            }
        },
        _ => Err(ScrapeError::from_str("unreadable date")),
    }
}

/// The first date written in `s` at or after `start`, as `yyyy-mm-dd`, and where it ends;
/// an error where there is none or it is not a calendar day.
pub open spec fn date_from(s: Seq<char>, start: int) -> Option<(Seq<char>, int)> {
    match first_date(s, start) {
        Some((m, d, y, e)) => match date_text(m, d, y) {
            Some(t) => Some((t, e)),
            None => None,
        },
        None => None,
    }
}

fn date_from_exec(s: &Vec<char>, start: usize) -> (r: Result<(String, usize), ScrapeError>)
    requires
        start <= s@.len(),
    ensures
        match date_from(s@, start as int) {
            Some((t, e)) => r matches Ok((v, end)) && v@ == t && end == e && end <= s@.len(),
            None => r is Err,
        },
{
    match first_date_exec(s, start) {
        Some((p, a, b, end)) => {
            let t = date_text_exec(s, p, a, b)?;
            Ok((t, end))
        },
        None => Err(ScrapeError::from_str("missing date")),
    }
}

/// The first non-empty run of characters other than `stop1` and `stop2` that follows a
/// `key` at or after `i`; where `closed`, the run must end at one of those characters rather
/// than at the end of the text.
pub open spec fn keyed_run(s: Seq<char>, key: Seq<char>, stop1: char, stop2: char, closed: bool, i: int) -> Option<
    Seq<char>,
>
    decreases s.len() - i,
{
    let a = i + key.len();
    let q = stop_at(s, a, stop1, stop2);
    if i < 0 || i >= s.len() {
        None
    } else if occurs_at(s, key, i) && a < q && (!closed || q < s.len()) {
        Some(s.subrange(a, q))
    } else {
        keyed_run(s, key, stop1, stop2, closed, i + 1)
    }
}

fn keyed_run_exec(s: &Vec<char>, key: &Vec<char>, stop1: char, stop2: char, closed: bool) -> (r: Option<Vec<char>>)
    ensures
        match keyed_run(s@, key@, stop1, stop2, closed, 0) {
            Some(t) => r matches Some(v) && v@ == t,
            None => r is None,
        },
{
    let n = s.len();
    let mut i: usize = 0;
    while i < s.len()
        invariant
            i <= s@.len(),
            n == s@.len(),
            keyed_run(s@, key@, stop1, stop2, closed, 0) == keyed_run(s@, key@, stop1, stop2, closed, i as int),
        decreases s@.len() - i,
    {
        if matches_at(s, key, i) {
            let a = i + key.len();
            let q = scan_until(s, a, stop1, stop2);
            if a < q && (!closed || q < s.len()) {
                return Some(slice_chars(s, a, q));
            }
        }
        i = i + 1;
    }
    None
}

/// The digits that follow the first `key` at or after `i` that digits follow.
pub open spec fn digits_after(s: Seq<char>, key: Seq<char>, i: int) -> Option<Seq<char>>
    decreases s.len() - i,
{
    let a = i + key.len();
    let d = digits_end(s, a);
    if i < 0 || i >= s.len() {
        None
    } else if occurs_at(s, key, i) && a < d {
        Some(s.subrange(a, d))
    } else {
        digits_after(s, key, i + 1)
    }
}

fn digits_after_exec(s: &Vec<char>, key: &Vec<char>) -> (r: Option<Vec<char>>)
    ensures
        match digits_after(s@, key@, 0) {
            Some(t) => r matches Some(v) && v@ == t,
            None => r is None,
        },
{
    let n = s.len();
    let mut i: usize = 0;
    while i < s.len()
        invariant
            i <= s@.len(),
            n == s@.len(),
            digits_after(s@, key@, 0) == digits_after(s@, key@, i as int),
        decreases s@.len() - i,
    {
        if matches_at(s, key, i) {
            let a = i + key.len();
            let d = digits_end_exec(s, a);
            if a < d {
                return Some(slice_chars(s, a, d));
            }
        }
        i = i + 1;
    }
    None
}

/// The target of the first image `src="…"`.
pub open spec fn image_url(s: Seq<char>) -> Option<Seq<char>> {
    keyed_run(s, "src=\""@, '"', '"', true, 0)
}

/// The time written after the first date that a space and more text follow: the rest of
/// that line.
pub open spec fn soon_time_from(s: Seq<char>, i: int) -> Option<Seq<char>>
    decreases s.len() - i,
{
    if i < 0 || i >= s.len() {
        None
    } else {
        match date_at(s, i) {
            Some((_, _, _, e)) => if e + 1 < s.len() && s[e] == ' ' && s[e + 1] != '\n' {
                Some(s.subrange(e + 1, stop_at(s, e + 1, '\n', '\n')))
            } else {
                soon_time_from(s, i + 1)
            },
            None => soon_time_from(s, i + 1),
        }
    }
}

fn soon_time_exec(s: &Vec<char>) -> (r: Option<Vec<char>>)
    ensures
        match soon_time_from(s@, 0) {
            Some(t) => r matches Some(v) && v@ == t,
            None => r is None,
        },
{
    let n = s.len();
    let mut i: usize = 0;
    while i < s.len()
        invariant
            i <= s@.len(),
            n == s@.len(),
            soon_time_from(s@, 0) == soon_time_from(s@, i as int),
        decreases s@.len() - i,
    {
        match date_at_exec(s, i) {
            Some((_, _, e)) => {
                if e < n - 1 && s[e] == ' ' && s[e + 1] != '\n' {
                    let q = scan_until(s, e + 1, '\n', '\n');
                    return Some(slice_chars(s, e + 1, q));
                }
            },
            None => {},
        }
        i = i + 1;
    }
    None
}

/// A registration status, as character sequences.
pub ghost enum StatusView {
    NotOpen,
    Closed,
    OpenSoon(Seq<char>, Seq<char>),
    Open(Seq<char>),
    ClosedToNew(Seq<char>),
}

pub open spec fn status_view(s: RegistrationStatus) -> StatusView {
    match s {
        RegistrationStatus::NotOpen => StatusView::NotOpen,
        RegistrationStatus::Closed => StatusView::Closed,
        RegistrationStatus::OpenSoon { start_date, start_time } => StatusView::OpenSoon(
            start_date@,
            start_time@,
        ),
        RegistrationStatus::Open { deadline } => StatusView::Open(deadline@),
        RegistrationStatus::ClosedToNew { payment_deadline } => StatusView::ClosedToNew(
            payment_deadline@,
        ),
    }
}

/// The first date in the text, as `yyyy-mm-dd`.
pub open spec fn first_date_text(s: Seq<char>) -> Option<Seq<char>> {
    match date_from(s, 0) {
        Some((t, _)) => Some(t),
        None => None,
    }
}

/// The status that a registration box shows: none is closed; `registration closednow` is
/// closed, or not yet open where the tournament is advertised only; `closedpayonlynow` is
/// closed to new entries until its payment deadline, and `opennow` open until its deadline,
/// each the box's first date; a box of no such kind opens at its opening date and time.
pub open spec fn status_spec(r: Option<RegistrationMarkup>) -> Option<StatusView> {
    match r {
        None => Some(StatusView::Closed),
        Some(b) => match keyed_run(b.html@, "registration "@, ' ', '"', false, 0) {
            Some(k) => if k == "closednow"@ {
                Some(
                    if b.ad_only {
                        StatusView::NotOpen
                    } else {
                        StatusView::Closed
                    },
                )
            } else if k == "closedpayonlynow"@ {
                match first_date_text(b.html@) {
                    Some(d) => Some(StatusView::ClosedToNew(d)),
                    None => None,
                }
            } else if k == "opennow"@ {
                match first_date_text(b.html@) {
                    Some(d) => Some(StatusView::Open(d)),
                    None => None,
                }
            } else {
                None
            },
            None => match b.soon {
                Some(t) => match (first_date_text(t@), soon_time_from(t@, 0)) {
                    (Some(d), Some(tm)) => Some(StatusView::OpenSoon(d, tm)),
                    _ => None,
                },
                None => None,
            },
        },
    }
}

fn same(a: &Vec<char>, b: &str) -> (r: bool)
    ensures
        r == (a@ == b@),
{
    crate::grid::same_chars(a, &chars_of(b))
}

fn first_date_text_exec(s: &Vec<char>) -> (r: Result<String, ScrapeError>)
    ensures
        match first_date_text(s@) {
            Some(t) => r matches Ok(v) && v@ == t,
            None => r is Err,
        },
{
    let (t, _) = date_from_exec(s, 0)?;
    Ok(t)
}

/// The status that a registration box shows, as `status_spec` reads it; an error for a box
/// this reader does not understand.
pub fn registration_status(r: &Option<RegistrationMarkup>) -> (s: Result<RegistrationStatus, ScrapeError>)
    ensures
        match status_spec(*r) {
            Some(v) => s matches Ok(st) && status_view(st) == v,
            None => s is Err,
        },
{
    match r {
        None => Ok(RegistrationStatus::Closed),
        Some(b) => {
            let html = chars_of(b.html.as_str());
            match keyed_run_exec(&html, &chars_of("registration "), ' ', '"', false) {
                Some(k) => {
                    if same(&k, "closednow") {
                        if b.ad_only {
                            Ok(RegistrationStatus::NotOpen)
                        } else {
                            Ok(RegistrationStatus::Closed)
                        }
                    } else if same(&k, "closedpayonlynow") {
                        let d = first_date_text_exec(&html)?;
                        Ok(RegistrationStatus::ClosedToNew { payment_deadline: d })
                    } else if same(&k, "opennow") {
                        let d = first_date_text_exec(&html)?;
                        Ok(RegistrationStatus::Open { deadline: d })
                    } else {
                        Err(ScrapeError::from_str("unknown registration status"))
                    }
                },
                None => match &b.soon {
                    Some(t) => {
                        let text = chars_of(t.as_str());
                        let d = first_date_text_exec(&text)?;
                        match soon_time_exec(&text) {
                            Some(tm) => Ok(RegistrationStatus::OpenSoon { start_date: d, start_time: string_of(&tm) }),
                            None => Err(ScrapeError::from_str("missing opening time")),
                        }
                    },
                    None => Err(ScrapeError::from_str("missing opening date")),
                },
            }
        },
    }
}

/// The address of a logo: as written where it starts with `http`, else on the site.
pub open spec fn logo_spec(logo: Seq<char>) -> Option<Seq<char>> {
    match image_url(logo) {
        Some(u) => Some(
            if occurs_at(u, "http"@, 0) {
                u
            } else {
                "https://www.pickleballtournaments.com"@ + u
            },
        ),
        None => None,
    }
}

/// The image of each tag, where every tag has one.
pub open spec fn tags_spec(tags: Seq<String>) -> Option<Seq<Seq<char>>>
    decreases tags.len(),
{
    if tags.len() == 0 {
        Some(Seq::empty())
    } else {
        match (tags_spec(tags.drop_last()), image_url(tags.last()@)) {
            (Some(rest), Some(u)) => Some(rest.push(u)),
            _ => None,
        }
    }
}

/// The start and end dates of the dates box: its first date and the next one after it.
pub open spec fn dates_spec(s: Seq<char>) -> Option<(Seq<char>, Seq<char>)> {
    match date_from(s, 0) {
        Some((a, e)) => match date_from(s, e) {
            Some((b, _)) => Some((a, b)),
            None => None,
        },
        None => None,
    }
}

/// What a listing card says of its tournament: the id after `?tid=` in the title link, the
/// title, the location, the dates, the tags' images, the logo and the registration status.
pub open spec fn listing_spec(m: ListingMarkup, l: TournamentListing) -> bool {
    &&& digits_after(m.title_html@, "?tid="@, 0) matches Some(d) && parse_usize_spec(d) == Some(l.id)
    &&& l.name@ == m.title@
    &&& l.location@ == m.location@
    &&& dates_spec(m.dates@) == Some((l.start_date@, l.end_date@))
    &&& tags_spec(m.tags@) == Some(l.tag_urls@.map_values(|t: String| t@))
    &&& match logo_spec(m.logo@) {
        Some(u) => l.logo_url matches Some(v) && v@ == u,
        None => l.logo_url is None,
    }
    &&& status_spec(m.registration) == Some(status_view(l.registration_status))
}

/// The card can be read: it has an id, two dates, an image for each tag and a status that
/// this reader understands.
pub open spec fn listing_readable(m: ListingMarkup) -> bool {
    &&& digits_after(m.title_html@, "?tid="@, 0) matches Some(d) && parse_usize_spec(d) is Some
    &&& dates_spec(m.dates@) is Some
    &&& tags_spec(m.tags@) is Some
    &&& status_spec(m.registration) is Some
}

/// Reads a listing card, as `listing_spec` says; an error where the card cannot be read.
pub fn parse_listing(m: &ListingMarkup) -> (r: Result<TournamentListing, ScrapeError>)
    ensures
        r is Ok <==> listing_readable(*m),
        r matches Ok(l) ==> listing_spec(*m, l),
{
    let id = match digits_after_exec(&chars_of(m.title_html.as_str()), &chars_of("?tid=")) {
        Some(d) => match parse_usize(&d) {
            Some(v) => v,
            None => {
                return Err(ScrapeError::from_str("unreadable tournament id"));
            },
        },
        None => {
            return Err(ScrapeError::from_str("tournament without id"));
        },
    };
    let dates = chars_of(m.dates.as_str());
    let (start_date, end) = match date_from_exec(&dates, 0) {
        Ok(v) => v,
        Err(e) => {
            return Err(e);
        },
    };
    let (end_date, _) = match date_from_exec(&dates, end) {
        Ok(v) => v,
        Err(e) => {
            return Err(e);
        },
    };
    let src = chars_of("src=\"");
    let mut tag_urls: Vec<String> = Vec::new();
    let mut i: usize = 0;
    while i < m.tags.len()
        invariant
            i <= m.tags@.len(),
            src@ == "src=\""@,
            tags_spec(m.tags@.subrange(0, i as int)) == Some(tag_urls@.map_values(|t: String| t@)),
        decreases m.tags@.len() - i,
    {
        assert(m.tags@.subrange(0, i + 1).drop_last() =~= m.tags@.subrange(0, i as int));
        match keyed_run_exec(&chars_of(m.tags[i].as_str()), &src, '"', '"', true) {
            Some(u) => {
                let ghost before = tag_urls@;
                tag_urls.push(string_of(&u));
                assert(tag_urls@.map_values(|t: String| t@) =~= before.map_values(|t: String| t@).push(u@));
            },
            None => {
                proof {
                    lemma_tags_none(m.tags@, i as int);
                }
                return Err(ScrapeError::from_str("tag without image"));
            },
        }
        i = i + 1;
    }
    assert(m.tags@.subrange(0, m.tags@.len() as int) =~= m.tags@);
    let logo = chars_of(m.logo.as_str());
    let logo_url: Option<String> = match keyed_run_exec(&logo, &src, '"', '"', true) {
        Some(u) => {
            if matches_at(&u, &chars_of("http"), 0) {
                Some(string_of(&u))
            } else {
                let mut full = chars_of("https://www.pickleballtournaments.com");
                crate::roster::push_all(&mut full, &u);
                Some(string_of(&full))
            }
        },
        None => None,
    };
    let registration_status = registration_status(&m.registration)?;
    Ok(TournamentListing {
        id,
        name: m.title.clone(),
        location: m.location.clone(),
        start_date,
        end_date,
        tag_urls,
        logo_url,
        registration_status,
    })
}

/// A tag without an image leaves the whole list without images.
proof fn lemma_tags_none(tags: Seq<String>, i: int)
    requires
        0 <= i < tags.len(),
        image_url(tags[i]@) is None,
    ensures
        tags_spec(tags) is None,
    decreases tags.len(),
{
    if i < tags.len() - 1 {
        lemma_tags_none(tags.drop_last(), i);
    }
}

} // verus!
