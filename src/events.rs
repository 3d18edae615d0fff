//! The events of a tournament: their names, and where each event's teams and bracket are
//! listed.
use vstd::prelude::*;

use crate::error::ScrapeError;
use crate::grid::same_chars;
use crate::roster::push_all;
use crate::teams::views_of;
use crate::text::{chars_of, contains, contains_spec, join_range, join_spec, matches_at, occurs_at, replace, replace_spec, scan_until, slice_chars, split, split_spec, stop_at, string_of, string_views, trim_end, trim_end_spec};

verus! {

/// Where an event's teams and bracket are listed.
#[derive(Clone, Debug)]
pub enum EventContent {
    /// A bracket page.
    BracketUrl(String),
    /// A page of an event group's player lists.
    GroupListUrl(String),
    /// A page that lists the event's teams.
    ListUrl(String),
}

/// The address that an event's content names.
pub open spec fn content_url(c: EventContent) -> Seq<char> {
    match c {
        EventContent::BracketUrl(u) => u@,
        EventContent::GroupListUrl(u) => u@,
        EventContent::ListUrl(u) => u@,
    }
}

impl EventContent {
    /// The address of the page.
    pub fn url(&self) -> (r: &str)
        ensures
            r@ == content_url(*self),
    {
        match self {
            EventContent::BracketUrl(url) => url.as_str(),
            EventContent::GroupListUrl(url) => url.as_str(),
            EventContent::ListUrl(url) => url.as_str(),
        }
    }
}

/// An event of a tournament.
#[derive(Clone, Debug)]
pub struct Event {
    pub name: String,
    pub content: EventContent,
}

/// A group of events, as the tournament lists them under one heading.
#[derive(Clone, Debug)]
pub struct EventGroup {
    pub name: String,
    pub events: Vec<Event>,
}

/// The words of a name: the name without trailing whitespace, split at each space.
pub open spec fn name_words(n: Seq<char>) -> Seq<Seq<char>> {
    split_spec(trim_end_spec(n), ' ')
}

/// Every name has an `i`-th word, and it is the first name's.
pub open spec fn agree_at(words: Seq<Seq<Seq<char>>>, i: int) -> bool {
    forall|n: int|
        0 <= n < words.len() ==> i < (#[trigger] words[n]).len() && words[n][i] == words[0][i]
}

/// How many leading words all the names share, counting from the `i`-th.
pub open spec fn common_len(words: Seq<Seq<Seq<char>>>, i: int) -> int
    decreases words[0].len() - i,
{
    if words.len() > 0 && 0 <= i < words[0].len() && agree_at(words, i) {
        common_len(words, i + 1)
    } else {
        i
    }
}

proof fn lemma_common_len(words: Seq<Seq<Seq<char>>>, i: int)
    requires
        words.len() > 0,
        0 <= i <= words[0].len(),
    ensures
        i <= common_len(words, i) <= words[0].len(),
    decreases words[0].len() - i,
{
    if i < words[0].len() && agree_at(words, i) {
        lemma_common_len(words, i + 1);
    }
}

/// The words that all the names begin with, joined by spaces.
pub open spec fn common_name_spec(names: Seq<Seq<char>>) -> Seq<char> {
    let words = names.map_values(|n: Seq<char>| name_words(n));
    join_spec(words[0].subrange(0, common_len(words, 0)), ' ')
}

/// The words that all the names begin with, joined by spaces: the name of an event listed
/// once per division.
pub fn common_name(names: &[String]) -> (r: String)
    requires
        names@.len() > 0,
    ensures
        r@ == common_name_spec(string_views(names@)),
{
    let ghost wv = string_views(names@).map_values(|n: Seq<char>| name_words(n));
    let mut words: Vec<Vec<Vec<char>>> = Vec::new();
    let mut k: usize = 0;
    while k < names.len()
        invariant
            k <= names@.len(),
            wv == string_views(names@).map_values(|n: Seq<char>| name_words(n)),
            words@.len() == k,
            forall|n: int| 0 <= n < k ==> views_of(#[trigger] words@[n]@) == wv[n],
        decreases names@.len() - k,
    {
        let w = split(&trim_end(&chars_of(names[k].as_str())), ' ');
        assert(views_of(w@) =~= wv[k as int]);
        words.push(w);
        k = k + 1;
    }
    let first = &words[0];
    let mut i: usize = 0;
    proof {
        assert(views_of(words@[0]@) == wv[0]);
        lemma_common_len(wv, 0);
    }
    loop
        invariant
            words@.len() == names@.len(),
            wv.len() == names@.len(),
            names@.len() > 0,
            first == &words@[0],
            forall|n: int| 0 <= n < words@.len() ==> views_of(#[trigger] words@[n]@) == wv[n],
            first@.len() == wv[0].len(),
            i <= first@.len(),
            common_len(wv, 0) == common_len(wv, i as int),
            i <= common_len(wv, i as int) <= wv[0].len(),
        ensures
            common_len(wv, 0) == i,
            i <= first@.len(),
        decreases first@.len() - i,
    {
        if i >= first.len() {
            break;
        }
        let mut agree = true;
        let mut n: usize = 0;
        while n < words.len()
            invariant
                words@.len() == names@.len(),
                wv.len() == names@.len(),
                first == &words@[0],
                forall|m: int| 0 <= m < words@.len() ==> views_of(#[trigger] words@[m]@) == wv[m],
                i < first@.len(),
                n <= words@.len(),
                agree == forall|m: int|
                    0 <= m < n ==> i < (#[trigger] wv[m]).len() && wv[m][i as int] == wv[0][i as int],
            decreases words@.len() - n,
        {
            let same = i < words[n].len() && same_chars(&words[n][i], &first[i]);
            proof {
                assert(views_of(words@[n as int]@) == wv[n as int]);
                assert(views_of(words@[0]@) == wv[0]);
                if i < words@[n as int]@.len() {
                    assert(views_of(words@[n as int]@)[i as int] == words@[n as int]@[i as int]@);
                    assert(views_of(first@)[i as int] == first@[i as int]@);
                }
            }
            agree = agree && same;
            n = n + 1;
        }
        if !agree {
            assert(!agree_at(wv, i as int));
            break;
        }
        proof {
            lemma_common_len(wv, i + 1);
        }
        i = i + 1;
    }
    let joined = join_range(first, 0, i, ' ');
    assert(first@.subrange(0, i as int).map_values(|p: Vec<char>| p@) =~= wv[0].subrange(
        0,
        i as int,
    ));
    string_of(&joined)
}

/// The origin site's address, to which its links are relative.
pub open spec fn site() -> Seq<char> {
    "https://www.pickleballtournaments.com/"@
}

pub open spec fn dir_key() -> Seq<char> {
    "&amp;dir="@
}

pub open spec fn file_key() -> Seq<char> {
    "&amp;filename="@
}

/// A bracket file reference `&amp;dir=D&amp;filename=F` at `p` that runs to the end of the
/// link: the directory `D` (no `&`) and the file name `F` (not empty, one line).
pub open spec fn bracket_file_at(s: Seq<char>, p: int) -> Option<(Seq<char>, Seq<char>)> {
    let a = p + dir_key().len();
    let q = stop_at(s, a, '&', '&');
    let b = q + file_key().len();
    if occurs_at(s, dir_key(), p) && a < q && occurs_at(s, file_key(), q) && b < s.len() && !s.subrange(
        b,
        s.len() as int,
    ).contains('\n') {
        Some((s.subrange(a, q), s.subrange(b, s.len() as int)))
    } else {
        None
    }
}

/// The first bracket file reference at or after `i`.
pub open spec fn first_bracket_file(s: Seq<char>, i: int) -> Option<(Seq<char>, Seq<char>)>
    decreases s.len() - i,
{
    if i < 0 || i >= s.len() {
        None
    } else if bracket_file_at(s, i) is Some {
        bracket_file_at(s, i)
    } else {
        first_bracket_file(s, i + 1)
    }
}

/// Where an event's link leads, and whether it is a bracket: a link to a team list
/// (`rptbrackets.pl`) is that page on the site; a link to a bracket viewer (`show.pl`) leads
/// to the bracket file it names, under `Tournaments/`, its directory with each `%2F` written
/// as `/`; any other link, or a viewer link that names no file, is not understood.
pub open spec fn event_link_spec(href: Seq<char>) -> Option<(bool, Seq<char>)> {
    if contains_spec(href, "rptbrackets.pl"@) {
        Some((false, "https://www.pickleballtournaments.com/"@ + href))
    } else if contains_spec(href, "show.pl"@) {
        match first_bracket_file(href, 0) {
            Some((d, f)) => Some(
                (
                    true,
                    "https://www.pickleballtournaments.com/Tournaments/"@ + replace_spec(
                        d,
                        "%2F"@,
                        "/"@,
                    ) + "/"@ + f,
                ),
            ),
            None => None,
        }
    } else {
        None
    }
}

fn has_newline(s: &Vec<char>, from: usize) -> (r: bool)
    requires
        from <= s@.len(),
    ensures
        r == s@.subrange(from as int, s@.len() as int).contains('\n'),
{
    let mut k: usize = from;
    while k < s.len()
        invariant
            from <= k <= s@.len(),
            forall|m: int| from <= m < k ==> s@[m] != '\n',
        decreases s@.len() - k,
    {
        if s[k] == '\n' {
            assert(s@.subrange(from as int, s@.len() as int)[k - from] == '\n');
            return true;
        }
        k = k + 1;
    }
    assert forall|m: int| 0 <= m < s@.len() - from implies s@.subrange(
        from as int,
        s@.len() as int,
    )[m] != '\n' by {
        assert(s@.subrange(from as int, s@.len() as int)[m] == s@[from + m]);
    }
    false
}

fn bracket_file_at_exec(s: &Vec<char>, p: usize, dir: &Vec<char>, file: &Vec<char>) -> (r: Option<
    (Vec<char>, Vec<char>),
>)
    requires
        p <= s@.len(),
        dir@ == dir_key(),
        file@ == file_key(),
    ensures
        match bracket_file_at(s@, p as int) {
            Some((d, f)) => r matches Some((a, b)) && a@ == d && b@ == f,
            None => r is None,
        },
{
    let n = s.len();
    if !matches_at(s, dir, p) {
        return None;
    }
    let a = p + dir.len();
    let q = scan_until(s, a, '&', '&');
    if !(a < q && matches_at(s, file, q)) {
        return None;
    }
    let b = q + file.len();
    if !(b < s.len()) || has_newline(s, b) {
        return None;
    }
    Some((slice_chars(s, a, q), slice_chars(s, b, s.len())))
}

/// Where an event's link leads, as `event_content_spec` and `event_url_spec` say; an error
/// for a link this reader does not understand.
pub fn event_content(href: &str) -> (r: Result<EventContent, ScrapeError>)
    ensures
        match event_link_spec(href@) {
            Some((bracket, url)) => r matches Ok(e) && (e is BracketUrl <==> bracket) && (
            e is ListUrl <==> !bracket) && content_url(e) == url,
            None => r is Err,
        },
{
    let s = chars_of(href);
    if contains(&s, &chars_of("rptbrackets.pl")) {
        let mut out = chars_of("https://www.pickleballtournaments.com/");
        push_all(&mut out, &s);
        return Ok(EventContent::ListUrl(string_of(&out)));
    }
    if !contains(&s, &chars_of("show.pl")) {
        return Err(ScrapeError::from_str("unknown event url"));
    }
    let dir = chars_of("&amp;dir=");
    let file = chars_of("&amp;filename=");
    let mut i: usize = 0;
    while i < s.len()
        invariant
            i <= s@.len(),
            s@ == href@,
            dir@ == dir_key(),
            file@ == file_key(),
            first_bracket_file(s@, 0) == first_bracket_file(s@, i as int),
            !contains_spec(href@, "rptbrackets.pl"@),
            contains_spec(href@, "show.pl"@),
        decreases s@.len() - i,
    {
        match bracket_file_at_exec(&s, i, &dir, &file) {
            Some((d, f)) => {
                let mut out = chars_of("https://www.pickleballtournaments.com/Tournaments/");
                let slash = chars_of("/");
                push_all(&mut out, &replace(&d, &chars_of("%2F"), &slash));
                push_all(&mut out, &slash);
                push_all(&mut out, &f);
                assert(first_bracket_file(s@, i as int) == Some((d@, f@)));
                return Ok(EventContent::BracketUrl(string_of(&out)));
            },
            None => {},
        }
        i = i + 1;
    }
    Err(ScrapeError::from_str("unknown event url"))
}

} // verus!

verus! {

/// The distinct addresses of the links `(name, address)`, in the order first seen.
pub open spec fn distinct_urls(links: Seq<(Seq<char>, Seq<char>)>) -> Seq<Seq<char>>
    decreases links.len(),
{
    if links.len() == 0 {
        Seq::empty()
    } else {
        let rest = distinct_urls(links.drop_last());
        if rest.contains(links.last().1) {
            rest
        } else {
            rest.push(links.last().1)
        }
    }
}

/// The names of the links to `url`, in order.
pub open spec fn names_for(links: Seq<(Seq<char>, Seq<char>)>, url: Seq<char>) -> Seq<Seq<char>>
    decreases links.len(),
{
    if links.len() == 0 {
        Seq::empty()
    } else {
        let rest = names_for(links.drop_last(), url);
        if links.last().1 == url {
            rest.push(links.last().0)
        } else {
            rest
        }
    }
}

pub open spec fn link_views(links: Seq<(String, String)>) -> Seq<(Seq<char>, Seq<char>)> {
    links.map_values(|l: (String, String)| (l.0@, l.1@))
}

fn distinct_urls_exec(links: &Vec<(String, String)>) -> (r: Vec<String>)
    ensures
        string_views(r@) == distinct_urls(link_views(links@)),
{
    let ghost lv = link_views(links@);
    let mut urls: Vec<String> = Vec::new();
    let mut i: usize = 0;
    while i < links.len()
        invariant
            i <= links@.len(),
            lv == link_views(links@),
            string_views(urls@) == distinct_urls(lv.subrange(0, i as int)),
        decreases links@.len() - i,
    {
        assert(lv.subrange(0, i + 1).drop_last() =~= lv.subrange(0, i as int));
        let url = &links[i].1;
        let mut seen = false;
        let mut k: usize = 0;
        while k < urls.len()
            invariant
                k <= urls@.len(),
                seen == exists|m: int| 0 <= m < k && urls@[m]@ == url@,
            decreases urls@.len() - k,
        {
            if urls[k] == *url {
                seen = true;
            }
            k = k + 1;
        }
        let ghost sv = string_views(urls@);
        assert(seen == sv.contains(url@)) by {
            if seen {
                let m = choose|m: int| 0 <= m < urls@.len() && urls@[m]@ == url@;
                assert(sv[m] == url@);
            }
            if sv.contains(url@) {
                let m = choose|m: int| 0 <= m < sv.len() && sv[m] == url@;
                assert(urls@[m]@ == url@);
            }
        }
        if !seen {
            urls.push(url.clone());
            assert(string_views(urls@) =~= sv.push(url@));
        }
        i = i + 1;
    }
    assert(lv.subrange(0, lv.len() as int) =~= lv);
    urls
}

fn names_for_exec(links: &Vec<(String, String)>, url: &String) -> (r: Vec<String>)
    ensures
        string_views(r@) == names_for(link_views(links@), url@),
{
    let ghost lv = link_views(links@);
    let mut names: Vec<String> = Vec::new();
    let mut i: usize = 0;
    while i < links.len()
        invariant
            i <= links@.len(),
            lv == link_views(links@),
            string_views(names@) == names_for(lv.subrange(0, i as int), url@),
        decreases links@.len() - i,
    {
        assert(lv.subrange(0, i + 1).drop_last() =~= lv.subrange(0, i as int));
        if links[i].1 == *url {
            let ghost before = string_views(names@);
            names.push(links[i].0.clone());
            assert(string_views(names@) =~= before.push(links@[i as int].0@));
        }
        i = i + 1;
    }
    assert(lv.subrange(0, lv.len() as int) =~= lv);
    names
}

/// The event of one address of a group: named for what its links' names share, and leading
/// where the address does.
pub open spec fn event_read(links: Seq<(Seq<char>, Seq<char>)>, url: Seq<char>, e: Event) -> bool {
    &&& e.name@ == common_name_spec(names_for(links, url))
    &&& match event_link_spec(url) {
        Some((bracket, target)) => (e.content is BracketUrl <==> bracket) && (e.content is ListUrl
            <==> !bracket) && content_url(e.content) == target,
        None => false,
    }
}

/// The group of events under the heading `name`, from the heading's links `(name, address)`:
/// one event per distinct address, in the order first seen. An address this reader does not
/// understand is an error.
pub fn event_group(name: &str, links: &Vec<(String, String)>) -> (r: Result<EventGroup, ScrapeError>)
    ensures
        (forall|k: int|
            0 <= k < distinct_urls(link_views(links@)).len() ==> event_link_spec(
                #[trigger] distinct_urls(link_views(links@))[k],
            ) is Some) <==> r is Ok,
        r matches Ok(g) ==> g.name@ == name@ && g.events@.len() == distinct_urls(
            link_views(links@),
        ).len() && forall|k: int|
            0 <= k < g.events@.len() ==> event_read(
                link_views(links@),
                distinct_urls(link_views(links@))[k],
                #[trigger] g.events@[k],
            ),
{
    let ghost du = distinct_urls(link_views(links@));
    let urls = distinct_urls_exec(links);
    let mut events: Vec<Event> = Vec::new();
    let mut k: usize = 0;
    while k < urls.len()
        invariant
            k <= urls@.len(),
            string_views(urls@) == du,
            du == distinct_urls(link_views(links@)),
            events@.len() == k,
            forall|m: int| 0 <= m < k ==> event_link_spec(#[trigger] du[m]) is Some,
            forall|m: int|
                0 <= m < k ==> event_read(link_views(links@), du[m], #[trigger] events@[m]),
        decreases urls@.len() - k,
    {
        assert(du[k as int] == urls@[k as int]@);
        let names = names_for_exec(links, &urls[k]);
        let content = match event_content(urls[k].as_str()) {
            Ok(c) => c,
            Err(e) => {
                return Err(e);
            },
        };
        proof {
            lemma_names_nonempty(link_views(links@), du[k as int]);
        }
        let event = Event { name: common_name(&names), content };
        events.push(event);
        k = k + 1;
    }
    Ok(EventGroup { name: name.to_owned(), events })
}

/// Every distinct address has at least one link, so a name to share.
proof fn lemma_names_nonempty(links: Seq<(Seq<char>, Seq<char>)>, url: Seq<char>)
    requires
        distinct_urls(links).contains(url),
    ensures
        names_for(links, url).len() > 0,
    decreases links.len(),
{
    if links.len() > 0 {
        let rest = links.drop_last();
        if distinct_urls(rest).contains(url) {
            lemma_names_nonempty(rest, url);
            lemma_names_grow(rest, links.last(), url);
        } else {
            assert(links.last().1 == url) by {
                let d = distinct_urls(rest);
                let m = choose|m: int| 0 <= m < distinct_urls(links).len() && distinct_urls(links)[m] == url;
                if !d.contains(links.last().1) {
                    assert(distinct_urls(links) == d.push(links.last().1));
                    if m < d.len() {
                        assert(d[m] == url);
                    }
                }
            }
        }
    }
}

proof fn lemma_names_grow(rest: Seq<(Seq<char>, Seq<char>)>, last: (Seq<char>, Seq<char>), url: Seq<char>)
    ensures
        names_for(rest.push(last), url).len() >= names_for(rest, url).len(),
{
    assert(rest.push(last).drop_last() =~= rest);
}

} // verus!

verus! {

/// The events of an event group's player-list page: one per non-blank section heading, each
/// listed on that page.
pub open spec fn group_list_events_spec(url: Seq<char>, headings: Seq<String>, events: Seq<Event>) -> bool
    decreases headings.len(),
{
    if headings.len() == 0 {
        events.len() == 0
    } else if crate::text::trim_spec(headings.last()@).len() > 0 {
        events.len() > 0 && events.last().name@ == headings.last()@ && events.last().content
            is GroupListUrl && content_url(events.last().content) == url && group_list_events_spec(
            url,
            headings.drop_last(),
            events.drop_last(),
        )
    } else {
        group_list_events_spec(url, headings.drop_last(), events)
    }
}

/// The events of an event group's player-list page at `url`, from its section headings.
pub fn group_list_events(url: &str, headings: &Vec<String>) -> (r: Vec<Event>)
    ensures
        group_list_events_spec(url@, headings@, r@),
{
    let mut events: Vec<Event> = Vec::new();
    let mut i: usize = 0;
    while i < headings.len()
        invariant
            i <= headings@.len(),
            group_list_events_spec(url@, headings@.subrange(0, i as int), events@),
        decreases headings@.len() - i,
    {
        assert(headings@.subrange(0, i + 1).drop_last() =~= headings@.subrange(0, i as int));
        if crate::text::trim(&chars_of(headings[i].as_str())).len() > 0 {
            let ghost before = events@;
            events.push(Event { name: headings[i].clone(), content: EventContent::GroupListUrl(url.to_owned()) });
            assert(events@.drop_last() =~= before);
        }
        i = i + 1;
    }
    assert(headings@.subrange(0, headings@.len() as int) =~= headings@);
    events
}

} // verus!
