//! A tournament's schedule: when and where each event is played.
use vstd::prelude::*;

use crate::error::ScrapeError;
use crate::markup::{first_href, first_href_from, schedule_entry_name, schedule_name_spec};
use crate::roster::push_all;
use crate::text::{chars_of, matches_at, occurs_at, split_str, split_str_spec, string_views};

verus! {

/// One event on a day of the schedule, at one venue; `link` tells whether the event's page
/// is among the tournament's listed events.
#[derive(Clone, Debug)]
pub struct ScheduleItem {
    pub date: String,
    pub time: String,
    pub venue: String,
    pub event: String,
    pub link: bool,
}

/// The entries of a schedule block: its pieces between `<br>`s, leaving out those that are
/// just `&nbsp;`.
pub open spec fn entries_of(pieces: Seq<Seq<char>>) -> Seq<Seq<char>>
    decreases pieces.len(),
{
    if pieces.len() == 0 {
        Seq::empty()
    } else {
        let rest = entries_of(pieces.drop_last());
        if pieces.last() == "&nbsp;"@ {
            rest
        } else {
            rest.push(pieces.last())
        }
    }
}

/// The entry links to one of the listed events' pages.
pub open spec fn entry_linked(entry: Seq<char>, event_urls: Seq<Seq<char>>) -> bool {
    match first_href_from(entry, 0) {
        Some(h) => event_urls.contains("https://www.pickleballtournaments.com/"@ + h),
        None => false,
    }
}

/// The events of the entries, each with whether it links to a listed event; `None` where an
/// entry is of a shape this reader does not know.
pub open spec fn entries_read(entries: Seq<Seq<char>>, event_urls: Seq<Seq<char>>) -> Option<
    Seq<(Seq<char>, bool)>,
>
    decreases entries.len(),
{
    if entries.len() == 0 {
        Some(Seq::empty())
    } else {
        match (entries_read(entries.drop_last(), event_urls), schedule_name_spec(entries.last())) {
            (Some(rest), Some(name)) => Some(rest.push((name, entry_linked(entries.last(), event_urls)))),
            _ => None,
        }
    }
}

/// What a schedule block lists: nothing for a bold block (a wait list or the like), else the
/// events of its entries.
pub open spec fn block_spec(block: Seq<char>, event_urls: Seq<Seq<char>>) -> Option<Seq<(Seq<char>, bool)>> {
    if occurs_at(block, "<b>"@, 0) {
        Some(Seq::empty())
    } else {
        entries_read(entries_of(split_str_spec(block, "<br>"@)), event_urls)
    }
}

pub open spec fn entry_views(v: Seq<(String, bool)>) -> Seq<(Seq<char>, bool)> {
    v.map_values(|e: (String, bool)| (e.0@, e.1))
}

fn linked_exec(entry: &str, event_urls: &[String]) -> (r: bool)
    ensures
        r == entry_linked(entry@, string_views(event_urls@)),
{
    match first_href(entry) {
        Some(h) => {
            let mut full = chars_of("https://www.pickleballtournaments.com/");
            push_all(&mut full, &chars_of(h.as_str()));
            let mut k: usize = 0;
            while k < event_urls.len()
                invariant
                    k <= event_urls@.len(),
                    first_href_from(entry@, 0) == Some(h@),
                    full@ == "https://www.pickleballtournaments.com/"@ + h@,
                    forall|m: int| 0 <= m < k ==> event_urls@[m]@ != full@,
                decreases event_urls@.len() - k,
            {
                if crate::grid::same_chars(&chars_of(event_urls[k].as_str()), &full) {
                    assert(string_views(event_urls@)[k as int] == full@);
                    return true;
                }
                k = k + 1;
            }
            assert(!string_views(event_urls@).contains(full@)) by {
                if string_views(event_urls@).contains(full@) {
                    let m = choose|m: int| 0 <= m < string_views(event_urls@).len() && string_views(event_urls@)[m] == full@;
                    assert(event_urls@[m]@ == full@);
                }
            }
            false
        },
        None => false,
    }
}

/// The events that a schedule block lists, each with whether it links to one of
/// `event_urls`, as `block_spec` reads them; an error for an entry of unknown shape.
pub fn schedule_entries(block: &str, event_urls: &[String]) -> (r: Result<Vec<(String, bool)>, ScrapeError>)
    ensures
        match block_spec(block@, string_views(event_urls@)) {
            Some(es) => r matches Ok(v) && entry_views(v@) == es,
            None => r is Err,
        },
{
    let s = chars_of(block);
    if matches_at(&s, &chars_of("<b>"), 0) {
        let v: Vec<(String, bool)> = Vec::new();
        assert(entry_views(v@) =~= Seq::<(Seq<char>, bool)>::empty());
        return Ok(v);
    }
    let pieces = split_str(&s, &chars_of("<br>"));
    let ghost pv = split_str_spec(s@, "<br>"@);
    let ghost urls = string_views(event_urls@);
    let nbsp = chars_of("&nbsp;");
    let mut out: Vec<(String, bool)> = Vec::new();
    let ghost kept: Seq<Seq<char>> = Seq::empty();
    let mut i: usize = 0;
    while i < pieces.len()
        invariant
            i <= pieces@.len(),
            s@ == block@,
            !occurs_at(s@, "<b>"@, 0),
            pv == split_str_spec(s@, "<br>"@),
            urls == string_views(event_urls@),
            pieces@.len() == pv.len(),
            forall|k: int| 0 <= k < pieces@.len() ==> #[trigger] pieces@[k]@ == pv[k],
            nbsp@ == "&nbsp;"@,
            kept == entries_of(pv.subrange(0, i as int)),
            entries_read(kept, urls) == Some(entry_views(out@)),
        decreases pieces@.len() - i,
    {
        assert(pv.subrange(0, i + 1).drop_last() =~= pv.subrange(0, i as int));
        assert(pv.subrange(0, i + 1).last() == pieces@[i as int]@);
        if !crate::grid::same_chars(&pieces[i], &nbsp) {
            let text = crate::text::string_of(&pieces[i]);
            let name = match schedule_entry_name(text.as_str()) {
                Ok(n) => n,
                Err(e) => {
                    proof {
                        assert(kept.push(text@) =~= entries_of(pv.subrange(0, i + 1)));
                        lemma_entries_read_none(kept.push(text@), urls, pv, i as int);
                    }
                    return Err(e);
                },
            };
            let linked = linked_exec(text.as_str(), event_urls);
            let ghost before = out@;
            out.push((name, linked));
            proof {
                assert(kept.push(text@).drop_last() =~= kept);
                assert(kept.push(text@).last() == text@);
                assert(kept.push(text@) =~= entries_of(pv.subrange(0, i + 1)));
                kept = kept.push(text@);
                assert(entry_views(out@) =~= entry_views(before).push((name@, linked)));
            }
        }
        i = i + 1;
    }
    assert(pv.subrange(0, pv.len() as int) =~= pv);
    Ok(out)
}

/// An entry of unknown shape leaves the whole block unread, whatever follows it.
proof fn lemma_entries_read_none(
    kept: Seq<Seq<char>>,
    urls: Seq<Seq<char>>,
    pv: Seq<Seq<char>>,
    i: int,
)
    requires
        0 <= i < pv.len(),
        kept.len() > 0,
        kept == entries_of(pv.subrange(0, i + 1)),
        schedule_name_spec(kept.last()) is None,
    ensures
        entries_read(entries_of(pv), urls) is None,
{
    assert(entries_read(kept, urls) is None);
    lemma_none_extends(urls, pv, i + 1);
}

/// Once a prefix of the pieces cannot be read, no longer prefix can.
proof fn lemma_none_extends(urls: Seq<Seq<char>>, pv: Seq<Seq<char>>, j: int)
    requires
        1 <= j <= pv.len(),
        entries_read(entries_of(pv.subrange(0, j)), urls) is None,
    ensures
        entries_read(entries_of(pv), urls) is None,
    decreases pv.len() - j,
{
    if j == pv.len() {
        assert(pv.subrange(0, j) =~= pv);
    } else {
        let a = pv.subrange(0, j);
        let b = pv.subrange(0, j + 1);
        assert(b.drop_last() =~= a);
        if b.last() != "&nbsp;"@ {
            let e = entries_of(b);
            assert(e.drop_last() =~= entries_of(a));
        }
        lemma_none_extends(urls, pv, j + 1);
    }
}

} // verus!
