use pbt_scrape::schedule::schedule_entries;
use pbt_scrape::events::event_group;
use pbt_scrape::listing::{parse_listing, registration_status, ListingMarkup, RegistrationMarkup, RegistrationStatus};
use pbt_scrape::markup::{first_href, is_waitlist, is_waitlist_folded, roster_player, schedule_entry_name};

fn card(registration: Option<RegistrationMarkup>) -> ListingMarkup {
    ListingMarkup {
        title_html: "<a href=\"tournamentinfo.pl?tid=123\">Spring Open</a>".to_string(),
        title: "Spring Open".to_string(),
        location: "Austin, TX".to_string(),
        dates: "3/4/23 - 3/6/23".to_string(),
        tags: vec!["<img src=\"tag.png\">".to_string()],
        logo: "<img src=\"/logo.png\">".to_string(),
        registration,
    }
}

fn reg(html: &str, ad_only: bool, soon: Option<&str>) -> Option<RegistrationMarkup> {
    Some(RegistrationMarkup { html: html.to_string(), ad_only, soon: soon.map(|s| s.to_string()) })
}

#[test]
fn first_link_target() {
    assert_eq!(first_href("<a href=\"x.pl?a=1\">t</a>").as_deref(), Some("x.pl?a=1"));
    assert_eq!(first_href("<a href=\"\">t</a><a href=\"y\">u</a>").as_deref(), Some("y"));
    assert_eq!(first_href("<a>t</a>"), None);
}

#[test]
fn roster_row_to_player() {
    let p = roster_player("<a href=\"p.pl?x&amp;id=42\"><span>Smith</span>, John (Jack)</a>", "Austin").unwrap();
    assert_eq!((p.id, p.first_name.as_str(), p.last_name.as_str()), (42, "John", "Smith"));
    assert_eq!(p.nick_name.as_deref(), Some("Jack"));
    assert_eq!(p.from, "Austin");
    let q = roster_player("<a href=\"p.pl?&amp;id=7\"><span>Doe</span>, Jane</a>", "").unwrap();
    assert_eq!((q.first_name.as_str(), q.nick_name), ("Jane", None));
    assert!(roster_player("<span>Doe</span>, Jane", "").is_err());
    assert!(roster_player("<a href=\"p.pl?&amp;id=7\">Doe</a>", "").is_err());
}

#[test]
fn schedule_entry_names() {
    assert_eq!(schedule_entry_name("<a href=\"x\">Mixed Doubles</a>").unwrap(), "Mixed Doubles");
    assert_eq!(schedule_entry_name("Singles").unwrap(), "Singles");
    assert!(schedule_entry_name("<b>Wait list</b>").is_err());
}

#[test]
fn waitlists_in_any_case() {
    assert!(is_waitlist("Men's Wait-List"));
    assert!(is_waitlist("WAIT LIST"));
    assert!(!is_waitlist("Singles"));
    assert!(is_waitlist_folded("wait - list"));
    assert!(!is_waitlist_folded("Wait List"));
}

#[test]
fn listing_card_open_registration() {
    let l = parse_listing(&card(reg("<div class=\"registration opennow\">Deadline 2/28/24</div>", false, None))).unwrap();
    assert_eq!(l.id, 123);
    assert_eq!(l.name, "Spring Open");
    assert_eq!((l.start_date.as_str(), l.end_date.as_str()), ("2023-03-04", "2023-03-06"));
    assert_eq!(l.tag_urls, vec!["tag.png".to_string()]);
    assert_eq!(l.logo_url.as_deref(), Some("https://www.pickleballtournaments.com/logo.png"));
    match l.registration_status {
        RegistrationStatus::Open { deadline } => assert_eq!(deadline, "2024-02-28"),
        other => panic!("unexpected {:?}", other),
    }
}

#[test]
fn registration_kinds() {
    let status = |r| registration_status(&r);
    assert!(matches!(status(None).unwrap(), RegistrationStatus::Closed));
    assert!(matches!(status(reg("<div class=\"registration closednow\">", true, None)).unwrap(), RegistrationStatus::NotOpen));
    assert!(matches!(status(reg("<div class=\"registration closednow\">", false, None)).unwrap(), RegistrationStatus::Closed));
    match status(reg("<div class=\"registration closedpayonlynow\">Pay by 1/9/24</div>", false, None)).unwrap() {
        RegistrationStatus::ClosedToNew { payment_deadline } => assert_eq!(payment_deadline, "2024-01-09"),
        other => panic!("unexpected {:?}", other),
    }
    match status(reg("<div class=\"reg\">", false, Some("Opens 5/1/23 9:00 AM"))).unwrap() {
        RegistrationStatus::OpenSoon { start_date, start_time } => {
            assert_eq!((start_date.as_str(), start_time.as_str()), ("2023-05-01", "9:00 AM"))
        }
        other => panic!("unexpected {:?}", other),
    }
    assert!(status(reg("<div class=\"registration weird\">", false, None)).is_err());
    assert!(status(reg("<div class=\"reg\">", false, None)).is_err());
}

#[test]
fn listing_dates_must_be_on_the_calendar() {
    let mut c = card(None);
    c.dates = "2/29/24 - 3/1/24".to_string();
    assert_eq!(parse_listing(&c).unwrap().start_date, "2024-02-29");
    c.dates = "2/29/23 - 3/1/23".to_string();
    assert!(parse_listing(&c).is_err());
    c.dates = "3/4/23".to_string();
    assert!(parse_listing(&c).is_err());
    let mut d = card(None);
    d.title_html = "<a href=\"x\">No id</a>".to_string();
    assert!(parse_listing(&d).is_err());
    let mut e = card(None);
    e.logo = "<div></div>".to_string();
    assert_eq!(parse_listing(&e).unwrap().logo_url, None);
}

#[test]
fn event_group_joins_divisions_by_link() {
    let links = vec![
        ("Mixed 3.5 50+".to_string(), "rptbrackets.pl?e=1".to_string()),
        ("Singles".to_string(), "show.pl?&amp;dir=a&amp;filename=s.html".to_string()),
        ("Mixed 3.5 60+".to_string(), "rptbrackets.pl?e=1".to_string()),
    ];
    let g = event_group("Day 1", &links).unwrap();
    assert_eq!(g.name, "Day 1");
    assert_eq!(g.events.len(), 2);
    assert_eq!(g.events[0].name, "Mixed 3.5");
    assert_eq!(g.events[0].content.url(), "https://www.pickleballtournaments.com/rptbrackets.pl?e=1");
    assert_eq!(g.events[1].name, "Singles");
    assert_eq!(g.events[1].content.url(), "https://www.pickleballtournaments.com/Tournaments/a/s.html");
    let bad = vec![("X".to_string(), "other.pl".to_string())];
    assert!(event_group("Day 2", &bad).is_err());
}

#[test]
fn schedule_block_entries() {
    let urls = vec!["https://www.pickleballtournaments.com/show.pl?e=1".to_string()];
    let block = "<a href=\"show.pl?e=1\">Mixed Doubles</a><br>&nbsp;<br>Singles";
    let entries = schedule_entries(block, &urls).unwrap();
    assert_eq!(
        entries,
        vec![("Mixed Doubles".to_string(), true), ("Singles".to_string(), false)]
    );
    assert_eq!(schedule_entries("<b>Wait list</b>", &urls).unwrap(), vec![]);
    assert!(schedule_entries("Singles<br><i>x</i>", &urls).is_err());
}

#[test]
fn names_sanitized_both_ways() {
    assert_eq!(pbt_scrape::names::sanitize_name("Doe,&nbsp;Jane&nbsp;"), "Doe, Jane ");
    assert_eq!(pbt_scrape::markup::sanitize_name("Mixed Wait-List"), "mixedwaitlist");
    assert_eq!(pbt_scrape::markup::squeeze_name("a - b c"), "abc");
}

#[test]
fn info_sections_are_page_targets_outside_the_menus() {
    assert!(pbt_scrape::markup::is_info_target("#menuRules"));
    assert!(!pbt_scrape::markup::is_info_target("#menuSchedule"));
    assert!(!pbt_scrape::markup::is_info_target("#menuFindPlayer"));
    assert!(!pbt_scrape::markup::is_info_target("rules.html"));
    assert!(!pbt_scrape::markup::is_info_target(""));
}

#[test]
fn group_list_page_events_skip_blank_headings() {
    let headings = vec!["Singles".to_string(), "  ".to_string(), "Doubles".to_string()];
    let events = pbt_scrape::events::group_list_events("https://x/list", &headings);
    assert_eq!(events.iter().map(|e| e.name.as_str()).collect::<Vec<_>>(), vec!["Singles", "Doubles"]);
    assert!(events.iter().all(|e| e.content.url() == "https://x/list"));
}
