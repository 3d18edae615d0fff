use pbt_scrape::error::{check_final_url, transport_error, CaptchaPayload, ErrorPayload, ScrapeError};
use pbt_scrape::events::{common_name, event_content, EventContent};
use pbt_scrape::schedule::ScheduleItem;

#[test]
fn content_url_of_each_kind() {
    assert_eq!(EventContent::BracketUrl("b".to_string()).url(), "b");
    assert_eq!(EventContent::GroupListUrl("g".to_string()).url(), "g");
    assert_eq!(EventContent::ListUrl("l".to_string()).url(), "l");
}

#[test]
fn common_name_of_divisions() {
    let names = vec![
        "Men's Doubles 3.5 50+ ".to_string(),
        "Men's Doubles 3.5 60+".to_string(),
    ];
    assert_eq!(common_name(&names), "Men's Doubles 3.5");
    let one = vec!["Mixed Doubles  ".to_string()];
    assert_eq!(common_name(&one), "Mixed Doubles");
    let apart = vec!["Singles".to_string(), "Doubles".to_string()];
    assert_eq!(common_name(&apart), "");
}

#[test]
fn team_list_link_is_list_url() {
    match event_content("rptbrackets.pl?tid=9&amp;e=3").unwrap() {
        EventContent::ListUrl(u) => {
            assert_eq!(u, "https://www.pickleballtournaments.com/rptbrackets.pl?tid=9&amp;e=3")
        }
        _ => panic!("not a list"),
    }
}

#[test]
fn bracket_viewer_link_is_bracket_url() {
    match event_content("show.pl?x=1&amp;dir=2023%2F77&amp;filename=md35.html").unwrap() {
        EventContent::BracketUrl(u) => assert_eq!(
            u,
            "https://www.pickleballtournaments.com/Tournaments/2023/77/md35.html"
        ),
        _ => panic!("not a bracket"),
    }
}

#[test]
fn unknown_links_are_errors() {
    assert!(event_content("other.pl?tid=1").is_err());
    assert!(event_content("show.pl?dir=x").is_err());
}

#[test]
fn challenge_page_is_captcha() {
    let url = "https://validate.perfdrive.com/?ssa=1";
    match check_final_url(url) {
        Err(ScrapeError::Captcha(CaptchaPayload::Captcha { url: u })) => assert_eq!(u, url),
        _ => panic!("expected a captcha"),
    }
    assert!(check_final_url("https://www.pickleballtournaments.com/x").is_ok());
}

#[test]
fn transport_error_reason() {
    match transport_error("could not load page", Some(404), "not found") {
        ScrapeError::Error(ErrorPayload::Error { reason }) => {
            assert_eq!(reason, "could not load page:\n  status: 404\n  error: not found")
        }
        _ => panic!("expected an error"),
    }
    let e = transport_error("ctx", None, "timed out");
    assert_eq!(e.message(), "ctx:\n  error: timed out");
    assert_eq!(ScrapeError::from_str("event not found").message(), "event not found");
}

#[test]
fn schedule_item_holds_fields() {
    let item = ScheduleItem {
        date: "Mon".to_string(),
        time: "8:00".to_string(),
        venue: "Court 1".to_string(),
        event: "Singles".to_string(),
        link: true,
    };
    assert!(item.clone().link);
}
