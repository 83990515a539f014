use mybops_wasm::text::{bool_str, i64_text, join, str_eq, u64_text};
use mybops_wasm::widgets::{accordion_collapsed, accordion_look, alert_view, collapse_class, parse_rating};
use mybops_wasm::lists::ItemMetadata;
use mybops_wasm::numbers::parse_u64;
use mybops_wasm::widgets::{accordion_click, accordion_initial, rating_options, selected_option, AccordionClick};
use mybops_wasm::widgets::{dropdown_placement, shown_iframe, tab_borders, Direction, IframeCompareMsg};

#[test]
fn accordions() {
    assert!(accordion_collapsed(true, None, false));
    assert!(!accordion_collapsed(true, Some(false), true));
    assert!(accordion_collapsed(false, Some(false), true));
    assert_eq!(accordion_look(true), ("tw:hidden", "m19.5 8.25-7.5 7.5-7.5-7.5"));
    assert_eq!(accordion_look(false), ("tw:block", "m4.5 15.75 7.5-7.5 7.5 7.5"));
    assert_eq!(collapse_class(true), "collapse");
    assert_eq!(collapse_class(false), "collapse show");
}

#[test]
fn alerts() {
    assert_eq!(alert_view(Ok("Saved".to_string())), ("alert alert-success alert-dismissible", "Saved".to_string()));
    assert_eq!(alert_view(Err("Oops".to_string())), ("alert alert-danger alert-dismissible", "Oops".to_string()));
}

#[test]
fn rating_menu_values() {
    assert_eq!(parse_rating(""), None);
    assert_eq!(parse_rating("0"), Some(0));
    assert_eq!(parse_rating("7"), Some(7));
    assert_eq!(parse_rating("10"), Some(10));
    assert_eq!(parse_rating("+3"), Some(3));
    assert_eq!(parse_rating("+"), None);
    assert_eq!(parse_rating("-1"), None);
    assert_eq!(parse_rating("1x"), None);
    assert_eq!(parse_rating("18446744073709551615"), Some(u64::MAX));
    assert_eq!(parse_rating("18446744073709551616"), None);
    for s in ["", "0", "5", "10", "+4", "abc", "99999999999999999999"] {
        assert_eq!(parse_rating(s), s.parse::<u64>().ok());
    }
}

#[test]
fn integer_text() {
    assert_eq!(u64_text(0), "0");
    assert_eq!(u64_text(1234567890), "1234567890");
    assert_eq!(u64_text(u64::MAX), u64::MAX.to_string());
    assert_eq!(i64_text(-42), "-42");
    assert_eq!(i64_text(i64::MIN), i64::MIN.to_string());
    assert_eq!(i64_text(i64::MAX), i64::MAX.to_string());
    assert_eq!(bool_str(true), "true");
}

#[test]
fn joining_and_comparing() {
    let v: Vec<String> = vec!["a".into(), "bc".into(), "".into()];
    assert_eq!(join(&v, ", "), "a, bc, ");
    assert_eq!(join(&vec![], ","), "");
    assert!(str_eq("héllo", "héllo"));
    assert!(!str_eq("a", "ab"));
}

#[test]
fn side_by_side_players_and_dropdowns() {
    let left = ItemMetadata { id: "a".into(), name: "A".into(), iframe: Some("https://a".into()), score: 0, wins: 0, losses: 0 };
    let right = ItemMetadata { id: "b".into(), name: "B".into(), iframe: None, score: 0, wins: 0, losses: 0 };
    assert_eq!(shown_iframe(IframeCompareMsg::Left, &left, &right), Some("https://a".to_string()));
    assert_eq!(shown_iframe(IframeCompareMsg::Right, &left, &right), None);
    assert_eq!(tab_borders(IframeCompareMsg::Left), ("tw:border-purple-500", "tw:border-gray-300"));
    assert_eq!(tab_borders(IframeCompareMsg::Right), ("tw:border-gray-300", "tw:border-purple-500"));
    assert_eq!(dropdown_placement(Direction::Up), "tw:inset-auto tw:bottom-[anchor(top)]");
    assert_eq!(dropdown_placement(Direction::Down), "tw:top-[anchor(bottom)]");
}

#[test]
fn rating_menu_reads_back() {
    let options = rating_options();
    assert_eq!(options.len(), 11);
    assert_eq!(options[0], "");
    assert_eq!(options[1], "1");
    assert_eq!(options[10], "10");
    assert!(!options.contains(&"0".to_string()));
    assert_eq!(parse_rating(&options[0]), None);
    for k in 1..=10u64 {
        let i = selected_option(Some(k)).unwrap();
        assert_eq!(i, k as usize);
        assert_eq!(parse_rating(&options[i]), Some(k));
    }
    assert_eq!(selected_option(None), Some(0));
    assert_eq!(selected_option(Some(0)), None);
    assert_eq!(selected_option(Some(11)), None);
}

#[test]
fn accordion_clicks() {
    assert!(accordion_initial(None));
    assert!(!accordion_initial(Some(false)));
    assert_eq!(accordion_click(true, false), AccordionClick::CallToggle);
    let once = match accordion_click(false, true) {
        AccordionClick::SetOwn(b) => b,
        AccordionClick::CallToggle => panic!("no callback"),
    };
    assert!(!once);
    assert_eq!(accordion_click(false, once), AccordionClick::SetOwn(true));
}

#[test]
fn decimal_text_reads_back() {
    for n in [0u64, 7, 10, 99, 12345, u64::MAX] {
        assert_eq!(parse_u64(&u64_text(n)), Some(n));
    }
}
