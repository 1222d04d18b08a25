use htmx_wasm::swap::{ScrollMove, ShowAlign, SwapManager, SwapStyle};
use htmx_wasm::text::{parse_duration, parse_number, split_on, split_words, trimmed};
use htmx_wasm::triggers::{QueuePolicy, TriggerManager};

#[test]
fn swap_spec_inner_html_with_settle() {
    let m = SwapManager::new();
    let s = m.get_swap_specification(Some("innerHTML settle:100"), None);
    assert_eq!(s.swap_style, SwapStyle::InnerHtml);
    assert_eq!(s.swap_style(), "innerHTML");
    assert_eq!(s.settle_delay(), 100);
    assert_eq!(s.swap_delay(), 0);
    assert!(!s.transition);
    assert!(!s.ignore_title);
    assert_eq!(s.scroll, None);
    assert_eq!(s.scroll_target, None);
    assert_eq!(s.show, None);
    assert_eq!(s.show_target, None);
    assert_eq!(s.focus_scroll, None);
}

#[test]
fn swap_spec_defaults_without_attribute() {
    let s = SwapManager::new().get_swap_specification(None, None);
    assert_eq!(s.swap_style, SwapStyle::InnerHtml);
    assert_eq!(s.settle_delay, 20);
    assert_eq!(s.swap_delay, 0);
}

#[test]
fn swap_spec_override_wins_over_attribute() {
    let s = SwapManager::new().get_swap_specification(Some("beforeend"), Some("outerHTML swap:1s"));
    assert_eq!(s.swap_style, SwapStyle::OuterHtml);
    assert_eq!(s.swap_delay, 1000);
}

#[test]
fn swap_spec_unknown_style_falls_back() {
    let s = SwapManager::new().get_swap_specification(Some("sideways settle:bad"), None);
    assert_eq!(s.swap_style, SwapStyle::InnerHtml);
    assert_eq!(s.settle_delay, 20);
}

#[test]
fn swap_spec_all_modifiers() {
    let s = SwapManager::new().get_swap_specification(
        Some("afterend transition:true ignoreTitle:true scroll:#list:bottom show:top focus-scroll:false"),
        None,
    );
    assert_eq!(s.swap_style, SwapStyle::AfterEnd);
    assert!(s.transition);
    assert!(s.ignore_title);
    assert_eq!(s.scroll.as_deref(), Some("bottom"));
    assert_eq!(s.scroll_target.as_deref(), Some("#list"));
    assert_eq!(s.show.as_deref(), Some("top"));
    assert_eq!(s.show_target, None);
    assert_eq!(s.focus_scroll, Some(false));
}

#[test]
fn every_swap_style_name_reads() {
    let m = SwapManager::new();
    let cases = [
        ("innerHTML", SwapStyle::InnerHtml),
        ("outerHTML", SwapStyle::OuterHtml),
        ("beforebegin", SwapStyle::BeforeBegin),
        ("afterbegin", SwapStyle::AfterBegin),
        ("beforeend", SwapStyle::BeforeEnd),
        ("afterend", SwapStyle::AfterEnd),
        ("delete", SwapStyle::Delete),
        ("none", SwapStyle::NoSwap),
    ];
    for (name, style) in cases {
        let s = m.get_swap_specification(Some(name), None);
        assert_eq!(s.swap_style, style);
        assert_eq!(s.swap_style(), name);
    }
}

#[test]
fn scroll_and_show_positioning() {
    let m = SwapManager::new();
    let s = m.get_swap_specification(Some("innerHTML scroll:#log:bottom show:bottom"), None);
    let p = m.scroll_positioning(&s).unwrap();
    assert_eq!(p.action, ScrollMove::Bottom);
    assert_eq!(p.target.as_deref(), Some("#log"));
    let q = m.show_positioning(&s).unwrap();
    assert_eq!(q.action, ShowAlign::End);
    assert_eq!(q.target, None);

    let s = m.get_swap_specification(Some("innerHTML scroll:250 show:middle"), None);
    assert_eq!(m.scroll_positioning(&s).unwrap().action, ScrollMove::Offset(250));
    assert_eq!(m.show_positioning(&s).unwrap().action, ShowAlign::Nearest);

    let s = m.get_swap_specification(Some("innerHTML scroll:sideways"), None);
    assert!(m.scroll_positioning(&s).is_none());
    assert!(m.show_positioning(&s).is_none());

    let s = m.get_swap_specification(Some("innerHTML scroll:top show:top"), None);
    assert_eq!(m.scroll_positioning(&s).unwrap().action, ScrollMove::Top);
    assert_eq!(m.show_positioning(&s).unwrap().action, ShowAlign::Start);
}

#[test]
fn trigger_click_once_delay_from_closest() {
    let t = TriggerManager::new().parse_trigger_spec("click once delay:500 from:closest .btn");
    assert_eq!(t.len(), 1);
    assert_eq!(t[0].trigger, "click");
    assert!(t[0].once);
    assert_eq!(t[0].delay, Some(500));
    assert_eq!(t[0].from.as_deref(), Some(".btn"));
    assert!(t[0].from_closest);
    assert!(!t[0].changed);
    assert!(!t[0].consume);
    assert_eq!(t[0].throttle, None);
    assert_eq!(t[0].queue, QueuePolicy::Last);
    assert_eq!(t[0].poll_interval, None);
}

#[test]
fn trigger_several_clauses_in_order() {
    let t = TriggerManager::new().parse_trigger_spec(
        " keyup changed throttle:2s target:#q queue:first , , load consume,every 2s from:#x",
    );
    assert_eq!(t.len(), 3);
    assert_eq!(t[0].trigger, "keyup");
    assert!(t[0].changed);
    assert_eq!(t[0].throttle, Some(2000));
    assert_eq!(t[0].target.as_deref(), Some("#q"));
    assert_eq!(t[0].queue, QueuePolicy::First);
    assert_eq!(t[1].trigger, "load");
    assert!(t[1].consume);
    assert_eq!(t[2].trigger, "every");
    assert_eq!(t[2].poll_interval, Some(2000));
    assert_eq!(t[2].from.as_deref(), Some("#x"));
    assert!(!t[2].from_closest);
}

#[test]
fn trigger_unknown_tokens_are_ignored() {
    let t = TriggerManager::new().parse_trigger_spec("input delay:soon queue:maybe bogus throttle:10ms queue:none");
    assert_eq!(t.len(), 1);
    assert_eq!(t[0].trigger, "input");
    assert_eq!(t[0].delay, None);
    assert_eq!(t[0].throttle, Some(10));
    assert_eq!(t[0].queue, QueuePolicy::Immediate);
}

#[test]
fn trigger_empty_spec_has_no_descriptor() {
    assert!(TriggerManager::new().parse_trigger_spec("").is_empty());
    assert!(TriggerManager::new().parse_trigger_spec(" , ,").is_empty());
}

#[test]
fn trigger_every_without_duration_is_an_event() {
    let t = TriggerManager::new().parse_trigger_spec("every soon");
    assert_eq!(t[0].trigger, "every");
    assert_eq!(t[0].poll_interval, None);
}

#[test]
fn default_triggers_by_element() {
    let m = TriggerManager::new();
    assert_eq!(m.get_default_trigger("FORM", None), "submit");
    assert_eq!(m.get_default_trigger("INPUT", Some("submit")), "click");
    assert_eq!(m.get_default_trigger("INPUT", Some("button")), "click");
    assert_eq!(m.get_default_trigger("INPUT", Some("text")), "change");
    assert_eq!(m.get_default_trigger("INPUT", None), "change");
    assert_eq!(m.get_default_trigger("SELECT", None), "change");
    assert_eq!(m.get_default_trigger("TEXTAREA", None), "change");
    assert_eq!(m.get_default_trigger("DIV", None), "click");
}

#[test]
fn durations_and_numbers() {
    assert_eq!(parse_duration("500"), Some(500));
    assert_eq!(parse_duration("500ms"), Some(500));
    assert_eq!(parse_duration("2s"), Some(2000));
    assert_eq!(parse_duration("4294967s"), Some(4294967000));
    assert_eq!(parse_duration("4294968s"), None);
    assert_eq!(parse_duration("s"), None);
    assert_eq!(parse_duration("1m"), None);
    assert_eq!(parse_number("4294967295"), Some(4294967295));
    assert_eq!(parse_number("4294967296"), None);
    assert_eq!(parse_number(""), None);
    assert_eq!(parse_number("12a"), None);
}

#[test]
fn splitting_and_trimming() {
    assert_eq!(split_on("a,,b", ','), vec!["a", "", "b"]);
    assert_eq!(split_on("", ','), vec![""]);
    assert_eq!(split_words("  a \t bc  "), vec!["a", "bc"]);
    assert!(split_words("   ").is_empty());
    assert_eq!(trimmed("  x y \n"), "x y");
    assert_eq!(trimmed("   "), "");
}

#[test]
fn trigger_vertical_tab_only_clause_is_empty() {
    assert!(TriggerManager::new().parse_trigger_spec("\u{b}").is_empty());
    assert!(TriggerManager::new().parse_trigger_spec("\u{a0}, \u{3000}").is_empty());
}

#[test]
fn trigger_unicode_whitespace_separates_tokens() {
    let t = TriggerManager::new().parse_trigger_spec("click\u{b}once\u{a0}delay:5\u{2003}from:closest\u{85}.btn");
    assert_eq!(t.len(), 1);
    assert_eq!(t[0].trigger, "click");
    assert!(t[0].once);
    assert_eq!(t[0].delay, Some(5));
    assert_eq!(t[0].from.as_deref(), Some(".btn"));
    assert!(t[0].from_closest);
}

#[test]
fn swap_spec_unicode_whitespace_separates_tokens() {
    let s = SwapManager::new().get_swap_specification(Some("\u{a0}outerHTML\u{b}settle:7\u{a0}"), None);
    assert_eq!(s.swap_style, SwapStyle::OuterHtml);
    assert_eq!(s.settle_delay, 7);
}

#[test]
fn unicode_whitespace_words_and_trim() {
    assert_eq!(split_words("a\u{b}b\u{a0}c\u{2028}d\u{3000}"), vec!["a", "b", "c", "d"]);
    assert_eq!(trimmed("\u{a0}\u{b} x \u{205f}"), "x");
    assert_eq!(trimmed("\u{200b}x"), "\u{200b}x");
}

#[test]
fn scroll_offsets_may_be_signed() {
    let m = SwapManager::new();
    let s = m.get_swap_specification(Some("innerHTML scroll:-5"), None);
    assert_eq!(m.scroll_positioning(&s).unwrap().action, ScrollMove::Offset(-5));
    let s = m.get_swap_specification(Some("innerHTML scroll:+5"), None);
    assert_eq!(m.scroll_positioning(&s).unwrap().action, ScrollMove::Offset(5));
    let s = m.get_swap_specification(Some("innerHTML scroll:-2147483648"), None);
    assert_eq!(m.scroll_positioning(&s).unwrap().action, ScrollMove::Offset(i32::MIN));
    let s = m.get_swap_specification(Some("innerHTML scroll:2147483647"), None);
    assert_eq!(m.scroll_positioning(&s).unwrap().action, ScrollMove::Offset(i32::MAX));
}

#[test]
fn scroll_offsets_outside_i32_are_ignored() {
    let m = SwapManager::new();
    for v in ["3000000000", "2147483648", "-2147483649", "-", "+", "+-5", "5px"] {
        let spec = format!("innerHTML scroll:{}", v);
        let s = m.get_swap_specification(Some(spec.as_str()), None);
        assert!(m.scroll_positioning(&s).is_none());
    }
}
