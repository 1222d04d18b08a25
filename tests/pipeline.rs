use htmx_wasm::ajax::{AjaxManager, Body, ParamsFilter, TriggerEvents};
use htmx_wasm::config::HtmxConfig;
use htmx_wasm::dom::{BoostKind, DomUtils, TargetChoice};
use htmx_wasm::events::{EventManager, Lifecycle};
use htmx_wasm::Htmx;

fn fields(pairs: &[(&str, &str)]) -> Vec<(String, String)> {
    pairs.iter().map(|(k, v)| (k.to_string(), v.to_string())).collect()
}

fn header<'a>(h: &'a [(String, String)], name: &str) -> Option<&'a str> {
    h.iter().find(|(k, _)| k == name).map(|(_, v)| v.as_str())
}

#[test]
fn get_with_params_none_sends_nothing_extra() {
    let m = AjaxManager::new();
    let form = fields(&[("search", "bar"), ("page", "2")]);
    let filter = m.params_filter(Some("none"));
    let kept = m.filter_values(&form, &filter);
    assert!(kept.is_empty());
    let plan = m.issue_request("get", "/items?search=foo", Some(&kept), false);
    assert_eq!(plan.method, "GET");
    assert!(plan.body.is_none());
    assert_eq!(plan.url, b"/items?search=foo".to_vec());
}

#[test]
fn get_appends_fields_to_query() {
    let m = AjaxManager::new();
    let form = fields(&[("q", "a b&c"), ("n", "é")]);
    let plan = m.issue_request("GET", "/items", Some(&form), false);
    assert!(plan.body.is_none());
    assert_eq!(String::from_utf8(plan.url).unwrap(), "/items?q=a%20b%26c&n=%C3%A9");
    let plan = m.issue_request("get", "/items?x=1", Some(&fields(&[("y", "2")])), false);
    assert_eq!(String::from_utf8(plan.url).unwrap(), "/items?x=1&y=2");
}

#[test]
fn post_carries_fields_in_body() {
    let m = AjaxManager::new();
    let form = fields(&[("a", "1"), ("b", "x~y")]);
    let plan = m.issue_request("post", "/save", Some(&form), false);
    assert_eq!(plan.method, "POST");
    assert_eq!(plan.url, b"/save".to_vec());
    match plan.body {
        Some(Body::UrlEncoded(b)) => assert_eq!(String::from_utf8(b).unwrap(), "a=1&b=x~y"),
        _ => panic!("expected a url-encoded body"),
    }
    let plan = m.issue_request("put", "/save", Some(&form), true);
    match plan.body {
        Some(Body::Multipart(f)) => assert_eq!(f, form),
        _ => panic!("expected a multipart body"),
    }
    let plan = m.issue_request("delete", "/save", None, false);
    assert!(plan.body.is_none());
}

#[test]
fn url_encode_exact_bytes() {
    let m = AjaxManager::new();
    assert_eq!(m.url_encode(&fields(&[])), Vec::<u8>::new());
    let e = m.url_encode(&fields(&[("k", "v"), ("a=b", "100%/(ok)!*'")]));
    assert_eq!(String::from_utf8(e).unwrap(), "k=v&a%3Db=100%25%2F(ok)!*'");
}

#[test]
fn params_filters() {
    let m = AjaxManager::new();
    let form = fields(&[("a", "1"), ("b", "2"), ("c", "3")]);
    let only = m.filter_values(&form, &m.params_filter(Some("a, c")));
    assert_eq!(only, fields(&[("a", "1"), ("c", "3")]));
    let except = m.filter_values(&form, &m.params_filter(Some("not b")));
    assert_eq!(except, fields(&[("a", "1"), ("c", "3")]));
    let all = m.filter_values(&form, &m.params_filter(Some("*")));
    assert_eq!(all, form);
    let absent = m.filter_values(&form, &m.params_filter(None));
    assert_eq!(absent, form);
    assert!(matches!(m.params_filter(Some("none")), ParamsFilter::Nothing));
}

#[test]
fn request_headers() {
    let m = AjaxManager::new();
    let h = m.get_headers("http://x/page", "btn", Some("go"), "out");
    assert_eq!(header(&h, "HX-Request"), Some("true"));
    assert_eq!(header(&h, "HX-Current-URL"), Some("http://x/page"));
    assert_eq!(header(&h, "HX-Trigger"), Some("btn"));
    assert_eq!(header(&h, "HX-Trigger-Name"), Some("go"));
    assert_eq!(header(&h, "HX-Target"), Some("out"));
    let h = m.get_headers("http://x/page", "", None, "");
    assert_eq!(h.len(), 2);
    assert_eq!(header(&h, "HX-Trigger"), None);
    assert_eq!(header(&h, "HX-Target"), None);
}

#[test]
fn multipart_detection() {
    let m = AjaxManager::new();
    assert!(m.uses_form_data(Some("multipart/form-data"), "DIV", None));
    assert!(m.uses_form_data(None, "FORM", Some("multipart/form-data")));
    assert!(!m.uses_form_data(None, "DIV", Some("multipart/form-data")));
    assert!(!m.uses_form_data(None, "FORM", None));
    assert!(matches!(m.encode_params_for_body(&fields(&[("a", "1")]), true), Body::Multipart(_)));
}

#[test]
fn json_trigger_header_is_one_object() {
    let m = AjaxManager::new();
    let e = m.handle_response_headers(Some("{\"itemAdded\":{\"id\":3}}"), None, None);
    match e.events {
        Some(TriggerEvents::Json(j)) => assert_eq!(j, "{\"itemAdded\":{\"id\":3}}"),
        _ => panic!("expected a JSON trigger header"),
    }
    assert!(e.redirect.is_none());
    assert!(!e.reload);
}

#[test]
fn plain_trigger_header_names() {
    let m = AjaxManager::new();
    let e = m.handle_response_headers(Some(" a, b ,,c"), Some("/next"), Some("true"));
    match e.events {
        Some(TriggerEvents::Names(n)) => assert_eq!(n, vec!["a", "b", "c"]),
        _ => panic!("expected event names"),
    }
    assert_eq!(e.redirect.as_deref(), Some("/next"));
    assert!(e.reload);
    let e = m.handle_response_headers(None, None, Some("false"));
    assert!(e.events.is_none());
    assert!(!e.reload);
}

#[test]
fn config_defaults_and_setters() {
    let mut c = HtmxConfig::new();
    assert!(c.history_enabled());
    assert_eq!(c.history_cache_size, 10);
    assert_eq!(c.default_swap_style(), "innerHTML");
    assert_eq!(c.default_settle_delay, 20);
    assert_eq!(c.timeout(), 0);
    assert_eq!(c.disable_selector, "[hx-disable], [data-hx-disable]");
    c.set_history_enabled(false);
    c.set_default_swap_style("outerHTML".to_string());
    c.set_timeout(3000);
    assert!(!c.history_enabled());
    assert_eq!(c.default_swap_style(), "outerHTML");
    assert_eq!(c.timeout(), 3000);
}

#[test]
fn element_decisions() {
    let d = DomUtils::new();
    assert_eq!(d.prefixed_name("hx-get"), "data-hx-get");
    assert!(matches!(d.get_target(None), TargetChoice::Element));
    assert!(matches!(d.get_target(Some("this")), TargetChoice::Element));
    match d.get_target(Some("#out")) {
        TargetChoice::Selector(s) => assert_eq!(s, "#out"),
        _ => panic!("expected a selector"),
    }
    assert_eq!(d.boost_kind(Some("true"), "A"), Some(BoostKind::Anchor));
    assert_eq!(d.boost_kind(Some("true"), "FORM"), Some(BoostKind::Form));
    assert_eq!(d.boost_kind(Some("true"), "DIV"), None);
    assert_eq!(d.boost_kind(Some("false"), "A"), None);
    assert_eq!(d.boost_kind(None, "A"), None);
}

#[test]
fn engine_parts() {
    let h = Htmx::new();
    assert_eq!(h.version(), "2.0.6-wasm");
    let v = h.verb_attributes();
    assert_eq!(v[0], ("get".to_string(), "hx-get".to_string()));
    assert_eq!(v[4], ("patch".to_string(), "hx-patch".to_string()));
    let e = EventManager::new();
    assert_eq!(e.event_name(Lifecycle::BeforeRequest), "htmx:beforeRequest");
    assert_eq!(e.event_name(Lifecycle::AfterSettle), "htmx:afterSettle");
    assert_eq!(e.event_name(Lifecycle::Load), "htmx:load");
}

#[test]
fn params_names_trim_unicode_whitespace() {
    let m = AjaxManager::new();
    let form = fields(&[("a", "1"), ("b", "2")]);
    let only = m.filter_values(&form, &m.params_filter(Some("\u{a0}a\u{b},x")));
    assert_eq!(only, fields(&[("a", "1")]));
}

#[test]
fn trigger_header_names_trim_unicode_whitespace() {
    let m = AjaxManager::new();
    match m.trigger_events("\u{b}saved\u{a0},\u{3000}") {
        TriggerEvents::Names(n) => assert_eq!(n, vec!["saved"]),
        _ => panic!("expected event names"),
    }
}

#[test]
fn engine_has_default_settings() {
    let h = Htmx::new();
    assert!(h.config.history_enabled);
    assert_eq!(h.config.history_cache_size, 10);
    assert_eq!(h.config.indicator_class, "htmx-indicator");
    assert_eq!(h.config.scroll_behavior, "instant");
    assert!(h.config.self_requests_only);
    assert!(h.config.scroll_into_view_on_boost);
}
