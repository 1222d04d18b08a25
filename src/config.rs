//! Engine-wide settings and their defaults.
use vstd::prelude::*;

verus! {

/// Engine-wide settings.
#[derive(Clone, Debug)]
pub struct HtmxConfig {
    pub history_enabled: bool,
    pub history_cache_size: u32,
    pub refresh_on_history_miss: bool,
    pub default_swap_style: String,
    pub default_swap_delay: u32,
    pub default_settle_delay: u32,
    pub include_indicator_styles: bool,
    pub indicator_class: String,
    pub request_class: String,
    pub added_class: String,
    pub settling_class: String,
    pub swapping_class: String,
    pub allow_eval: bool,
    pub allow_script_tags: bool,
    pub with_credentials: bool,
    pub timeout: u32,
    pub disable_selector: String,
    pub scroll_behavior: String,
    pub default_focus_scroll: bool,
    pub get_cache_buster_param: bool,
    pub global_view_transitions: bool,
    pub self_requests_only: bool,
    pub ignore_title: bool,
    pub scroll_into_view_on_boost: bool,
}

/// Whether every setting of `r` has its default value.
pub open spec fn is_default_config(r: HtmxConfig) -> bool {
    &&& r.history_enabled
    &&& r.history_cache_size == 10
    &&& !r.refresh_on_history_miss
    &&& r.default_swap_style@ == "innerHTML"@
    &&& r.default_swap_delay == 0
    &&& r.default_settle_delay == 20
    &&& r.include_indicator_styles
    &&& r.indicator_class@ == "htmx-indicator"@
    &&& r.request_class@ == "htmx-request"@
    &&& r.added_class@ == "htmx-added"@
    &&& r.settling_class@ == "htmx-settling"@
    &&& r.swapping_class@ == "htmx-swapping"@
    &&& r.allow_eval
    &&& r.allow_script_tags
    &&& !r.with_credentials
    &&& r.timeout == 0
    &&& r.disable_selector@ == "[hx-disable], [data-hx-disable]"@
    &&& r.scroll_behavior@ == "instant"@
    &&& !r.default_focus_scroll
    &&& !r.get_cache_buster_param
    &&& !r.global_view_transitions
    &&& r.self_requests_only
    &&& !r.ignore_title
    &&& r.scroll_into_view_on_boost
}

impl HtmxConfig {
    /// The default settings.
    pub fn new() -> (r: HtmxConfig)
        ensures
            is_default_config(r),
    {
        HtmxConfig {
            history_enabled: true,
            history_cache_size: 10,
            refresh_on_history_miss: false,
            default_swap_style: "innerHTML".to_owned(),
            default_swap_delay: 0,
            default_settle_delay: 20,
            include_indicator_styles: true,
            indicator_class: "htmx-indicator".to_owned(),
            request_class: "htmx-request".to_owned(),
            added_class: "htmx-added".to_owned(),
            settling_class: "htmx-settling".to_owned(),
            swapping_class: "htmx-swapping".to_owned(),
            allow_eval: true,
            allow_script_tags: true,
            with_credentials: false,
            timeout: 0,
            disable_selector: "[hx-disable], [data-hx-disable]".to_owned(),
            scroll_behavior: "instant".to_owned(),
            default_focus_scroll: false,
            get_cache_buster_param: false,
            global_view_transitions: false,
            self_requests_only: true,
            ignore_title: false,
            scroll_into_view_on_boost: true,
        }
    }

    pub fn history_enabled(&self) -> (r: bool)
        ensures
            r == self.history_enabled,
    {
        self.history_enabled
    }

    pub fn set_history_enabled(&mut self, value: bool)
        ensures
            *final(self) == (HtmxConfig { history_enabled: value, ..*old(self) }),
    {
        self.history_enabled = value;
    }

    pub fn default_swap_style(&self) -> (r: String)
        ensures
            r@ == self.default_swap_style@,
    {
        self.default_swap_style.clone()
    }

    pub fn set_default_swap_style(&mut self, value: String)
        ensures
            *final(self) == (HtmxConfig { default_swap_style: value, ..*old(self) }),
    {
        self.default_swap_style = value;
    }

    pub fn timeout(&self) -> (r: u32)
        ensures
            r == self.timeout,
    {
        self.timeout
    }

    pub fn set_timeout(&mut self, value: u32)
        ensures
            *final(self) == (HtmxConfig { timeout: value, ..*old(self) }),
    {
        self.timeout = value;
    }
}

} // verus!
