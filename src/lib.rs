//! Attribute-driven page orchestration: the trigger and swap grammars, the
//! listener policy that decides when a request starts, and the request and
//! response rules of the request pipeline.
pub mod ajax;
pub mod binder;
pub mod config;
pub mod dom;
pub mod events;
pub mod swap;
pub mod text;
pub mod triggers;

use vstd::prelude::*;
use vstd::string::*;
use crate::ajax::AjaxManager;
use crate::config::{HtmxConfig, is_default_config};
use crate::dom::DomUtils;
use crate::events::EventManager;
use crate::swap::SwapManager;
use crate::triggers::TriggerManager;

verus! {

/// An engine instance, owned by the host: its settings and its parts.
#[derive(Clone, Debug)]
pub struct Htmx {
    pub config: HtmxConfig,
    pub dom_utils: DomUtils,
    pub event_manager: EventManager,
    pub ajax_manager: AjaxManager,
    pub swap_manager: SwapManager,
    pub trigger_manager: TriggerManager,
}

impl Htmx {
    /// An engine with the default settings.
    pub fn new() -> (r: Htmx)
        ensures
            is_default_config(r.config),
    {
        Htmx {
            config: HtmxConfig::new(),
            dom_utils: DomUtils::new(),
            event_manager: EventManager::new(),
            ajax_manager: AjaxManager::new(),
            swap_manager: SwapManager::new(),
            trigger_manager: TriggerManager::new(),
        }
    }

    pub fn version(&self) -> (r: String)
        ensures
            r@ == "2.0.6-wasm"@,
    {
        "2.0.6-wasm".to_owned()
    }

    /// The request verbs and the attribute that declares each, in the order
    /// in which an element's attributes are read.
    pub fn verb_attributes(&self) -> (r: Vec<(String, String)>)
        ensures
            r@.len() == 5,
            r@[0].0@ == "get"@ && r@[0].1@ == "hx-get"@,
            r@[1].0@ == "post"@ && r@[1].1@ == "hx-post"@,
            r@[2].0@ == "put"@ && r@[2].1@ == "hx-put"@,
            r@[3].0@ == "delete"@ && r@[3].1@ == "hx-delete"@,
            r@[4].0@ == "patch"@ && r@[4].1@ == "hx-patch"@,
    {
        let mut v: Vec<(String, String)> = Vec::new();
        v.push(("get".to_owned(), "hx-get".to_owned()));
        v.push(("post".to_owned(), "hx-post".to_owned()));
        v.push(("put".to_owned(), "hx-put".to_owned()));
        v.push(("delete".to_owned(), "hx-delete".to_owned()));
        v.push(("patch".to_owned(), "hx-patch".to_owned()));
        v
    }
}

} // verus!
