//! The lifecycle notifications and their event names.
use vstd::prelude::*;

verus! {

/// A stage of a request's life that host code can observe.
#[derive(PartialEq, Eq, Structural, Clone, Copy, Debug)]
pub enum Lifecycle {
    BeforeRequest,
    AfterRequest,
    BeforeSwap,
    AfterSwap,
    AfterSettle,
    Load,
}

pub open spec fn lifecycle_name(k: Lifecycle) -> Seq<char> {
    match k {
        Lifecycle::BeforeRequest => "htmx:beforeRequest"@,
        Lifecycle::AfterRequest => "htmx:afterRequest"@,
        Lifecycle::BeforeSwap => "htmx:beforeSwap"@,
        Lifecycle::AfterSwap => "htmx:afterSwap"@,
        Lifecycle::AfterSettle => "htmx:afterSettle"@,
        Lifecycle::Load => "htmx:load"@,
    }
}

/// Holds no state: the names of the lifecycle events.
#[derive(Clone, Copy, Debug)]
pub struct EventManager;

impl EventManager {
    pub fn new() -> (r: EventManager) {
        EventManager
    }

    /// The name of the event dispatched at a lifecycle stage.
    pub fn event_name(&self, kind: Lifecycle) -> (r: String)
        ensures
            r@ == lifecycle_name(kind),
    {
        match kind {
            Lifecycle::BeforeRequest => "htmx:beforeRequest".to_owned(),
            Lifecycle::AfterRequest => "htmx:afterRequest".to_owned(),
            Lifecycle::BeforeSwap => "htmx:beforeSwap".to_owned(),
            Lifecycle::AfterSwap => "htmx:afterSwap".to_owned(),
            Lifecycle::AfterSettle => "htmx:afterSettle".to_owned(),
            Lifecycle::Load => "htmx:load".to_owned(),
        }
    }
}

} // verus!
