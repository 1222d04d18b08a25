//! The trigger grammar: `hx-trigger` text to an ordered list of trigger
//! descriptors, and the default event of an element.
use vstd::prelude::*;
use vstd::string::*;
use crate::text::{
    after, duration_of, has_prefix, parse_duration, pieces, rest_after, same_text, split_on,
    split_words, starts_with, views, words,
};

verus! {

/// What a second qualifying firing does while a delayed action is pending.
#[derive(PartialEq, Eq, Structural, Clone, Copy, Debug)]
pub enum QueuePolicy {
    /// Keep the pending action and ignore the new firing.
    First,
    /// Cancel the pending action and start the delay again.
    Last,
    /// Schedule every firing independently.
    All,
    /// No delay at all: act at once.
    Immediate,
}

/// One parsed clause of a trigger attribute.
#[derive(Clone, Debug)]
pub struct TriggerSpec {
    /// The event name (`every` for a polling trigger).
    pub trigger: String,
    /// The selector of the nodes listened on; `None` means the element itself.
    pub from: Option<String>,
    /// Whether `from` names the nearest ancestor matching the selector
    /// (`from:closest <selector>`) rather than every match in the document.
    pub from_closest: bool,
    pub changed: bool,
    pub once: bool,
    pub consume: bool,
    /// Delay in milliseconds.
    pub delay: Option<u32>,
    /// Throttle window in milliseconds.
    pub throttle: Option<u32>,
    pub queue: QueuePolicy,
    /// Selector that the node the event was dispatched to must match.
    pub target: Option<String>,
    /// Polling interval in milliseconds; set exactly for polling triggers.
    pub poll_interval: Option<u32>,
}

/// The mathematical content of a [`TriggerSpec`].
pub struct TriggerView {
    pub event: Seq<char>,
    pub from: Option<Seq<char>>,
    pub from_closest: bool,
    pub changed: bool,
    pub once: bool,
    pub consume: bool,
    pub delay: Option<u32>,
    pub throttle: Option<u32>,
    pub queue: QueuePolicy,
    pub target: Option<Seq<char>>,
    pub poll_interval: Option<u32>,
}

pub open spec fn opt_view(o: Option<String>) -> Option<Seq<char>> {
    match o {
        Some(s) => Some(s@),
        None => None,
    }
}

impl View for TriggerSpec {
    type V = TriggerView;

    open spec fn view(&self) -> TriggerView {
        TriggerView {
            event: self.trigger@,
            from: opt_view(self.from),
            from_closest: self.from_closest,
            changed: self.changed,
            once: self.once,
            consume: self.consume,
            delay: self.delay,
            throttle: self.throttle,
            queue: self.queue,
            target: opt_view(self.target),
            poll_interval: self.poll_interval,
        }
    }
}

/// A descriptor for `event` with every modifier at its default.
pub open spec fn default_view(event: Seq<char>) -> TriggerView {
    TriggerView {
        event,
        from: None,
        from_closest: false,
        changed: false,
        once: false,
        consume: false,
        delay: None,
        throttle: None,
        queue: QueuePolicy::Last,
        target: None,
        poll_interval: None,
    }
}

pub open spec fn queue_of(s: Seq<char>) -> Option<QueuePolicy> {
    if s == "first"@ {
        Some(QueuePolicy::First)
    } else if s == "last"@ {
        Some(QueuePolicy::Last)
    } else if s == "all"@ {
        Some(QueuePolicy::All)
    } else if s == "none"@ {
        Some(QueuePolicy::Immediate)
    } else {
        None
    }
}

/// The effect of one modifier token; a token that is not a modifier, or whose
/// value does not read, leaves the descriptor as it is.
pub open spec fn apply_token(t: TriggerView, tok: Seq<char>) -> TriggerView {
    if tok == "changed"@ {
        TriggerView { changed: true, ..t }
    } else if tok == "once"@ {
        TriggerView { once: true, ..t }
    } else if tok == "consume"@ {
        TriggerView { consume: true, ..t }
    } else if has_prefix(tok, "delay:"@) {
        match duration_of(after(tok, "delay:"@)) {
            Some(d) => TriggerView { delay: Some(d), ..t },
            None => t,
        }
    } else if has_prefix(tok, "throttle:"@) {
        match duration_of(after(tok, "throttle:"@)) {
            Some(d) => TriggerView { throttle: Some(d), ..t },
            None => t,
        }
    } else if has_prefix(tok, "from:"@) {
        TriggerView { from: Some(after(tok, "from:"@)), from_closest: false, ..t }
    } else if has_prefix(tok, "target:"@) {
        TriggerView { target: Some(after(tok, "target:"@)), ..t }
    } else if has_prefix(tok, "queue:"@) {
        match queue_of(after(tok, "queue:"@)) {
            Some(q) => TriggerView { queue: q, ..t },
            None => t,
        }
    } else {
        t
    }
}

/// The modifier tokens applied left to right; `from:closest` takes the next
/// token as its selector.
pub open spec fn apply_modifiers(t: TriggerView, toks: Seq<Seq<char>>) -> TriggerView
    decreases toks.len(),
{
    if toks.len() == 0 {
        t
    } else if toks[0] == "from:closest"@ && toks.len() >= 2 {
        apply_modifiers(
            TriggerView { from: Some(toks[1]), from_closest: true, ..t },
            toks.subrange(2, toks.len() as int),
        )
    } else {
        apply_modifiers(apply_token(t, toks[0]), toks.drop_first())
    }
}

/// Whether the words of a clause start with `every <duration>`.
pub open spec fn is_poll_clause(ws: Seq<Seq<char>>) -> bool {
    ws.len() >= 2 && ws[0] == "every"@ && duration_of(ws[1]) is Some
}

/// The descriptor of a clause with the given (at least one) words.
pub open spec fn clause_view(ws: Seq<Seq<char>>) -> TriggerView {
    if is_poll_clause(ws) {
        apply_modifiers(
            TriggerView { poll_interval: duration_of(ws[1]), ..default_view(ws[0]) },
            ws.subrange(2, ws.len() as int),
        )
    } else {
        apply_modifiers(default_view(ws[0]), ws.drop_first())
    }
}

/// One descriptor per clause that holds a word, in source order.
pub open spec fn clauses_view(clauses: Seq<Seq<char>>) -> Seq<TriggerView>
    decreases clauses.len(),
{
    if clauses.len() == 0 {
        Seq::empty()
    } else {
        let rest = clauses_view(clauses.drop_last());
        let ws = words(clauses.last());
        if ws.len() == 0 {
            rest
        } else {
            rest.push(clause_view(ws))
        }
    }
}

/// The descriptors that a trigger attribute's text declares.
pub open spec fn trigger_specs_of(s: Seq<char>) -> Seq<TriggerView> {
    clauses_view(pieces(s, ','))
}

pub open spec fn spec_views(v: Seq<TriggerSpec>) -> Seq<TriggerView> {
    v.map_values(|t: TriggerSpec| t@)
}

pub open spec fn default_event_of(tag: Seq<char>, input_type: Option<Seq<char>>) -> Seq<char> {
    if tag == "FORM"@ {
        "submit"@
    } else if tag == "INPUT"@ {
        match input_type {
            Some(ty) => if ty == "button"@ || ty == "submit"@ {
                "click"@
            } else {
                "change"@
            },
            None => "change"@,
        }
    } else if tag == "SELECT"@ || tag == "TEXTAREA"@ {
        "change"@
    } else {
        "click"@
    }
}

fn new_descriptor(event: String) -> (r: TriggerSpec)
    ensures
        r@ == default_view(event@),
{
    TriggerSpec {
        trigger: event,
        from: None,
        from_closest: false,
        changed: false,
        once: false,
        consume: false,
        delay: None,
        throttle: None,
        queue: QueuePolicy::Last,
        target: None,
        poll_interval: None,
    }
}

fn read_queue(s: &str) -> (r: Option<QueuePolicy>)
    ensures
        r == queue_of(s@),
{
    if same_text(s, "first") {
        Some(QueuePolicy::First)
    } else if same_text(s, "last") {
        Some(QueuePolicy::Last)
    } else if same_text(s, "all") {
        Some(QueuePolicy::All)
    } else if same_text(s, "none") {
        Some(QueuePolicy::Immediate)
    } else {
        None
    }
}

fn apply_modifier(t: &mut TriggerSpec, tok: &str)
    ensures
        final(t)@ == apply_token(old(t)@, tok@),
{
    if same_text(tok, "changed") {
        t.changed = true;
    } else if same_text(tok, "once") {
        t.once = true;
    } else if same_text(tok, "consume") {
        t.consume = true;
    } else if starts_with(tok, "delay:") {
        if let Some(d) = parse_duration(rest_after(tok, "delay:")) {
            t.delay = Some(d);
        }
    } else if starts_with(tok, "throttle:") {
        if let Some(d) = parse_duration(rest_after(tok, "throttle:")) {
            t.throttle = Some(d);
        }
    } else if starts_with(tok, "from:") {
        t.from = Some(rest_after(tok, "from:").to_owned());
        t.from_closest = false;
    } else if starts_with(tok, "target:") {
        t.target = Some(rest_after(tok, "target:").to_owned());
    } else if starts_with(tok, "queue:") {
        if let Some(q) = read_queue(rest_after(tok, "queue:")) {
            t.queue = q;
        }
    }
}

/// The descriptor of one clause, given its words.
fn parse_clause(ws: &Vec<String>) -> (r: TriggerSpec)
    requires
        ws@.len() >= 1,
    ensures
        r@ == clause_view(views(ws@)),
{
    let ghost wv = views(ws@);
    let n = ws.len();
    let mut t: TriggerSpec;
    let mut i: usize;
    let poll = if n >= 2 && same_text(ws[0].as_str(), "every") {
        parse_duration(ws[1].as_str())
    } else {
        None
    };
    if poll.is_some() {
        t = new_descriptor(ws[0].clone());
        t.poll_interval = poll;
        i = 2;
    } else {
        t = new_descriptor(ws[0].clone());
        i = 1;
    }
    assert(clause_view(wv) == apply_modifiers(t@, wv.subrange(i as int, n as int))) by {
        assert(wv.drop_first() == wv.subrange(1, n as int));
    }
    while i < n
        invariant
            n == ws@.len(),
            wv == views(ws@),
            1 <= i <= n,
            clause_view(wv) == apply_modifiers(t@, wv.subrange(i as int, n as int)),
        decreases n - i,
    {
        let ghost rest = wv.subrange(i as int, n as int);
        assert(rest[0] == ws@[i as int]@);
        if i + 1 < n && same_text(ws[i].as_str(), "from:closest") {
            assert(rest[1] == ws@[i + 1]@);
            assert(rest.subrange(2, rest.len() as int) == wv.subrange(i + 2, n as int));
            t.from = Some(ws[i + 1].clone());
            t.from_closest = true;
            i = i + 2;
        } else {
            assert(rest.drop_first() == wv.subrange(i + 1, n as int));
            apply_modifier(&mut t, ws[i].as_str());
            i = i + 1;
        }
    }
    assert(wv.subrange(n as int, n as int) == Seq::<Seq<char>>::empty());
    t
}

/// Holds no state: the trigger grammar and the default events.
#[derive(Clone, Copy, Debug)]
pub struct TriggerManager;

impl TriggerManager {
    pub fn new() -> (r: TriggerManager) {
        TriggerManager
    }

    /// Parses a trigger attribute: one descriptor per comma-separated clause
    /// that holds a word, in source order. Unknown tokens are ignored, so the
    /// parse never fails.
    pub fn parse_trigger_spec(&self, spec: &str) -> (r: Vec<TriggerSpec>)
        ensures
            spec_views(r@) == trigger_specs_of(spec@),
    {
        let clauses = split_on(spec, ',');
        let ghost cv = views(clauses@);
        let mut out: Vec<TriggerSpec> = Vec::new();
        let mut k: usize = 0;
        assert(cv.subrange(0, 0) == Seq::<Seq<char>>::empty());
        assert(spec_views(out@) == clauses_view(cv.subrange(0, 0)));
        while k < clauses.len()
            invariant
                cv == views(clauses@),
                k <= clauses@.len(),
                spec_views(out@) == clauses_view(cv.subrange(0, k as int)),
            decreases clauses@.len() - k,
        {
            let ghost prev = cv.subrange(0, k as int);
            let ghost next = cv.subrange(0, k + 1);
            assert(next.drop_last() == prev);
            assert(next.last() == clauses@[k as int]@);
            let ws = split_words(clauses[k].as_str());
            if ws.len() > 0 {
                let t = parse_clause(&ws);
                out.push(t);
                assert(spec_views(out@) == spec_views(out@.drop_last()).push(t@));
            }
            k = k + 1;
        }
        assert(cv.subrange(0, clauses@.len() as int) == cv);
        out
    }

    /// The event that a request-issuing element listens for when no trigger
    /// is declared: `submit` for a form, `change` for inputs other than
    /// buttons, selects and text areas, `click` otherwise.
    pub fn get_default_trigger(&self, tag_name: &str, input_type: Option<&str>) -> (r: String)
        ensures
            r@ == default_event_of(
                tag_name@,
                match input_type {
                    Some(t) => Some(t@),
                    None => None,
                },
            ),
    {
        if same_text(tag_name, "FORM") {
            "submit".to_owned()
        } else if same_text(tag_name, "INPUT") {
            match input_type {
                Some(ty) => {
                    if same_text(ty, "button") || same_text(ty, "submit") {
                        "click".to_owned()
                    } else {
                        "change".to_owned()
                    }
                },
                None => "change".to_owned(),
            }
        } else if same_text(tag_name, "SELECT") || same_text(tag_name, "TEXTAREA") {
            "change".to_owned()
        } else {
            "click".to_owned()
        }
    }
}

} // verus!
