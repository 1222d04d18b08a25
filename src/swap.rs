//! The swap grammar, out-of-band directives, post-swap positioning, and the
//! content-replacement rules of each swap style.
use vstd::prelude::*;
use vstd::string::*;
use crate::text::{
    after, duration_of, find_char, find_first, has_prefix, parse_duration, parse_signed,
    signed_number_of, rest_after, same_text, split_words, starts_with, views, words,
};
use crate::triggers::opt_view;

verus! {

/// Where and how response markup replaces or joins the target's content.
#[derive(PartialEq, Eq, Structural, Clone, Copy, Debug)]
pub enum SwapStyle {
    /// Replace the target's children.
    InnerHtml,
    /// Replace the target itself.
    OuterHtml,
    /// Insert before the target.
    BeforeBegin,
    /// Insert before the target's first child.
    AfterBegin,
    /// Insert after the target's last child.
    BeforeEnd,
    /// Insert after the target.
    AfterEnd,
    /// Remove the target; the markup is ignored.
    Delete,
    /// Leave the page as it is.
    NoSwap,
}

/// The style that a style name denotes; unknown names mean `innerHTML`.
pub open spec fn style_of(s: Seq<char>) -> SwapStyle {
    if s == "outerHTML"@ {
        SwapStyle::OuterHtml
    } else if s == "beforebegin"@ {
        SwapStyle::BeforeBegin
    } else if s == "afterbegin"@ {
        SwapStyle::AfterBegin
    } else if s == "beforeend"@ {
        SwapStyle::BeforeEnd
    } else if s == "afterend"@ {
        SwapStyle::AfterEnd
    } else if s == "delete"@ {
        SwapStyle::Delete
    } else if s == "none"@ {
        SwapStyle::NoSwap
    } else {
        SwapStyle::InnerHtml
    }
}

pub open spec fn style_name(st: SwapStyle) -> Seq<char> {
    match st {
        SwapStyle::InnerHtml => "innerHTML"@,
        SwapStyle::OuterHtml => "outerHTML"@,
        SwapStyle::BeforeBegin => "beforebegin"@,
        SwapStyle::AfterBegin => "afterbegin"@,
        SwapStyle::BeforeEnd => "beforeend"@,
        SwapStyle::AfterEnd => "afterend"@,
        SwapStyle::Delete => "delete"@,
        SwapStyle::NoSwap => "none"@,
    }
}

/// Reads a swap style name; unknown names fall back to `innerHTML`.
pub fn parse_swap_style(s: &str) -> (r: SwapStyle)
    ensures
        r == style_of(s@),
{
    if same_text(s, "outerHTML") {
        SwapStyle::OuterHtml
    } else if same_text(s, "beforebegin") {
        SwapStyle::BeforeBegin
    } else if same_text(s, "afterbegin") {
        SwapStyle::AfterBegin
    } else if same_text(s, "beforeend") {
        SwapStyle::BeforeEnd
    } else if same_text(s, "afterend") {
        SwapStyle::AfterEnd
    } else if same_text(s, "delete") {
        SwapStyle::Delete
    } else if same_text(s, "none") {
        SwapStyle::NoSwap
    } else {
        SwapStyle::InnerHtml
    }
}

/// The attribute name of a style.
pub fn swap_style_name(st: SwapStyle) -> (r: String)
    ensures
        r@ == style_name(st),
{
    match st {
        SwapStyle::InnerHtml => "innerHTML".to_owned(),
        SwapStyle::OuterHtml => "outerHTML".to_owned(),
        SwapStyle::BeforeBegin => "beforebegin".to_owned(),
        SwapStyle::AfterBegin => "afterbegin".to_owned(),
        SwapStyle::BeforeEnd => "beforeend".to_owned(),
        SwapStyle::AfterEnd => "afterend".to_owned(),
        SwapStyle::Delete => "delete".to_owned(),
        SwapStyle::NoSwap => "none".to_owned(),
    }
}

/// The parsed swap attribute.
#[derive(Clone, Debug)]
pub struct SwapSpec {
    pub swap_style: SwapStyle,
    /// Milliseconds before the swap.
    pub swap_delay: u32,
    /// Milliseconds between the swap and the settle step.
    pub settle_delay: u32,
    pub transition: bool,
    pub ignore_title: bool,
    /// `top`, `bottom` or a pixel offset, optionally signed.
    pub scroll: Option<String>,
    /// Selector of the node to scroll; the swapped node when absent.
    pub scroll_target: Option<String>,
    /// `top`, `bottom` or anything else for the default alignment.
    pub show: Option<String>,
    /// Selector of the node to show; the swapped node when absent.
    pub show_target: Option<String>,
    pub focus_scroll: Option<bool>,
}

pub struct SwapView {
    pub style: SwapStyle,
    pub swap_delay: u32,
    pub settle_delay: u32,
    pub transition: bool,
    pub ignore_title: bool,
    pub scroll: Option<Seq<char>>,
    pub scroll_target: Option<Seq<char>>,
    pub show: Option<Seq<char>>,
    pub show_target: Option<Seq<char>>,
    pub focus_scroll: Option<bool>,
}

impl View for SwapSpec {
    type V = SwapView;

    open spec fn view(&self) -> SwapView {
        SwapView {
            style: self.swap_style,
            swap_delay: self.swap_delay,
            settle_delay: self.settle_delay,
            transition: self.transition,
            ignore_title: self.ignore_title,
            scroll: opt_view(self.scroll),
            scroll_target: opt_view(self.scroll_target),
            show: opt_view(self.show),
            show_target: opt_view(self.show_target),
            focus_scroll: self.focus_scroll,
        }
    }
}

/// Every field at its default: `innerHTML`, no swap delay, a settle delay of
/// 20 ms, no transition, no positioning.
pub open spec fn default_swap_view() -> SwapView {
    SwapView {
        style: SwapStyle::InnerHtml,
        swap_delay: 0,
        settle_delay: 20,
        transition: false,
        ignore_title: false,
        scroll: None,
        scroll_target: None,
        show: None,
        show_target: None,
        focus_scroll: None,
    }
}

/// A positioning value with an optional target: `<selector>:<value>` or
/// `<value>`, split at the first colon.
pub open spec fn split_target(s: Seq<char>) -> (Option<Seq<char>>, Seq<char>) {
    match find_char(s, ':') {
        Some(k) => (Some(s.subrange(0, k)), s.subrange(k + 1, s.len() as int)),
        None => (None, s),
    }
}

/// The effect of one modifier of a swap attribute; others are ignored.
pub open spec fn apply_swap_token(v: SwapView, tok: Seq<char>) -> SwapView {
    if has_prefix(tok, "swap:"@) {
        match duration_of(after(tok, "swap:"@)) {
            Some(d) => SwapView { swap_delay: d, ..v },
            None => v,
        }
    } else if has_prefix(tok, "settle:"@) {
        match duration_of(after(tok, "settle:"@)) {
            Some(d) => SwapView { settle_delay: d, ..v },
            None => v,
        }
    } else if has_prefix(tok, "transition:"@) {
        SwapView { transition: after(tok, "transition:"@) == "true"@, ..v }
    } else if has_prefix(tok, "ignoreTitle:"@) {
        SwapView { ignore_title: after(tok, "ignoreTitle:"@) == "true"@, ..v }
    } else if has_prefix(tok, "scroll:"@) {
        let (target, value) = split_target(after(tok, "scroll:"@));
        match target {
            Some(sel) => SwapView { scroll: Some(value), scroll_target: Some(sel), ..v },
            None => SwapView { scroll: Some(value), ..v },
        }
    } else if has_prefix(tok, "show:"@) {
        let (target, value) = split_target(after(tok, "show:"@));
        match target {
            Some(sel) => SwapView { show: Some(value), show_target: Some(sel), ..v },
            None => SwapView { show: Some(value), ..v },
        }
    } else if has_prefix(tok, "focus-scroll:"@) {
        SwapView { focus_scroll: Some(after(tok, "focus-scroll:"@) == "true"@), ..v }
    } else {
        v
    }
}

pub open spec fn apply_swap_tokens(v: SwapView, toks: Seq<Seq<char>>) -> SwapView
    decreases toks.len(),
{
    if toks.len() == 0 {
        v
    } else {
        apply_swap_tokens(apply_swap_token(v, toks[0]), toks.drop_first())
    }
}

/// The specification that a swap attribute's text declares: its first word
/// is the style, the others are modifiers.
pub open spec fn swap_spec_of(s: Seq<char>) -> SwapView {
    let ws = words(s);
    if ws.len() == 0 {
        default_swap_view()
    } else {
        apply_swap_tokens(
            SwapView { style: style_of(ws[0]), ..default_swap_view() },
            ws.drop_first(),
        )
    }
}

fn apply_swap_modifier(spec: &mut SwapSpec, tok: &str)
    ensures
        final(spec)@ == apply_swap_token(old(spec)@, tok@),
{
    if starts_with(tok, "swap:") {
        if let Some(d) = parse_duration(rest_after(tok, "swap:")) {
            spec.swap_delay = d;
        }
    } else if starts_with(tok, "settle:") {
        if let Some(d) = parse_duration(rest_after(tok, "settle:")) {
            spec.settle_delay = d;
        }
    } else if starts_with(tok, "transition:") {
        spec.transition = same_text(rest_after(tok, "transition:"), "true");
    } else if starts_with(tok, "ignoreTitle:") {
        spec.ignore_title = same_text(rest_after(tok, "ignoreTitle:"), "true");
    } else if starts_with(tok, "scroll:") {
        let v = rest_after(tok, "scroll:");
        let n = v.unicode_len();
        match find_first(v, ':') {
            Some(k) => {
                spec.scroll = Some(v.substring_char(k + 1, n).to_owned());
                spec.scroll_target = Some(v.substring_char(0, k).to_owned());
            },
            None => {
                spec.scroll = Some(v.to_owned());
            },
        }
    } else if starts_with(tok, "show:") {
        let v = rest_after(tok, "show:");
        let n = v.unicode_len();
        match find_first(v, ':') {
            Some(k) => {
                spec.show = Some(v.substring_char(k + 1, n).to_owned());
                spec.show_target = Some(v.substring_char(0, k).to_owned());
            },
            None => {
                spec.show = Some(v.to_owned());
            },
        }
    } else if starts_with(tok, "focus-scroll:") {
        spec.focus_scroll = Some(same_text(rest_after(tok, "focus-scroll:"), "true"));
    }
}

/// How an out-of-band fragment is placed: with which style, at which
/// selector of the live page.
#[derive(Clone, Debug)]
pub struct OobSwap {
    pub style: SwapStyle,
    pub selector: String,
}

/// `#` followed by the node's identifier.
pub open spec fn id_selector(id: Seq<char>) -> Seq<char> {
    seq!['#'] + id
}

/// The placement that an out-of-band marker value declares: `true` replaces
/// the page node with the fragment's identifier; `<style>:<selector>` names
/// both; any other value is a style, applied at the fragment's identifier.
pub open spec fn oob_of(marker: Seq<char>, node_id: Seq<char>) -> (SwapStyle, Seq<char>) {
    if marker == "true"@ {
        (SwapStyle::OuterHtml, id_selector(node_id))
    } else {
        match find_char(marker, ':') {
            Some(k) => (style_of(marker.subrange(0, k)), marker.subrange(k + 1, marker.len() as int)),
            None => (style_of(marker), id_selector(node_id)),
        }
    }
}

fn selector_for_id(id: &str) -> (r: String)
    ensures
        r@ == id_selector(id@),
{
    let mut sel = "#".to_owned();
    sel.append(id);
    proof {
        reveal_strlit("#");
    }
    sel
}

/// What the swapped content asks of the scroll position.
#[derive(PartialEq, Eq, Structural, Clone, Copy, Debug)]
pub enum ScrollMove {
    /// Scroll the node to its top.
    Top,
    /// Scroll the node to its full scroll height.
    Bottom,
    /// Scroll the page to this vertical pixel offset (the browser clamps a
    /// negative one to the top).
    Offset(i32),
}

pub open spec fn scroll_move_of(v: Seq<char>) -> Option<ScrollMove> {
    if v == "top"@ {
        Some(ScrollMove::Top)
    } else if v == "bottom"@ {
        Some(ScrollMove::Bottom)
    } else {
        match signed_number_of(v) {
            Some(n) => Some(ScrollMove::Offset(n)),
            None => None,
        }
    }
}

/// The alignment of a "scroll into view".
#[derive(PartialEq, Eq, Structural, Clone, Copy, Debug)]
pub enum ShowAlign {
    Start,
    End,
    Nearest,
}

pub open spec fn show_align_of(v: Seq<char>) -> ShowAlign {
    if v == "top"@ {
        ShowAlign::Start
    } else if v == "bottom"@ {
        ShowAlign::End
    } else {
        ShowAlign::Nearest
    }
}

/// A positioning step after a swap: the selector of the node it applies to
/// (`None`: the first swapped node) and what it does.
#[derive(Clone, Debug)]
pub struct Positioning<M> {
    pub target: Option<String>,
    pub action: M,
}

/// The replacement rules of the swap styles, stated over the target's
/// surroundings: the sibling content before it, the target's own children
/// (`None` once it has left the page) and the sibling content after it.
#[derive(Clone, Debug)]
pub struct SwapSite {
    pub before: Vec<String>,
    pub children: Option<Vec<String>>,
    pub after: Vec<String>,
}

pub struct SiteView {
    pub before: Seq<Seq<char>>,
    pub children: Option<Seq<Seq<char>>>,
    pub after: Seq<Seq<char>>,
}

impl View for SwapSite {
    type V = SiteView;

    open spec fn view(&self) -> SiteView {
        SiteView {
            before: views(self.before@),
            children: match self.children {
                Some(c) => Some(views(c@)),
                None => None,
            },
            after: views(self.after@),
        }
    }
}

/// The site after swapping `markup` in with `style`. A target that has left
/// the page takes no swap.
pub open spec fn swap_model(site: SiteView, style: SwapStyle, markup: Seq<char>) -> SiteView {
    match site.children {
        None => site,
        Some(children) => match style {
            SwapStyle::InnerHtml => SiteView { children: Some(seq![markup]), ..site },
            SwapStyle::OuterHtml => SiteView {
                before: site.before.push(markup),
                children: None,
                ..site
            },
            SwapStyle::BeforeBegin => SiteView { before: site.before.push(markup), ..site },
            SwapStyle::AfterBegin => SiteView { children: Some(seq![markup] + children), ..site },
            SwapStyle::BeforeEnd => SiteView { children: Some(children.push(markup)), ..site },
            SwapStyle::AfterEnd => SiteView { after: seq![markup] + site.after, ..site },
            SwapStyle::Delete => SiteView { children: None, ..site },
            SwapStyle::NoSwap => site,
        },
    }
}

/// Holds no state: the swap grammar and the swap rules.
#[derive(Clone, Copy, Debug)]
pub struct SwapManager;

impl SwapManager {
    pub fn new() -> (r: SwapManager) {
        SwapManager
    }

    /// The swap specification of an element: the override if one is given,
    /// else the element's swap attribute, else `innerHTML`.
    pub fn get_swap_specification(&self, attribute: Option<&str>, swap_override: Option<&str>) -> (r:
        SwapSpec)
        ensures
            r@ == swap_spec_of(
                match swap_override {
                    Some(o) => o@,
                    None => match attribute {
                        Some(a) => a@,
                        None => "innerHTML"@,
                    },
                },
            ),
    {
        let info: &str = match swap_override {
            Some(o) => o,
            None => match attribute {
                Some(a) => a,
                None => "innerHTML",
            },
        };
        let ws = split_words(info);
        let ghost wv = views(ws@);
        let mut spec = SwapSpec {
            swap_style: SwapStyle::InnerHtml,
            swap_delay: 0,
            settle_delay: 20,
            transition: false,
            ignore_title: false,
            scroll: None,
            scroll_target: None,
            show: None,
            show_target: None,
            focus_scroll: None,
        };
        if ws.len() == 0 {
            return spec;
        }
        spec.swap_style = parse_swap_style(ws[0].as_str());
        let n = ws.len();
        let mut i: usize = 1;
        assert(wv.drop_first() == wv.subrange(1, n as int));
        while i < n
            invariant
                n == ws@.len(),
                wv == views(ws@),
                1 <= i <= n,
                swap_spec_of(info@) == apply_swap_tokens(spec@, wv.subrange(i as int, n as int)),
            decreases n - i,
        {
            let ghost rest = wv.subrange(i as int, n as int);
            assert(rest[0] == ws@[i as int]@);
            assert(rest.drop_first() == wv.subrange(i + 1, n as int));
            apply_swap_modifier(&mut spec, ws[i].as_str());
            i = i + 1;
        }
        assert(wv.subrange(n as int, n as int) == Seq::<Seq<char>>::empty());
        spec
    }

    /// The placement of an out-of-band fragment, from its marker value and
    /// its identifier.
    pub fn oob_swap(&self, marker: &str, node_id: &str) -> (r: OobSwap)
        ensures
            (r.style, r.selector@) == oob_of(marker@, node_id@),
    {
        if same_text(marker, "true") {
            return OobSwap { style: SwapStyle::OuterHtml, selector: selector_for_id(node_id) };
        }
        let n = marker.unicode_len();
        match find_first(marker, ':') {
            Some(k) => OobSwap {
                style: parse_swap_style(marker.substring_char(0, k)),
                selector: marker.substring_char(k + 1, n).to_owned(),
            },
            None => OobSwap { style: parse_swap_style(marker), selector: selector_for_id(node_id) },
        }
    }

    /// The scroll step of a specification, if it declares one whose value
    /// reads (`top`, `bottom` or a pixel offset).
    pub fn scroll_positioning(&self, spec: &SwapSpec) -> (r: Option<Positioning<ScrollMove>>)
        ensures
            match r {
                Some(p) => spec@.scroll is Some && scroll_move_of(spec@.scroll->0) == Some(p.action)
                    && opt_view(p.target) == spec@.scroll_target,
                None => spec@.scroll is None || scroll_move_of(spec@.scroll->0) is None,
            },
    {
        match &spec.scroll {
            None => None,
            Some(v) => {
                let mv = if same_text(v.as_str(), "top") {
                    Some(ScrollMove::Top)
                } else if same_text(v.as_str(), "bottom") {
                    Some(ScrollMove::Bottom)
                } else {
                    match parse_signed(v.as_str()) {
                        Some(n) => Some(ScrollMove::Offset(n)),
                        None => None,
                    }
                };
                match mv {
                    Some(m) => Some(Positioning { target: spec.scroll_target.clone(), action: m }),
                    None => None,
                }
            },
        }
    }

    /// The "scroll into view" step of a specification, if it declares one.
    pub fn show_positioning(&self, spec: &SwapSpec) -> (r: Option<Positioning<ShowAlign>>)
        ensures
            match r {
                Some(p) => spec@.show is Some && p.action == show_align_of(spec@.show->0)
                    && opt_view(p.target) == spec@.show_target,
                None => spec@.show is None,
            },
    {
        match &spec.show {
            None => None,
            Some(v) => {
                let a = if same_text(v.as_str(), "top") {
                    ShowAlign::Start
                } else if same_text(v.as_str(), "bottom") {
                    ShowAlign::End
                } else {
                    ShowAlign::Nearest
                };
                Some(Positioning { target: spec.show_target.clone(), action: a })
            },
        }
    }

    /// Swaps `content` into `site` with the named style (`innerHTML` when no
    /// style is given or the name is unknown).
    pub fn swap_content(&self, site: &mut SwapSite, content: &str, swap_style: Option<&str>)
        ensures
            final(site)@ == swap_model(
                old(site)@,
                match swap_style {
                    Some(s) => style_of(s@),
                    None => SwapStyle::InnerHtml,
                },
                content@,
            ),
    {
        let style = match swap_style {
            Some(s) => parse_swap_style(s),
            None => SwapStyle::InnerHtml,
        };
        let ghost s0 = site@;
        let m = content.to_owned();
        if site.children.is_none() {
            return;
        }
        let mut children = site.children.take().unwrap();
        assert(views(children@) == s0.children->0);
        match style {
            SwapStyle::InnerHtml => {
                let v = vec![m];
                assert(views(v@) =~= seq![content@]);
                site.children = Some(v);
            },
            SwapStyle::OuterHtml => {
                site.before.push(m);
                assert(views(site.before@) =~= s0.before.push(content@));
            },
            SwapStyle::BeforeBegin => {
                site.before.push(m);
                site.children = Some(children);
                assert(views(site.before@) =~= s0.before.push(content@));
            },
            SwapStyle::AfterBegin => {
                children.insert(0, m);
                assert(views(children@) =~= seq![content@] + s0.children->0);
                site.children = Some(children);
            },
            SwapStyle::BeforeEnd => {
                children.push(m);
                assert(views(children@) =~= s0.children->0.push(content@));
                site.children = Some(children);
            },
            SwapStyle::AfterEnd => {
                site.after.insert(0, m);
                assert(views(site.after@) =~= seq![content@] + s0.after);
                site.children = Some(children);
            },
            SwapStyle::Delete => {},
            SwapStyle::NoSwap => {
                site.children = Some(children);
            },
        }
    }
}

impl SwapSpec {
    /// The name of the swap style.
    pub fn swap_style(&self) -> (r: String)
        ensures
            r@ == style_name(self.swap_style),
    {
        swap_style_name(self.swap_style)
    }

    pub fn swap_delay(&self) -> (r: u32)
        ensures
            r == self.swap_delay,
    {
        self.swap_delay
    }

    pub fn settle_delay(&self) -> (r: u32)
        ensures
            r == self.settle_delay,
    {
        self.settle_delay
    }
}

/// Swapping the same markup with `innerHTML` twice in a row leaves the page
/// as the first swap left it: nothing accumulates.
pub proof fn lemma_inner_html_idempotent(site: SiteView, markup: Seq<char>)
    ensures
        swap_model(swap_model(site, SwapStyle::InnerHtml, markup), SwapStyle::InnerHtml, markup)
            == swap_model(site, SwapStyle::InnerHtml, markup),
{
}

/// An out-of-band fragment marked `true` is placed with `outerHTML` at
/// `#<its identifier>`: the live node there is replaced by the fragment's
/// markup, with the content around it untouched.
pub proof fn lemma_oob_true_replaces(node_id: Seq<char>, fragment: Seq<char>, live: SiteView)
    requires
        live.children is Some,
    ensures
        oob_of("true"@, node_id) == (SwapStyle::OuterHtml, id_selector(node_id)),
        swap_model(live, oob_of("true"@, node_id).0, fragment) == (SiteView {
            before: live.before.push(fragment),
            children: None,
            after: live.after,
        }),
{
}

/// A page seen as the swap sites of its nodes, keyed by the selector that
/// finds each; the keyed nodes are distinct and none lies inside another.
/// A swap at a key that finds nothing changes nothing.
pub open spec fn swap_at(
    page: Map<Seq<char>, SiteView>,
    key: Seq<char>,
    style: SwapStyle,
    markup: Seq<char>,
) -> Map<Seq<char>, SiteView> {
    if page.contains_key(key) {
        page.insert(key, swap_model(page[key], style, markup))
    } else {
        page
    }
}

/// An out-of-band swap and the primary swap are independent: done in either
/// order they give the same page, the primary target holds what the primary
/// swap alone gives, and `#<id>` holds the fragment in place of the live node.
pub proof fn lemma_oob_independent_of_primary(
    page: Map<Seq<char>, SiteView>,
    node_id: Seq<char>,
    fragment: Seq<char>,
    primary: Seq<char>,
    style: SwapStyle,
    content: Seq<char>,
)
    requires
        primary != id_selector(node_id),
        page.contains_key(primary),
        page.contains_key(id_selector(node_id)),
    ensures
        ({
            let (oob_style, sel) = oob_of("true"@, node_id);
            let a = swap_at(swap_at(page, primary, style, content), sel, oob_style, fragment);
            let b = swap_at(swap_at(page, sel, oob_style, fragment), primary, style, content);
            &&& a == b
            &&& a[primary] == swap_model(page[primary], style, content)
            &&& a[sel] == swap_model(page[sel], SwapStyle::OuterHtml, fragment)
        }),
{
    let (oob_style, sel) = oob_of("true"@, node_id);
    let a = swap_at(swap_at(page, primary, style, content), sel, oob_style, fragment);
    let b = swap_at(swap_at(page, sel, oob_style, fragment), primary, style, content);
    assert(a =~= b);
}

} // verus!
