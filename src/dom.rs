//! Decisions about elements that need no access to the page: attribute
//! names, which node a request targets, which elements are boosted.
use vstd::prelude::*;
use vstd::string::*;
use crate::text::same_text;

verus! {

/// The node that a request's response is swapped into.
#[derive(Clone, Debug)]
pub enum TargetChoice {
    /// The element that issued the request.
    Element,
    /// The first node of the page that matches this selector; the element
    /// itself when none does.
    Selector(String),
}

/// How a boosted element re-issues its navigation.
#[derive(PartialEq, Eq, Structural, Clone, Copy, Debug)]
pub enum BoostKind {
    /// A link: a GET of its `href` on click.
    Anchor,
    /// A form: a request with its method and action on submit.
    Form,
}

pub open spec fn target_choice_of(hx_target: Option<Seq<char>>) -> Option<Seq<char>> {
    match hx_target {
        Some(t) => if t == "this"@ {
            None
        } else {
            Some(t)
        },
        None => None,
    }
}

/// Holds no state: element-level decisions.
#[derive(Clone, Copy, Debug)]
pub struct DomUtils;

impl DomUtils {
    pub fn new() -> (r: DomUtils) {
        DomUtils
    }

    /// The vendor-prefixed form of an attribute name (`data-<name>`), read
    /// when the bare name is absent.
    pub fn prefixed_name(&self, attr_name: &str) -> (r: String)
        ensures
            r@ == "data-"@ + attr_name@,
    {
        let mut n = "data-".to_owned();
        n.append(attr_name);
        n
    }

    /// The target that an `hx-target` value designates: `this` or no value
    /// means the element itself.
    pub fn get_target(&self, hx_target: Option<&str>) -> (r: TargetChoice)
        ensures
            match r {
                TargetChoice::Element => target_choice_of(
                    match hx_target {
                        Some(t) => Some(t@),
                        None => None,
                    },
                ) is None,
                TargetChoice::Selector(s) => target_choice_of(
                    match hx_target {
                        Some(t) => Some(t@),
                        None => None,
                    },
                ) == Some(s@),
            },
    {
        match hx_target {
            None => TargetChoice::Element,
            Some(t) => {
                if same_text(t, "this") {
                    TargetChoice::Element
                } else {
                    TargetChoice::Selector(t.to_owned())
                }
            },
        }
    }

    /// Whether and how an element is boosted: `hx-boost="true"` on a link
    /// (tag `A`) or a form (tag `FORM`).
    pub fn boost_kind(&self, hx_boost: Option<&str>, tag_name: &str) -> (r: Option<BoostKind>)
        ensures
            r == if hx_boost.is_some() && hx_boost->0@ == "true"@ {
                if tag_name@ == "A"@ {
                    Some(BoostKind::Anchor)
                } else if tag_name@ == "FORM"@ {
                    Some(BoostKind::Form)
                } else {
                    None
                }
            } else {
                None
            },
    {
        let boosted = match hx_boost {
            Some(b) => same_text(b, "true"),
            None => false,
        };
        if !boosted {
            None
        } else if same_text(tag_name, "A") {
            Some(BoostKind::Anchor)
        } else if same_text(tag_name, "FORM") {
            Some(BoostKind::Form)
        } else {
            None
        }
    }
}

} // verus!
