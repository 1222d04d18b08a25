//! The request pipeline's rules: request headers, which form fields travel
//! and how they are encoded, where they go (query or body), and what the
//! response headers ask of the page.
use vstd::prelude::*;
use vstd::string::*;
use vstd::utf8::encode_utf8;
use crate::text::{
    find_char, find_first, pieces, rest_after, same_text, split_on, starts_with, trim, trimmed,
    views,
};

verus! {

/// A form field: its name and its value.
pub type Field = (String, String);

pub open spec fn field_views(v: Seq<Field>) -> Seq<(Seq<char>, Seq<char>)> {
    v.map_values(|f: Field| (f.0@, f.1@))
}

/// The request headers for a triggering element: request marker and current
/// location always; the element's identifier when non-empty; its `name`
/// attribute when present; the target's identifier when non-empty.
pub open spec fn headers_of(
    url: Seq<char>,
    trigger_id: Seq<char>,
    trigger_name: Option<Seq<char>>,
    target_id: Seq<char>,
) -> Seq<(Seq<char>, Seq<char>)> {
    let h0 = seq![("HX-Request"@, "true"@), ("HX-Current-URL"@, url)];
    let h1 = if trigger_id.len() > 0 {
        h0.push(("HX-Trigger"@, trigger_id))
    } else {
        h0
    };
    let h2 = match trigger_name {
        Some(n) => h1.push(("HX-Trigger-Name"@, n)),
        None => h1,
    };
    if target_id.len() > 0 {
        h2.push(("HX-Target"@, target_id))
    } else {
        h2
    }
}

/// Which form fields a request carries (`hx-params`).
#[derive(Clone, Debug)]
pub enum ParamsFilter {
    /// Every field (`*`, or no attribute).
    All,
    /// No field (`none`).
    Nothing,
    /// Every field but the named ones (`not a,b`).
    Except(Vec<String>),
    /// Exactly the named fields (`a,b`).
    Only(Vec<String>),
}

pub enum FilterView {
    All,
    Nothing,
    Except(Seq<Seq<char>>),
    Only(Seq<Seq<char>>),
}

impl View for ParamsFilter {
    type V = FilterView;

    open spec fn view(&self) -> FilterView {
        match self {
            ParamsFilter::All => FilterView::All,
            ParamsFilter::Nothing => FilterView::Nothing,
            ParamsFilter::Except(v) => FilterView::Except(views(v@)),
            ParamsFilter::Only(v) => FilterView::Only(views(v@)),
        }
    }
}

/// The names of a comma-separated list, each without surrounding whitespace.
pub open spec fn name_list(s: Seq<char>) -> Seq<Seq<char>> {
    trim_all(pieces(s, ','))
}

pub open spec fn trim_all(s: Seq<Seq<char>>) -> Seq<Seq<char>> {
    s.map_values(|p: Seq<char>| trim(p))
}

/// The filter that an `hx-params` value declares.
pub open spec fn filter_of(value: Option<Seq<char>>) -> FilterView {
    match value {
        None => FilterView::All,
        Some(v) => if v == "none"@ {
            FilterView::Nothing
        } else if v == "*"@ {
            FilterView::All
        } else if v.len() >= 4 && v.subrange(0, 4) == "not "@ {
            FilterView::Except(name_list(v.subrange(4, v.len() as int)))
        } else {
            FilterView::Only(name_list(v))
        },
    }
}

pub open spec fn allows(f: FilterView, name: Seq<char>) -> bool {
    match f {
        FilterView::All => true,
        FilterView::Nothing => false,
        FilterView::Except(ns) => !ns.contains(name),
        FilterView::Only(ns) => ns.contains(name),
    }
}

/// The fields that the filter lets through, in their order.
pub open spec fn kept(fields: Seq<(Seq<char>, Seq<char>)>, f: FilterView) -> Seq<
    (Seq<char>, Seq<char>),
>
    decreases fields.len(),
{
    if fields.len() == 0 {
        fields
    } else if allows(f, fields.last().0) {
        kept(fields.drop_last(), f).push(fields.last())
    } else {
        kept(fields.drop_last(), f)
    }
}

/// Bytes that percent-encoding leaves as they are: ASCII letters, digits
/// and `- _ . ! ~ * ' ( )`.
pub open spec fn is_unreserved(b: u8) -> bool {
    (65 <= b <= 90) || (97 <= b <= 122) || (48 <= b <= 57) || b == 45 || b == 95 || b == 46 || b
        == 33 || b == 126 || b == 42 || b == 39 || b == 40 || b == 41
}

/// The upper-case hexadecimal digit of `n < 16`, as an ASCII byte.
pub open spec fn hex_digit(n: u8) -> u8 {
    if n < 10 {
        (48 + n) as u8
    } else {
        (55 + n) as u8
    }
}

pub open spec fn encode_byte(b: u8) -> Seq<u8> {
    if is_unreserved(b) {
        seq![b]
    } else {
        seq![37u8, hex_digit(b / 16), hex_digit(b % 16)]
    }
}

/// Percent-encoding of a byte string.
pub open spec fn percent_encode(s: Seq<u8>) -> Seq<u8>
    decreases s.len(),
{
    if s.len() == 0 {
        Seq::empty()
    } else {
        percent_encode(s.drop_last()) + encode_byte(s.last())
    }
}

/// `name=value` with both parts percent-encoded as UTF-8.
pub open spec fn encode_pair(f: (Seq<char>, Seq<char>)) -> Seq<u8> {
    percent_encode(encode_utf8(f.0)) + seq![61u8] + percent_encode(encode_utf8(f.1))
}

/// The encoded pairs joined by `&`.
pub open spec fn url_encoded(fields: Seq<(Seq<char>, Seq<char>)>) -> Seq<u8>
    decreases fields.len(),
{
    if fields.len() == 0 {
        Seq::empty()
    } else if fields.len() == 1 {
        encode_pair(fields[0])
    } else {
        url_encoded(fields.drop_last()) + seq![38u8] + encode_pair(fields.last())
    }
}

/// A path with encoded parameters appended as its query: after `?`, or after
/// `&` where the path has a query already. No parameters, no change.
pub open spec fn url_with_query(path: Seq<char>, encoded: Seq<u8>) -> Seq<u8> {
    if encoded.len() == 0 {
        encode_utf8(path)
    } else if find_char(path, '?') is Some {
        encode_utf8(path) + seq![38u8] + encoded
    } else {
        encode_utf8(path) + seq![63u8] + encoded
    }
}

/// A request body.
#[derive(Clone, Debug)]
pub enum Body {
    /// Multipart form data with these fields.
    Multipart(Vec<Field>),
    /// `application/x-www-form-urlencoded` bytes.
    UrlEncoded(Vec<u8>),
}

/// How a request is sent: its method, the bytes of its URL, and its body.
#[derive(Clone, Debug)]
pub struct RequestPlan {
    pub method: String,
    pub url: Vec<u8>,
    pub body: Option<Body>,
}

/// Whether `r` sends a request with method `method` to `path`: GET carries
/// the fields in its URL and has no body; any other method carries them in
/// its body, multipart or URL-encoded. With no fields (the element is in no
/// form) only the path is sent.
pub open spec fn plans(
    r: RequestPlan,
    method: Seq<char>,
    path: Seq<char>,
    fields: Option<Seq<(Seq<char>, Seq<char>)>>,
    multipart: bool,
) -> bool {
    &&& r.method@ == method
    &&& method == "GET"@ ==> r.body is None && r.url@ == url_with_query(
        path,
        match fields {
            Some(f) => url_encoded(f),
            None => Seq::empty(),
        },
    )
    &&& method != "GET"@ ==> r.url@ == encode_utf8(path) && match fields {
        None => r.body is None,
        Some(f) => match r.body {
            Some(Body::Multipart(g)) => multipart && field_views(g@) == f,
            Some(Body::UrlEncoded(b)) => !multipart && b@ == url_encoded(f),
            None => false,
        },
    }
}

/// Whether the body is a multipart form: `hx-encoding` says so, or the
/// element is a form whose `enctype` says so.
pub open spec fn multipart_of(
    hx_encoding: Option<Seq<char>>,
    tag_name: Seq<char>,
    enctype: Option<Seq<char>>,
) -> bool {
    hx_encoding == Some("multipart/form-data"@) || (tag_name == "FORM"@ && enctype == Some(
        "multipart/form-data"@,
    ))
}

/// What a response's custom-trigger header asks to dispatch.
#[derive(Clone, Debug)]
pub enum TriggerEvents {
    /// A JSON object: each key is an event, its value the event's detail.
    Json(String),
    /// Plain event names.
    Names(Vec<String>),
}

/// The page-level effects of a response's headers.
#[derive(Clone, Debug)]
pub struct ResponseEffects {
    pub events: Option<TriggerEvents>,
    pub redirect: Option<String>,
    pub reload: bool,
}

/// The non-empty trimmed names of a comma-separated list, in order.
pub open spec fn event_names(pieces: Seq<Seq<char>>) -> Seq<Seq<char>>
    decreases pieces.len(),
{
    if pieces.len() == 0 {
        Seq::empty()
    } else {
        let rest = event_names(pieces.drop_last());
        let n = trim(pieces.last());
        if n.len() > 0 {
            rest.push(n)
        } else {
            rest
        }
    }
}

pub open spec fn is_json_header(h: Seq<char>) -> bool {
    h.len() > 0 && h[0] == '{'
}

/// The case-folded (upper-case) form of a text.
pub uninterp spec fn upper_of(s: Seq<char>) -> Seq<char>;

/// Whether every character of `s` is ASCII.
pub open spec fn is_ascii_text(s: Seq<char>) -> bool {
    forall|i: int| 0 <= i < s.len() ==> (#[trigger] s[i] as u32) < 128
}

/// An ASCII letter `a` to `z` in upper case; any other character as it is.
pub open spec fn ascii_upper(c: char) -> char {
    if 'a' <= c && c <= 'z' {
        ((c as u32) - 32) as char
    } else {
        c
    }
}

/// Relies on `str::to_uppercase`: the result depends on the characters alone.
#[verifier::external_body]
fn uppercase(s: &str) -> (r: String)
    ensures
        r@ == upper_of(s@),
        is_ascii_text(s@) ==> r@ == s@.map_values(|c: char| ascii_upper(c)),
{
    s.to_uppercase()
}

fn push_pair(out: &mut Vec<(String, String)>, name: &str, value: &str)
    ensures
        field_views(final(out)@) == field_views(old(out)@).push((name@, value@)),
{
    out.push((name.to_owned(), value.to_owned()));
    assert(field_views(out@) =~= field_views(old(out)@).push((name@, value@)));
}

fn hex_byte(n: u8) -> (r: u8)
    requires
        n < 16,
    ensures
        r == hex_digit(n),
{
    if n < 10 {
        48 + n
    } else {
        55 + n
    }
}

fn unreserved(b: u8) -> (r: bool)
    ensures
        r == is_unreserved(b),
{
    (65 <= b && b <= 90) || (97 <= b && b <= 122) || (48 <= b && b <= 57) || b == 45 || b == 95
        || b == 46 || b == 33 || b == 126 || b == 42 || b == 39 || b == 40 || b == 41
}

/// Appends the percent-encoding of the UTF-8 bytes of `s`.
fn encode_into(out: &mut Vec<u8>, s: &str)
    ensures
        final(out)@ == old(out)@ + percent_encode(encode_utf8(s@)),
{
    let bytes = s.as_bytes();
    let ghost b = encode_utf8(s@);
    let n = bytes.len();
    let mut i: usize = 0;
    assert(b.subrange(0, 0) == Seq::<u8>::empty());
    assert(old(out)@ + percent_encode(b.subrange(0, 0)) == old(out)@);
    while i < n
        invariant
            bytes@ == b,
            n == b.len(),
            i <= n,
            out@ == old(out)@ + percent_encode(b.subrange(0, i as int)),
        decreases n - i,
    {
        let c = bytes[i];
        let ghost prev = b.subrange(0, i as int);
        let ghost next = b.subrange(0, i + 1);
        assert(next.drop_last() == prev);
        assert(next.last() == c);
        let ghost before = out@;
        if unreserved(c) {
            out.push(c);
        } else {
            out.push(37u8);
            out.push(hex_byte(c / 16));
            out.push(hex_byte(c % 16));
        }
        assert(out@ == before + encode_byte(c));
        assert(out@ == old(out)@ + percent_encode(next)) by {
            assert(percent_encode(next) == percent_encode(prev) + encode_byte(c));
            assert(before == old(out)@ + percent_encode(prev));
            assert((old(out)@ + percent_encode(prev)) + encode_byte(c) == old(out)@ + (
            percent_encode(prev) + encode_byte(c)));
        }
        i = i + 1;
    }
    assert(b.subrange(0, n as int) == b);
}

fn names_contain(names: &Vec<String>, name: &str) -> (r: bool)
    ensures
        r == views(names@).contains(name@),
{
    let mut i: usize = 0;
    while i < names.len()
        invariant
            i <= names@.len(),
            forall|j: int| 0 <= j < i ==> names@[j]@ != name@,
        decreases names@.len() - i,
    {
        if same_text(names[i].as_str(), name) {
            assert(views(names@)[i as int] == name@);
            return true;
        }
        i = i + 1;
    }
    assert(!views(names@).contains(name@)) by {
        if views(names@).contains(name@) {
            let j = choose|j: int| 0 <= j < views(names@).len() && views(names@)[j] == name@;
            assert(names@[j]@ == name@);
        }
    }
    false
}

fn name_list_of(s: &str) -> (r: Vec<String>)
    ensures
        views(r@) == name_list(s@),
{
    let ps = split_on(s, ',');
    let ghost pv = views(ps@);
    let mut out: Vec<String> = Vec::new();
    let mut i: usize = 0;
    while i < ps.len()
        invariant
            pv == views(ps@),
            i <= ps@.len(),
            views(out@) == trim_all(pv.subrange(0, i as int)),
        decreases ps@.len() - i,
    {
        let t = trimmed(ps[i].as_str());
        let ghost before = views(out@);
        out.push(t);
        assert(views(out@) =~= before.push(t@));
        assert(trim_all(pv.subrange(0, i + 1)) =~= trim_all(pv.subrange(0, i as int)).push(
            trim(pv[i as int]),
        ));
        i = i + 1;
    }
    assert(pv.subrange(0, ps@.len() as int) == pv);
    out
}

/// Holds no state: the rules of the request pipeline.
#[derive(Clone, Copy, Debug)]
pub struct AjaxManager;

impl AjaxManager {
    pub fn new() -> (r: AjaxManager) {
        AjaxManager
    }

    /// The request headers, from the page's location, the triggering
    /// element's identifier and `name` attribute, and the target's identifier.
    pub fn get_headers(
        &self,
        current_url: &str,
        trigger_id: &str,
        trigger_name: Option<&str>,
        target_id: &str,
    ) -> (r: Vec<(String, String)>)
        ensures
            field_views(r@) == headers_of(
                current_url@,
                trigger_id@,
                match trigger_name {
                    Some(n) => Some(n@),
                    None => None,
                },
                target_id@,
            ),
    {
        let mut h: Vec<(String, String)> = Vec::new();
        push_pair(&mut h, "HX-Request", "true");
        push_pair(&mut h, "HX-Current-URL", current_url);
        if trigger_id.unicode_len() > 0 {
            push_pair(&mut h, "HX-Trigger", trigger_id);
        }
        match trigger_name {
            Some(n) => push_pair(&mut h, "HX-Trigger-Name", n),
            None => {},
        }
        if target_id.unicode_len() > 0 {
            push_pair(&mut h, "HX-Target", target_id);
        }
        h
    }

    /// Reads an `hx-params` value (`None`: the attribute is absent).
    pub fn params_filter(&self, value: Option<&str>) -> (r: ParamsFilter)
        ensures
            r@ == filter_of(
                match value {
                    Some(v) => Some(v@),
                    None => None,
                },
            ),
    {
        match value {
            None => ParamsFilter::All,
            Some(v) => {
                if same_text(v, "none") {
                    ParamsFilter::Nothing
                } else if same_text(v, "*") {
                    ParamsFilter::All
                } else if starts_with(v, "not ") {
                    proof {
                        reveal_strlit("not ");
                    }
                    ParamsFilter::Except(name_list_of(rest_after(v, "not ")))
                } else {
                    proof {
                        reveal_strlit("not ");
                    }
                    ParamsFilter::Only(name_list_of(v))
                }
            },
        }
    }

    /// The fields that `filter` lets through, in their order.
    pub fn filter_values(&self, fields: &Vec<Field>, filter: &ParamsFilter) -> (r: Vec<Field>)
        ensures
            field_views(r@) == kept(field_views(fields@), filter@),
    {
        let ghost fv = field_views(fields@);
        let mut out: Vec<Field> = Vec::new();
        let mut i: usize = 0;
        assert(fv.subrange(0, 0) =~= Seq::<(Seq<char>, Seq<char>)>::empty());
        assert(field_views(out@) =~= kept(fv.subrange(0, 0), filter@));
        while i < fields.len()
            invariant
                fv == field_views(fields@),
                i <= fields@.len(),
                field_views(out@) == kept(fv.subrange(0, i as int), filter@),
            decreases fields@.len() - i,
        {
            let ghost prev = fv.subrange(0, i as int);
            let ghost next = fv.subrange(0, i + 1);
            assert(next.drop_last() == prev);
            assert(next.last() == fv[i as int]);
            let name = fields[i].0.as_str();
            let keep = match filter {
                ParamsFilter::All => true,
                ParamsFilter::Nothing => false,
                ParamsFilter::Except(ns) => !names_contain(ns, name),
                ParamsFilter::Only(ns) => names_contain(ns, name),
            };
            if keep {
                let f = (fields[i].0.clone(), fields[i].1.clone());
                out.push(f);
                assert(field_views(out@) =~= field_views(out@.drop_last()).push(fv[i as int]));
            }
            i = i + 1;
        }
        assert(fv.subrange(0, fields@.len() as int) == fv);
        out
    }

    /// Whether the body is sent as a multipart form.
    pub fn uses_form_data(&self, hx_encoding: Option<&str>, tag_name: &str, enctype: Option<
        &str,
    >) -> (r: bool)
        ensures
            r == multipart_of(
                match hx_encoding {
                    Some(v) => Some(v@),
                    None => None,
                },
                tag_name@,
                match enctype {
                    Some(v) => Some(v@),
                    None => None,
                },
            ),
    {
        let by_attr = match hx_encoding {
            Some(v) => same_text(v, "multipart/form-data"),
            None => false,
        };
        let by_form = same_text(tag_name, "FORM") && match enctype {
            Some(v) => same_text(v, "multipart/form-data"),
            None => false,
        };
        by_attr || by_form
    }

    /// `name=value` pairs, percent-encoded as UTF-8 and joined by `&`.
    pub fn url_encode(&self, fields: &Vec<Field>) -> (r: Vec<u8>)
        ensures
            r@ == url_encoded(field_views(fields@)),
    {
        let ghost fv = field_views(fields@);
        let mut out: Vec<u8> = Vec::new();
        let mut i: usize = 0;
        assert(fv.subrange(0, 0) =~= Seq::<(Seq<char>, Seq<char>)>::empty());
        while i < fields.len()
            invariant
                fv == field_views(fields@),
                i <= fields@.len(),
                out@ == url_encoded(fv.subrange(0, i as int)),
            decreases fields@.len() - i,
        {
            let ghost prev = fv.subrange(0, i as int);
            let ghost next = fv.subrange(0, i + 1);
            assert(next.drop_last() == prev);
            assert(next.last() == fv[i as int]);
            let ghost before = out@;
            if i > 0 {
                out.push(38u8);
            }
            encode_into(&mut out, fields[i].0.as_str());
            out.push(61u8);
            encode_into(&mut out, fields[i].1.as_str());
            if i == 0 {
                assert(next[0] == fv[0]);
                assert(out@ =~= encode_pair(fv[0]));
            } else {
                assert(out@ =~= before + seq![38u8] + encode_pair(fv[i as int]));
            }
            i = i + 1;
        }
        assert(fv.subrange(0, fields@.len() as int) == fv);
        out
    }

    /// The body of a non-GET request: the fields as multipart form data, or
    /// URL-encoded.
    pub fn encode_params_for_body(&self, fields: &Vec<Field>, multipart: bool) -> (r: Body)
        ensures
            match r {
                Body::Multipart(f) => multipart && field_views(f@) == field_views(fields@),
                Body::UrlEncoded(b) => !multipart && b@ == url_encoded(field_views(fields@)),
            },
    {
        if multipart {
            let mut copy: Vec<Field> = Vec::new();
            let mut i: usize = 0;
            while i < fields.len()
                invariant
                    i <= fields@.len(),
                    field_views(copy@) == field_views(fields@).subrange(0, i as int),
                decreases fields@.len() - i,
            {
                let ghost before = field_views(copy@);
                let f = (fields[i].0.clone(), fields[i].1.clone());
                copy.push(f);
                assert(field_views(copy@) =~= before.push(field_views(fields@)[i as int]));
                assert(field_views(fields@).subrange(0, i + 1) =~= field_views(fields@).subrange(
                    0,
                    i as int,
                ).push(field_views(fields@)[i as int]));
                i = i + 1;
            }
            assert(field_views(fields@).subrange(0, fields@.len() as int) == field_views(fields@));
            Body::Multipart(copy)
        } else {
            Body::UrlEncoded(self.url_encode(fields))
        }
    }

    /// The URL of a GET request: the path with the encoded fields as query.
    pub fn url_with_params(&self, path: &str, fields: &Vec<Field>) -> (r: Vec<u8>)
        ensures
            r@ == url_with_query(path@, url_encoded(field_views(fields@))),
    {
        let encoded = self.url_encode(fields);
        let bytes = path.as_bytes();
        let mut out: Vec<u8> = Vec::new();
        let mut i: usize = 0;
        while i < bytes.len()
            invariant
                bytes@ == encode_utf8(path@),
                i <= bytes@.len(),
                out@ == bytes@.subrange(0, i as int),
            decreases bytes@.len() - i,
        {
            out.push(bytes[i]);
            assert(out@ =~= bytes@.subrange(0, i + 1));
            i = i + 1;
        }
        assert(bytes@.subrange(0, bytes@.len() as int) == bytes@);
        if encoded.len() == 0 {
            return out;
        }
        match find_first(path, '?') {
            Some(_) => out.push(38u8),
            None => out.push(63u8),
        }
        let ghost head = out@;
        let mut k: usize = 0;
        while k < encoded.len()
            invariant
                k <= encoded@.len(),
                out@ == head + encoded@.subrange(0, k as int),
            decreases encoded@.len() - k,
        {
            out.push(encoded[k]);
            assert(out@ =~= head + encoded@.subrange(0, k + 1));
            k = k + 1;
        }
        assert(encoded@.subrange(0, encoded@.len() as int) == encoded@);
        out
    }

    /// How a request is sent, once its method is known in upper case: GET
    /// carries the fields in its URL and has no body; any other method
    /// carries them in its body. `fields` is `None` when the element is in no
    /// form, and then nothing is sent besides the path.
    pub fn plan_for_method(
        &self,
        method: String,
        path: &str,
        fields: Option<&Vec<Field>>,
        multipart: bool,
    ) -> (r: RequestPlan)
        ensures
            plans(
                r,
                method@,
                path@,
                match fields {
                    Some(f) => Some(field_views(f@)),
                    None => None,
                },
                multipart,
            ),
    {
        let empty: Vec<Field> = Vec::new();
        assert(url_encoded(field_views(empty@)) == Seq::<u8>::empty());
        let is_get = same_text(method.as_str(), "GET");
        if is_get {
            let url = match fields {
                Some(f) => self.url_with_params(path, f),
                None => self.url_with_params(path, &empty),
            };
            RequestPlan { method, url, body: None }
        } else {
            let url = self.url_with_params(path, &empty);
            assert(url_with_query(path@, Seq::empty()) == encode_utf8(path@));
            let body = match fields {
                Some(f) => Some(self.encode_params_for_body(f, multipart)),
                None => None,
            };
            RequestPlan { method, url, body }
        }
    }

    /// How a request with the verb `verb` is sent: the verb in upper case,
    /// then [`AjaxManager::plan_for_method`].
    pub fn issue_request(&self, verb: &str, path: &str, fields: Option<&Vec<Field>>, multipart: bool) -> (r:
        RequestPlan)
        ensures
            is_ascii_text(verb@) ==> upper_of(verb@) == verb@.map_values(|c: char| ascii_upper(c)),
            plans(
                r,
                upper_of(verb@),
                path@,
                match fields {
                    Some(f) => Some(field_views(f@)),
                    None => None,
                },
                multipart,
            ),
    {
        let method = uppercase(verb);
        self.plan_for_method(method, path, fields, multipart)
    }

    /// The events that a custom-trigger header value asks for: a JSON object
    /// (the value starts with `{`), or comma-separated names.
    pub fn trigger_events(&self, header: &str) -> (r: TriggerEvents)
        ensures
            match r {
                TriggerEvents::Json(j) => is_json_header(header@) && j@ == header@,
                TriggerEvents::Names(ns) => !is_json_header(header@) && views(ns@) == event_names(
                    pieces(header@, ','),
                ),
            },
    {
        let json = starts_with(header, "{");
        proof {
            reveal_strlit("{");
            if header@.len() > 0 {
                assert(header@.subrange(0, 1)[0] == header@[0]);
                if header@[0] == '{' {
                    assert(header@.subrange(0, 1) =~= "{"@);
                }
            }
        }
        if json {
            return TriggerEvents::Json(header.to_owned());
        }
        let ps = split_on(header, ',');
        let ghost pv = views(ps@);
        let mut out: Vec<String> = Vec::new();
        let mut i: usize = 0;
        assert(pv.subrange(0, 0) =~= Seq::<Seq<char>>::empty());
        while i < ps.len()
            invariant
                pv == views(ps@),
                i <= ps@.len(),
                views(out@) == event_names(pv.subrange(0, i as int)),
            decreases ps@.len() - i,
        {
            let ghost prev = pv.subrange(0, i as int);
            let ghost next = pv.subrange(0, i + 1);
            assert(next.drop_last() == prev);
            assert(next.last() == pv[i as int]);
            let t = trimmed(ps[i].as_str());
            if t.as_str().unicode_len() > 0 {
                out.push(t);
                assert(views(out@) =~= views(out@.drop_last()).push(t@));
            }
            i = i + 1;
        }
        assert(pv.subrange(0, ps@.len() as int) == pv);
        TriggerEvents::Names(out)
    }

    /// The page-level effects of a response, from its custom-trigger,
    /// redirect and refresh headers. The three are independent.
    pub fn handle_response_headers(
        &self,
        trigger: Option<&str>,
        redirect: Option<&str>,
        refresh: Option<&str>,
    ) -> (r: ResponseEffects)
        ensures
            match trigger {
                Some(t) => match r.events {
                    Some(TriggerEvents::Json(j)) => is_json_header(t@) && j@ == t@,
                    Some(TriggerEvents::Names(ns)) => !is_json_header(t@) && views(ns@)
                        == event_names(pieces(t@, ',')),
                    None => false,
                },
                None => r.events is None,
            },
            match redirect {
                Some(u) => r.redirect is Some && r.redirect->0@ == u@,
                None => r.redirect is None,
            },
            r.reload == match refresh {
                Some(v) => v@ == "true"@,
                None => false,
            },
    {
        let events = match trigger {
            Some(t) => Some(self.trigger_events(t)),
            None => None,
        };
        let redirect = match redirect {
            Some(u) => Some(u.to_owned()),
            None => None,
        };
        let reload = match refresh {
            Some(v) => same_text(v, "true"),
            None => false,
        };
        ResponseEffects { events, redirect, reload }
    }
}

/// With `hx-params="none"` no field travels: a GET goes to its path exactly
/// as written, whatever the form holds.
pub proof fn lemma_params_none_keeps_get_url(fields: Seq<(Seq<char>, Seq<char>)>, path: Seq<char>)
    ensures
        kept(fields, FilterView::Nothing) == Seq::<(Seq<char>, Seq<char>)>::empty(),
        url_with_query(path, url_encoded(kept(fields, FilterView::Nothing))) == encode_utf8(path),
    decreases fields.len(),
{
    if fields.len() > 0 {
        lemma_params_none_keeps_get_url(fields.drop_last(), path);
    }
}

} // verus!
