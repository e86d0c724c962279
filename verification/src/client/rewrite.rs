//! Pages as the browser gets to see them: links lead through the client, and
//! what would act on its own is gone.

use std::borrow::Cow;
use lol_html::html_content::Element;
use lol_html::{rewrite_str, ElementContentHandlers, RewriteStrSettings};
use vstd::prelude::*;
use vstd::utf8::*;
use crate::text::{
    ascii_lower, begins, join2, occurs_at, opt_view, same, starts_with, to_ascii_lower, trim,
    trim_start, trimmed, trimmed_start,
};

verus! {

/// Why a page was not rewritten.
#[derive(Debug, Clone)]
pub enum RewriteError {
    InvalidUrl(String),
    RewriteFailed(String),
}

impl RewriteError {
    /// The message for the operator.
    pub open spec fn text(self) -> Seq<char> {
        match self {
            RewriteError::InvalidUrl(e) => "Invalid base URL: "@ + e@,
            RewriteError::RewriteFailed(e) => "Rewrite failed: "@ + e@,
        }
    }

    /// The message for the operator.
    pub fn message(&self) -> (r: String)
        ensures
            r@ == self.text(),
    {
        match self {
            RewriteError::InvalidUrl(e) => join2("Invalid base URL: ", e.as_str()),
            RewriteError::RewriteFailed(e) => join2("Rewrite failed: ", e.as_str()),
        }
    }
}

// ---------------------------------------------------------------------------
// Links
// ---------------------------------------------------------------------------

/// What is wrong with a text that is no URL; nothing where it is one.
pub uninterp spec fn url_fault(text: Seq<char>) -> Option<Seq<char>>;

/// `Url::parse` of the `url` crate: the text of its error, where there is one.
#[verifier::external_body]
fn find_fault(text: &str) -> (r: Option<String>)
    ensures
        opt_view(r) == url_fault(text@),
{
    url::Url::parse(text).err().map(|e| e.to_string())
}

/// The URL that a reference means on a page; nothing where it does not join.
pub uninterp spec fn url_joined(base: Seq<char>, reference: Seq<char>) -> Option<Seq<char>>;

/// `Url::join` of the `url` crate, on the URL that `base` is: the URL that
/// `reference` means there, where it joins.
#[verifier::external_body]
fn join_url(base: &str, reference: &str) -> (r: Option<String>)
    ensures
        opt_view(r) == url_joined(base@, reference@),
{
    url::Url::parse(base).ok()?.join(reference).ok().map(|u| u.as_str().to_string())
}

/// A byte that the query of a form holds as it is.
pub open spec fn is_form_safe(b: u8) -> bool {
    ||| 0x30 <= b <= 0x39
    ||| 0x41 <= b <= 0x5a
    ||| 0x61 <= b <= 0x7a
    ||| b == 0x2a
    ||| b == 0x2d
    ||| b == 0x2e
    ||| b == 0x5f
}

/// A digit of a byte, in upper case.
pub open spec fn upper_hex(n: nat) -> char {
    if n < 10 {
        (0x30 + n) as char
    } else {
        (0x37 + n) as char
    }
}

/// A byte in the query of a form.
pub open spec fn form_byte(b: u8) -> Seq<char> {
    if is_form_safe(b) {
        seq![b as char]
    } else if b == 0x20 {
        seq!['+']
    } else {
        seq!['%', upper_hex((b / 16) as nat), upper_hex((b % 16) as nat)]
    }
}

/// Bytes in the query of a form.
pub open spec fn form_bytes(bytes: Seq<u8>) -> Seq<char>
    decreases bytes.len(),
{
    if bytes.len() == 0 {
        Seq::empty()
    } else {
        form_bytes(bytes.drop_last()) + form_byte(bytes.last())
    }
}

/// A name and a value in the query of a form.
pub open spec fn form_pair(name: Seq<char>, value: Seq<char>) -> Seq<char> {
    form_bytes(encode_utf8(name)) + seq!['='] + form_bytes(encode_utf8(value))
}

/// `Serializer::append_pair` of `form_urlencoded`, which the `url` crate
/// exports: letters, digits and `*-._` stay, a space becomes `+`, and every
/// other byte of the UTF-8 text becomes `%` and two digits.
#[verifier::external_body]
pub(crate) fn form_encode(name: &str, value: &str) -> (r: String)
    ensures
        r@ == form_pair(name@, value@),
{
    url::form_urlencoded::Serializer::new(String::new()).append_pair(name, value).finish()
}

/// A reference that leads nowhere a page could come from.
pub open spec fn leads_nowhere(reference: Seq<char>) -> bool {
    ||| reference.len() == 0
    ||| starts_with(reference, "javascript:"@)
    ||| starts_with(reference, "data:"@)
    ||| starts_with(reference, "mailto:"@)
    ||| starts_with(reference, "tel:"@)
}

/// Where a reference on a page leads in the client: nowhere, to a place on the
/// same page, or to the page that is asked for through the client.
pub open spec fn proxy_url(reference: Seq<char>, base: Seq<char>) -> Option<Seq<char>> {
    let r = trim(reference);
    if leads_nowhere(r) {
        None
    } else if starts_with(r, "#"@) {
        Some(r)
    } else {
        match url_joined(base, r) {
            Some(target) => Some("/browse?"@ + form_pair("url"@, target)),
            None => None,
        }
    }
}

/// Where a page that is asked for through the client is found.
pub fn browse_link(target: &str) -> (r: String)
    ensures
        r@ == "/browse?"@ + form_pair("url"@, target@),
{
    join2("/browse?", form_encode("url", target).as_str())
}

/// Where a reference on a page leads in the client.
pub fn build_proxy_url(url: &str, base: &str) -> (r: Option<String>)
    ensures
        opt_view(r) == proxy_url(url@, base@),
{
    let reference = trimmed(url);
    let t = reference.as_str();
    if t.unicode_len() == 0 || begins(t, "javascript:") || begins(t, "data:") || begins(t, "mailto:")
        || begins(t, "tel:") {
        return None;
    }
    if begins(t, "#") {
        return Some(reference);
    }
    match join_url(base, t) {
        Some(target) => Some(browse_link(target.as_str())),
        None => None,
    }
}

// ---------------------------------------------------------------------------
// Elements
// ---------------------------------------------------------------------------

/// What elements are looked at, and why.
#[derive(Debug, Clone, Copy, PartialEq, Eq, Structural)]
pub enum Rule {
    /// Links lead through the client.
    Link,
    /// Forms do so too.
    Form,
    /// Elements that run code, bring in other documents or move the base go.
    Active,
    /// Headers in disguise go.
    Meta,
    /// Attributes that run code go, wherever they are.
    Any,
}

/// The elements that a rule is for.
pub open spec fn selector_of(rule: Rule) -> Seq<char> {
    match rule {
        Rule::Link => "a[href]"@,
        Rule::Form => "form[action]"@,
        Rule::Active =>
            "script, link[rel=stylesheet], iframe, frame, frameset, object, embed, applet, noscript, base"@,
        Rule::Meta => "meta[http-equiv]"@,
        Rule::Any => "*"@,
    }
}

/// The elements that a rule is for.
pub fn selector(rule: Rule) -> (r: &'static str)
    ensures
        r@ == selector_of(rule),
{
    match rule {
        Rule::Link => "a[href]",
        Rule::Form => "form[action]",
        Rule::Active =>
            "script, link[rel=stylesheet], iframe, frame, frameset, object, embed, applet, noscript, base",
        Rule::Meta => "meta[http-equiv]",
        Rule::Any => "*",
    }
}

/// What is done to an element.
#[derive(Debug, Clone)]
pub enum Edit {
    /// Give an attribute this value.
    Put(String, String),
    /// Take an attribute away.
    Drop(String),
    /// Take the element away, with all that is in it.
    Remove,
}

/// What is done to an element, by the texts in it.
pub enum EditView {
    Put(Seq<char>, Seq<char>),
    Drop(Seq<char>),
    Remove,
}

impl View for Edit {
    type V = EditView;

    open spec fn view(&self) -> EditView {
        match self {
            Edit::Put(n, v) => EditView::Put(n@, v@),
            Edit::Drop(n) => EditView::Drop(n@),
            Edit::Remove => EditView::Remove,
        }
    }
}

/// Edits by their views.
pub open spec fn edit_views(v: Seq<Edit>) -> Seq<EditView> {
    v.map_values(|e: Edit| e@)
}

/// Attributes by their views.
pub open spec fn attr_views(v: Seq<(String, String)>) -> Seq<(Seq<char>, Seq<char>)> {
    v.map_values(|a: (String, String)| (a.0@, a.1@))
}

/// The first value of an attribute.
pub open spec fn value_of(attrs: Seq<(Seq<char>, Seq<char>)>, name: Seq<char>) -> Option<Seq<char>>
    decreases attrs.len(),
{
    if attrs.len() == 0 {
        None
    } else if attrs[0].0 == name {
        Some(attrs[0].1)
    } else {
        value_of(attrs.drop_first(), name)
    }
}

/// The first value of an attribute; nothing where there is none.
pub open spec fn value_or_empty(attrs: Seq<(Seq<char>, Seq<char>)>, name: Seq<char>) -> Seq<char> {
    match value_of(attrs, name) {
        Some(v) => v,
        None => Seq::empty(),
    }
}

/// An attribute whose value is a URL that the browser goes to.
pub open spec fn holds_url(name: Seq<char>) -> bool {
    ||| name == "src"@
    ||| name == "href"@
    ||| name == "action"@
    ||| name == "formaction"@
    ||| name == "background"@
    ||| name == "poster"@
}

/// A URL that runs code, whatever the case of its letters.
pub open spec fn runs_code(value: Seq<char>) -> bool {
    starts_with(ascii_lower(trim_start(value)), "javascript:"@)
}

/// An attribute that runs code: a handler of events, or a URL that does.
pub open spec fn is_active(name: Seq<char>, attrs: Seq<(Seq<char>, Seq<char>)>) -> bool {
    starts_with(name, "on"@) || (holds_url(name) && match value_of(attrs, name) {
        Some(v) => runs_code(v),
        None => false,
    })
}

/// The edits that take the active ones of the first `n` attributes away.
pub open spec fn drops(attrs: Seq<(Seq<char>, Seq<char>)>, n: nat) -> Seq<EditView>
    decreases n,
{
    if n == 0 {
        Seq::empty()
    } else {
        let before = drops(attrs, (n - 1) as nat);
        let name = attrs[n - 1].0;
        if is_active(name, attrs) {
            before.push(EditView::Drop(name))
        } else {
            before
        }
    }
}

/// What a rule does to an element with these attributes, on the page `base`.
pub open spec fn edits_of(rule: Rule, attrs: Seq<(Seq<char>, Seq<char>)>, base: Seq<char>) -> Seq<
    EditView,
> {
    match rule {
        Rule::Link => match proxy_url(value_or_empty(attrs, "href"@), base) {
            Some(url) => seq![EditView::Put("href"@, url)],
            None => seq![EditView::Put("href"@, "#"@)],
        },
        Rule::Form => match proxy_url(value_or_empty(attrs, "action"@), base) {
            Some(url) => if value_of(attrs, "method"@) is None {
                seq![EditView::Put("action"@, url), EditView::Put("method"@, "POST"@)]
            } else {
                seq![EditView::Put("action"@, url)]
            },
            None => seq![EditView::Remove],
        },
        Rule::Active => seq![EditView::Remove],
        Rule::Meta => {
            let header = ascii_lower(value_or_empty(attrs, "http-equiv"@));
            if header == "refresh"@ || header == "content-security-policy"@ {
                seq![EditView::Remove]
            } else {
                Seq::empty()
            }
        },
        Rule::Any => drops(attrs, attrs.len()),
    }
}

/// The first value of an attribute.
fn find_value<'a>(attrs: &'a Vec<(String, String)>, name: &str) -> (r: Option<&'a str>)
    ensures
        match r {
            Some(v) => value_of(attr_views(attrs@), name@) == Some(v@),
            None => value_of(attr_views(attrs@), name@) is None,
        },
{
    let ghost all = attr_views(attrs@);
    let mut i: usize = 0;
    assert(all.skip(0) =~= all);
    while i < attrs.len()
        invariant
            i <= attrs@.len(),
            all == attr_views(attrs@),
            value_of(all, name@) == value_of(all.skip(i as int), name@),
        decreases attrs.len() - i,
    {
        assert(all.skip(i as int)[0] == (attrs@[i as int].0@, attrs@[i as int].1@));
        assert(all.skip(i as int).drop_first() =~= all.skip(i + 1));
        if same(attrs[i].0.as_str(), name) {
            return Some(attrs[i].1.as_str());
        }
        i += 1;
    }
    assert(all.skip(i as int) =~= Seq::<(Seq<char>, Seq<char>)>::empty());
    None
}

/// The first value of an attribute; nothing where there is none.
fn find_or_empty<'a>(attrs: &'a Vec<(String, String)>, name: &str) -> (r: &'a str)
    ensures
        r@ == value_or_empty(attr_views(attrs@), name@),
{
    match find_value(attrs, name) {
        Some(v) => v,
        None => {
            proof {
                reveal_strlit("");
            }
            assert(""@ =~= Seq::<char>::empty());
            ""
        },
    }
}

/// Tells whether an attribute runs code.
fn active(name: &str, attrs: &Vec<(String, String)>) -> (r: bool)
    ensures
        r == is_active(name@, attr_views(attrs@)),
{
    if begins(name, "on") {
        return true;
    }
    if same(name, "src") || same(name, "href") || same(name, "action") || same(name, "formaction")
        || same(name, "background") || same(name, "poster") {
        match find_value(attrs, name) {
            Some(v) => begins(to_ascii_lower(trimmed_start(v).as_str()).as_str(), "javascript:"),
            None => false,
        }
    } else {
        false
    }
}

/// Decides what a rule does to an element with these attributes, on the page
/// `base`.
pub fn edits(rule: Rule, attrs: &Vec<(String, String)>, base: &str) -> (r: Vec<Edit>)
    ensures
        edit_views(r@) == edits_of(rule, attr_views(attrs@), base@),
{
    let ghost all = attr_views(attrs@);
    let mut out: Vec<Edit> = Vec::new();
    match rule {
        Rule::Link => {
            match build_proxy_url(find_or_empty(attrs, "href"), base) {
                Some(url) => out.push(Edit::Put("href".to_owned(), url)),
                None => out.push(Edit::Put("href".to_owned(), "#".to_owned())),
            }
            assert(edit_views(out@) =~= edits_of(rule, all, base@));
        },
        Rule::Form => {
            match build_proxy_url(find_or_empty(attrs, "action"), base) {
                Some(url) => {
                    out.push(Edit::Put("action".to_owned(), url));
                    if find_value(attrs, "method").is_none() {
                        out.push(Edit::Put("method".to_owned(), "POST".to_owned()));
                    }
                },
                None => out.push(Edit::Remove),
            }
            assert(edit_views(out@) =~= edits_of(rule, all, base@));
        },
        Rule::Active => {
            out.push(Edit::Remove);
            assert(edit_views(out@) =~= edits_of(rule, all, base@));
        },
        Rule::Meta => {
            let header = find_or_empty(attrs, "http-equiv");
            let lower = to_ascii_lower(header);
            if same(lower.as_str(), "refresh") || same(lower.as_str(), "content-security-policy") {
                out.push(Edit::Remove);
            }
            assert(edit_views(out@) =~= edits_of(rule, all, base@));
        },
        Rule::Any => {
            let mut i: usize = 0;
            assert(edit_views(out@) =~= drops(all, 0));
            while i < attrs.len()
                invariant
                    i <= attrs@.len(),
                    all == attr_views(attrs@),
                    edit_views(out@) == drops(all, i as nat),
                decreases attrs.len() - i,
            {
                assert(all[i as int].0 == attrs@[i as int].0@);
                if active(attrs[i].0.as_str(), attrs) {
                    let ghost before = out@;
                    let e = Edit::Drop(attrs[i].0.clone());
                    out.push(e);
                    assert(edit_views(out@) =~= edit_views(before).push(e@));
                }
                i += 1;
            }
        },
    }
    out
}

/// The rules in the order in which they are applied.
pub open spec fn all_rules() -> Seq<Rule> {
    seq![Rule::Link, Rule::Form, Rule::Active, Rule::Meta, Rule::Any]
}

/// The rules in the order in which they are applied.
pub fn rules() -> (r: Vec<Rule>)
    ensures
        r@ == all_rules(),
{
    let r = vec![Rule::Link, Rule::Form, Rule::Active, Rule::Meta, Rule::Any];
    assert(r@ =~= all_rules());
    r
}

/// The views of selectors, each with the rule for what it picks.
pub open spec fn pair_views(v: Seq<(String, Rule)>) -> Seq<(Seq<char>, Rule)> {
    v.map_values(|p: (String, Rule)| (p.0@, p.1))
}

/// The selectors with their rules, in the order in which they are applied.
pub open spec fn all_handlers() -> Seq<(Seq<char>, Rule)> {
    all_rules().map_values(|x: Rule| (selector_of(x), x))
}

/// The selectors with their rules, in the order in which they are applied.
pub fn handlers() -> (r: Vec<(String, Rule)>)
    ensures
        pair_views(r@) == all_handlers(),
{
    let all = rules();
    let mut out: Vec<(String, Rule)> = Vec::new();
    let mut i: usize = 0;
    assert(pair_views(out@) =~= all_handlers().take(0));
    while i < all.len()
        invariant
            i <= all@.len(),
            all@ == all_rules(),
            pair_views(out@) == all_handlers().take(i as int),
        decreases all.len() - i,
    {
        let ghost before = out@;
        let picks = selector(all[i]).to_owned();
        out.push((picks, all[i]));
        assert(pair_views(out@) =~= pair_views(before).push((picks@, all@[i as int])));
        assert(all_handlers().take(i + 1) =~= all_handlers().take(i as int).push(
            (selector_of(all@[i as int]), all@[i as int]),
        ));
        i += 1;
    }
    assert(all_handlers().take(i as int) =~= all_handlers());
    out
}

// ---------------------------------------------------------------------------
// Pages
// ---------------------------------------------------------------------------

/// A page with every element that a selector picks edited as the rule beside it
/// says, or the text of the error that stopped it.
pub uninterp spec fn page_rewritten(
    html: Seq<char>,
    handlers: Seq<(Seq<char>, Rule)>,
    base: Seq<char>,
) -> Result<Seq<char>, Seq<char>>;

/// A text or an error text, by its view.
pub open spec fn text_or_error(r: Result<String, String>) -> Result<Seq<char>, Seq<char>> {
    match r {
        Ok(s) => Ok(s@),
        Err(e) => Err(e@),
    }
}

/// `rewrite_str` of the `lol_html` crate: each element that a selector picks is
/// edited as `edits` decides for the rule beside it on the attributes that the
/// element then has, one rule after another. The crate parses each selector of a
/// rule. What becomes of the text of the page is left to the crate.
#[verifier::external_body]
fn rewrite_page(html: &str, handlers: Vec<(String, Rule)>, base: &str) -> (r: Result<
    String,
    String,
>)
    requires
        forall|i: int|
            0 <= i < handlers@.len() ==> (#[trigger] handlers@[i]).0@ == selector_of(handlers@[i].1),
    ensures
        text_or_error(r) == page_rewritten(html@, pair_views(handlers@), base@),
{
    rewrite_str(html, RewriteStrSettings { element_content_handlers: handlers.into_iter().map(|(picks, rule)| {
        let handler = move |el: &mut Element| {
            let attrs = el.attributes().iter().map(|a| (a.name(), a.value())).collect();
            for edit in edits(rule, &attrs, base) {
                match edit {
                    Edit::Put(name, value) => el.set_attribute(&name, &value)?,
                    Edit::Drop(name) => el.remove_attribute(&name),
                    Edit::Remove => el.remove(),
                }
            }
            Ok(())
        };
        (Cow::Owned(picks.parse().unwrap()), ElementContentHandlers::default().element(handler))
    }).collect(), ..Default::default() }).map_err(|e| e.to_string())
}

/// Rewrites a page for the client. `base_url` is where the page came from.
pub fn rewrite_html(html: &str, base_url: &str) -> (r: Result<String, RewriteError>)
    ensures
        match url_fault(base_url@) {
            Some(e) => r matches Err(RewriteError::InvalidUrl(m)) && m@ == e,
            None => match page_rewritten(html@, all_handlers(), base_url@) {
                Ok(page) => r matches Ok(s) && s@ == page,
                Err(e) => r matches Err(RewriteError::RewriteFailed(m)) && m@ == e,
            },
        },
{
    match find_fault(base_url) {
        Some(e) => Err(RewriteError::InvalidUrl(e)),
        None => {
            let pairs = handlers();
            assert(pair_views(pairs@).len() == all_handlers().len());
            assert forall|i: int| 0 <= i < pairs@.len() implies (#[trigger] pairs@[i]).0@
                == selector_of(pairs@[i].1) by {
                assert(pair_views(pairs@)[i] == (pairs@[i].0@, pairs@[i].1));
                assert(all_handlers()[i] == (selector_of(all_rules()[i]), all_rules()[i]));
            }
            match rewrite_page(html, pairs, base_url) {
                Ok(page) => Ok(page),
                Err(e) => Err(RewriteError::RewriteFailed(e)),
            }
        },
    }
}

// ---------------------------------------------------------------------------
// Laws
// ---------------------------------------------------------------------------

/// A character that needs no quoting in an attribute.
pub open spec fn is_plain(c: char) -> bool {
    ||| '0' <= c <= '9'
    ||| 'A' <= c <= 'Z'
    ||| 'a' <= c <= 'z'
    ||| c == '*'
    ||| c == '-'
    ||| c == '.'
    ||| c == '_'
    ||| c == '+'
    ||| c == '%'
}

proof fn lemma_form_byte(b: u8)
    ensures
        forall|i: int| 0 <= i < form_byte(b).len() ==> is_plain(#[trigger] form_byte(b)[i]),
{
    let hi = (b / 16) as nat;
    let lo = (b % 16) as nat;
    assert(hi < 16 && lo < 16);
    assert(is_plain(upper_hex(hi)));
    assert(is_plain(upper_hex(lo)));
}

proof fn lemma_form_bytes(bytes: Seq<u8>)
    ensures
        forall|i: int| 0 <= i < form_bytes(bytes).len() ==> is_plain(#[trigger] form_bytes(bytes)[i]),
    decreases bytes.len(),
{
    if bytes.len() > 0 {
        lemma_form_bytes(bytes.drop_last());
        lemma_form_byte(bytes.last());
        let a = form_bytes(bytes.drop_last());
        let b = form_byte(bytes.last());
        assert forall|i: int| 0 <= i < form_bytes(bytes).len() implies is_plain(
            #[trigger] form_bytes(bytes)[i],
        ) by {
            if i < a.len() {
                assert(form_bytes(bytes)[i] == a[i]);
            } else {
                assert(form_bytes(bytes)[i] == b[i - a.len()]);
            }
        }
    }
}

/// Every link of a rewritten page leads nowhere, to a place on the same page, or
/// to the client itself, and in the last case the rest of it is plain.
pub proof fn links_lead_through_the_client(reference: Seq<char>, base: Seq<char>)
    ensures
        match proxy_url(reference, base) {
            None => true,
            Some(url) => starts_with(url, "#"@) || (starts_with(url, "/browse?"@) && forall|i: int|
                8 <= i < url.len() ==> is_plain(#[trigger] url[i]) || url[i] == '='),
        },
{
    if let Some(url) = proxy_url(reference, base) {
        if !starts_with(url, "#"@) {
            reveal_strlit("/browse?");
            let target = url_joined(base, trim(reference))->0;
            let a = form_bytes(encode_utf8("url"@));
            let b = form_bytes(encode_utf8(target));
            lemma_form_bytes(encode_utf8("url"@));
            lemma_form_bytes(encode_utf8(target));
            let pair = form_pair("url"@, target);
            assert(url == "/browse?"@ + pair);
            assert(url.take(8) =~= "/browse?"@);
            assert forall|i: int| 8 <= i < url.len() implies is_plain(#[trigger] url[i]) || url[i]
                == '=' by {
                let k = i - 8;
                assert(url[i] == pair[k]);
                if k < a.len() {
                    assert(pair[k] == a[k]);
                } else if k > a.len() {
                    assert(pair[k] == b[k - a.len() - 1]);
                }
            }
        }
    }
}

/// A link that would run code is never kept: it leads nowhere.
pub proof fn code_links_lead_nowhere(attrs: Seq<(Seq<char>, Seq<char>)>, base: Seq<char>)
    requires
        starts_with(trim(value_or_empty(attrs, "href"@)), "javascript:"@),
    ensures
        edits_of(Rule::Link, attrs, base) == seq![EditView::Put("href"@, "#"@)],
{
}

/// The value of a hexadecimal digit in upper case.
pub open spec fn hex_value(c: char) -> int {
    if c <= '9' {
        c as int - 0x30
    } else {
        c as int - 0x37
    }
}

/// The bytes that the query of a form stands for.
pub open spec fn form_read(s: Seq<char>) -> Seq<u8>
    decreases s.len(),
{
    if s.len() == 0 {
        Seq::empty()
    } else if s[0] == '%' && s.len() >= 3 {
        seq![(hex_value(s[1]) * 16 + hex_value(s[2])) as u8] + form_read(s.skip(3))
    } else if s[0] == '+' {
        seq![0x20u8] + form_read(s.skip(1))
    } else {
        seq![s[0] as u8] + form_read(s.skip(1))
    }
}

proof fn lemma_form_read_byte(b: u8, rest: Seq<char>)
    ensures
        form_read(form_byte(b) + rest) == seq![b] + form_read(rest),
{
    let s = form_byte(b) + rest;
    if is_form_safe(b) || b == 0x20 {
        assert(s.skip(1) =~= rest);
    } else {
        assert(s.skip(3) =~= rest);
        assert(s[1] == upper_hex((b / 16) as nat) && s[2] == upper_hex((b % 16) as nat));
        assert(hex_value(s[1]) == b / 16 && hex_value(s[2]) == b % 16);
        assert((b / 16) * 16 + b % 16 == b);
    }
}

proof fn lemma_form_read(bytes: Seq<u8>, rest: Seq<char>)
    ensures
        form_read(form_bytes(bytes) + rest) == bytes + form_read(rest),
    decreases bytes.len(),
{
    if bytes.len() == 0 {
        assert(form_bytes(bytes) + rest =~= rest);
        assert(bytes + form_read(rest) =~= form_read(rest));
    } else {
        let front = bytes.drop_last();
        let tail = form_byte(bytes.last()) + rest;
        assert(form_bytes(bytes) + rest =~= form_bytes(front) + tail);
        lemma_form_read(front, tail);
        lemma_form_read_byte(bytes.last(), rest);
        assert(front + (seq![bytes.last()] + form_read(rest)) =~= bytes + form_read(rest));
    }
}

/// A link that leads through the client names its target: the browser sends
/// back the URL that the reference means on the page, to the letter.
pub proof fn links_keep_their_target(reference: Seq<char>, base: Seq<char>, target: Seq<char>)
    requires
        trim(reference).len() > 0,
        !starts_with(trim(reference), "javascript:"@),
        !starts_with(trim(reference), "data:"@),
        !starts_with(trim(reference), "mailto:"@),
        !starts_with(trim(reference), "tel:"@),
        !starts_with(trim(reference), "#"@),
        url_joined(base, trim(reference)) == Some(target),
    ensures
        proxy_url(reference, base) matches Some(url) && url == "/browse?url="@ + url.skip(12)
            && form_read(url.skip(12)) == encode_utf8(target),
{
    reveal_strlit("/browse?");
    reveal_strlit("url");
    reveal_strlit("/browse?url=");
    let a = form_bytes(encode_utf8("url"@));
    let b = form_bytes(encode_utf8(target));
    is_ascii_chars_encode_utf8("url"@);
    let raw = encode_utf8("url"@);
    assert(raw =~= seq![0x75u8, 0x72u8, 0x6cu8]);
    reveal_with_fuel(form_bytes, 4);
    assert(raw.drop_last() =~= seq![0x75u8, 0x72u8]);
    assert(raw.drop_last().drop_last() =~= seq![0x75u8]);
    assert(raw.drop_last().drop_last().drop_last() =~= Seq::<u8>::empty());
    assert(a =~= "url"@);
    let url = proxy_url(reference, base)->0;
    assert(url =~= "/browse?url="@ + b);
    assert(url.skip(12) =~= b);
    lemma_form_read(encode_utf8(target), Seq::empty());
    assert(b + Seq::<char>::empty() =~= b);
    assert(form_read(Seq::<char>::empty()) =~= Seq::<u8>::empty());
    assert(encode_utf8(target) + Seq::<u8>::empty() =~= encode_utf8(target));
}

/// Every attribute that runs code is taken away, and no other.
pub proof fn only_active_attributes_go(attrs: Seq<(Seq<char>, Seq<char>)>, base: Seq<char>, i: int)
    requires
        0 <= i < attrs.len(),
    ensures
        edits_of(Rule::Any, attrs, base).contains(EditView::Drop(attrs[i].0)) <==> is_active(
            attrs[i].0,
            attrs,
        ),
{
    lemma_drops(attrs, attrs.len(), i);
}

proof fn lemma_drops(attrs: Seq<(Seq<char>, Seq<char>)>, n: nat, i: int)
    requires
        0 <= i < attrs.len(),
        n <= attrs.len(),
    ensures
        i < n && is_active(attrs[i].0, attrs) ==> drops(attrs, n).contains(
            EditView::Drop(attrs[i].0),
        ),
        drops(attrs, n).contains(EditView::Drop(attrs[i].0)) ==> is_active(attrs[i].0, attrs),
    decreases n,
{
    if n > 0 {
        let m = (n - 1) as nat;
        lemma_drops(attrs, m, i);
        let before = drops(attrs, m);
        let out = drops(attrs, n);
        let e = EditView::Drop(attrs[i].0);
        if i < m && is_active(attrs[i].0, attrs) {
            let k = choose|k: int| 0 <= k < before.len() && before[k] == e;
            assert(out[k] == e);
        }
        if i == m && is_active(attrs[i].0, attrs) {
            assert(out[before.len() as int] == e);
        }
        if out.contains(e) {
            let k = choose|k: int| 0 <= k < out.len() && out[k] == e;
            if k < before.len() {
                assert(before[k] == e);
            }
        }
    }
}

/// A reference leads nowhere only where it is blank, where it runs code, holds
/// its own data, writes mail or dials, or where it does not join with the page;
/// in these cases it always does.
pub proof fn only_these_lead_nowhere(reference: Seq<char>, base: Seq<char>)
    ensures
        ({
            let r = trim(reference);
            proxy_url(reference, base) is None <==> {
                ||| r.len() == 0
                ||| starts_with(r, "javascript:"@)
                ||| starts_with(r, "data:"@)
                ||| starts_with(r, "mailto:"@)
                ||| starts_with(r, "tel:"@)
                ||| !starts_with(r, "#"@) && url_joined(base, r) is None
            }
        }),
{
    reveal_strlit("#");
    reveal_strlit("javascript:");
    reveal_strlit("data:");
    reveal_strlit("mailto:");
    reveal_strlit("tel:");
    let r = trim(reference);
    if starts_with(r, "#"@) {
        assert(r.take(1)[0] == '#');
        assert(r[0] == '#');
        assert(starts_with(r, "javascript:"@) ==> r.take(11)[0] == 'j');
        assert(starts_with(r, "data:"@) ==> r.take(5)[0] == 'd');
        assert(starts_with(r, "mailto:"@) ==> r.take(7)[0] == 'm');
        assert(starts_with(r, "tel:"@) ==> r.take(4)[0] == 't');
    }
}

/// A reference to a place on the page stays what it is.
pub proof fn places_on_the_page_stay(place: Seq<char>, base: Seq<char>)
    requires
        trim(place) == place,
        starts_with(place, "#"@),
    ensures
        proxy_url(place, base) == Some(place),
{
    only_these_lead_nowhere(place, base);
    reveal_strlit("#");
    reveal_strlit("javascript:");
    reveal_strlit("data:");
    reveal_strlit("mailto:");
    reveal_strlit("tel:");
    assert(place.take(1)[0] == '#');
    assert(place[0] == '#');
    assert(starts_with(place, "javascript:"@) ==> place.take(11)[0] == 'j');
    assert(starts_with(place, "data:"@) ==> place.take(5)[0] == 'd');
    assert(starts_with(place, "mailto:"@) ==> place.take(7)[0] == 'm');
    assert(starts_with(place, "tel:"@) ==> place.take(4)[0] == 't');
}

/// A link gets one new target, where its own leads in the client, or the top of
/// the page where that is nowhere; nothing else of it is touched.
pub proof fn links_get_one_target(attrs: Seq<(Seq<char>, Seq<char>)>, base: Seq<char>, i: int)
    requires
        0 <= i < attrs.len(),
        attrs[i].0 == "href"@,
        forall|k: int| 0 <= k < i ==> (#[trigger] attrs[k]).0 != "href"@,
    ensures
        edits_of(Rule::Link, attrs, base) == (match proxy_url(attrs[i].1, base) {
            Some(url) => seq![EditView::Put("href"@, url)],
            None => seq![EditView::Put("href"@, "#"@)],
        }),
{
    lemma_value_of(attrs, "href"@, i);
}

/// A form that leads nowhere goes. Any other gets its action where that leads in
/// the client, and posts to it where it does not say how it is sent.
pub proof fn forms_lead_through_the_client(
    attrs: Seq<(Seq<char>, Seq<char>)>,
    base: Seq<char>,
    i: int,
)
    requires
        0 <= i < attrs.len(),
        attrs[i].0 == "action"@,
        forall|k: int| 0 <= k < i ==> (#[trigger] attrs[k]).0 != "action"@,
    ensures
        match proxy_url(attrs[i].1, base) {
            None => edits_of(Rule::Form, attrs, base) == seq![EditView::Remove],
            Some(url) => {
                &&& edits_of(Rule::Form, attrs, base)[0] == EditView::Put("action"@, url)
                &&& (exists|k: int| 0 <= k < attrs.len() && (#[trigger] attrs[k]).0 == "method"@)
                    ==> edits_of(Rule::Form, attrs, base).len() == 1
                &&& (forall|k: int| 0 <= k < attrs.len() ==> (#[trigger] attrs[k]).0 != "method"@)
                    ==> edits_of(Rule::Form, attrs, base) == seq![
                    EditView::Put("action"@, url),
                    EditView::Put("method"@, "POST"@),
                ]
            },
        },
{
    lemma_value_of(attrs, "action"@, i);
    lemma_value_none(attrs, "method"@);
}

/// Elements that run code or bring in other documents go, whatever they say, and
/// so do headers in disguise that would move the page or set its policy. Other
/// headers stay as they are.
pub proof fn active_elements_go(attrs: Seq<(Seq<char>, Seq<char>)>, base: Seq<char>, i: int)
    requires
        0 <= i < attrs.len(),
        attrs[i].0 == "http-equiv"@,
        forall|k: int| 0 <= k < i ==> (#[trigger] attrs[k]).0 != "http-equiv"@,
    ensures
        edits_of(Rule::Active, attrs, base) == seq![EditView::Remove],
        ascii_lower(attrs[i].1) == "refresh"@ || ascii_lower(attrs[i].1)
            == "content-security-policy"@ ==> edits_of(Rule::Meta, attrs, base) == seq![
            EditView::Remove,
        ],
        ascii_lower(attrs[i].1) != "refresh"@ && ascii_lower(attrs[i].1)
            != "content-security-policy"@ ==> edits_of(Rule::Meta, attrs, base).len() == 0,
{
    lemma_value_of(attrs, "http-equiv"@, i);
}

/// On every element, an attribute goes that handles an event, and so does one
/// that names a place to go to and would run code there, whatever space is in
/// front of it and whatever the case of its letters. An attribute of another
/// name that does not begin with `on` stays.
pub proof fn handlers_and_code_go(attrs: Seq<(Seq<char>, Seq<char>)>, base: Seq<char>, i: int)
    requires
        0 <= i < attrs.len(),
        forall|k: int| 0 <= k < i ==> (#[trigger] attrs[k]).0 != attrs[i].0,
    ensures
        ({
            let name = attrs[i].0;
            let gone = edits_of(Rule::Any, attrs, base).contains(EditView::Drop(name));
            let place = name == "src"@ || name == "href"@ || name == "action"@ || name
                == "formaction"@ || name == "background"@ || name == "poster"@;
            &&& starts_with(name, "on"@) ==> gone
            &&& place && starts_with(ascii_lower(trim_start(attrs[i].1)), "javascript:"@) ==> gone
            &&& gone ==> starts_with(name, "on"@) || (place && starts_with(
                ascii_lower(trim_start(attrs[i].1)),
                "javascript:"@,
            ))
        }),
{
    only_active_attributes_go(attrs, base, i);
    lemma_value_of(attrs, attrs[i].0, i);
}

/// Attributes alone are taken off by the rule for every element: it gives no
/// attribute another value and takes no element away.
pub proof fn every_element_stays(attrs: Seq<(Seq<char>, Seq<char>)>, base: Seq<char>, k: int)
    requires
        0 <= k < edits_of(Rule::Any, attrs, base).len(),
    ensures
        edits_of(Rule::Any, attrs, base)[k] is Drop,
{
    lemma_drops_only(attrs, attrs.len(), k);
}

proof fn lemma_drops_only(attrs: Seq<(Seq<char>, Seq<char>)>, n: nat, k: int)
    requires
        0 <= k < drops(attrs, n).len(),
    ensures
        drops(attrs, n)[k] is Drop,
    decreases n,
{
    if n > 0 && k < drops(attrs, (n - 1) as nat).len() {
        lemma_drops_only(attrs, (n - 1) as nat, k);
    }
}

proof fn lemma_value_of(attrs: Seq<(Seq<char>, Seq<char>)>, name: Seq<char>, i: int)
    requires
        0 <= i < attrs.len(),
        attrs[i].0 == name,
        forall|k: int| 0 <= k < i ==> (#[trigger] attrs[k]).0 != name,
    ensures
        value_of(attrs, name) == Some(attrs[i].1),
    decreases i,
{
    if i > 0 {
        let rest = attrs.drop_first();
        assert forall|k: int| 0 <= k < i - 1 implies (#[trigger] rest[k]).0 != name by {
            assert(rest[k] == attrs[k + 1]);
        }
        assert(attrs[0].0 != name);
        lemma_value_of(rest, name, i - 1);
    }
}

proof fn lemma_value_none(attrs: Seq<(Seq<char>, Seq<char>)>, name: Seq<char>)
    ensures
        value_of(attrs, name) is None <==> (forall|k: int|
            0 <= k < attrs.len() ==> (#[trigger] attrs[k]).0 != name),
    decreases attrs.len(),
{
    if attrs.len() > 0 {
        let rest = attrs.drop_first();
        lemma_value_none(rest, name);
        if value_of(attrs, name) is None {
            assert forall|k: int| 0 <= k < attrs.len() implies (#[trigger] attrs[k]).0 != name by {
                if k > 0 {
                    assert(attrs[k] == rest[k - 1]);
                }
            }
        }
        if forall|k: int| 0 <= k < attrs.len() ==> (#[trigger] attrs[k]).0 != name {
            assert forall|k: int| 0 <= k < rest.len() implies (#[trigger] rest[k]).0 != name by {
                assert(rest[k] == attrs[k + 1]);
            }
            assert(attrs[0].0 != name);
        }
    }
}

/// Every rule is applied to every page, and each to the elements that it is for.
pub proof fn every_rule_is_applied(rule: Rule)
    ensures
        all_handlers().contains((selector_of(rule), rule)),
        selector_of(Rule::Link) == "a[href]"@,
        selector_of(Rule::Form) == "form[action]"@,
        selector_of(Rule::Meta) == "meta[http-equiv]"@,
        selector_of(Rule::Any) == "*"@,
        forall|tag: Seq<char>|
            tag == "script"@ || tag == "iframe"@ || tag == "frame"@ || tag == "frameset"@ || tag
                == "object"@ || tag == "embed"@ || tag == "applet"@ || tag == "noscript"@ || tag
                == "base"@ || tag == "link[rel=stylesheet]"@ ==> #[trigger] listed_in(
                tag,
                selector_of(Rule::Active),
            ),
{
    let all = all_handlers();
    let i: int = match rule {
        Rule::Link => 0,
        Rule::Form => 1,
        Rule::Active => 2,
        Rule::Meta => 3,
        Rule::Any => 4,
    };
    assert(all[i] == (selector_of(rule), rule));
    let text = selector_of(Rule::Active);
    reveal_strlit(
        "script, link[rel=stylesheet], iframe, frame, frameset, object, embed, applet, noscript, base",
    );
    reveal_strlit("script");
    reveal_strlit("link[rel=stylesheet]");
    reveal_strlit("iframe");
    reveal_strlit("frame");
    reveal_strlit("frameset");
    reveal_strlit("object");
    reveal_strlit("embed");
    reveal_strlit("applet");
    reveal_strlit("noscript");
    reveal_strlit("base");
    lemma_tag(text, "script"@, 0);
    lemma_tag(text, "link[rel=stylesheet]"@, 8);
    lemma_tag(text, "iframe"@, 30);
    lemma_tag(text, "frame"@, 38);
    lemma_tag(text, "frameset"@, 45);
    lemma_tag(text, "object"@, 55);
    lemma_tag(text, "embed"@, 63);
    lemma_tag(text, "applet"@, 70);
    lemma_tag(text, "noscript"@, 78);
    lemma_tag(text, "base"@, 88);
}

/// A tag stands in a list of selectors, between commas.
pub open spec fn listed_in(tag: Seq<char>, list: Seq<char>) -> bool {
    exists|i: int| #[trigger]
        occurs_at(list, tag, i) && (i == 0 || list[i - 2] == ',') && (i + tag.len() == list.len()
            || list[i + tag.len() as int] == ',')
}

proof fn lemma_tag(list: Seq<char>, tag: Seq<char>, i: int)
    requires
        0 <= i,
        i + tag.len() <= list.len(),
        list.subrange(i, i + tag.len()) =~= tag,
        i == 0 || list[i - 2] == ',',
        i + tag.len() == list.len() || list[i + tag.len() as int] == ',',
    ensures
        listed_in(tag, list),
{
    assert(occurs_at(list, tag, i));
}

} // verus!
