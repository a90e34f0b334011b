//! A retrieved quote page, parsed once, and the questions the extraction rules
//! ask of it through `scraper`.
use vstd::prelude::*;
use scraper::{Html, Selector};

verus! {

#[verifier::external_type_specification]
#[verifier::external_body]
pub struct ExHtml(Html);

/// The text of the first element of the page that matches a CSS selector, first
/// in the order the parser created the nodes: its descendant text nodes joined
/// in tree order. `None` when nothing matches
/// or the selector does not parse.
pub uninterp spec fn first_text(markup: Seq<char>, selector: Seq<char>) -> Option<Seq<char>>;

/// The text of the first element matching `target` among the descendants of the
/// first element matching `scope`; `None` when either is missing or a selector
/// does not parse.
pub uninterp spec fn text_within(
    markup: Seq<char>,
    scope: Seq<char>,
    target: Seq<char>,
) -> Option<Seq<char>>;

/// The value of attribute `attr` on the first element matching `target` among
/// the descendants of the first element matching `scope`; `None` when either
/// element is missing, a selector does not parse, or the attribute is absent.
pub uninterp spec fn attr_within(
    markup: Seq<char>,
    scope: Seq<char>,
    target: Seq<char>,
    attr: Seq<char>,
) -> Option<Seq<char>>;

/// The view of an optional string.
pub open spec fn opt_view(o: Option<String>) -> Option<Seq<char>> {
    match o {
        Some(s) => Some(s@),
        None => None,
    }
}

/// Markup of a quote page together with its parsed document.
pub struct QuotePage {
    markup: String,
    html: Html,
}

/// Relies on `Html::parse_document`, which builds the document tree from the
/// markup alone.
#[verifier::external_body]
fn parse_markup(markup: String) -> (p: QuotePage)
    ensures
        p.markup() == markup@,
{
    QuotePage { html: Html::parse_document(&markup), markup }
}

/// Relies on `Selector::parse`, `Html::select` and `ElementRef::text`: the
/// first match in node-creation order, its text joined.
#[verifier::external_body]
pub(crate) fn select_text(p: &QuotePage, selector: &str) -> (r: Option<String>)
    ensures
        opt_view(r) == first_text(p.markup(), selector@),
{
    match Selector::parse(selector) {
        Ok(sel) => p.html.select(&sel).next().map(|e| e.text().collect::<String>()),
        Err(_) => None,
    }
}

/// Relies on `Selector::parse`, `Html::select`, `ElementRef::select` and
/// `ElementRef::text`: the first match of `target` under the first match of
/// `scope`, its text joined.
#[verifier::external_body]
pub(crate) fn select_text_within(p: &QuotePage, scope: &str, target: &str) -> (r: Option<String>)
    ensures
        opt_view(r) == text_within(p.markup(), scope@, target@),
{
    match (Selector::parse(scope), Selector::parse(target)) {
        (Ok(s), Ok(t)) => p.html.select(&s).next().and_then(
            |e| e.select(&t).next().map(|e| e.text().collect::<String>()),
        ),
        _ => None,
    }
}

/// Relies on `Selector::parse`, `Html::select`, `ElementRef::select` and
/// `ElementRef::attr`: an attribute of the first match of `target` under the
/// first match of `scope`.
#[verifier::external_body]
pub(crate) fn select_attr_within(p: &QuotePage, scope: &str, target: &str, attr: &str) -> (r: Option<
    String,
>)
    ensures
        opt_view(r) == attr_within(p.markup(), scope@, target@, attr@),
{
    match (Selector::parse(scope), Selector::parse(target)) {
        (Ok(s), Ok(t)) => p.html.select(&s).next().and_then(
            |e| e.select(&t).next().and_then(|e| e.attr(attr).map(|v| v.to_string())),
        ),
        _ => None,
    }
}

impl QuotePage {
    /// The markup the page was parsed from.
    pub closed spec fn markup(&self) -> Seq<char> {
        self.markup@
    }

    /// Parses retrieved markup.
    pub fn new(markup: &str) -> (p: QuotePage)
        ensures
            p.markup() == markup@,
    {
        parse_markup(markup.to_owned())
    }
}

} // verus!
