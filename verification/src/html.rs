//! Querying HTML documents (through the scraper crate).
use vstd::prelude::*;

verus! {

/// What the library reads of one element: its text nodes in document order,
/// and the value of one attribute.
#[derive(Debug)]
pub struct ElementData {
    pub text: Vec<String>,
    pub attr: Option<String>,
}

/// One element matched by a query, with the first match inside it of each
/// field selector.
#[derive(Debug)]
pub struct HtmlMatch {
    pub element: ElementData,
    pub fields: Vec<Option<ElementData>>,
}

/// The plain value of an `ElementData`: text pieces, and the attribute.
pub type ElementView = (Seq<Seq<char>>, Option<Seq<char>>);

/// The plain value of an `HtmlMatch`.
pub type MatchView = (ElementView, Seq<Option<ElementView>>);

/// The plain value of an optional string.
pub open spec fn opt_view(s: Option<String>) -> Option<Seq<char>> {
    match s {
        Some(x) => Some(x@),
        None => None,
    }
}

/// The plain value of an `ElementData`.
pub open spec fn element_view(e: ElementData) -> ElementView {
    (e.text@.map_values(|t: String| t@), opt_view(e.attr))
}

/// The plain value of an optional `ElementData`.
pub open spec fn opt_element_view(e: Option<ElementData>) -> Option<ElementView> {
    match e {
        Some(x) => Some(element_view(x)),
        None => None,
    }
}

/// The plain value of an `HtmlMatch`.
pub open spec fn match_view(m: HtmlMatch) -> MatchView {
    (element_view(m.element), m.fields@.map_values(|f: Option<ElementData>| opt_element_view(f)))
}

/// The plain value of a query's result.
pub open spec fn query_view(r: Option<Vec<HtmlMatch>>) -> Option<Seq<MatchView>> {
    match r {
        Some(v) => Some(v@.map_values(|m: HtmlMatch| match_view(m))),
        None => None,
    }
}

/// What scraper's document parse and selection give for `html_query`'s arguments.
pub uninterp spec fn spec_html_query(
    html: Seq<char>,
    scope: Seq<char>,
    fields: Seq<Seq<char>>,
    attr: Seq<char>,
) -> Option<Seq<MatchView>>;

/// scraper: parses `html` as a document (`Html::parse_document`), and for each
/// element matching the selector `scope` (`Selector::parse`, `Html::select`), in
/// document order, reads its text nodes (`ElementRef::text`) and its attribute
/// `attr` (`ElementRef::attr`), and the same of the first descendant matching
/// each selector of `fields` (`ElementRef::select`). `None` when a selector does
/// not parse. The contract only names the result: it is a function of the
/// arguments; what HTML parsing and CSS matching give is left to scraper.
#[verifier::external_body]
pub(crate) fn html_query(html: &str, scope: &str, fields: &Vec<String>, attr: &str) -> (r: Option<
    Vec<HtmlMatch>,
>)
    ensures
        query_view(r) == spec_html_query(
            html@,
            scope@,
            fields@.map_values(|f: String| f@),
            attr@,
        ),
{
    let scope_sel = scraper::Selector::parse(scope).ok()?;
    let field_sels: Vec<scraper::Selector> = fields.iter().map(|f| scraper::Selector::parse(f).ok()).collect::<Option<_>>()?;
    let doc = scraper::Html::parse_document(html);
    let data = |e: scraper::ElementRef| ElementData { text: e.text().map(String::from).collect(), attr: e.attr(attr).map(String::from) };
    Some(doc.select(&scope_sel).map(|e| HtmlMatch { element: data(e), fields: field_sels.iter().map(|s| e.select(s).next().map(data)).collect() }).collect())
}

} // verus!
