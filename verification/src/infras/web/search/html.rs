//! The HTML and URL facts the search intent reads, computed by `scraper`,
//! `percent_encoding` and the URL parser that `reqwest` re-exports.
use vstd::prelude::*;

verus! {

/// An element of a parsed document, as the search intent reads it: the value
/// of its `href` attribute, if any, and its descendant text nodes in order.
pub struct HtmlElement {
    pub href: Option<String>,
    pub texts: Vec<String>,
}

/// What the search intent reads of an element, as plain values.
pub type ElementFacts = (Option<Seq<char>>, Seq<Seq<char>>);

/// The facts of one element.
pub open spec fn element_facts(e: HtmlElement) -> ElementFacts {
    (
        match e.href {
            Some(h) => Some(h@),
            None => None,
        },
        e.texts@.map_values(|t: String| t@),
    )
}

/// The facts of a list of elements.
pub open spec fn elements_facts(es: Seq<HtmlElement>) -> Seq<ElementFacts> {
    es.map_values(|e: HtmlElement| element_facts(e))
}

/// The elements of the HTML document `document` that the CSS selector list
/// `selector` matches, in the order `scraper` yields them (empty when the
/// selector does not parse).
pub uninterp spec fn html_select(document: Seq<char>, selector: Seq<char>) -> Seq<
    (Option<Seq<char>>, Seq<Seq<char>>),
>;

/// The text `s` percent-decoded and read as UTF-8, invalid sequences replaced
/// by U+FFFD.
pub uninterp spec fn percent_decoded(s: Seq<char>) -> Seq<char>;

/// The host of the URL `s`: `None` when `s` does not parse as a URL or the URL
/// has no host.
pub uninterp spec fn url_host(s: Seq<char>) -> Option<Seq<char>>;

/// The elements of `document` that `selector` matches.
///
/// Trusted: `scraper::Html::parse_document`, `scraper::Selector::parse`,
/// `Html::select`, `ElementRef::attr("href")` and `ElementRef::text`. The
/// contract only names the result as a function of the two texts (parsing and
/// matching are deterministic); an unparsable selector gives no element.
#[verifier::external_body]
pub fn select(document: &str, selector: &str) -> (r: Vec<HtmlElement>)
    ensures
        elements_facts(r@) == html_select(document@, selector@),
{
    let html = scraper::Html::parse_document(document);
    match scraper::Selector::parse(selector) {
        Ok(sel) => html.select(&sel).map(|el| HtmlElement {
            href: el.value().attr("href").map(|h| h.to_string()),
            texts: el.text().map(|t| t.to_string()).collect(),
        }).collect(),
        Err(_) => Vec::new(),
    }
}

/// `s` percent-decoded, then decoded as UTF-8 lossily.
///
/// Trusted: `percent_encoding::percent_decode_str` followed by
/// `PercentDecode::decode_utf8_lossy`; the contract only names the result.
#[verifier::external_body]
pub fn percent_decode(s: &str) -> (r: String)
    ensures
        r@ == percent_decoded(s@),
{
    percent_encoding::percent_decode_str(s).decode_utf8_lossy().to_string()
}

/// The host of the URL `s`, if it parses and has one.
///
/// Trusted: `reqwest::Url::parse` followed by `Url::host_str`; the contract
/// only names the result.
#[verifier::external_body]
pub fn host_of(s: &str) -> (r: Option<String>)
    ensures
        match r {
            Some(h) => url_host(s@) == Some(h@),
            None => url_host(s@) is None,
        },
{
    match reqwest::Url::parse(s) {
        Ok(url) => url.host_str().map(|h| h.to_string()),
        Err(_) => None,
    }
}

} // verus!
