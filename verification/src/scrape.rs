//! What the library reads from HTML pages (through scraper) and how it
//! rewrites text with regular expressions (through regex).
use vstd::prelude::*;

verus! {

/// One element picked from a page: its text (all its text nodes joined) and
/// the value of one of its attributes.
pub struct SelectedElement {
    pub text: String,
    pub attr: Option<String>,
}

pub open spec fn element_view(e: SelectedElement) -> (Seq<char>, Option<Seq<char>>) {
    (
        e.text@,
        match e.attr {
            Some(a) => Some(a@),
            None => None,
        },
    )
}

pub open spec fn elements_view(v: Seq<SelectedElement>) -> Seq<(Seq<char>, Option<Seq<char>>)> {
    v.map_values(|e: SelectedElement| element_view(e))
}

/// The elements of the HTML document `html` that the CSS selector `selector`
/// matches, in the order scraper's `select` walks the parsed tree (the order
/// in which its nodes were created), each as its text and its attribute `attr`;
/// `None` when scraper does not accept the selector.
pub uninterp spec fn html_select(html: Seq<char>, selector: Seq<char>, attr: Seq<char>) -> Option<
    Seq<(Seq<char>, Option<Seq<char>>)>,
>;

/// The text `text` with every match of the regular expression `pattern`
/// replaced by `rep`; `None` when regex does not accept the pattern.
pub uninterp spec fn regex_replace_all(pattern: Seq<char>, text: Seq<char>, rep: Seq<char>) -> Option<
    Seq<char>,
>;

/// scraper: `Selector::parse(selector)` (`None` on error),
/// `Html::parse_document(html)` and `Html::select`; each selected element is
/// given as `ElementRef::text` collected into one string and
/// `Element::attr(attr)`.
#[verifier::external_body]
pub(crate) fn select_elements(html: &str, selector: &str, attr: &str) -> (r: Option<
    Vec<SelectedElement>,
>)
    ensures
        match r {
            Some(v) => html_select(html@, selector@, attr@) == Some(elements_view(v@)),
            None => html_select(html@, selector@, attr@) is None,
        },
{
    let sel = scraper::Selector::parse(selector).ok()?;
    let doc = scraper::Html::parse_document(html);
    Some(
        doc.select(&sel).map(
            |e| SelectedElement { text: e.text().collect(), attr: e.value().attr(attr).map(String::from) },
        ).collect(),
    )
}

/// regex: `Regex::new(pattern)` (`None` on error), then
/// `Regex::replace_all(text, rep)`.
#[verifier::external_body]
pub(crate) fn replace_all_matches(pattern: &str, text: &str, rep: &str) -> (r: Option<String>)
    ensures
        match r {
            Some(s) => regex_replace_all(pattern@, text@, rep@) == Some(s@),
            None => regex_replace_all(pattern@, text@, rep@) is None,
        },
{
    regex::Regex::new(pattern).ok().map(|re| re.replace_all(text, rep).into_owned())
}

} // verus!
