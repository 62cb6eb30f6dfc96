//! The calls into the `scraper` crate: reading elements, attributes and
//! text out of an HTML page. What an HTML parser makes of a page takes the
//! HTML standard to state, so each result is named over its arguments.
use vstd::prelude::*;

verus! {

/// For each element of `html` (parsed with `scraper::Html::parse_document`)
/// that `selector` selects, in document order: the value of each attribute
/// named in `attrs`, in that order (`None` where the element lacks it), and
/// the pieces of text beneath it (`ElementRef::text`). `None` when the
/// selector does not parse.
pub uninterp spec fn html_elements(
    html: Seq<char>,
    selector: Seq<char>,
    attrs: Seq<Seq<char>>,
) -> Option<Seq<ElementView>>;

/// What the library reads of one element: attribute values and text pieces.
pub struct Element {
    pub attributes: Vec<Option<String>>,
    pub texts: Vec<String>,
}

pub ghost struct ElementView {
    pub attributes: Seq<Option<Seq<char>>>,
    pub texts: Seq<Seq<char>>,
}

pub open spec fn opt_views(v: Seq<Option<String>>) -> Seq<Option<Seq<char>>> {
    v.map_values(
        |o: Option<String>|
            match o {
                Some(s) => Some(s@),
                None => None,
            },
    )
}

impl View for Element {
    type V = ElementView;

    open spec fn view(&self) -> ElementView {
        ElementView {
            attributes: opt_views(self.attributes@),
            texts: self.texts@.map_values(|s: String| s@),
        }
    }
}

pub open spec fn element_views(v: Seq<Element>) -> Seq<ElementView> {
    v.map_values(|e: Element| e@)
}

/// `Html::parse_document`, `Selector::parse`, `Html::select`, and for each
/// selected element `ElementRef::attr` for each named attribute and
/// `ElementRef::text`; the contract names the result.
#[verifier::external_body]
pub(crate) fn select_elements(html: &str, selector: &str, attrs: &Vec<&str>) -> (res: Option<
    Vec<Element>,
>)
    ensures
        match res {
            Some(v) => html_elements(html@, selector@, attrs@.map_values(|a: &str| a@)) == Some(
                element_views(v@),
            ),
            None => html_elements(html@, selector@, attrs@.map_values(|a: &str| a@)) is None,
        },
{
    let selector = match scraper::Selector::parse(selector) {
        Ok(s) => s,
        Err(_) => return None,
    };
    let document = scraper::Html::parse_document(html);
    Some(
        document.select(&selector).map(
            |element| Element {
                attributes: attrs.iter().map(|a| element.value().attr(a).map(|v| v.to_string())).collect(),
                texts: element.text().map(|t| t.to_string()).collect(),
            },
        ).collect(),
    )
}

} // verus!
