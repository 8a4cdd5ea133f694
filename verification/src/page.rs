//! Queries on an HTML document, answered by the `scraper` crate.
//!
//! Each query takes the document's text and CSS selectors and gives back
//! plain strings. What the HTML parser and the selector engine make of a
//! text is not written out here: each answer has a name, and the contracts
//! of the functions that ask are stated over those names.

use crate::record::texts_view;
use vstd::prelude::*;

verus! {

/// The characters of the text nodes of each element of a list.
pub open spec fn groups_view(v: Seq<Vec<String>>) -> Seq<Seq<Seq<char>>> {
    v.map_values(|g: Vec<String>| texts_view(g@))
}

/// The characters of each attribute value of a list, where there is one.
pub open spec fn attrs_view(v: Seq<Option<String>>) -> Seq<Option<Seq<char>>> {
    v.map_values(
        |a: Option<String>|
            match a {
                Some(s) => Some(s@),
                None => None,
            },
    )
}

/// For each element of the document `html` that matches `selector`, in the
/// order in which `scraper::Html::select` yields them, the texts of its
/// descendant text nodes in the order of `scraper::ElementRef::text`.
/// `None` where `scraper::Selector::parse` rejects the selector.
pub uninterp spec fn selected_texts(html: Seq<char>, selector: Seq<char>) -> Option<
    Seq<Seq<Seq<char>>>,
>;

/// For each element of the document `html` that matches `selector`, in the
/// order of `scraper::Html::select`, the value of its attribute `attr` as
/// `scraper::ElementRef::attr` gives it. `None` where the selector is
/// rejected.
pub uninterp spec fn selected_attr(html: Seq<char>, selector: Seq<char>, attr: Seq<char>) -> Option<
    Seq<Option<Seq<char>>>,
>;

/// The texts, as in [`selected_texts`], of the elements matching `inner`
/// that `scraper::ElementRef::select` finds below the element at position
/// `index` among those matching `outer`. `None` where a selector is
/// rejected or fewer than `index + 1` elements match `outer`.
pub uninterp spec fn nested_texts(
    html: Seq<char>,
    outer: Seq<char>,
    index: nat,
    inner: Seq<char>,
) -> Option<Seq<Seq<Seq<char>>>>;

/// What `r` holds, as plain values.
pub open spec fn groups_found(r: Option<Vec<Vec<String>>>) -> Option<Seq<Seq<Seq<char>>>> {
    match r {
        Some(v) => Some(groups_view(v@)),
        None => None,
    }
}

/// What `r` holds, as plain values.
pub open spec fn attrs_found(r: Option<Vec<Option<String>>>) -> Option<Seq<Option<Seq<char>>>> {
    match r {
        Some(v) => Some(attrs_view(v@)),
        None => None,
    }
}

/// Parses `html` with `scraper::Html::parse_document` and `selector` with
/// `scraper::Selector::parse`, and collects the text nodes of every element
/// that `Html::select` yields. The contract only names the answer: it is
/// the same for the same two texts.
#[verifier::external_body]
pub(crate) fn select_texts(html: &str, selector: &str) -> (r: Option<Vec<Vec<String>>>)
    ensures
        groups_found(r) == selected_texts(html@, selector@),
{
    let selector = scraper::Selector::parse(selector).ok()?;
    let document = scraper::Html::parse_document(html);
    Some(
        document.select(&selector).map(|e| e.text().map(|t| t.to_string()).collect()).collect(),
    )
}

/// Parses as [`select_texts`] does, and reads the attribute `attr` of every
/// element that `Html::select` yields with `scraper::ElementRef::attr`. The
/// contract only names the answer.
#[verifier::external_body]
pub(crate) fn select_attr(html: &str, selector: &str, attr: &str) -> (r: Option<
    Vec<Option<String>>,
>)
    ensures
        attrs_found(r) == selected_attr(html@, selector@, attr@),
{
    let selector = scraper::Selector::parse(selector).ok()?;
    let document = scraper::Html::parse_document(html);
    Some(document.select(&selector).map(|e| e.attr(attr).map(|a| a.to_string())).collect())
}

/// Parses as [`select_texts`] does, takes the element at position `index`
/// of those that `Html::select` yields for `outer`, and collects the text
/// nodes of every element that `scraper::ElementRef::select` yields below
/// it for `inner`. The contract only names the answer.
#[verifier::external_body]
pub(crate) fn select_nested_texts(html: &str, outer: &str, index: usize, inner: &str) -> (r:
    Option<Vec<Vec<String>>>)
    ensures
        groups_found(r) == nested_texts(html@, outer@, index as nat, inner@),
{
    let outer = scraper::Selector::parse(outer).ok()?;
    let inner = scraper::Selector::parse(inner).ok()?;
    let document = scraper::Html::parse_document(html);
    let scope = document.select(&outer).nth(index)?;
    Some(scope.select(&inner).map(|e| e.text().map(|t| t.to_string()).collect()).collect())
}

} // verus!
