//! Parsed HTML documents and CSS selectors, through the `scraper` crate.
//!
//! An element is named by its position in the document's node tree (the
//! order in which `scraper` stores the nodes), so the results of the queries
//! below are plain lists of positions.
use vstd::prelude::*;
use crate::text::{append_chars, chars_of, string_of};

verus! {

/// Whether `scraper::Selector::parse` accepts the selector.
pub uninterp spec fn css_valid(selector: Seq<char>) -> bool;

/// The root `<html>` element of the document parsed from `src`
/// (`Html::root_element`).
pub uninterp spec fn dom_root(src: Seq<char>) -> usize;

/// The elements of the whole document that match the selector, in document
/// order (`Html::select`).
pub uninterp spec fn dom_select_doc(src: Seq<char>, selector: Seq<char>) -> Seq<usize>;

/// The descendants of an element (the element itself excluded) that match the
/// selector, in document order (`ElementRef::select`).
pub uninterp spec fn dom_select(src: Seq<char>, node: usize, selector: Seq<char>) -> Seq<usize>;

/// Whether the element itself matches the selector (`Selector::matches`).
pub uninterp spec fn dom_matches(src: Seq<char>, node: usize, selector: Seq<char>) -> bool;

/// The text nodes under an element, in document order (`ElementRef::text`).
pub uninterp spec fn dom_texts(src: Seq<char>, node: usize) -> Seq<Seq<char>>;

/// The element serialized as HTML, itself included (`ElementRef::html`).
pub uninterp spec fn dom_html(src: Seq<char>, node: usize) -> Seq<char>;

/// The value of an attribute of the element (`ElementRef::attr`).
pub uninterp spec fn dom_attr(src: Seq<char>, node: usize, name: Seq<char>) -> Option<Seq<char>>;

/// The child elements of an element, in order (`ElementRef::child_elements`).
pub uninterp spec fn dom_children(src: Seq<char>, node: usize) -> Seq<usize>;

#[verifier::external_type_specification]
#[verifier::external_body]
pub struct ExHtml(scraper::Html);

#[verifier::external_type_specification]
#[verifier::external_body]
pub struct ExSelector(scraper::Selector);

/// An HTML document together with the text it was parsed from.
pub struct HtmlDoc {
    source: String,
    html: scraper::Html,
}

impl View for HtmlDoc {
    type V = Seq<char>;

    closed spec fn view(&self) -> Seq<char> {
        self.source@
    }
}

/// A compiled CSS selector together with its text.
pub struct CssSelector {
    text: String,
    sel: scraper::Selector,
}

impl View for CssSelector {
    type V = Seq<char>;

    closed spec fn view(&self) -> Seq<char> {
        self.text@
    }
}

/// `scraper::Html::parse_document`; the document keeps its source text,
/// which is what the queries below are stated over. Parsing never fails.
#[verifier::external_body]
fn parse_html_document(source: &str) -> (d: HtmlDoc)
    ensures
        d@ == source@,
{
    HtmlDoc { source: source.to_owned(), html: scraper::Html::parse_document(source) }
}

/// `scraper::Selector::parse`: the compiled selector, when the text is valid.
/// A class selector, a compound class selector and a descendant chain of
/// type selectors are valid CSS, so the three fixed selectors the library
/// uses always parse.
#[verifier::external_body]
pub(crate) fn parse_selector(text: &str) -> (r: Option<CssSelector>)
    ensures
        r is Some <==> css_valid(text@),
        r matches Some(s) ==> s@ == text@,
        text@ == ".section.chapter_list"@ ==> r is Some,
        text@ == ".title"@ ==> r is Some,
        text@ == "ul li a"@ ==> r is Some,
{
    match scraper::Selector::parse(text) {
        Ok(sel) => Some(CssSelector { text: text.to_owned(), sel }),
        Err(_) => None,
    }
}

/// `Html::root_element`. The HTML parser always creates the `<html>`
/// element, so the call does not fail on a parsed document.
#[verifier::external_body]
fn root_of(d: &HtmlDoc) -> (r: usize)
    ensures
        r == dom_root(d@),
{
    let id = d.html.root_element().id();
    d.html.tree.nodes().position(|n| n.id() == id).unwrap_or(0)
}

/// `Html::select`: the matching elements of the whole document.
#[verifier::external_body]
pub(crate) fn select_document(d: &HtmlDoc, s: &CssSelector) -> (r: Vec<usize>)
    ensures
        r@ == dom_select_doc(d@, s@),
{
    let tree = &d.html.tree;
    d.html.select(&s.sel).map(|e| tree.nodes().position(|n| n.id() == e.id()).unwrap_or(0)).collect()
}

/// `ElementRef::select`: the matching descendants of an element.
#[verifier::external_body]
pub(crate) fn select_below(d: &HtmlDoc, node: usize, s: &CssSelector) -> (r: Vec<usize>)
    ensures
        r@ == dom_select(d@, node, s@),
{
    let tree = &d.html.tree;
    match tree.nodes().nth(node).and_then(scraper::ElementRef::wrap) {
        Some(el) => el.select(&s.sel).map(|e| tree.nodes().position(|n| n.id() == e.id()).unwrap_or(0)).collect(),
        None => Vec::new(),
    }
}

/// `Selector::matches` on an element.
#[verifier::external_body]
pub(crate) fn matches_selector(d: &HtmlDoc, node: usize, s: &CssSelector) -> (r: bool)
    ensures
        r == dom_matches(d@, node, s@),
{
    match d.html.tree.nodes().nth(node).and_then(scraper::ElementRef::wrap) {
        Some(el) => s.sel.matches(&el),
        None => false,
    }
}

/// `ElementRef::text`: the text nodes under an element.
#[verifier::external_body]
fn text_nodes(d: &HtmlDoc, node: usize) -> (r: Vec<String>)
    ensures
        strs_view(r@) == dom_texts(d@, node),
{
    match d.html.tree.nodes().nth(node).and_then(scraper::ElementRef::wrap) {
        Some(el) => el.text().map(|t| t.to_owned()).collect(),
        None => Vec::new(),
    }
}

/// `ElementRef::html`: the element serialized with its content.
#[verifier::external_body]
fn outer_html(d: &HtmlDoc, node: usize) -> (r: String)
    ensures
        r@ == dom_html(d@, node),
{
    match d.html.tree.nodes().nth(node).and_then(scraper::ElementRef::wrap) {
        Some(el) => el.html(),
        None => String::new(),
    }
}

/// `ElementRef::attr`: the value of an attribute.
#[verifier::external_body]
fn attr_of(d: &HtmlDoc, node: usize, name: &str) -> (r: Option<String>)
    ensures
        crate::text::opt_str(r) == dom_attr(d@, node, name@),
{
    match d.html.tree.nodes().nth(node).and_then(scraper::ElementRef::wrap) {
        Some(el) => el.attr(name).map(|v| v.to_owned()),
        None => None,
    }
}

/// `ElementRef::child_elements`: the child elements, in order.
#[verifier::external_body]
fn children_of(d: &HtmlDoc, node: usize) -> (r: Vec<usize>)
    ensures
        r@ == dom_children(d@, node),
{
    let tree = &d.html.tree;
    match tree.nodes().nth(node).and_then(scraper::ElementRef::wrap) {
        Some(el) => el.child_elements().map(|e| tree.nodes().position(|n| n.id() == e.id()).unwrap_or(0)).collect(),
        None => Vec::new(),
    }
}

/// The characters of each string.
pub open spec fn strs_view(v: Seq<String>) -> Seq<Seq<char>> {
    v.map_values(|s: String| s@)
}

/// The concatenation of the pieces, in order.
pub open spec fn concat(pieces: Seq<Seq<char>>) -> Seq<char>
    decreases pieces.len(),
{
    if pieces.len() == 0 {
        Seq::empty()
    } else {
        concat(pieces.drop_last()) + pieces.last()
    }
}

/// The text of an element: all its text nodes, concatenated.
pub open spec fn text_of(src: Seq<char>, node: usize) -> Seq<char> {
    concat(dom_texts(src, node))
}

/// Concatenates strings.
pub fn concat_strings(v: &Vec<String>) -> (r: String)
    ensures
        r@ == concat(strs_view(v@)),
{
    let mut out: Vec<char> = Vec::new();
    let mut i: usize = 0;
    while i < v.len()
        invariant
            i <= v@.len(),
            out@ == concat(strs_view(v@).take(i as int)),
        decreases v@.len() - i,
    {
        proof {
            assert(strs_view(v@).take(i + 1).drop_last() =~= strs_view(v@).take(i as int));
        }
        let piece = chars_of(v[i].as_str());
        append_chars(&mut out, &piece);
        i = i + 1;
    }
    proof {
        assert(strs_view(v@).take(v@.len() as int) =~= strs_view(v@));
    }
    string_of(&out)
}

impl HtmlDoc {
    /// Parses an HTML document.
    pub fn parse(source: &str) -> (d: HtmlDoc)
        ensures
            d@ == source@,
    {
        parse_html_document(source)
    }

    /// The text the document was parsed from.
    pub fn source(&self) -> (s: &str)
        ensures
            s@ == self@,
    {
        self.source.as_str()
    }

    /// The root `<html>` element.
    pub fn root(&self) -> (r: usize)
        ensures
            r == dom_root(self@),
    {
        root_of(self)
    }

    /// The text of an element.
    pub fn text(&self, node: usize) -> (r: String)
        ensures
            r@ == text_of(self@, node),
    {
        concat_strings(&text_nodes(self, node))
    }

    /// The text nodes of an element.
    pub fn texts(&self, node: usize) -> (r: Vec<String>)
        ensures
            strs_view(r@) == dom_texts(self@, node),
    {
        text_nodes(self, node)
    }

    /// The element's HTML.
    pub fn html(&self, node: usize) -> (r: String)
        ensures
            r@ == dom_html(self@, node),
    {
        outer_html(self, node)
    }

    /// An attribute of the element.
    pub fn attr(&self, node: usize, name: &str) -> (r: Option<String>)
        ensures
            crate::text::opt_str(r) == dom_attr(self@, node, name@),
    {
        attr_of(self, node, name)
    }

    /// The child elements.
    pub fn children(&self, node: usize) -> (r: Vec<usize>)
        ensures
            r@ == dom_children(self@, node),
    {
        children_of(self, node)
    }

    /// The elements of the whole document matching a selector
    /// (`None` when the selector does not parse).
    pub fn select_all(&self, selector: &str) -> (r: Option<Vec<usize>>)
        ensures
            match r {
                Some(v) => css_valid(selector@) && v@ == dom_select_doc(self@, selector@),
                None => !css_valid(selector@),
            },
    {
        match parse_selector(selector) {
            Some(s) => Some(select_document(self, &s)),
            None => None,
        }
    }

    /// The descendants of an element matching a selector
    /// (`None` when the selector does not parse).
    pub fn select_in(&self, node: usize, selector: &str) -> (r: Option<Vec<usize>>)
        ensures
            match r {
                Some(v) => css_valid(selector@) && v@ == dom_select(self@, node, selector@),
                None => !css_valid(selector@),
            },
    {
        match parse_selector(selector) {
            Some(s) => Some(select_below(self, node, &s)),
            None => None,
        }
    }

    /// Whether an element matches a selector (`None` when the selector does
    /// not parse).
    pub fn matches(&self, node: usize, selector: &str) -> (r: Option<bool>)
        ensures
            match r {
                Some(b) => css_valid(selector@) && b == dom_matches(self@, node, selector@),
                None => !css_valid(selector@),
            },
    {
        match parse_selector(selector) {
            Some(s) => Some(matches_selector(self, node, &s)),
            None => None,
        }
    }
}

} // verus!
