use textrest::css::{
    extract_value_by_rule, extract_value_from_element, select_elements_from_element, select_text, select_text_from_element,
    select_with_jsoup, select_with_jsoup_element,
};
use textrest::dom::HtmlDoc;
use textrest::rule_split::{detect_operator, split_rules};
use textrest::selector::{parse_css_rule, strip_css_prefix, CssExtractRule, ExtractTarget};

const PAGE: &str = "<html><head><title> My Page </title></head><body>\
<div class=\"list\"><p>One</p><p>Two</p><p>Three</p></div>\
<div id=\"info\"><span class=\"name\">Book A</span><a href=\"/b/1\">Read</a></div>\
</body></html>";

#[test]
fn split_rules_trims_and_drops_blank_pieces() {
    let parts = split_rules(" a && b ||  && c ", &["&&", "||", "%%"]);
    assert_eq!(parts, vec!["a".to_string(), "b".to_string(), "c".to_string()]);
}

#[test]
fn split_rules_keeps_operators_inside_braces() {
    let parts = split_rules("{$.a && b}&&c", &["&&", "||"]);
    assert_eq!(parts, vec!["{$.a && b}".to_string(), "c".to_string()]);
}

#[test]
fn detect_operator_takes_first_in_list_order() {
    assert_eq!(detect_operator("a || b && c", &["&&", "||"]), Some("&&"));
    assert_eq!(detect_operator("a || b", &["&&", "||"]), Some("||"));
    assert_eq!(detect_operator("a", &["&&", "||"]), None);
}

#[test]
fn parse_css_rule_reads_target_prefix_and_regex() {
    let r = parse_css_rule("div.a@text##章节");
    assert_eq!(r.selector, "div.a");
    assert_eq!(r.target, ExtractTarget::Text);
    assert_eq!(r.trim_prefix.as_deref(), Some("章节"));
    let r = parse_css_rule("img@src##a(\\d)##b$1##c");
    assert_eq!(r.target, ExtractTarget::Attr);
    assert_eq!(r.attr.as_deref(), Some("src"));
    assert_eq!(r.replace_regex, Some(("a(\\d)".to_string(), "b$1##c".to_string())));
    let r = parse_css_rule("p");
    assert_eq!(r.target, ExtractTarget::Text);
    assert!(r.attr.is_none());
}

#[test]
fn select_text_reads_each_element() {
    let d = HtmlDoc::parse(PAGE);
    assert_eq!(select_text(&d, "div.list p"), vec!["One", "Two", "Three"]);
}

#[test]
fn select_text_index_reverse_and_exclude() {
    let d = HtmlDoc::parse(PAGE);
    assert_eq!(select_text(&d, "div.list p[1]"), vec!["Two"]);
    assert_eq!(select_text(&d, "div.list p[-1]"), vec!["Three"]);
    assert_eq!(select_text(&d, "-div.list p"), vec!["Three", "Two", "One"]);
    assert_eq!(select_text(&d, "div.list p[!0]"), vec!["Two", "Three"]);
    assert_eq!(select_text(&d, "div.list p[0:2]"), vec!["One", "Two", "Three"]);
    assert_eq!(select_text(&d, "div.list p.1"), vec!["Two"]);
}

#[test]
fn select_text_or_and_combinators() {
    let d = HtmlDoc::parse(PAGE);
    assert_eq!(select_text(&d, "h1 || span.name"), vec!["Book A"]);
    assert_eq!(select_text(&d, "span.name && a"), vec!["Book A", "Read"]);
    assert!(select_text(&d, "h1 && span.name").is_empty());
}

#[test]
fn select_text_contains_fallback() {
    let d = HtmlDoc::parse(PAGE);
    assert_eq!(select_text(&d, "p:contains(Tw)"), vec!["Two"]);
}

#[test]
fn select_text_legacy_chain_from_root() {
    let d = HtmlDoc::parse(PAGE);
    assert_eq!(select_text(&d, "id.info@class.name@text"), vec!["Book A"]);
}

#[test]
fn select_text_from_element_attributes() {
    let d = HtmlDoc::parse(PAGE);
    let info = select_with_jsoup(&d, "#info").unwrap()[0];
    assert_eq!(select_text_from_element(&d, info, "a@href"), vec!["/b/1"]);
    assert_eq!(select_text_from_element(&d, info, "span.name"), vec!["Book A"]);
    assert_eq!(select_text_from_element(&d, info, "tag.a@text"), vec!["Read"]);
    let a = select_with_jsoup(&d, "a").unwrap()[0];
    assert_eq!(select_text_from_element(&d, a, "@href"), vec!["/b/1"]);
    assert_eq!(extract_value_by_rule(&d, a, "href"), Some("/b/1".to_string()));
    assert_eq!(extract_value_by_rule(&d, a, "text"), Some("Read".to_string()));
}

#[test]
fn select_elements_children_by_index() {
    let d = HtmlDoc::parse(PAGE);
    let list = select_with_jsoup(&d, "div.list").unwrap()[0];
    let kids = select_elements_from_element(&d, list, ".1");
    assert_eq!(kids.len(), 1);
    assert_eq!(d.text(kids[0]), "Two");
    assert!(select_elements_from_element(&d, list, "children").is_empty());
    assert_eq!(select_elements_from_element(&d, list, "children.p").len(), 3);
    let second = select_elements_from_element(&d, list, "children.p.1");
    assert_eq!(second.len(), 1);
    assert_eq!(d.text(second[0]), "Two");
    let found = select_elements_from_element(&d, list, "text.Thr");
    assert_eq!(found.len(), 1);
    assert_eq!(d.text(found[0]), "Three");
}

#[test]
fn select_in_element_includes_itself_when_it_matches() {
    let d = HtmlDoc::parse(PAGE);
    let list = select_with_jsoup(&d, "div.list").unwrap()[0];
    let got = select_with_jsoup_element(&d, list, "div").unwrap();
    assert_eq!(got, vec![list]);
    assert!(select_with_jsoup_element(&d, list, "p[").is_none());
}

#[test]
fn select_text_index_ranges_and_legacy_forms() {
    let d = HtmlDoc::parse(PAGE);
    assert_eq!(select_text(&d, "div.list p[2:0]"), vec!["One", "Two", "Three"]);
    assert_eq!(select_text(&d, "div.list p[0:2:2]"), vec!["One", "Three"]);
    assert_eq!(select_text(&d, "div.list p[-1:]"), vec!["Three"]);
    assert_eq!(select_text(&d, "div.list p!0:2"), vec!["Two"]);
    assert_eq!(select_text(&d, "div.list p[!-1]"), vec!["One", "Two"]);
    assert!(select_text(&d, "div.list p[5]").is_empty());
}

#[test]
fn extraction_suffixes_after_a_selector() {
    let d = HtmlDoc::parse(PAGE);
    let info = select_with_jsoup(&d, "#info").unwrap()[0];
    // Without `@` in the extraction part, `##` is read as part of a selector
    // and the element's text is taken whole.
    assert_eq!(select_text_from_element(&d, info, "span.name@text##Book"), vec!["Book A"]);
    // A document rule with `@` goes through the legacy chain, where the last
    // part is a selector on each element.
    assert!(select_text(&d, "span.name@text##Book").is_empty());
    // An extraction part that holds its own `@` is read as a CSS rule, where
    // `##` trims a prefix.
    assert_eq!(select_text_from_element(&d, info, "span.name@@text##Book"), vec!["A"]);
}

#[test]
fn css_prefix_is_stripped_in_any_case() {
    assert_eq!(strip_css_prefix("@css:div"), "div");
    assert_eq!(strip_css_prefix("@CSS:div"), "div");
    assert_eq!(strip_css_prefix("@Css:div"), "div");
    assert_eq!(strip_css_prefix("@css: div"), "div");
    assert_eq!(strip_css_prefix("div"), "div");
    assert_eq!(strip_css_prefix("@cs"), "@cs");
}

#[test]
fn text_nodes_read_like_text() {
    let d = HtmlDoc::parse("<html><body><p>a <b>b</b></p></body></html>");
    let p = select_with_jsoup(&d, "p").unwrap()[0];
    let nodes = CssExtractRule {
        selector: "p".to_string(),
        target: ExtractTarget::TextNodes,
        attr: None,
        trim_prefix: None,
        replace_regex: None,
    };
    let text = CssExtractRule { target: ExtractTarget::Text, ..nodes.clone() };
    assert_eq!(extract_value_from_element(&d, p, &nodes), Some("a b".to_string()));
    assert_eq!(extract_value_from_element(&d, p, &text), Some("a b".to_string()));
}
