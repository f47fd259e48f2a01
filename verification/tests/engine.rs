use textrest::dom::HtmlDoc;
use textrest::js::{
    base64_decode_to_text, base64_encode_text, context_plan, eval_js, eval_js_in, eval_js_with_context, js_text_value,
    run_with_plan, GlobalStep, Interpreter, JsText,
};
use textrest::json::{extract_json_path_values, extract_json_path_values_from_text, is_json_path_rule};
use textrest::rule_engine::{
    extract_inner_rule, extract_list_from_element, extract_list_single_rule, extract_single_rule,
    extract_text_from_document, extract_text_from_document_with_context, extract_text_from_element,
    merge_rules_results, replace_inner_rule, split_js_chain, apply_js_chain, apply_js_chain_in, RuleContext,
};
use textrest::css::select_with_jsoup;

const PAGE: &str = "<html><body><h1>Title</h1><ul><li>a</li><li>b</li></ul>\
<ol><li>x</li><li>y</li><li>z</li></ol><span id=\"n\">7</span></body></html>";

#[test]
fn json_path_rule_detection() {
    assert!(is_json_path_rule("$.data"));
    assert!(is_json_path_rule("{$.a}"));
    assert!(!is_json_path_rule("div"));
    assert!(!is_json_path_rule(""));
}

#[test]
fn json_path_values_trim_strings_and_serialize_others() {
    let text = r#"{"list":[{"name":" A ","n":1},{"name":"","n":null},{"name":"B","n":true}]}"#;
    assert_eq!(extract_json_path_values_from_text(text, "$.list[*].name"), vec!["A", "B"]);
    assert_eq!(extract_json_path_values_from_text(text, "$.list[*].n"), vec!["1", "true"]);
    assert!(extract_json_path_values_from_text("   ", "$.a").is_empty());
    assert!(extract_json_path_values_from_text("not json", "$.a").is_empty());
}

#[test]
fn json_path_on_page_text() {
    let d = HtmlDoc::parse(r#"{"book":{"title":"T"}}"#);
    assert_eq!(extract_json_path_values(&d, "$.book.title"), vec!["T"]);
}

#[test]
fn merge_or_and_interleave() {
    let rows = vec![vec!["".to_string(), "a1".to_string()], vec!["b0".to_string()]];
    assert_eq!(merge_rules_results(rows.clone(), None), Some("a1".to_string()));
    assert_eq!(merge_rules_results(rows, Some("%%")), Some("b0".to_string()));
    assert_eq!(merge_rules_results(vec![], Some("&&")), None);
    assert_eq!(merge_rules_results(vec![vec!["".to_string()]], None), None);
}

#[test]
fn text_from_document_compound_rules() {
    let d = HtmlDoc::parse(PAGE);
    let r = |s: &str| extract_text_from_document(&d, Some(&s.to_string()));
    assert_eq!(r("h1"), Some("Title".to_string()));
    assert_eq!(r("h2 || ul li"), Some("a".to_string()));
    assert_eq!(r("h2 && ol li"), Some("x".to_string()));
    assert_eq!(r("ul li %% ol li"), Some("a".to_string()));
    assert_eq!(r("   "), None);
    assert_eq!(extract_text_from_document(&d, None), None);
}

#[test]
fn list_and_single_rules() {
    let d = HtmlDoc::parse(PAGE);
    assert_eq!(extract_list_single_rule(&d, "ol li"), vec!["x", "y", "z"]);
    assert_eq!(extract_single_rule(&d, "ol li"), Some("x".to_string()));
    assert!(extract_list_single_rule(&d, "").is_empty());
}

#[test]
fn inner_rules_are_replaced() {
    let d = HtmlDoc::parse(PAGE);
    assert_eq!(replace_inner_rule(&d, "/book/{$.span#n}.html"), "/book/7.html");
    assert_eq!(replace_inner_rule(&d, "no rules"), "no rules");
    assert_eq!(replace_inner_rule(&d, "a{$x}b"), "a{b");
    assert_eq!(extract_inner_rule(&d, "p{$.h1}"), Some("pTitle".to_string()));
    assert_eq!(extract_inner_rule(&d, "plain"), None);
    assert_eq!(extract_list_single_rule(&d, "id-{$.span#n}"), vec!["id-7"]);
}

#[test]
fn js_chain_split() {
    assert_eq!(split_js_chain("a<js>result+1</js>"), ("a".to_string(), Some("result+1".to_string())));
    assert_eq!(split_js_chain(" a @js: x "), ("a".to_string(), Some("x".to_string())));
    assert_eq!(split_js_chain("plain"), ("plain".to_string(), None));
}

#[test]
fn js_evaluation() {
    assert_eq!(eval_js("1 + 1"), Some("2".to_string()));
    assert_eq!(eval_js("   "), None);
    assert_eq!(eval_js("null"), None);
    assert_eq!(eval_js("'  '"), None);
    assert_eq!(eval_js_with_context("result + '!'", Some("hi"), None, None), Some("hi!".to_string()));
    assert_eq!(eval_js_with_context("baseUrl", None, Some("http://x/"), None), Some("http://x/".to_string()));
    assert_eq!(eval_js_with_context("book.name", None, None, Some("({name: 'B'})")), Some("B".to_string()));
    assert_eq!(eval_js("java.base64Encode('ab')"), Some("YWI=".to_string()));
    assert_eq!(eval_js("java.base64Decode('YWI=')"), Some("ab".to_string()));
    assert_eq!(eval_js("java.encodeURI('a b')"), Some("a+b".to_string()));
    assert!(eval_js("throw new Error('boom')").unwrap().contains("boom"));
}

#[test]
fn js_rules_in_the_engine() {
    let d = HtmlDoc::parse(PAGE);
    assert_eq!(extract_list_single_rule(&d, "ol li<js>result.toUpperCase()</js>"), vec!["X", "Y", "Z"]);
    // A rule that is only a script chain has an empty base, which selects nothing.
    assert_eq!(extract_single_rule(&d, "@js:'v' + 1"), None);
    assert_eq!(
        extract_text_from_document_with_context(&d, Some(&"<js>baseUrl</js>".to_string()), None, Some("u"), None),
        None
    );
    assert_eq!(
        extract_text_from_document_with_context(&d, Some(&"h1@text<js>baseUrl + result</js>".to_string()), None, Some("u"), None),
        Some("uTitle".to_string())
    );
}

#[test]
fn js_text_values() {
    assert_eq!(js_text_value(JsText::Absent), None);
    assert_eq!(js_text_value(JsText::Unreadable), None);
    assert_eq!(js_text_value(JsText::Text(" ".to_string())), None);
    assert_eq!(js_text_value(JsText::Text("a".to_string())), Some("a".to_string()));
}

#[test]
fn base64_helpers() {
    assert_eq!(base64_encode_text(""), "");
    assert_eq!(base64_encode_text("a"), "YQ==");
    assert_eq!(base64_encode_text("abc"), "YWJj");
    assert_eq!(base64_decode_to_text("YWJj"), "abc");
    assert_eq!(base64_decode_to_text("not base64!"), "");
    assert_eq!(base64_decode_to_text("YQ"), "");
    assert_eq!(base64_decode_to_text("/w=="), "");
    let text = "中文 ab";
    assert_eq!(base64_decode_to_text(&base64_encode_text(text)), text);
}

#[test]
fn element_rules() {
    let d = HtmlDoc::parse(PAGE);
    let ol = select_with_jsoup(&d, "ol").unwrap()[0];
    assert_eq!(extract_list_from_element(&d, ol, "li"), vec!["x", "y", "z"]);
    assert_eq!(extract_text_from_element(&d, ol, "li.2@text"), Some("z".to_string()));
    assert_eq!(extract_text_from_element(&d, ol, "h1"), None);
}

#[test]
fn script_globals_are_planned_in_order() {
    let plan = context_plan(Some("r"), Some("http://x/"), Some("({})"));
    assert_eq!(plan.len(), 5);
    assert!(matches!(&plan[0], GlobalStep::Text(n, v) if n == "result" && v == "r"));
    assert!(matches!(&plan[1], GlobalStep::Text(n, v) if n == "baseUrl" && v == "http://x/"));
    assert!(matches!(&plan[2], GlobalStep::Book(j) if j == "({})"));
    assert!(matches!(&plan[3], GlobalStep::Java));
    assert!(matches!(&plan[4], GlobalStep::WindowAt(u) if u == "http://x/"));

    let bare = context_plan(None, None, None);
    assert_eq!(bare.len(), 2);
    assert!(matches!(&bare[0], GlobalStep::Java));
    assert!(matches!(&bare[1], GlobalStep::Window));
}

#[test]
fn scripts_run_after_their_globals() {
    let plan = context_plan(Some("a"), Some("http://x/"), None);
    let mut interp = Interpreter::new();
    assert_eq!(run_with_plan(&mut interp, &plan, "result + window.location"), Some("ahttp://x/".to_string()));
    let mut interp = Interpreter::new();
    let bare = context_plan(None, None, None);
    assert_eq!(run_with_plan(&mut interp, &bare, "typeof window.location"), Some("undefined".to_string()));
    let mut interp = Interpreter::new();
    let broken_book = context_plan(None, None, Some("({"));
    assert_eq!(run_with_plan(&mut interp, &broken_book, "typeof book"), Some("undefined".to_string()));
}

#[test]
fn endless_scripts_are_stopped() {
    let r = eval_js("while (true) {}").unwrap();
    assert!(r.contains("loop"));
    let r = eval_js("function f() { return f(); } f()").unwrap();
    assert!(r.contains("recursi"));
}

#[test]
fn one_interpreter_keeps_its_globals() {
    let mut interp = Interpreter::new();
    assert_eq!(eval_js_in(&mut interp, "var kept = 41; kept", None, None, None), Some("41".to_string()));
    assert_eq!(eval_js_in(&mut interp, "kept + 1", None, None, None), Some("42".to_string()));
    assert_eq!(eval_js_in(&mut interp, "  ", None, None, None), None);
}

#[test]
fn chained_scripts_see_the_value() {
    let ctx = RuleContext::new(Some("ctx".to_string()), Some("http://b/".to_string()), None);
    assert_eq!(apply_js_chain("v".to_string(), &Some("result + baseUrl".to_string()), &ctx), Some("vhttp://b/".to_string()));
    assert_eq!(apply_js_chain("v".to_string(), &None, &ctx), Some("v".to_string()));
    let mut interp = Interpreter::new();
    assert_eq!(apply_js_chain_in(&mut interp, "w".to_string(), &Some("result".to_string()), &ctx), Some("w".to_string()));
    assert_eq!(ctx.eval_js("result", None), Some("ctx".to_string()));
}

#[test]
fn json_paths_with_filters_are_not_evaluated() {
    let text = r#"{"list":[{"name":"A","n":1},{"name":"B","n":2}]}"#;
    assert!(extract_json_path_values_from_text(text, "$.list[?(@.n > 1)].name").is_empty());
    assert!(extract_json_path_values_from_text(text, "$.list[0:2:0].name").is_empty());
    assert_eq!(extract_json_path_values_from_text(text, "$.list[0:1].name"), vec!["A"]);
}
