use textrest::book_info::parse_book_info;
use textrest::chapter::{parse_book_toc, parse_chapter_content};
use textrest::models::{Book, BookInfoRule, BookSource, ContentRule, SearchRule, TocRule};
use textrest::search_result::parse_search_result;
use textrest::web_book::{TocCrawl, WebBookParser};
use textrest::base_parser::ParserRegistry;

fn toc_rule(list: Option<&str>, name: Option<&str>, url: Option<&str>, next: Option<&str>) -> TocRule {
    TocRule {
        pre_update_js: None,
        chapter_list: list.map(|s| s.to_string()),
        chapter_name: name.map(|s| s.to_string()),
        chapter_url: url.map(|s| s.to_string()),
        format_js: None,
        is_volume: None,
        is_vip: None,
        is_pay: None,
        update_time: None,
        next_toc_url: next.map(|s| s.to_string()),
    }
}

fn content_rule(content: Option<&str>) -> ContentRule {
    ContentRule {
        init: None,
        content: content.map(|s| s.to_string()),
        next_content: None,
        prev_content: None,
        refresh_content: None,
        replace_regex: None,
        remove_regex: None,
        css_selector: None,
        is_web_view: None,
        js: None,
        encode: None,
    }
}

fn source(url: &str) -> BookSource {
    let mut s = BookSource::with_update_time("2024-01-01T00:00:00+00:00".to_string());
    s.book_source_url = url.to_string();
    s.book_source_name = "源".to_string();
    s
}

const TOC: &str = "<html><body><ul id=\"list\">\
<li><a href=\"/c1.html\">第一章</a></li>\
<li><a href=\"/c2.html\">第二章</a></li>\
<li><a href=\"/c1.html\">重复</a></li>\
</ul><a href=\"/toc2.html\">下一页</a></body></html>";

#[test]
fn toc_page_with_css_rules() {
    let rule = toc_rule(Some("#list li a"), Some("text"), Some("@href"), None);
    let r = parse_book_toc(TOC, &rule, 5, "http://example.com/book/1/").unwrap();
    assert_eq!(r.chapters.len(), 2);
    assert_eq!(r.chapters[0].title, "第一章");
    assert_eq!(r.chapters[0].url, "http://example.com/c1.html");
    assert_eq!(r.chapters[0].chapter_index, 5);
    assert_eq!(r.chapters[1].title, "第二章");
    assert_eq!(r.chapters[1].chapter_index, 6);
    assert_eq!(r.next_index, 7);
    assert_eq!(r.next_toc_url, Some("http://example.com/toc2.html".to_string()));

    // A bare attribute name after an element is read as a selector: no links.
    let bare = toc_rule(Some("#list li a"), Some("text"), Some("href"), None);
    assert!(parse_book_toc(TOC, &bare, 0, "http://example.com/").unwrap().chapters.is_empty());
}

#[test]
fn toc_page_with_all_in_one_rule() {
    let rule = toc_rule(Some(":<a href=\"([^\"]+)\">([^<]+)</a>"), Some("$2"), Some("$1"), None);
    let r = parse_book_toc(TOC, &rule, 0, "http://example.com/").unwrap();
    let titles: Vec<&str> = r.chapters.iter().map(|c| c.title.as_str()).collect();
    assert_eq!(titles, vec!["第一章", "第二章", "下一页"]);
    assert_eq!(r.chapters[2].url, "http://example.com/toc2.html");
    assert_eq!(r.next_index, 3);

    let reversed = toc_rule(Some("-:<a href=\"([^\"]+)\">([^<]+)</a>"), Some("$2"), Some("$1"), None);
    let r = parse_book_toc(TOC, &reversed, 0, "http://example.com/").unwrap();
    let titles: Vec<&str> = r.chapters.iter().map(|c| c.title.as_str()).collect();
    assert_eq!(titles, vec!["下一页", "重复", "第二章"]);
}

#[test]
fn toc_page_without_list_rule_is_an_error() {
    let rule = toc_rule(None, Some("text"), Some("href"), None);
    let e = parse_book_toc(TOC, &rule, 0, "http://example.com/").unwrap_err();
    assert_eq!(e.message, "缺少目录列表规则");
}

#[test]
fn chapter_text_is_joined_and_trimmed() {
    let html = "<html><body><div id=\"content\"><p> a </p><p>b</p></div><p class=\"x\">one</p><p class=\"x\">two</p></body></html>";
    assert_eq!(parse_chapter_content(html, &content_rule(Some("#content@textNodes"))).unwrap(), "a b");
    assert_eq!(parse_chapter_content(html, &content_rule(Some("class.x@text"))).unwrap(), "one\n\ntwo");
    assert_eq!(parse_chapter_content(html, &content_rule(Some("#missing@text"))).unwrap(), "");
    assert_eq!(parse_chapter_content(html, &content_rule(None)).unwrap_err().message, "缺少内容规则");
}

fn search_rule() -> SearchRule {
    SearchRule {
        init: None,
        list: Some("class.item".to_string()),
        name: Some("a@text".to_string()),
        url: Some("a@href".to_string()),
        cover: None,
        author: Some("class.au@text".to_string()),
        intro: None,
        kind: None,
        last_chapter: None,
        update_time: None,
        word_count: Some("tag.i@text".to_string()),
        next_page: None,
    }
}

#[test]
fn search_results_from_list_items() {
    let html = "<html><body>\
<div class=\"item\"><a href=\"/b/1\">书一</a><span class=\"au\">作者甲</span><i>12万字</i></div>\
<div class=\"item\"><a href=\"http://x.com/b/2\">书二</a></div>\
<div class=\"item\"><span class=\"au\">无名</span></div>\
</body></html>";
    let src = source("http://src.com/");
    let r = parse_search_result(html, &search_rule(), &src).unwrap();
    assert_eq!(r.len(), 2);
    assert_eq!(r[0].book.name, "书一");
    assert_eq!(r[0].book_url, "http://src.com/b/1");
    assert_eq!(r[0].book.book_id, "http://src.com/b/1");
    assert_eq!(r[0].book.author, "作者甲");
    assert_eq!(r[0].book.word_count, 12);
    assert_eq!(r[0].book.toc_url, Some("http://src.com/b/1".to_string()));
    assert_eq!(r[0].book.origin, Some("http://src.com/".to_string()));
    assert_eq!(r[0].book.book_type, "网络小说");
    assert_eq!(r[0].book.status, "连载中");
    assert_eq!(r[1].book.name, "书二");
    assert_eq!(r[1].book_url, "http://x.com/b/2");
    assert_eq!(r[1].book.author, "");
    assert_eq!(r[1].book.word_count, 0);
}

#[test]
fn search_results_with_all_in_one_rule() {
    let html = "<a href=\"/b/1\">甲</a><a href=\"b/2\">乙</a>";
    let mut rule = search_rule();
    rule.list = Some(":<a href=\"([^\"]+)\">([^<]+)</a>".to_string());
    rule.name = Some("$2".to_string());
    rule.url = Some("$1".to_string());
    rule.author = Some("$9".to_string());
    rule.word_count = None;
    let mut src = source("");
    src.book_source_name = "名源".to_string();
    let r = parse_search_result(html, &rule, &src).unwrap();
    assert_eq!(r.len(), 2);
    assert_eq!(r[0].book_url, "http://www.haitaozhe.com/b/1");
    assert_eq!(r[1].book_url, "http://www.haitaozhe.com/b/2");
    assert_eq!(r[0].book.author, "$9");
    assert_eq!(r[0].book.origin, Some("名源".to_string()));
}

#[test]
fn search_without_list_rule_is_an_error() {
    let mut rule = search_rule();
    rule.list = None;
    let e = parse_search_result("<p></p>", &rule, &source("http://s/")).unwrap_err();
    assert_eq!(e.message, "缺少搜索列表规则");
}

fn info_rule() -> BookInfoRule {
    BookInfoRule {
        init: None,
        name: Some("class.name@text".to_string()),
        author: Some("class.author@text".to_string()),
        intro: Some("#intro@text".to_string()),
        kind: None,
        last_chapter: None,
        update_time: None,
        cover_url: None,
        toc_url: Some("class.toc@text".to_string()),
        word_count: Some("class.wc@text".to_string()),
        can_re_name: None,
        download_urls: None,
    }
}

const DETAIL: &str = "<html><head><title>T</title><meta property=\"og:image\" content=\"/og.png\"></head><body>\
<h1 class=\"name\">书名</h1><p class=\"author\">作者乙</p><div id=\"intro\">简介</div>\
<span class=\"wc\">30万字</span><a class=\"toc\" href=\"/toc/1\">/toc/2</a></body></html>";

#[test]
fn book_detail_page() {
    let src = source("http://site.com/");
    let (book, tocs) = parse_book_info(DETAIL, &info_rule(), "http://site.com/book/1", &src, None).unwrap();
    assert_eq!(book.book_id, "http://site.com/book/1");
    assert_eq!(book.name, "书名");
    assert_eq!(book.author, "作者乙");
    assert_eq!(book.intro, Some("简介".to_string()));
    assert_eq!(book.kind, Some("".to_string()));
    assert_eq!(book.cover_url, Some("http://site.com/og.png".to_string()));
    assert_eq!(book.word_count, 30);
    assert_eq!(book.latest_chapter_title, None);
    assert_eq!(tocs, vec!["http://site.com/toc/2".to_string()]);
    assert_eq!(book.toc_url, Some("http://site.com/toc/2".to_string()));

    // An attribute at the end of a document rule is read as a selector.
    let mut by_attr = info_rule();
    by_attr.toc_url = Some("class.toc@href".to_string());
    let (_, tocs) = parse_book_info(DETAIL, &by_attr, "http://site.com/book/1", &src, None).unwrap();
    assert_eq!(tocs, vec!["http://site.com/book/1".to_string()]);
    assert_eq!(book.add_time, 0);
}

#[test]
fn book_detail_merges_the_base_book() {
    let src = source("http://site.com/");
    let mut rule = info_rule();
    rule.toc_url = None;
    rule.word_count = None;
    let mut base = Book::default();
    base.kind = Some("玄幻".to_string());
    base.word_count = 9;
    base.add_time = 77;
    let (book, tocs) = parse_book_info(DETAIL, &rule, "http://site.com/book/1", &src, Some(&base)).unwrap();
    assert_eq!(book.kind, Some("玄幻".to_string()));
    assert_eq!(book.word_count, 9);
    assert_eq!(book.add_time, 77);
    assert_eq!(tocs, vec!["http://site.com/book/1".to_string()]);
}

#[test]
fn book_detail_without_a_name_is_an_error() {
    let mut rule = info_rule();
    rule.name = None;
    let e = parse_book_info(DETAIL, &rule, "http://site.com/book/1", &source("http://site.com/"), None).unwrap_err();
    assert!(e.message.starts_with("无法提取书籍名称: url=http://site.com/book/1"));
}

#[test]
fn search_url_template() {
    let mut src = source("http://s.com/");
    assert_eq!(WebBookParser::build_search_url("x", &src), None);
    src.search_url = Some("`https://s.com/search?q={{key}}&p={{page}}`".to_string());
    assert_eq!(
        WebBookParser::build_search_url("三体 x", &src),
        Some("https://s.com/search?q=%E4%B8%89%E4%BD%93+x&p=1".to_string())
    );
    src.search_url = Some(" 'https://s.com/?k={keyword}&p={page}' ".to_string());
    assert_eq!(WebBookParser::build_search_url("a&b", &src), Some("https://s.com/?k=a%26b&p=1".to_string()));
}

#[test]
fn html_is_left_as_it_is() {
    let html = "<script>x</script><style>y</style>";
    assert_eq!(WebBookParser::replace_html(html), html);
}

#[test]
fn toc_walk_follows_next_pages_once() {
    let page1 = "<ul id=\"list\"><li><a href=\"/c1\">一</a></li></ul><a href=\"/toc2\">下一页</a>";
    let page2 = "<ul id=\"list\"><li><a href=\"/c2\">二</a></li></ul><a href=\"/toc\">下一页</a>";
    let rule = toc_rule(Some("#list li a"), Some("text"), Some("@href"), None);
    let mut walk = TocCrawl::new("http://e.com/toc");
    assert_eq!(walk.next_request(), Some("http://e.com/toc".to_string()));
    assert_eq!(walk.on_page(page1, &rule).unwrap(), true);
    assert_eq!(walk.next_request(), Some("http://e.com/toc2".to_string()));
    assert_eq!(walk.on_page(page2, &rule).unwrap(), true);
    assert_eq!(walk.next_request(), None);
    let chapters = walk.into_chapters();
    assert_eq!(chapters.len(), 2);
    assert_eq!(chapters[0].url, "http://e.com/c1");
    assert_eq!(chapters[1].chapter_index, 1);
}

#[test]
fn toc_walk_reports_a_page_read_before_request() {
    let rule = toc_rule(Some("#list li a"), Some("text"), Some("href"), None);
    let mut walk = TocCrawl::new("http://e.com/toc");
    assert_eq!(walk.on_page("<p></p>", &rule).unwrap_err().message, "目录页面未请求");
}

#[test]
fn book_detail_fields_read_by_their_own_rules() {
    let src = source("http://site.com/");
    let mut rule = info_rule();
    rule.author = Some("class.author@text<js>result + '!'</js>".to_string());
    let (book, tocs) = parse_book_info(DETAIL, &rule, "http://site.com/book/1", &src, None).unwrap();
    assert_eq!(book.name, "书名");
    assert_eq!(book.author, "作者乙!");
    assert_eq!(book.intro, Some("简介".to_string()));
    assert_eq!(tocs, vec!["http://site.com/toc/2".to_string()]);
}

#[test]
fn search_fields_read_by_their_own_rules() {
    let html = "<html><body><div class=\"item\"><a href=\"/b/1\">书一</a><span class=\"au\">甲</span></div></body></html>";
    let mut rule = search_rule();
    rule.intro = Some("class.au@text<js>result + '?'</js>".to_string());
    let r = parse_search_result(html, &rule, &source("http://src.com/")).unwrap();
    assert_eq!(r.len(), 1);
    assert_eq!(r[0].book.name, "书一");
    assert_eq!(r[0].book.author, "甲");
    assert_eq!(r[0].book.intro, Some("甲?".to_string()));
}

const SECTIONS: &str = "<html><body>\
<div class=\"section chapter_list\"><h2 class=\"title\">最新章节</h2><ul><li><a href=\"/c9.html\">第九章</a></li></ul></div>\
<div class=\"section chapter_list\"><h2 class=\"title\">正文</h2><ul><li><a href=\"/c1.html\">第一章</a></li>\
<li><a href=\"c2.html\">第二章</a></li></ul></div></body></html>";

#[test]
fn toc_with_latest_chapters_section_reads_the_second_section() {
    let rule = toc_rule(Some(".section.chapter_list ul li a"), Some("text"), Some("@href"), None);
    let r = parse_book_toc(SECTIONS, &rule, 0, "http://example.com/book/").unwrap();
    let titles: Vec<&str> = r.chapters.iter().map(|c| c.title.as_str()).collect();
    assert_eq!(titles, vec!["第一章", "第二章"]);
    assert_eq!(r.chapters[1].url, "http://example.com/book/c2.html");
    assert!(r.chapters.iter().all(|c| !c.title.is_empty() && !c.url.is_empty()));
    assert_eq!(r.next_index, 2);
}

#[test]
fn toc_rule_flags_are_texts() {
    let mut rule = toc_rule(Some("#list li a"), Some("text"), Some("@href"), None);
    rule.is_vip = Some(String::new());
    rule.is_volume = Some("false".to_string());
    let r = parse_book_toc(TOC, &rule, 0, "http://example.com/").unwrap();
    assert_eq!(r.chapters.len(), 2);
    assert!(r.chapters.iter().all(|c| !c.is_vip));
}

#[test]
fn book_info_rule_is_checked_before_fetching() {
    let mut src = source("http://site.com/");
    assert_eq!(WebBookParser::require_book_info_rule(&src).unwrap_err().message, "书源未配置书籍信息规则");
    src.book_info_rule = Some(info_rule());
    assert!(WebBookParser::require_book_info_rule(&src).is_ok());
}

#[test]
fn registry_dispatch_ignores_extension_case() {
    let reg = ParserRegistry::default_registry();
    assert!(reg.parser_for("a/b.EPUB").is_ok());
    assert!(reg.parser_for("a/b.Epub").is_ok());
    assert_eq!(reg.parser_for("a/b.txt").unwrap_err().message, "不支持的文件格式");
}

#[test]
fn toc_and_content_rules_are_checked_before_fetching() {
    let mut src = source("http://site.com/");
    assert_eq!(WebBookParser::toc_rule_of(&src).unwrap_err().message, "书源未配置目录规则");
    assert_eq!(WebBookParser::require_content_rule(&src).unwrap_err().message, "书源未配置内容规则");
    src.toc_rule = Some(toc_rule(Some("#list li a"), None, None, None));
    src.content_rule = Some(content_rule(Some("#c")));
    assert_eq!(WebBookParser::toc_rule_of(&src).unwrap().chapter_list, Some("#list li a".to_string()));
    assert!(WebBookParser::require_content_rule(&src).is_ok());
}
