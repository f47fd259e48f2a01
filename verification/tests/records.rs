use textrest::api::{get_config_dir, get_config_path, BookApi, BookSourceApi, ReadRecordApi, WebBookApi};
use textrest::base_parser::{BaseParser, ParserRegistry};
use textrest::book_source_parser::BookSourceParser;
use textrest::epub::{EpubParser, EpubResources, EpubSource, SpineEntry, TocEntry};
use textrest::json::JsonScalar;
use textrest::models::{Book, BookSource, Chapter, ChapterContent};
use textrest::web_book::WebBookParser;

#[test]
fn stored_errors_are_reported_with_context() {
    let books = BookApi::new().unwrap();
    assert_eq!(books.load_book_toc(Err("boom".to_string())).unwrap_err().message, "加载目录失败: boom");
    assert_eq!(books.get_book(Err("x".to_string())).unwrap_err().message, "获取书籍失败: x");
    assert_eq!(books.list_books(Ok(Vec::new())).unwrap().len(), 0);
    let sources = BookSourceApi::new().unwrap();
    assert_eq!(sources.list_all_sources(Err("e".to_string())).unwrap_err().message, "获取所有书源列表失败: e");
    let records = ReadRecordApi::new().unwrap();
    assert_eq!(records.delete_read_record(Err("d".to_string())).unwrap_err().message, "删除阅读进度失败: d");
    assert!(records.update_read_record(Ok(())).is_ok());
    let web = WebBookApi::new().unwrap();
    assert_eq!(web.load_book_sources(Err("s".to_string())).unwrap_err().message, "加载书源失败: s");
}

fn chapter(url: &str) -> Chapter {
    let mut c = Chapter::default();
    c.url = url.to_string();
    c
}

#[test]
fn chapter_targets() {
    let api = BookApi::new().unwrap();
    let mut book = Book::default();
    book.book_type = "epub".to_string();
    let chapters = vec![chapter("a.xhtml"), chapter("b.xhtml")];
    assert_eq!(api.load_chapter_content(Ok(None), Ok(chapters.clone()), 0).unwrap_err().message, "书籍不存在");
    assert_eq!(
        api.load_chapter_content(Ok(Some(book.clone())), Ok(chapters.clone()), 2).unwrap_err().message,
        "章节索引超出范围"
    );
    assert_eq!(
        api.load_chapter_content(Ok(Some(book.clone())), Ok(chapters.clone()), 1).unwrap_err().message,
        "书籍文件路径缺失"
    );
    book.toc_url = Some("/books/x.epub".to_string());
    let t = api.load_chapter_content(Ok(Some(book)), Ok(chapters), 1).unwrap();
    assert_eq!(t.file_path, "/books/x.epub");
    assert_eq!(t.chapter_url, "b.xhtml");
    assert_eq!(t.chapter_index, 1);
    let res = EpubResources { entries: vec![("b.xhtml".to_string(), b"<p>B</p>".to_vec())] };
    assert_eq!(api.chapter_text(&t, &res).unwrap(), "<p>B</p>");
}

#[test]
fn network_books_and_progress() {
    let api = WebBookApi::new().unwrap();
    let r = api.create_read_record("b".to_string(), -5, 7);
    assert_eq!(r.dur_chapter_index, 0);
    assert_eq!(r.dur_chapter_pos, 7);
    assert_eq!(r.last_chapter_pos, 7);
    assert!(r.last_read_time.is_some());

    let mut src = BookSource::with_update_time("t".to_string());
    src.book_source_name = "名".to_string();
    let mut parsed = Book::default();
    parsed.origin = Some("  ".to_string());
    let b = api.normalize_network_book(parsed, &vec!["http://t/1".to_string()], "http://b/1", &src);
    assert_eq!(b.book_id, "http://b/1");
    assert_eq!(b.origin, Some("名".to_string()));
    assert_eq!(b.toc_url, Some("http://t/1".to_string()));

    assert_eq!(api.toc_pages(Vec::new(), "http://b/1"), vec!["http://b/1".to_string()]);
    let cs = api.attach_book_id(vec![chapter("u")], "id");
    assert_eq!(cs[0].book_id, "id");
    assert_eq!(cs[0].url, "u");
}

#[test]
fn config_locations() {
    assert_eq!(get_config_dir(Some("/home/u/.config"), "textrest"), Some("/home/u/.config/textrest".to_string()));
    assert_eq!(get_config_dir(None, "textrest"), None);
    assert_eq!(get_config_path("/x"), "/x/config.json");
}

#[test]
fn book_sources_from_json_text() {
    let text = r#"[{"bookSourceUrl":"http://s/","bookSourceName":"S","weight":3,"enabled":false,
        "header":"{}","bookSourceType":4294967297,"searchRule":{"list":"a"},"ruleToc":{"chapterList":"li"}}]"#;
    let v = BookSourceParser::from_text(text).unwrap();
    assert_eq!(v.len(), 1);
    let (s, slots) = &v[0];
    assert_eq!(s.book_source_url, "http://s/");
    assert_eq!(s.book_source_name, "S");
    assert_eq!(s.weight, 3);
    assert!(!s.enabled);
    assert_eq!(s.header, Some("{}".to_string()));
    assert_eq!(s.book_source_type, 1);
    assert!(matches!(slots.search_rule, Some(JsonScalar::Other(_))));
    assert!(matches!(slots.toc_rule, Some(JsonScalar::Other(_))));
    assert!(slots.content_rule.is_none());

    let one = BookSourceParser::from_text(r#"{"bookSourceUrl":"u","bookSourceName":"n"}"#).unwrap();
    assert_eq!(one.len(), 1);
    assert!(one[0].0.enabled);

    assert_eq!(BookSourceParser::from_text("nope").unwrap_err().message, "无效的书源JSON格式");
    assert_eq!(BookSourceParser::from_text("[]").unwrap_err().message, "书源数组为空");
    assert_eq!(
        BookSourceParser::from_text(r#"[{"bookSourceName":"n"}]"#).unwrap_err().message,
        "缺少 bookSourceUrl 字段"
    );
    assert_eq!(
        BookSourceParser::from_text(r#"{"bookSourceUrl":"u"}"#).unwrap_err().message,
        "缺少 bookSourceName 字段"
    );
    assert_eq!(BookSourceParser::from_text("[1]").unwrap_err().message, "缺少 bookSourceUrl 字段");
    let imported = BookSourceApi::new().unwrap().import_from_text(r#"{"bookSourceUrl":"u","bookSourceName":"n"}"#).unwrap();
    assert_eq!(imported[0].0.book_source_url, "u");
}

#[test]
fn word_counts_and_ids() {
    assert_eq!(BaseParser::calculate_word_count("Hello, 世界 abc"), 4);
    assert_eq!(BaseParser::calculate_word_count(""), 0);
    assert_eq!(BaseParser::calculate_word_count("a-b c"), 3);
    assert_eq!(BaseParser::generate_id(b"", "epub"), "epub:ef46db3751d8e999");
    let r = BaseParser::create_read_record("b", 0);
    assert_eq!(r.last_chapter_index, 0);
    let r = BaseParser::create_read_record("b", 5);
    assert_eq!(r.last_chapter_index, 4);
}

fn epub_source() -> EpubSource {
    EpubSource {
        file_path: "/books/My Book.epub".to_string(),
        file_bytes: Vec::new(),
        metadata: vec![
            ("title".to_string(), "书".to_string()),
            ("creator".to_string(), "作者".to_string()),
            ("date".to_string(), "2020".to_string()),
            ("identifier".to_string(), "urn:isbn:123".to_string()),
            ("subject".to_string(), "小说".to_string()),
        ],
        cover_url: None,
        toc: vec![TocEntry { label: "第一章".to_string(), content: "OEBPS\\text\\c1.xhtml#p1".to_string() }],
        spine: vec![
            SpineEntry { idref: "c1".to_string(), content: Some(b"<html><h1>Title <b>One</b></h1></html>".to_vec()) },
            SpineEntry { idref: "c2".to_string(), content: None },
        ],
    }
}

#[test]
fn epub_books() {
    let (book, chapters, record) = EpubParser::parse(&epub_source());
    assert_eq!(book.book_id, "epub:ef46db3751d8e999");
    assert_eq!(book.name, "书");
    assert_eq!(book.author, "作者");
    assert_eq!(book.publish_date, Some(2020));
    assert_eq!(book.isbn, Some("123".to_string()));
    assert_eq!(book.kind, Some("小说".to_string()));
    assert_eq!(book.word_count, 6000);
    assert_eq!(book.book_type, "epub");
    assert_eq!(book.origin, Some("本地文件".to_string()));
    assert_eq!(book.status, "已完成");
    assert_eq!(book.toc_url, Some("/books/My Book.epub".to_string()));
    assert_eq!(chapters.len(), 1);
    assert_eq!(chapters[0].url, "OEBPS/text/c1.xhtml");
    assert_eq!(chapters[0].id, 1);
    assert_eq!(book.latest_chapter_title, Some("第一章".to_string()));
    assert_eq!(record.last_chapter_index, 0);

    let mut bare = epub_source();
    bare.toc = Vec::new();
    bare.metadata = Vec::new();
    let (book, chapters, _) = EpubParser::parse(&bare);
    assert_eq!(book.name, "My Book");
    assert_eq!(book.author, "未知作者");
    assert_eq!(chapters[0].title, "Title One");
    assert_eq!(chapters[0].url, "c1");
    assert_eq!(chapters[1].title, "章节 2");
    assert_eq!(chapters[1].chapter_index, 1);
}

#[test]
fn epub_registry_and_content() {
    let reg = ParserRegistry::default_registry();
    assert_eq!(reg.parse_book("/b/x".to_string(), &epub_source()).unwrap_err().message, "无法获取文件扩展名");
    assert_eq!(reg.parse_book("/b/x.txt".to_string(), &epub_source()).unwrap_err().message, "不支持的文件格式");
    assert!(reg.parse_book("/b/x.EPUB".to_string(), &epub_source()).is_ok());

    let res = EpubResources {
        entries: vec![("text/a.xhtml".to_string(), b"A".to_vec()), ("bad.xhtml".to_string(), vec![0xff])],
    };
    assert_eq!(EpubParser::get_content("OEBPS/text/a.xhtml#x", &res).unwrap(), "A");
    assert_eq!(EpubParser::get_content("a.xhtml", &res).unwrap(), "A");
    assert_eq!(EpubParser::get_content("bad.xhtml", &res).unwrap_err().message, "章节内容不是有效的UTF-8");
    assert!(EpubParser::get_content("zzz", &res)
        .unwrap_err()
        .message
        .starts_with("无法获取章节内容: content_ref=zzz resources_preview="));
    assert_eq!(
        BaseParser::get_chapter_content("txt", 0, Some("a"), &res).unwrap_err().message,
        "不支持的文件格式"
    );
    assert_eq!(BaseParser::get_chapter_content("epub", 0, None, &res).unwrap_err().message, "EPUB章节路径缺失");
}

#[test]
fn epub_text_helpers() {
    assert_eq!(EpubParser::normalize_content_ref("a\\b.xhtml#frag"), "a/b.xhtml");
    assert_eq!(EpubParser::strip_html_tags("<p>a<b>b</b></p>c"), "abc");
    assert_eq!(EpubParser::extract_title_from_html("<TITLE>T</TITLE>"), Some("T".to_string()));
    assert_eq!(EpubParser::extract_title_from_html("<p>none</p>"), None);
    assert_eq!(EpubParser::strip_isbn_prefix("urn:isbn:9"), "9");
    assert_eq!(EpubParser::cover_file_name("My Book!", "img/cover.jpg"), "cover_MyBook.jpg");
}

#[test]
fn sources_are_read_object_by_object() {
    let text = r#"[{"bookSourceUrl":"a","bookSourceName":"A"},{"bookSourceName":"B"},{"bookSourceUrl":"c"}]"#;
    assert_eq!(BookSourceParser::from_text(text).unwrap_err().message, "缺少 bookSourceUrl 字段");
    let two = BookSourceParser::from_text(r#"[{"bookSourceUrl":"a","bookSourceName":"A"},{"bookSourceUrl":"b","bookSourceName":"B"}]"#).unwrap();
    let names: Vec<&str> = two.iter().map(|(s, _)| s.book_source_name.as_str()).collect();
    assert_eq!(names, vec!["A", "B"]);
}

#[test]
fn chapter_texts_come_out_in_chapter_order() {
    let c = |t: &str| ChapterContent { book_id: "b".to_string(), content: t.to_string() };
    let arrivals = vec![(2, Ok(c("three"))), (0, Ok(c("one"))), (1, Ok(c("two")))];
    let v = WebBookParser::collect_contents(3, &arrivals).unwrap();
    let texts: Vec<&str> = v.iter().map(|x| x.content.as_str()).collect();
    assert_eq!(texts, vec!["one", "two", "three"]);
}

#[test]
fn epub_reading_record_starts_at_the_beginning() {
    let (book, _, record) = EpubParser::parse(&epub_source());
    assert_eq!(record.book_id, book.book_id);
    assert_eq!(record.dur_chapter_index, 0);
    assert_eq!(record.dur_chapter_pos, 0);
    assert_eq!(record.last_chapter_pos, 0);
    assert_eq!(record.total_read_time, 0);
    assert_eq!(record.last_read_time, None);
}
