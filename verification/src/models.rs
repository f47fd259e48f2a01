//! The records the reader keeps: books, chapters, reading progress, book
//! sources with their rules, and configuration.
use vstd::prelude::*;

verus! {

/// A book on the shelf (`books` table).
#[derive(Debug, Clone)]
pub struct Book {
    pub book_id: String,
    pub name: String,
    pub author: String,
    pub kind: Option<String>,
    pub cover_url: Option<String>,
    pub intro: Option<String>,
    /// The book source it came from.
    pub origin: Option<String>,
    pub book_type: String,
    pub word_count: u32,
    pub latest_chapter_title: Option<String>,
    pub toc_url: Option<String>,
    pub book_group: Option<String>,
    /// Time added, in seconds.
    pub add_time: i64,
    pub last_read_time: Option<i64>,
    pub isbn: Option<String>,
    pub publisher: Option<String>,
    pub publish_date: Option<i64>,
    pub status: String,
}

impl Default for Book {
    fn default() -> (b: Self)
        ensures
            b.book_id@.len() == 0,
            b.name@.len() == 0,
            b.author@.len() == 0,
            b.kind is None,
            b.cover_url is None,
            b.intro is None,
            b.origin is None,
            b.book_type@.len() == 0,
            b.word_count == 0,
            b.latest_chapter_title is None,
            b.toc_url is None,
            b.book_group is None,
            b.add_time == 0,
            b.last_read_time is None,
            b.isbn is None,
            b.publisher is None,
            b.publish_date is None,
            b.status@.len() == 0,
    {
        Book {
            book_id: String::new(),
            name: String::new(),
            author: String::new(),
            kind: None,
            cover_url: None,
            intro: None,
            origin: None,
            book_type: String::new(),
            word_count: 0,
            latest_chapter_title: None,
            toc_url: None,
            book_group: None,
            add_time: 0,
            last_read_time: None,
            isbn: None,
            publisher: None,
            publish_date: None,
            status: String::new(),
        }
    }
}

/// A chapter of a book (`chapters` table).
#[derive(Debug, Clone)]
pub struct Chapter {
    pub id: u32,
    pub book_id: String,
    pub title: String,
    pub url: String,
    pub chapter_index: u32,
    pub word_count: u32,
    pub is_vip: bool,
}

impl Default for Chapter {
    fn default() -> (c: Self)
        ensures
            c.id == 0,
            c.book_id@.len() == 0,
            c.title@.len() == 0,
            c.url@.len() == 0,
            c.chapter_index == 0,
            c.word_count == 0,
            !c.is_vip,
    {
        Chapter {
            id: 0,
            book_id: String::new(),
            title: String::new(),
            url: String::new(),
            chapter_index: 0,
            word_count: 0,
            is_vip: false,
        }
    }
}

/// The text of one chapter of a book.
#[derive(Debug, Clone)]
pub struct ChapterContent {
    pub book_id: String,
    pub content: String,
}

/// Reading progress of a book (`read_records` table).
#[derive(Debug, Clone)]
pub struct ReadRecord {
    pub book_id: String,
    pub dur_chapter_index: u64,
    pub dur_chapter_pos: u64,
    pub last_chapter_index: u64,
    pub last_chapter_pos: u64,
    pub total_read_time: u64,
    pub last_read_time: Option<i64>,
}

impl Default for ReadRecord {
    fn default() -> (r: Self)
        ensures
            r.book_id@.len() == 0,
            r.dur_chapter_index == 0,
            r.dur_chapter_pos == 0,
            r.last_chapter_index == 0,
            r.last_chapter_pos == 0,
            r.total_read_time == 0,
            r.last_read_time is None,
    {
        ReadRecord {
            book_id: String::new(),
            dur_chapter_index: 0,
            dur_chapter_pos: 0,
            last_chapter_index: 0,
            last_chapter_pos: 0,
            total_read_time: 0,
            last_read_time: None,
        }
    }
}

/// Rules of the book-detail page.
#[derive(Debug, Clone)]
pub struct BookInfoRule {
    pub init: Option<String>,
    pub name: Option<String>,
    pub author: Option<String>,
    pub intro: Option<String>,
    pub kind: Option<String>,
    pub last_chapter: Option<String>,
    pub update_time: Option<String>,
    pub cover_url: Option<String>,
    pub toc_url: Option<String>,
    pub word_count: Option<String>,
    pub can_re_name: Option<String>,
    pub download_urls: Option<String>,
}

/// Rules of the chapter-text page.
#[derive(Debug, Clone)]
pub struct ContentRule {
    pub init: Option<String>,
    pub content: Option<String>,
    pub next_content: Option<String>,
    pub prev_content: Option<String>,
    pub refresh_content: Option<String>,
    pub replace_regex: Option<String>,
    pub remove_regex: Option<String>,
    pub css_selector: Option<String>,
    pub is_web_view: Option<bool>,
    pub js: Option<String>,
    pub encode: Option<String>,
}

/// Rules of the search-result page.
#[derive(Debug, Clone)]
pub struct SearchRule {
    pub init: Option<String>,
    pub list: Option<String>,
    pub name: Option<String>,
    pub url: Option<String>,
    pub cover: Option<String>,
    pub author: Option<String>,
    pub intro: Option<String>,
    pub kind: Option<String>,
    pub last_chapter: Option<String>,
    pub update_time: Option<String>,
    pub word_count: Option<String>,
    pub next_page: Option<String>,
}

/// Rules of the table-of-contents page.
#[derive(Debug, Clone)]
pub struct TocRule {
    pub pre_update_js: Option<String>,
    pub chapter_list: Option<String>,
    pub chapter_name: Option<String>,
    pub chapter_url: Option<String>,
    pub format_js: Option<String>,
    pub is_volume: Option<String>,
    pub is_vip: Option<String>,
    pub is_pay: Option<String>,
    pub update_time: Option<String>,
    pub next_toc_url: Option<String>,
}

/// Rules of the review page.
#[derive(Debug, Clone)]
pub struct ReviewRule {
    pub init: Option<String>,
    pub list: Option<String>,
    pub name: Option<String>,
    pub content: Option<String>,
    pub time: Option<String>,
    pub rating: Option<String>,
    pub next_page: Option<String>,
}

/// Rules of the explore page.
#[derive(Debug, Clone)]
pub struct ExploreRule {
    pub init: Option<String>,
    pub list: Option<String>,
    pub name: Option<String>,
    pub url: Option<String>,
    pub cover: Option<String>,
    pub author: Option<String>,
    pub intro: Option<String>,
    pub kind: Option<String>,
    pub last_chapter: Option<String>,
    pub update_time: Option<String>,
    pub word_count: Option<String>,
    pub next_page: Option<String>,
    pub sort: Option<String>,
    pub filter: Option<String>,
    pub search: Option<String>,
    pub comment: Option<String>,
    pub chapter: Option<String>,
    pub content: Option<String>,
}

/// A book source: a site and the rules to read it.
#[derive(Debug, Clone)]
pub struct BookSource {
    pub book_source_url: String,
    pub book_source_name: String,
    pub book_source_group: Option<String>,
    pub book_source_type: i32,
    pub book_url_pattern: Option<String>,
    pub custom_order: i32,
    pub enabled: bool,
    pub enabled_explore: bool,
    pub js_lib: Option<String>,
    pub enabled_cookie_jar: bool,
    pub concurrent_rate: Option<String>,
    pub header: Option<String>,
    pub login_url: Option<String>,
    pub login_ui: Option<String>,
    pub login_check_js: Option<String>,
    pub cover_decode_js: Option<String>,
    pub book_source_comment: Option<String>,
    pub variable_comment: Option<String>,
    pub last_update_time: String,
    pub respond_time: i32,
    pub weight: i32,
    pub explore_url: Option<String>,
    pub explore_screen: Option<String>,
    pub rule_explore: Option<ExploreRule>,
    pub search_url: Option<String>,
    pub search_rule: Option<SearchRule>,
    pub book_info_rule: Option<BookInfoRule>,
    pub toc_rule: Option<TocRule>,
    pub content_rule: Option<ContentRule>,
    pub review_rule: Option<ReviewRule>,
}

/// The current local time as an RFC 3339 string (`chrono::Local::now().to_rfc3339()`).
/// Nothing is stated of the value: it is the clock's.
#[verifier::external_body]
pub(crate) fn now_rfc3339() -> String {
    chrono::Local::now().to_rfc3339()
}

/// The current time in seconds since the epoch (`chrono::Local::now().timestamp()`).
/// Nothing is stated of the value: it is the clock's.
#[verifier::external_body]
pub(crate) fn now_timestamp() -> i64 {
    chrono::Local::now().timestamp()
}

impl BookSource {
    /// A source with the given last-update time and every other field at its
    /// default: enabled, no rules, no options.
    pub fn with_update_time(last_update_time: String) -> (s: Self)
        ensures
            s.book_source_url@.len() == 0,
            s.book_source_name@.len() == 0,
            s.book_source_group is None,
            s.book_source_type == 0,
            s.book_url_pattern is None,
            s.custom_order == 0,
            s.enabled,
            !s.enabled_explore,
            s.js_lib is None,
            !s.enabled_cookie_jar,
            s.concurrent_rate is None,
            s.header is None,
            s.login_url is None,
            s.login_ui is None,
            s.login_check_js is None,
            s.cover_decode_js is None,
            s.book_source_comment is None,
            s.variable_comment is None,
            s.last_update_time == last_update_time,
            s.respond_time == 0,
            s.weight == 0,
            s.explore_url is None,
            s.explore_screen is None,
            s.rule_explore is None,
            s.search_url is None,
            s.search_rule is None,
            s.book_info_rule is None,
            s.toc_rule is None,
            s.content_rule is None,
            s.review_rule is None,
    {
        BookSource {
            book_source_url: String::new(),
            book_source_name: String::new(),
            book_source_group: None,
            book_source_type: 0,
            book_url_pattern: None,
            custom_order: 0,
            enabled: true,
            enabled_explore: false,
            js_lib: None,
            enabled_cookie_jar: false,
            concurrent_rate: None,
            header: None,
            login_url: None,
            login_ui: None,
            login_check_js: None,
            cover_decode_js: None,
            book_source_comment: None,
            variable_comment: None,
            last_update_time,
            respond_time: 0,
            weight: 0,
            explore_url: None,
            explore_screen: None,
            rule_explore: None,
            search_url: None,
            search_rule: None,
            book_info_rule: None,
            toc_rule: None,
            content_rule: None,
            review_rule: None,
        }
    }
}

impl Default for BookSource {
    /// The default source, stamped with the current time.
    fn default() -> (s: Self)
        ensures
            s.book_source_url@.len() == 0,
            s.book_source_name@.len() == 0,
            s.enabled,
            !s.enabled_explore,
            !s.enabled_cookie_jar,
            s.book_source_type == 0,
            s.custom_order == 0,
            s.respond_time == 0,
            s.weight == 0,
            s.search_rule is None,
            s.book_info_rule is None,
            s.toc_rule is None,
            s.content_rule is None,
    {
        BookSource::with_update_time(now_rfc3339())
    }
}

/// HTTP client settings.
#[derive(Debug, Clone)]
pub struct HttpClientConfig {
    /// Timeout in seconds.
    pub timeout: u64,
    /// Most requests at once.
    pub max_concurrent: usize,
    pub enable_cookie_jar: bool,
    /// Headers sent with every request, as name and value; a name occurs
    /// at most once.
    pub default_headers: Vec<(String, String)>,
}

impl Default for HttpClientConfig {
    fn default() -> (c: Self)
        ensures
            c.timeout == 30,
            c.max_concurrent == 10,
            !c.enable_cookie_jar,
            c.default_headers@.len() == 0,
    {
        HttpClientConfig {
            timeout: 30,
            max_concurrent: 10,
            enable_cookie_jar: false,
            default_headers: Vec::new(),
        }
    }
}

/// Where books and logs are stored.
#[derive(Debug, Clone)]
pub struct StorageConfig {
    pub book_storage_path: String,
    pub log_storage_path: String,
}

impl Default for StorageConfig {
    fn default() -> (c: Self)
        ensures
            c.book_storage_path@.len() == 0,
            c.log_storage_path@.len() == 0,
    {
        StorageConfig { book_storage_path: String::new(), log_storage_path: String::new() }
    }
}

/// Application configuration.
#[derive(Debug, Clone)]
pub struct Config {
    pub http_client_config: HttpClientConfig,
    pub storage_config: StorageConfig,
}

impl Default for Config {
    fn default() -> (c: Self)
        ensures
            c.http_client_config.timeout == 30,
            c.http_client_config.max_concurrent == 10,
            !c.http_client_config.enable_cookie_jar,
            c.http_client_config.default_headers@.len() == 0,
            c.storage_config.book_storage_path@.len() == 0,
            c.storage_config.log_storage_path@.len() == 0,
    {
        Config { http_client_config: HttpClientConfig::default(), storage_config: StorageConfig::default() }
    }
}

} // verus!
