//! The reader's interface: books on the shelf, book sources, reading
//! progress and web books. Storage and the network are the caller's; these
//! functions take what the store answered and say what the reader answers.
use vstd::prelude::*;
use crate::models::{Book, BookSource, Chapter, ReadRecord};
use crate::error::ReaderError;
use crate::epub::{EpubResources, EpubSource, content_spec, result_view};
use crate::base_parser::{epub_parse_ok, BaseParser};
use crate::path::{extension_spec, join_path, join_spec};
use crate::text::{ascii_lower, chars_of, opt_str, trim, trim_chars};
use crate::book_source_parser::{from_text_ok, BookSourceParser, RuleSlots};
use crate::web_book::WebBookParser;

verus! {

/// A store error as the reader's error: the message after a prefix.
pub fn with_context<T>(stored: Result<T, String>, prefix: &str) -> (r: Result<T, ReaderError>)
    ensures
        match stored {
            Ok(v) => r == Ok::<T, ReaderError>(v),
            Err(m) => r matches Err(e) && e.message@ == prefix@ + m@,
        },
{
    match stored {
        Ok(v) => Ok(v),
        Err(m) => Err(ReaderError::with_detail(prefix, m.as_str())),
    }
}

/// The books on the shelf.
pub struct BookApi;

/// Where a chapter's text is: the book's type, its file, the chapter.
#[derive(Debug, Clone)]
pub struct ChapterTarget {
    pub book_type: String,
    pub file_path: String,
    pub chapter_index: usize,
    pub chapter_url: String,
}

impl BookApi {
    pub fn new() -> (r: Result<BookApi, ReaderError>)
        ensures
            r is Ok,
    {
        Ok(BookApi)
    }

    /// Reads a book file (see `BaseParser::parse_book`); the caller stores
    /// the book, its chapters and its reading record.
    pub fn import_book(&self, file_path: String, source: &EpubSource) -> (r: Result<(Book, Vec<Chapter>, ReadRecord), ReaderError>)
        ensures
            match extension_spec(file_path@) {
                None => r is Err && r->Err_0.message@ == "无法获取文件扩展名"@,
                Some(e) => if ascii_lower(e) == "epub"@ {
                    r is Ok && epub_parse_ok(r->Ok_0, *source)
                } else {
                    r is Err && r->Err_0.message@ == "不支持的文件格式"@
                },
            },
    {
        BaseParser::parse_book(file_path, source)
    }

    /// The chapters of a book, as stored.
    pub fn load_book_toc(&self, stored: Result<Vec<Chapter>, String>) -> (r: Result<Vec<Chapter>, ReaderError>)
        ensures
            match stored {
                Ok(v) => r == Ok::<Vec<Chapter>, ReaderError>(v),
                Err(m) => r matches Err(e) && e.message@ == "加载目录失败: "@ + m@,
            },
    {
        with_context(stored, "加载目录失败: ")
    }

    /// The reading progress of a book, as stored.
    pub fn load_read_progress(&self, stored: Result<Option<ReadRecord>, String>) -> (r: Result<Option<ReadRecord>, ReaderError>)
        ensures
            match stored {
                Ok(v) => r == Ok::<Option<ReadRecord>, ReaderError>(v),
                Err(m) => r matches Err(e) && e.message@ == "加载阅读进度失败: "@ + m@,
            },
    {
        with_context(stored, "加载阅读进度失败: ")
    }

    /// The outcome of storing a reading progress.
    pub fn update_read_progress(&self, stored: Result<(), String>) -> (r: Result<(), ReaderError>)
        ensures
            match stored {
                Ok(_) => r is Ok,
                Err(m) => r matches Err(e) && e.message@ == "更新阅读进度失败: "@ + m@,
            },
    {
        with_context(stored, "更新阅读进度失败: ")
    }

    /// A book, as stored.
    pub fn get_book(&self, stored: Result<Option<Book>, String>) -> (r: Result<Option<Book>, ReaderError>)
        ensures
            match stored {
                Ok(v) => r == Ok::<Option<Book>, ReaderError>(v),
                Err(m) => r matches Err(e) && e.message@ == "获取书籍失败: "@ + m@,
            },
    {
        with_context(stored, "获取书籍失败: ")
    }

    /// The books, as stored.
    pub fn list_books(&self, stored: Result<Vec<Book>, String>) -> (r: Result<Vec<Book>, ReaderError>)
        ensures
            match stored {
                Ok(v) => r == Ok::<Vec<Book>, ReaderError>(v),
                Err(m) => r matches Err(e) && e.message@ == "获取书籍列表失败: "@ + m@,
            },
    {
        with_context(stored, "获取书籍列表失败: ")
    }

    /// Where the text of a chapter of a stored book is: errors when the book
    /// or its chapters cannot be read, the book is missing, the index is past
    /// the chapters, or the book has no file.
    pub fn load_chapter_content(
        &self,
        book: Result<Option<Book>, String>,
        chapters: Result<Vec<Chapter>, String>,
        chapter_index: usize,
    ) -> (r: Result<ChapterTarget, ReaderError>)
        ensures
            book matches Err(m) ==> (r matches Err(e) && e.message@ == "获取书籍失败: "@ + m@),
            book matches Ok(None) ==> (r matches Err(e) && e.message@ == "书籍不存在"@),
            book matches Ok(Some(b)) ==> match chapters {
                Err(m) => r matches Err(e) && e.message@ == "加载目录失败: "@ + m@,
                Ok(cs) => if chapter_index >= cs@.len() {
                    r matches Err(e) && e.message@ == "章节索引超出范围"@
                } else {
                    match b.toc_url {
                        None => r matches Err(e) && e.message@ == "书籍文件路径缺失"@,
                        Some(p) => r matches Ok(t) && t.book_type@ == b.book_type@ && t.file_path@ == p@
                            && t.chapter_index == chapter_index && t.chapter_url@ == cs@[chapter_index as int].url@,
                    }
                },
            },
    {
        let book = match book {
            Err(m) => return Err(ReaderError::with_detail("获取书籍失败: ", m.as_str())),
            Ok(None) => return Err(ReaderError::new("书籍不存在")),
            Ok(Some(b)) => b,
        };
        let chapters = match chapters {
            Err(m) => return Err(ReaderError::with_detail("加载目录失败: ", m.as_str())),
            Ok(cs) => cs,
        };
        if chapter_index >= chapters.len() {
            return Err(ReaderError::new("章节索引超出范围"));
        }
        let file_path = match &book.toc_url {
            Some(p) => p.clone(),
            None => return Err(ReaderError::new("书籍文件路径缺失")),
        };
        Ok(ChapterTarget {
            book_type: book.book_type.clone(),
            file_path,
            chapter_index,
            chapter_url: chapters[chapter_index].url.clone(),
        })
    }

    /// The text of the chapter a target names, among its file's resources.
    pub fn chapter_text(&self, target: &ChapterTarget, resources: &EpubResources) -> (r: Result<String, ReaderError>)
        ensures
            target.book_type@ != "epub"@ ==> (r matches Err(e) && e.message@ == "不支持的文件格式"@),
            target.book_type@ == "epub"@ ==> result_view(r) == content_spec(target.chapter_url@, resources.entries@),
    {
        BaseParser::get_chapter_content(target.book_type.as_str(), target.chapter_index, Some(target.chapter_url.as_str()), resources)
    }
}

/// The book sources.
pub struct BookSourceApi;

impl BookSourceApi {
    pub fn new() -> (r: Result<BookSourceApi, ReaderError>)
        ensures
            r is Ok,
    {
        Ok(BookSourceApi)
    }

    /// Reads the sources of a JSON text (see `BookSourceParser::from_text`);
    /// the caller reads their rules and stores them.
    pub fn import_from_text(&self, text: &str) -> (r: Result<Vec<(BookSource, RuleSlots)>, ReaderError>)
        ensures
            from_text_ok(r, text@),
    {
        BookSourceParser::from_text(text)
    }

    /// A source, as stored.
    pub fn get_source(&self, stored: Result<Option<BookSource>, String>) -> (r: Result<Option<BookSource>, ReaderError>)
        ensures
            match stored {
                Ok(v) => r == Ok::<Option<BookSource>, ReaderError>(v),
                Err(m) => r matches Err(e) && e.message@ == "获取书源失败: "@ + m@,
            },
    {
        with_context(stored, "获取书源失败: ")
    }

    /// The enabled sources, as stored.
    pub fn list_enabled_sources(&self, stored: Result<Vec<BookSource>, String>) -> (r: Result<Vec<BookSource>, ReaderError>)
        ensures
            match stored {
                Ok(v) => r == Ok::<Vec<BookSource>, ReaderError>(v),
                Err(m) => r matches Err(e) && e.message@ == "获取书源列表失败: "@ + m@,
            },
    {
        with_context(stored, "获取书源列表失败: ")
    }

    /// All sources, as stored.
    pub fn list_all_sources(&self, stored: Result<Vec<BookSource>, String>) -> (r: Result<Vec<BookSource>, ReaderError>)
        ensures
            match stored {
                Ok(v) => r == Ok::<Vec<BookSource>, ReaderError>(v),
                Err(m) => r matches Err(e) && e.message@ == "获取所有书源列表失败: "@ + m@,
            },
    {
        with_context(stored, "获取所有书源列表失败: ")
    }
}

/// Reading progress.
pub struct ReadRecordApi;

impl ReadRecordApi {
    pub fn new() -> (r: Result<ReadRecordApi, ReaderError>)
        ensures
            r is Ok,
    {
        Ok(ReadRecordApi)
    }

    /// The outcome of storing a new reading progress.
    pub fn create_read_record(&self, stored: Result<(), String>) -> (r: Result<(), ReaderError>)
        ensures
            match stored {
                Ok(_) => r is Ok,
                Err(m) => r matches Err(e) && e.message@ == "创建阅读进度失败: "@ + m@,
            },
    {
        with_context(stored, "创建阅读进度失败: ")
    }

    /// A reading progress, as stored.
    pub fn get_read_record(&self, stored: Result<Option<ReadRecord>, String>) -> (r: Result<Option<ReadRecord>, ReaderError>)
        ensures
            match stored {
                Ok(v) => r == Ok::<Option<ReadRecord>, ReaderError>(v),
                Err(m) => r matches Err(e) && e.message@ == "获取阅读进度失败: "@ + m@,
            },
    {
        with_context(stored, "获取阅读进度失败: ")
    }

    /// The outcome of storing a reading progress.
    pub fn update_read_record(&self, stored: Result<(), String>) -> (r: Result<(), ReaderError>)
        ensures
            match stored {
                Ok(_) => r is Ok,
                Err(m) => r matches Err(e) && e.message@ == "更新阅读进度失败: "@ + m@,
            },
    {
        with_context(stored, "更新阅读进度失败: ")
    }

    /// The outcome of deleting a reading progress.
    pub fn delete_read_record(&self, stored: Result<(), String>) -> (r: Result<(), ReaderError>)
        ensures
            match stored {
                Ok(_) => r is Ok,
                Err(m) => r matches Err(e) && e.message@ == "删除阅读进度失败: "@ + m@,
            },
    {
        with_context(stored, "删除阅读进度失败: ")
    }

    /// The outcome of updating a book's reading progress.
    pub fn update_record_by_book_id(&self, stored: Result<(), String>) -> (r: Result<(), ReaderError>)
        ensures
            match stored {
                Ok(_) => r is Ok,
                Err(m) => r matches Err(e) && e.message@ == "更新阅读进度失败: "@ + m@,
            },
    {
        with_context(stored, "更新阅读进度失败: ")
    }

    /// A book's reading progress, as stored.
    pub fn get_record_by_book_id(&self, stored: Result<Option<ReadRecord>, String>) -> (r: Result<Option<ReadRecord>, ReaderError>)
        ensures
            match stored {
                Ok(v) => r == Ok::<Option<ReadRecord>, ReaderError>(v),
                Err(m) => r matches Err(e) && e.message@ == "获取阅读进度失败: "@ + m@,
            },
    {
        with_context(stored, "获取阅读进度失败: ")
    }

    /// The reading progress of all books, latest first, as stored.
    pub fn list_recent(&self, stored: Result<Vec<ReadRecord>, String>) -> (r: Result<Vec<ReadRecord>, ReaderError>)
        ensures
            match stored {
                Ok(v) => r == Ok::<Vec<ReadRecord>, ReaderError>(v),
                Err(m) => r matches Err(e) && e.message@ == "获取阅读记录列表失败: "@ + m@,
            },
    {
        with_context(stored, "获取阅读记录列表失败: ")
    }

    /// The outcome of deleting a book's reading progress.
    pub fn delete_record_by_book_id(&self, stored: Result<(), String>) -> (r: Result<(), ReaderError>)
        ensures
            match stored {
                Ok(_) => r is Ok,
                Err(m) => r matches Err(e) && e.message@ == "删除阅读进度失败: "@ + m@,
            },
    {
        with_context(stored, "删除阅读进度失败: ")
    }
}

/// Web books.
pub struct WebBookApi;

/// A book added from the web: its identity, origin and table of contents
/// filled in where the page left them blank.
pub open spec fn network_book_ok(b: Book, parsed: Book, toc_urls: Seq<Seq<char>>, book_url: Seq<char>, src: BookSource) -> bool {
    let origin_blank = match parsed.origin {
        Some(o) => trim(o@).len() == 0,
        None => true,
    };
    let toc_blank = match parsed.toc_url {
        Some(t) => trim(t@).len() == 0,
        None => true,
    };
    &&& b.book_id@ == (if trim(parsed.book_id@).len() == 0 { book_url } else { parsed.book_id@ })
    &&& opt_str(b.origin) == (if origin_blank {
        Some(if trim(src.book_source_url@).len() > 0 { src.book_source_url@ } else { src.book_source_name@ })
    } else {
        opt_str(parsed.origin)
    })
    &&& opt_str(b.toc_url) == (if toc_blank {
        Some(if toc_urls.len() > 0 { toc_urls[0] } else { book_url })
    } else {
        opt_str(parsed.toc_url)
    })
    &&& b.name == parsed.name
    &&& b.author == parsed.author
    &&& b.kind == parsed.kind
    &&& b.cover_url == parsed.cover_url
    &&& b.intro == parsed.intro
    &&& b.book_type == parsed.book_type
    &&& b.word_count == parsed.word_count
    &&& b.latest_chapter_title == parsed.latest_chapter_title
    &&& b.book_group == parsed.book_group
    &&& b.add_time == parsed.add_time
    &&& b.last_read_time == parsed.last_read_time
    &&& b.isbn == parsed.isbn
    &&& b.publisher == parsed.publisher
    &&& b.publish_date == parsed.publish_date
    &&& b.status == parsed.status
}

fn is_blank_opt(o: &Option<String>) -> (b: bool)
    ensures
        b == match *o {
            Some(s) => trim(s@).len() == 0,
            None => true,
        },
{
    match o {
        Some(s) => trim_chars(&chars_of(s.as_str())).len() == 0,
        None => true,
    }
}

impl WebBookApi {
    pub fn new() -> (r: Result<WebBookApi, ReaderError>)
        ensures
            r is Ok,
    {
        Ok(WebBookApi)
    }

    /// A reading record at a chapter and position; negative values count as 0.
    pub fn create_read_record(&self, book_id: String, chapter_index: i64, chapter_pos: i64) -> (r: ReadRecord)
        ensures
            r.book_id@ == book_id@,
            r.dur_chapter_index == (if chapter_index >= 0 { chapter_index as u64 } else { 0 }),
            r.dur_chapter_pos == (if chapter_pos >= 0 { chapter_pos as u64 } else { 0 }),
            r.last_chapter_index == r.dur_chapter_index,
            r.last_chapter_pos == r.dur_chapter_pos,
            r.total_read_time == 0,
            r.last_read_time is Some,
    {
        let index: u64 = if chapter_index >= 0 { chapter_index as u64 } else { 0 };
        let pos: u64 = if chapter_pos >= 0 { chapter_pos as u64 } else { 0 };
        WebBookParser::create_read_record(book_id.as_str(), index, pos)
    }

    /// The enabled sources, as stored.
    pub fn load_book_sources(&self, stored: Result<Vec<BookSource>, String>) -> (r: Result<Vec<BookSource>, ReaderError>)
        ensures
            match stored {
                Ok(v) => r == Ok::<Vec<BookSource>, ReaderError>(v),
                Err(m) => r matches Err(e) && e.message@ == "加载书源失败: "@ + m@,
            },
    {
        with_context(stored, "加载书源失败: ")
    }

    /// Fills in a book read from the web before it is added to the shelf
    /// (see `network_book_ok`).
    pub fn normalize_network_book(&self, book: Book, toc_urls: &Vec<String>, book_url: &str, book_source: &BookSource) -> (b: Book)
        ensures
            network_book_ok(b, book, toc_urls@.map_values(|s: String| s@), book_url@, *book_source),
    {
        let mut b = book;
        if trim_chars(&chars_of(b.book_id.as_str())).len() == 0 {
            b.book_id = book_url.to_string();
        }
        if is_blank_opt(&b.origin) {
            if trim_chars(&chars_of(book_source.book_source_url.as_str())).len() > 0 {
                b.origin = Some(book_source.book_source_url.clone());
            } else {
                b.origin = Some(book_source.book_source_name.clone());
            }
        }
        if is_blank_opt(&b.toc_url) {
            b.toc_url = if toc_urls.len() > 0 {
                Some(toc_urls[0].clone())
            } else {
                Some(book_url.to_string())
            };
        }
        b
    }

    /// The table-of-contents pages to walk: those found, else the book's page.
    pub fn toc_pages(&self, toc_urls: Vec<String>, book_url: &str) -> (r: Vec<String>)
        ensures
            toc_urls@.len() > 0 ==> r@ == toc_urls@,
            toc_urls@.len() == 0 ==> r@.len() == 1 && r@[0]@ == book_url@,
    {
        if toc_urls.len() > 0 {
            toc_urls
        } else {
            let mut v: Vec<String> = Vec::new();
            v.push(book_url.to_string());
            v
        }
    }

    /// The chapters, each given the book's id.
    pub fn attach_book_id(&self, chapters: Vec<Chapter>, book_id: &str) -> (r: Vec<Chapter>)
        ensures
            r@.len() == chapters@.len(),
            forall|i: int| 0 <= i < r@.len() ==> {
                &&& (#[trigger] r@[i]).book_id@ == book_id@
                &&& r@[i].id == chapters@[i].id
                &&& r@[i].title == chapters@[i].title
                &&& r@[i].url == chapters@[i].url
                &&& r@[i].chapter_index == chapters@[i].chapter_index
                &&& r@[i].word_count == chapters@[i].word_count
                &&& r@[i].is_vip == chapters@[i].is_vip
            },
    {
        let mut out: Vec<Chapter> = Vec::new();
        let mut k: usize = 0;
        while k < chapters.len()
            invariant
                k <= chapters@.len(),
                out@.len() == k,
                forall|i: int| 0 <= i < k ==> {
                    &&& (#[trigger] out@[i]).book_id@ == book_id@
                    &&& out@[i].id == chapters@[i].id
                    &&& out@[i].title == chapters@[i].title
                    &&& out@[i].url == chapters@[i].url
                    &&& out@[i].chapter_index == chapters@[i].chapter_index
                    &&& out@[i].word_count == chapters@[i].word_count
                    &&& out@[i].is_vip == chapters@[i].is_vip
                },
            decreases chapters@.len() - k,
        {
            let c = &chapters[k];
            out.push(Chapter {
                id: c.id,
                book_id: book_id.to_string(),
                title: c.title.clone(),
                url: c.url.clone(),
                chapter_index: c.chapter_index,
                word_count: c.word_count,
                is_vip: c.is_vip,
            });
            k = k + 1;
        }
        out
    }
}

/// The name of the configuration file.
pub open spec fn config_file_name() -> Seq<char> {
    "config.json"@
}

/// An application's configuration directory under the platform's
/// configuration root (none when the platform has no such root).
pub fn get_config_dir(base: Option<&str>, app_name: &str) -> (r: Option<String>)
    ensures
        match base {
            Some(b) => opt_str(r) == Some(join_spec(b@, app_name@)),
            None => r is None,
        },
{
    match base {
        Some(b) => Some(join_path(b, app_name)),
        None => None,
    }
}

/// The configuration file in an application's configuration directory.
pub fn get_config_path(config_dir: &str) -> (r: String)
    ensures
        r@ == join_spec(config_dir@, config_file_name()),
{
    join_path(config_dir, "config.json")
}

} // verus!
