//! Tools shared by the local-file parsers: word counting, book ids, the
//! initial book record and reading progress.
use vstd::prelude::*;
use crate::text::{chars_of, is_ascii_punct, is_ws, is_whitespace, string_of};
use crate::models::{Book, ReadRecord, now_timestamp};
use crate::num::{hex_chars, hex_digits};

verus! {

/// A CJK ideograph (the ranges counted one word per character).
pub open spec fn is_cjk(c: char) -> bool {
    let u = c as u32;
    ||| (0x4E00 <= u && u <= 0x9FFF)
    ||| (0x3400 <= u && u <= 0x4DBF)
    ||| (0x20000 <= u && u <= 0x2A6DF)
    ||| (0x2A700 <= u && u <= 0x2B73F)
    ||| (0x2B740 <= u && u <= 0x2B81F)
    ||| (0x2B820 <= u && u <= 0x2CEAF)
    ||| (0xF900 <= u && u <= 0xFAFF)
    ||| (0x2F800 <= u && u <= 0x2FA1F)
}

/// A word separator: whitespace or ASCII punctuation.
pub open spec fn is_sep(c: char) -> bool {
    is_ws(c) || is_ascii_punct(c)
}

/// A character of an alphabetic word: neither a separator nor CJK.
pub open spec fn is_plain(c: char) -> bool {
    !is_sep(c) && !is_cjk(c)
}

/// A word starts at `i`: a CJK character, or the first character of a run of
/// plain characters.
pub open spec fn starts_word(s: Seq<char>, i: int) -> bool {
    is_cjk(s[i]) || (is_plain(s[i]) && (i == 0 || !is_plain(s[i - 1])))
}

/// Number of words that start before position `n`.
pub open spec fn count_words(s: Seq<char>, n: int) -> nat
    decreases n,
{
    if n <= 0 {
        0
    } else {
        count_words(s, n - 1) + if starts_word(s, n - 1) {
            1nat
        } else {
            0nat
        }
    }
}

/// Word count of a text: each CJK character is a word, and so is each run of
/// other characters between whitespace and ASCII punctuation.
pub open spec fn word_count_spec(s: Seq<char>) -> nat {
    count_words(s, s.len() as int)
}

pub fn is_chinese(c: char) -> (b: bool)
    ensures
        b == is_cjk(c),
{
    let u = c as u32;
    (0x4E00 <= u && u <= 0x9FFF) || (0x3400 <= u && u <= 0x4DBF) || (0x20000 <= u && u <= 0x2A6DF)
        || (0x2A700 <= u && u <= 0x2B73F) || (0x2B740 <= u && u <= 0x2B81F) || (0x2B820 <= u && u
        <= 0x2CEAF) || (0xF900 <= u && u <= 0xFAFF) || (0x2F800 <= u && u <= 0x2FA1F)
}

fn is_ascii_punctuation(c: char) -> (b: bool)
    ensures
        b == is_ascii_punct(c),
{
    ('!' <= c && c <= '/') || (':' <= c && c <= '@') || ('[' <= c && c <= '`') || ('{' <= c && c
        <= '~')
}

/// The 64-bit xxHash (seed 0) of a byte string.
pub uninterp spec fn xxh64(data: Seq<u8>) -> u64;

/// `twox_hash::XxHash64::oneshot(0, data)`: the xxHash64 digest with seed 0,
/// the same that a default `XxHash64` hasher gives after writing `data`.
#[verifier::external_body]
fn xxhash64(data: &[u8]) -> (h: u64)
    ensures
        h == xxh64(data@),
{
    twox_hash::XxHash64::oneshot(0, data)
}

/// A BookParser-facing namespace of shared helpers.
pub struct BaseParser;

impl BaseParser {
    /// Estimated word count of a text (mixed CJK and alphabetic), capped at `u32::MAX`.
    pub fn calculate_word_count(text: &str) -> (n: u32)
        ensures
            n as nat == if word_count_spec(text@) <= u32::MAX as nat {
                word_count_spec(text@)
            } else {
                u32::MAX as nat
            },
    {
        let s = chars_of(text);
        let mut word_count: u32 = 0;
        let mut in_word = false;
        let mut i: usize = 0;
        while i < s.len()
            invariant
                i <= s@.len(),
                s@ == text@,
                word_count as nat == if count_words(s@, i as int) <= u32::MAX as nat {
                    count_words(s@, i as int)
                } else {
                    u32::MAX as nat
                },
                in_word == (i > 0 && is_plain(s@[i - 1])),
            decreases s@.len() - i,
        {
            let c = s[i];
            if is_whitespace(c) || is_ascii_punctuation(c) {
                in_word = false;
            } else if is_chinese(c) {
                word_count = if word_count < u32::MAX {
                    word_count + 1
                } else {
                    word_count
                };
                in_word = false;
            } else if !in_word {
                word_count = if word_count < u32::MAX {
                    word_count + 1
                } else {
                    word_count
                };
                in_word = true;
            }
            i = i + 1;
        }
        word_count
    }

    /// The initial reading progress of a book with `chapter_count` chapters:
    /// at the start, with the last chapter as the furthest.
    pub fn create_read_record(book_id: &str, chapter_count: usize) -> (r: ReadRecord)
        ensures
            r.book_id@ == book_id@,
            r.dur_chapter_index == 0,
            r.dur_chapter_pos == 0,
            r.last_chapter_index == if chapter_count == 0 {
                0
            } else {
                chapter_count - 1
            },
            r.last_chapter_pos == 0,
            r.total_read_time == 0,
            r.last_read_time is None,
    {
        let mut record = ReadRecord::default();
        record.book_id = book_id.to_owned();
        let n = chapter_count as u64;
        record.last_chapter_index = if n == 0 {
            0
        } else {
            n - 1
        };
        record
    }

    /// A stable book id from the file's content: `prefix:hash`, the hash being
    /// the lowercase hexadecimal xxHash64 of the bytes.
    pub fn generate_id(content: &[u8], prefix: &str) -> (id: String)
        ensures
            id@ == prefix@ + seq![':'] + hex_digits(xxh64(content@) as nat),
    {
        let h = xxhash64(content);
        let mut v = chars_of(prefix);
        v.push(':');
        let hx = hex_chars(h);
        crate::text::append_chars(&mut v, &hx);
        string_of(&v)
    }

    /// The record of a book imported from a local file at `path`, added now.
    pub fn create_book(book_id: &str, path: &str, book_type: &str) -> (b: Book)
        ensures
            b.book_id@ == book_id@,
            b.book_type@ == book_type@,
            b.toc_url is Some && b.toc_url->0@ == path@,
            b.origin is Some && b.origin->0@ == "本地文件"@,
            b.status@ == "已完成"@,
            b.name@.len() == 0,
            b.author@.len() == 0,
            b.word_count == 0,
            b.kind is None,
            b.cover_url is None,
            b.intro is None,
            b.latest_chapter_title is None,
            b.book_group is None,
            b.last_read_time is None,
            b.isbn is None,
            b.publisher is None,
            b.publish_date is None,
    {
        let mut book = Book::default();
        book.book_id = book_id.to_owned();
        book.book_type = book_type.to_owned();
        book.toc_url = Some(path.to_owned());
        book.origin = Some("本地文件".to_owned());
        book.add_time = now_timestamp();
        book.status = "已完成".to_owned();
        book
    }
}

// ---------------------------------------------------------------------------
// Laws
// ---------------------------------------------------------------------------

proof fn lemma_count_prefix(a: Seq<char>, x: Seq<char>, k: int)
    requires
        0 <= k <= a.len(),
    ensures
        count_words(a + x, k) == count_words(a, k),
    decreases k,
{
    if k > 0 {
        lemma_count_prefix(a, x, k - 1);
        assert((a + x)[k - 1] == a[k - 1]);
        if k - 1 > 0 {
            assert((a + x)[k - 2] == a[k - 2]);
        }
    }
}

proof fn lemma_count_suffix(a: Seq<char>, b: Seq<char>, k: int)
    requires
        0 <= k <= b.len(),
    ensures
        count_words(a + seq![' '] + b, a.len() + 1 + k) == count_words(a, a.len() as int)
            + count_words(b, k),
    decreases k,
{
    let s = a + seq![' '] + b;
    if k == 0 {
        lemma_count_prefix(a, seq![' '] + b, a.len() as int);
        assert(s =~= a + (seq![' '] + b));
        assert(s[a.len() as int] == ' ');
        assert(is_ws(' '));
    } else {
        lemma_count_suffix(a, b, k - 1);
        let i = a.len() + 1 + k - 1;
        assert(s[i] == b[k - 1]);
        if k - 1 > 0 {
            assert(s[i - 1] == b[k - 2]);
        } else {
            assert(s[i - 1] == ' ');
            assert(is_ws(' '));
        }
    }
}

/// Law: a space joins word counts: the count of `a + " " + b` is the count of
/// `a` plus the count of `b`.
pub proof fn law_word_count_additive(a: Seq<char>, b: Seq<char>)
    ensures
        word_count_spec(a + seq![' '] + b) == word_count_spec(a) + word_count_spec(b),
{
    lemma_count_suffix(a, b, b.len() as int);
    assert((a + seq![' '] + b).len() == a.len() + 1 + b.len());
}

proof fn lemma_count_after_cjk(a: Seq<char>, b: Seq<char>, k: int)
    requires
        a.len() > 0,
        is_cjk(a.last()),
        0 <= k <= b.len(),
    ensures
        count_words(a + b, a.len() + k) == count_words(a, a.len() as int) + count_words(b, k),
    decreases k,
{
    let s = a + b;
    if k == 0 {
        lemma_count_prefix(a, b, a.len() as int);
    } else {
        lemma_count_after_cjk(a, b, k - 1);
        let i = a.len() + k - 1;
        assert(s[i] == b[k - 1]);
        if k - 1 > 0 {
            assert(s[i - 1] == b[k - 2]);
        } else {
            assert(s[i - 1] == a.last());
        }
    }
}

/// Law: a CJK character ends a word, so what follows it starts afresh: the
/// count of `a + b`, for `a` ending in a CJK character, is the count of `a`
/// plus the count of `b`. In particular a CJK character followed by a run of
/// letters or digits counts two words.
pub proof fn law_word_count_after_cjk(a: Seq<char>, b: Seq<char>)
    requires
        a.len() > 0,
        is_cjk(a.last()),
    ensures
        word_count_spec(a + b) == word_count_spec(a) + word_count_spec(b),
{
    lemma_count_after_cjk(a, b, b.len() as int);
}

/// Law: one CJK character followed by one letter or digit is two words.
pub proof fn law_cjk_then_plain_is_two_words(c: char, x: char)
    requires
        is_cjk(c),
        is_plain(x),
    ensures
        word_count_spec(seq![c, x]) == 2,
{
    law_word_count_after_cjk(seq![c], seq![x]);
    assert(seq![c] + seq![x] =~= seq![c, x]);
    assert(seq![c].last() == c);
    assert(word_count_spec(seq![c]) == 1) by {
        assert(seq![c][0] == c);
        assert(starts_word(seq![c], 0));
        assert(count_words(seq![c], 0) == 0);
        assert(count_words(seq![c], 1) == count_words(seq![c], 0) + 1);
    }
    assert(word_count_spec(seq![x]) == 1) by {
        assert(seq![x][0] == x);
        assert(starts_word(seq![x], 0));
        assert(count_words(seq![x], 0) == 0);
        assert(count_words(seq![x], 1) == count_words(seq![x], 0) + 1);
    }
}

/// Law: a text has at most as many words as characters.
pub proof fn law_word_count_bounded(s: Seq<char>)
    ensures
        word_count_spec(s) <= s.len(),
{
    lemma_count_bound(s, s.len() as int);
}

proof fn lemma_count_bound(s: Seq<char>, n: int)
    requires
        0 <= n,
    ensures
        count_words(s, n) <= n,
    decreases n,
{
    if n > 0 {
        lemma_count_bound(s, n - 1);
    }
}

} // verus!

verus! {

use crate::epub::{EpubParser, EpubSource, EpubResources, epub_book_ok, epub_chapters_ok, content_spec, result_view};
use crate::models::Chapter;
use crate::error::ReaderError;
use crate::text::ascii_lower;
use crate::path::extension_spec;

/// A parser of one book format.
pub trait BookParser {
    /// The file type it reads (a lowercase extension).
    fn file_type(&self) -> &'static str;
}

impl BookParser for EpubParser {
    fn file_type(&self) -> (t: &'static str)
        ensures
            t@ == "epub"@,
    {
        "epub"
    }
}

/// The formats a registry can dispatch to.
#[derive(Debug, Clone, Copy, PartialEq, Eq, Structural)]
pub enum ParserKind {
    Epub,
}

pub open spec fn kind_type(k: ParserKind) -> Seq<char> {
    match k {
        ParserKind::Epub => "epub"@,
    }
}

/// What parsing an EPUB gives: its book, chapters and initial progress.
pub open spec fn epub_parse_ok(r: (Book, Vec<Chapter>, ReadRecord), src: EpubSource) -> bool {
    &&& epub_book_ok(r.0, src, "epub:"@ + hex_digits(xxh64(src.file_bytes@) as nat), r.1@)
    &&& epub_chapters_ok(r.1@, src, r.0.book_id@)
    &&& r.2.book_id@ == r.0.book_id@
    &&& r.2.dur_chapter_index == 0
    &&& r.2.dur_chapter_pos == 0
    &&& r.2.last_chapter_index == (if r.1@.len() == 0 { 0 } else { r.1@.len() - 1 })
    &&& r.2.last_chapter_pos == 0
    &&& r.2.total_read_time == 0
    &&& r.2.last_read_time is None
}

/// Which parser type a file goes to among the registered types: the lowercase
/// extension, when registered; otherwise the error.
pub open spec fn dispatch_spec(types: Seq<Seq<char>>, path: Seq<char>) -> Result<Seq<char>, Seq<char>> {
    match extension_spec(path) {
        None => Err("无法获取文件扩展名"@),
        Some(e) => if types.contains(ascii_lower(e)) {
            Ok(ascii_lower(e))
        } else {
            Err("不支持的文件格式"@)
        },
    }
}

/// Law: files whose extensions differ only in letter case go to the same
/// parser (or are refused alike).
pub proof fn law_dispatch_ignores_case(types: Seq<Seq<char>>, p: Seq<char>, q: Seq<char>)
    requires
        extension_spec(p) is Some,
        extension_spec(q) is Some,
        ascii_lower(extension_spec(p)->0) == ascii_lower(extension_spec(q)->0),
    ensures
        dispatch_spec(types, p) == dispatch_spec(types, q),
{
}

/// The parsers known by file type.
pub struct ParserRegistry {
    parsers: Vec<ParserKind>,
}

impl ParserRegistry {
    /// The registered file types.
    pub closed spec fn types(&self) -> Seq<Seq<char>> {
        self.parsers@.map_values(|k: ParserKind| kind_type(k))
    }

    /// The default registry: EPUB only.
    pub fn default_registry() -> (r: Self)
        ensures
            r.types() == seq!["epub"@],
    {
        let r = ParserRegistry { parsers: vec![ParserKind::Epub] };
        proof {
            assert(r.types() =~= seq!["epub"@]);
        }
        r
    }

    fn find(&self, ty: &[char]) -> (r: Option<ParserKind>)
        ensures
            r is Some <==> self.types().contains(ty@),
            r matches Some(k) ==> kind_type(k) == ty@,
    {
        let mut i: usize = 0;
        while i < self.parsers.len()
            invariant
                i <= self.parsers@.len(),
                forall|j: int| 0 <= j < i ==> self.types()[j] != ty@,
            decreases self.parsers@.len() - i,
        {
            let k = self.parsers[i];
            let t = match k {
                ParserKind::Epub => crate::selector::lit("epub"),
            };
            if crate::selector::chars_eq(&t, ty) {
                proof {
                    assert(self.types()[i as int] == ty@);
                }
                return Some(k);
            }
            i = i + 1;
        }
        proof {
            if self.types().contains(ty@) {
                let j = choose|j: int| 0 <= j < self.types().len() && self.types()[j] == ty@;
                assert(self.types()[j] != ty@);
            }
        }
        None
    }

    /// The parser for a book file, chosen by its extension (compared in
    /// lowercase).
    pub fn parser_for(&self, file_path: &str) -> (r: Result<ParserKind, ReaderError>)
        ensures
            match extension_spec(file_path@) {
                None => r is Err && r->Err_0.message@ == "无法获取文件扩展名"@,
                Some(e) => if self.types().contains(ascii_lower(e)) {
                    r matches Ok(k) && kind_type(k) == ascii_lower(e)
                } else {
                    r is Err && r->Err_0.message@ == "不支持的文件格式"@
                },
            },
            match r {
                Ok(k) => dispatch_spec(self.types(), file_path@) == Ok::<Seq<char>, Seq<char>>(kind_type(k)),
                Err(e) => dispatch_spec(self.types(), file_path@) == Err::<Seq<char>, Seq<char>>(e.message@),
            },
    {
        let ext = match crate::path::extension(file_path) {
            Some(e) => e,
            None => return Err(ReaderError::new("无法获取文件扩展名")),
        };
        let lower = crate::text::to_ascii_lower(&ext);
        match self.find(&lower) {
            None => Err(ReaderError::new("不支持的文件格式")),
            Some(k) => Ok(k),
        }
    }

    /// Parses a book file by its extension (compared in lowercase), from what
    /// the file holds.
    pub fn parse_book(&self, file_path: String, source: &EpubSource) -> (r: Result<(Book, Vec<Chapter>, ReadRecord), ReaderError>)
        ensures
            match extension_spec(file_path@) {
                None => r is Err && r->Err_0.message@ == "无法获取文件扩展名"@,
                Some(e) => if self.types().contains(ascii_lower(e)) {
                    r is Ok && epub_parse_ok(r->Ok_0, *source)
                } else {
                    r is Err && r->Err_0.message@ == "不支持的文件格式"@
                },
            },
    {
        match self.parser_for(file_path.as_str()) {
            Err(e) => Err(e),
            Ok(ParserKind::Epub) => Ok(EpubParser::parse(source)),
        }
    }

    /// The text of a chapter of a book of type `book_type`, among the book
    /// file's resources.
    pub fn get_chapter_content(
        &self,
        book_type: &str,
        chapter_index: usize,
        chapter_url: Option<&str>,
        resources: &EpubResources,
    ) -> (r: Result<String, ReaderError>)
        ensures
            !self.types().contains(book_type@) ==> r is Err && r->Err_0.message@ == "不支持的文件格式"@,
            self.types().contains(book_type@) && chapter_url is None ==> r is Err && r->Err_0.message@ == "EPUB章节路径缺失"@,
            self.types().contains(book_type@) && chapter_url is Some ==> result_view(r) == content_spec(chapter_url->0@, resources.entries@),
    {
        let t = crate::text::chars_of(book_type);
        match self.find(&t) {
            None => Err(ReaderError::new("不支持的文件格式")),
            Some(ParserKind::Epub) => match chapter_url {
                None => Err(ReaderError::new("EPUB章节路径缺失")),
                Some(u) => EpubParser::get_content(u, resources),
            },
        }
    }
}

impl BaseParser {
    /// Parses a book file with the default registry.
    pub fn parse_book(file_path: String, source: &EpubSource) -> (r: Result<(Book, Vec<Chapter>, ReadRecord), ReaderError>)
        ensures
            match extension_spec(file_path@) {
                None => r is Err && r->Err_0.message@ == "无法获取文件扩展名"@,
                Some(e) => if ascii_lower(e) == "epub"@ {
                    r is Ok && epub_parse_ok(r->Ok_0, *source)
                } else {
                    r is Err && r->Err_0.message@ == "不支持的文件格式"@
                },
            },
    {
        let reg = ParserRegistry::default_registry();
        proof {
            assert(seq!["epub"@][0] == "epub"@);
            assert(seq!["epub"@].contains("epub"@));
            assert(forall|x: Seq<char>| seq!["epub"@].contains(x) ==> x == "epub"@);
        }
        reg.parse_book(file_path, source)
    }

    /// The text of a chapter, with the default registry.
    pub fn get_chapter_content(
        book_type: &str,
        chapter_index: usize,
        chapter_url: Option<&str>,
        resources: &EpubResources,
    ) -> (r: Result<String, ReaderError>)
        ensures
            book_type@ != "epub"@ ==> r is Err && r->Err_0.message@ == "不支持的文件格式"@,
            book_type@ == "epub"@ && chapter_url is None ==> r is Err && r->Err_0.message@ == "EPUB章节路径缺失"@,
            book_type@ == "epub"@ && chapter_url is Some ==> result_view(r) == content_spec(chapter_url->0@, resources.entries@),
    {
        let reg = ParserRegistry::default_registry();
        proof {
            assert(seq!["epub"@][0] == "epub"@);
            assert(seq!["epub"@].contains("epub"@));
            assert(forall|x: Seq<char>| seq!["epub"@].contains(x) ==> x == "epub"@);
        }
        reg.get_chapter_content(book_type, chapter_index, chapter_url, resources)
    }
}

} // verus!
