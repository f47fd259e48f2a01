//! EPUB books: the book record, chapter list and progress built from what an
//! EPUB file holds, and chapter lookup among its resources.
use vstd::prelude::*;
use crate::text::{join_spec, 
    append_chars, ascii_lower, chars_of, find, find_chars, find_chars_from, is_alphanumeric,
    lemma_find_from, matches_at, replace_all, replace_chars, slice_chars, starts_with,
    starts_with_chars, ends_with, ends_with_chars, string_of, to_ascii_lower, trim, trim_chars,
    unicode_alphanumeric, utf8_to_string,
};
use crate::num::{dec_chars, dec_digits, parse_i64, parse_i64_spec};
use crate::path::{extension, extension_spec, file_name, file_name_spec, file_stem, file_stem_spec};
use crate::models::{Book, Chapter, ReadRecord};
use crate::base_parser::BaseParser;
use crate::error::ReaderError;
use crate::selector::{chars_eq, lit};

verus! {

/// One entry of an EPUB's table of contents.
#[derive(Debug, Clone)]
pub struct TocEntry {
    pub label: String,
    /// The content path the entry points to.
    pub content: String,
}

/// One entry of an EPUB's spine, with the resource it names when it exists.
#[derive(Debug, Clone)]
pub struct SpineEntry {
    pub idref: String,
    pub content: Option<Vec<u8>>,
}

/// What the reader takes from an EPUB file.
#[derive(Debug, Clone)]
pub struct EpubSource {
    pub file_path: String,
    /// The file's bytes (for the book id).
    pub file_bytes: Vec<u8>,
    /// Metadata items `(property, value)`, in document order.
    pub metadata: Vec<(String, String)>,
    /// Where the cover image was saved, if it was.
    pub cover_url: Option<String>,
    pub toc: Vec<TocEntry>,
    pub spine: Vec<SpineEntry>,
}

/// The resources of an EPUB file: key and content.
#[derive(Debug, Clone)]
pub struct EpubResources {
    pub entries: Vec<(String, Vec<u8>)>,
}

/// Parser of EPUB books.
pub struct EpubParser;

// ---------------------------------------------------------------------------
// Text helpers
// ---------------------------------------------------------------------------

/// Backslashes as slashes.
pub open spec fn slashes(s: Seq<char>) -> Seq<char> {
    s.map_values(|c: char| if c == '\\' { '/' } else { c })
}

/// The part before the first `#`.
pub open spec fn before_hash(s: Seq<char>) -> Seq<char> {
    match find(s, seq!['#']) {
        Some(i) => s.take(i),
        None => s,
    }
}

/// A content reference with `/` separators and without its `#fragment`.
pub open spec fn norm_ref(s: Seq<char>) -> Seq<char> {
    before_hash(slashes(s))
}

fn to_slashes(s: &[char]) -> (r: Vec<char>)
    ensures
        r@ == slashes(s@),
{
    let mut r: Vec<char> = Vec::new();
    let mut i: usize = 0;
    while i < s.len()
        invariant
            i <= s@.len(),
            r@ == slashes(s@.take(i as int)),
        decreases s@.len() - i,
    {
        r.push(if s[i] == '\\' { '/' } else { s[i] });
        i = i + 1;
        proof {
            assert(r@ =~= slashes(s@.take(i as int)));
        }
    }
    proof {
        assert(s@.take(i as int) =~= s@);
    }
    r
}

fn until_hash(s: &[char]) -> (r: Vec<char>)
    ensures
        r@ == before_hash(s@),
{
    let h = vec!['#'];
    proof {
        assert(h@ =~= seq!['#']);
    }
    match find_chars(s, &h) {
        Some(i) => {
            proof {
                lemma_find_from(s@, h@, 0);
            }
            let r = slice_chars(s, 0, i);
            proof {
                assert(r@ =~= s@.take(i as int));
            }
            r
        },
        None => {
            let r = slice_chars(s, 0, s.len());
            proof {
                assert(r@ =~= s@);
            }
            r
        },
    }
}

impl EpubParser {
    /// `content_ref` with `\` turned into `/` and its `#fragment` dropped.
    pub fn normalize_content_ref(content_ref: &str) -> (r: String)
        ensures
            r@ == norm_ref(content_ref@),
    {
        let s = chars_of(content_ref);
        let t = to_slashes(&s);
        string_of(&until_hash(&t))
    }

    /// A table-of-contents path, normalized like a content reference.
    pub fn normalize_toc_path(path: &str) -> (r: String)
        ensures
            r@ == norm_ref(path@),
    {
        Self::normalize_content_ref(path)
    }
}

proof fn lemma_slashes_no_backslash(s: Seq<char>)
    ensures
        forall|i: int| 0 <= i < slashes(s).len() ==> slashes(s)[i] != '\\',
        slashes(slashes(s)) == slashes(s),
{
    assert(slashes(slashes(s)) =~= slashes(s));
}

/// Law: normalizing a content reference twice changes nothing more.
pub proof fn law_normalize_ref_idempotent(s: Seq<char>)
    ensures
        norm_ref(norm_ref(s)) == norm_ref(s),
{
    let t = slashes(s);
    let n = before_hash(t);
    lemma_find_from(t, seq!['#'], 0);
    assert(slashes(n) =~= n) by {
        lemma_slashes_no_backslash(s);
        assert forall|i: int| 0 <= i < n.len() implies n[i] != '\\' by {
            assert(n[i] == t[i]);
        }
    }
    lemma_find_from(n, seq!['#'], 0);
    assert forall|j: int| 0 <= j implies !matches_at(n, seq!['#'], j) by {
        if matches_at(n, seq!['#'], j) {
            assert(n.subrange(j, j + 1)[0] == '#');
            assert(n[j] == '#');
            assert(j < n.len());
            assert(n[j] == t[j]);
            assert(t.subrange(j, j + 1) =~= seq!['#']);
            assert(matches_at(t, seq!['#'], j));
        }
    }
}

/// The text outside `<...>` tags.
pub open spec fn strip_state(s: Seq<char>) -> (Seq<char>, bool)
    decreases s.len(),
{
    if s.len() == 0 {
        (Seq::empty(), false)
    } else {
        let (o, in_tag) = strip_state(s.drop_last());
        let c = s.last();
        if c == '<' {
            (o, true)
        } else if c == '>' {
            (o, false)
        } else if !in_tag {
            (o.push(c), in_tag)
        } else {
            (o, in_tag)
        }
    }
}

pub open spec fn strip_tags_spec(s: Seq<char>) -> Seq<char> {
    strip_state(s).0
}

impl EpubParser {
    /// The text with every `<...>` tag removed.
    pub fn strip_html_tags(input: &str) -> (r: String)
        ensures
            r@ == strip_tags_spec(input@),
    {
        let s = chars_of(input);
        let mut out: Vec<char> = Vec::new();
        let mut in_tag = false;
        let mut i: usize = 0;
        while i < s.len()
            invariant
                i <= s@.len(),
                s@ == input@,
                (out@, in_tag) == strip_state(s@.take(i as int)),
            decreases s@.len() - i,
        {
            let c = s[i];
            proof {
                assert(s@.take(i + 1).drop_last() =~= s@.take(i as int));
            }
            if c == '<' {
                in_tag = true;
            } else if c == '>' {
                in_tag = false;
            } else if !in_tag {
                out.push(c);
            }
            i = i + 1;
        }
        proof {
            assert(s@.take(i as int) =~= s@);
        }
        string_of(&out)
    }
}

proof fn lemma_strip_no_brackets(s: Seq<char>)
    ensures
        forall|i: int| 0 <= i < strip_tags_spec(s).len() ==> strip_tags_spec(s)[i] != '<'
            && strip_tags_spec(s)[i] != '>',
    decreases s.len(),
{
    if s.len() > 0 {
        lemma_strip_no_brackets(s.drop_last());
        let (o, t) = strip_state(s.drop_last());
        let c = s.last();
        let r = strip_tags_spec(s);
        assert forall|i: int| 0 <= i < r.len() implies r[i] != '<' && r[i] != '>' by {
            assert(o == strip_tags_spec(s.drop_last()));
            if c != '<' && c != '>' && !t {
                assert(r == o.push(c));
                if i < o.len() {
                    assert(r[i] == o[i]);
                    assert(strip_tags_spec(s.drop_last())[i] != '<');
                }
            } else {
                assert(r == o);
                assert(strip_tags_spec(s.drop_last())[i] != '<');
            }
        }
    }
}

/// Law: text with its tags stripped holds no `<` and no `>`.
pub proof fn law_strip_tags_leaves_no_brackets(s: Seq<char>)
    ensures
        !strip_tags_spec(s).contains('<'),
        !strip_tags_spec(s).contains('>'),
{
    lemma_strip_no_brackets(s);
}

/// The closing tag for an opening-tag prefix.
pub open spec fn close_tag_of(tag: Seq<char>) -> Option<Seq<char>> {
    if tag == "<title"@ {
        Some("</title>"@)
    } else if tag == "<h1"@ {
        Some("</h1>"@)
    } else if tag == "<h2"@ {
        Some("</h2>"@)
    } else {
        None
    }
}

/// The inner HTML of the first `tag` element (matched case-insensitively):
/// from after the `>` ending the opening tag to the closing tag.
pub open spec fn tag_text_spec(html: Seq<char>, tag: Seq<char>) -> Option<Seq<char>> {
    let lower = ascii_lower(html);
    match find(lower, tag) {
        None => None,
        Some(tag_pos) => match find_from(lower, seq!['>'], tag_pos) {
            None => None,
            Some(open_end) => match close_tag_of(tag) {
                None => None,
                Some(close) => match find_from(lower, close, open_end) {
                    None => None,
                    Some(close_pos) => if open_end + 1 <= close_pos {
                        Some(html.subrange(open_end + 1, close_pos))
                    } else {
                        None
                    },
                },
            },
        },
    }
}

use crate::text::find_from;

impl EpubParser {
    fn close_tag(tag: &[char]) -> (r: Option<Vec<char>>)
        ensures
            match r {
                Some(v) => close_tag_of(tag@) == Some(v@),
                None => close_tag_of(tag@) is None,
            },
    {
        if chars_eq(tag, &lit("<title")) {
            Some(lit("</title>"))
        } else if chars_eq(tag, &lit("<h1")) {
            Some(lit("</h1>"))
        } else if chars_eq(tag, &lit("<h2")) {
            Some(lit("</h2>"))
        } else {
            None
        }
    }

    /// The inner HTML of the first `tag` element of `html`.
    pub fn extract_tag_text(html: &str, tag: &str) -> (r: Option<String>)
        ensures
            match r {
                Some(t) => tag_text_spec(html@, tag@) == Some(t@),
                None => tag_text_spec(html@, tag@) is None,
            },
    {
        let h = chars_of(html);
        let t = chars_of(tag);
        let lower = to_ascii_lower(&h);
        let tag_pos = match find_chars(&lower, &t) {
            Some(p) => p,
            None => return None,
        };
        let gt = vec!['>'];
        proof {
            assert(gt@ =~= seq!['>']);
            lemma_find_from(lower@, t@, 0);
        }
        let open_end = match find_chars_from(&lower, &gt, tag_pos) {
            Some(p) => p,
            None => return None,
        };
        let close = match Self::close_tag(&t) {
            Some(c) => c,
            None => return None,
        };
        let close_pos = match find_chars_from(&lower, &close, open_end) {
            Some(p) => p,
            None => return None,
        };
        proof {
            lemma_find_from(lower@, close@, open_end as int);
            lemma_find_from(lower@, gt@, tag_pos as int);
        }
        if close_pos > open_end {
            Some(string_of(&slice_chars(&h, open_end + 1, close_pos)))
        } else {
            None
        }
    }
}

/// The title candidate from one tag: its inner text, tags stripped, trimmed,
/// when not empty.
pub open spec fn title_from(html: Seq<char>, tag: Seq<char>) -> Option<Seq<char>> {
    match tag_text_spec(html, tag) {
        Some(t) => if trim(strip_tags_spec(t)).len() > 0 {
            Some(trim(strip_tags_spec(t)))
        } else {
            None
        },
        None => None,
    }
}

/// A chapter title from HTML: the first `<h1>`, else `<h2>`, else `<title>`
/// that holds text.
pub open spec fn title_spec(html: Seq<char>) -> Option<Seq<char>> {
    if title_from(html, "<h1"@) is Some {
        title_from(html, "<h1"@)
    } else if title_from(html, "<h2"@) is Some {
        title_from(html, "<h2"@)
    } else {
        title_from(html, "<title"@)
    }
}

impl EpubParser {
    fn title_by(html: &str, tag: &str) -> (r: Option<String>)
        ensures
            match r {
                Some(t) => title_from(html@, tag@) == Some(t@),
                None => title_from(html@, tag@) is None,
            },
    {
        match Self::extract_tag_text(html, tag) {
            Some(text) => {
                let cleaned = Self::strip_html_tags(text.as_str());
                let c = chars_of(cleaned.as_str());
                let trimmed = trim_chars(&c);
                if trimmed.len() > 0 {
                    Some(string_of(&trimmed))
                } else {
                    None
                }
            },
            None => None,
        }
    }

    /// A chapter title from the chapter's HTML.
    pub fn extract_title_from_html(html: &str) -> (r: Option<String>)
        ensures
            match r {
                Some(t) => title_spec(html@) == Some(t@),
                None => title_spec(html@) is None,
            },
    {
        if let Some(t) = Self::title_by(html, "<h1") {
            return Some(t);
        }
        if let Some(t) = Self::title_by(html, "<h2") {
            return Some(t);
        }
        Self::title_by(html, "<title")
    }
}

// ---------------------------------------------------------------------------
// Book record from metadata
// ---------------------------------------------------------------------------

/// The metadata items as plain values.
pub open spec fn meta_view(md: Seq<(String, String)>) -> Seq<(Seq<char>, Seq<char>)> {
    md.map_values(|p: (String, String)| (p.0@, p.1@))
}

/// The value of the last metadata item with property `prop`.
pub open spec fn meta_last(md: Seq<(Seq<char>, Seq<char>)>, prop: Seq<char>) -> Option<Seq<char>>
    decreases md.len(),
{
    if md.len() == 0 {
        None
    } else if md.last().0 == prop {
        Some(md.last().1)
    } else {
        meta_last(md.drop_last(), prop)
    }
}

/// An identifier without its `urn:isbn:` prefix.
pub open spec fn isbn_of(v: Seq<char>) -> Seq<char> {
    if starts_with(v, "urn:isbn:"@) {
        v.skip(9)
    } else {
        v
    }
}

/// The metadata fields of a book, as read from the items in order (a later
/// item of the same property overrides an earlier one).
pub struct MetaFields {
    pub name: Option<String>,
    pub author: Option<String>,
    pub publisher: Option<String>,
    pub intro: Option<String>,
    pub date: Option<String>,
    pub identifier: Option<String>,
    pub subject: Option<String>,
}

pub open spec fn meta_fields_match(f: MetaFields, md: Seq<(Seq<char>, Seq<char>)>) -> bool {
    &&& crate::text::opt_str(f.name) == meta_last(md, "title"@)
    &&& crate::text::opt_str(f.author) == meta_last(md, "creator"@)
    &&& crate::text::opt_str(f.publisher) == meta_last(md, "publisher"@)
    &&& crate::text::opt_str(f.intro) == meta_last(md, "description"@)
    &&& crate::text::opt_str(f.date) == meta_last(md, "date"@)
    &&& crate::text::opt_str(f.identifier) == meta_last(md, "identifier"@)
    &&& crate::text::opt_str(f.subject) == meta_last(md, "subject"@)
}

impl EpubParser {
    /// Reads the metadata items.
    pub fn read_metadata(metadata: &Vec<(String, String)>) -> (f: MetaFields)
        ensures
            meta_fields_match(f, meta_view(metadata@)),
    {
        let ghost md = meta_view(metadata@);
        let mut f = MetaFields {
            name: None,
            author: None,
            publisher: None,
            intro: None,
            date: None,
            identifier: None,
            subject: None,
        };
        let mut k: usize = 0;
        while k < metadata.len()
            invariant
                k <= metadata@.len(),
                md == meta_view(metadata@),
                meta_fields_match(f, md.take(k as int)),
            decreases metadata@.len() - k,
        {
            proof {
                assert(md.take(k + 1).drop_last() =~= md.take(k as int));
                assert(md.take(k + 1).last() == (metadata@[k as int].0@, metadata@[k as int].1@));
            }
            proof {
                reveal_strlit("title");
                reveal_strlit("creator");
                reveal_strlit("publisher");
                reveal_strlit("description");
                reveal_strlit("date");
                reveal_strlit("identifier");
                reveal_strlit("subject");
                assert("title"@[0] == 't' && "creator"@[0] == 'c' && "publisher"@[0] == 'p');
                assert("description"@[0] == 'd' && "date"@[0] == 'd' && "identifier"@[0] == 'i');
                assert("subject"@[0] == 's' && "description"@.len() != "date"@.len());
            }
            let prop = metadata[k].0.as_str();
            let value = metadata[k].1.clone();
            if crate::text::str_eq(prop, "title") {
                f.name = Some(value);
            } else if crate::text::str_eq(prop, "creator") {
                f.author = Some(value);
            } else if crate::text::str_eq(prop, "publisher") {
                f.publisher = Some(value);
            } else if crate::text::str_eq(prop, "description") {
                f.intro = Some(value);
            } else if crate::text::str_eq(prop, "date") {
                f.date = Some(value);
            } else if crate::text::str_eq(prop, "identifier") {
                f.identifier = Some(value);
            } else if crate::text::str_eq(prop, "subject") {
                f.subject = Some(value);
            }
            proof {
                let t = md.take(k + 1);
                assert(t.last() == (prop@, value@));
                assert(t.drop_last() == md.take(k as int));
                assert(crate::text::opt_str(f.name) == meta_last(t, "title"@));
                assert(crate::text::opt_str(f.author) == meta_last(t, "creator"@));
                assert(crate::text::opt_str(f.publisher) == meta_last(t, "publisher"@));
                assert(crate::text::opt_str(f.intro) == meta_last(t, "description"@));
                assert(crate::text::opt_str(f.date) == meta_last(t, "date"@));
                assert(crate::text::opt_str(f.identifier) == meta_last(t, "identifier"@));
                assert(crate::text::opt_str(f.subject) == meta_last(t, "subject"@));
            }
            k = k + 1;
        }
        proof {
            assert(md.take(k as int) =~= md);
        }
        f
    }

    /// The book title the metadata gives (empty when it gives none).
    pub fn title_of(metadata: &Vec<(String, String)>) -> (t: String)
        ensures
            t@ == match meta_last(meta_view(metadata@), "title"@) {
                Some(v) => v,
                None => Seq::empty(),
            },
    {
        match Self::read_metadata(metadata).name {
            Some(v) => v,
            None => String::new(),
        }
    }

    /// The identifier without an `urn:isbn:` prefix.
    pub fn strip_isbn_prefix(v: &str) -> (r: String)
        ensures
            r@ == isbn_of(v@),
    {
        let c = chars_of(v);
        let p = lit("urn:isbn:");
        proof {
            reveal_strlit("urn:isbn:");
        }
        if starts_with_chars(&c, &p) {
            let rest = slice_chars(&c, 9, c.len());
            proof {
                assert(rest@ =~= c@.skip(9));
            }
            string_of(&rest)
        } else {
            string_of(&c)
        }
    }
}

/// The characters of a book name kept in a cover file name: alphanumeric ones.
pub open spec fn alnum_only(s: Seq<char>) -> Seq<char>
    decreases s.len(),
{
    if s.len() == 0 {
        Seq::empty()
    } else if unicode_alphanumeric(s.last()) && s.last() != '_' && s.last() != ' ' {
        alnum_only(s.drop_last()).push(s.last())
    } else {
        alnum_only(s.drop_last())
    }
}

impl EpubParser {
    /// The file name under which a book's cover is saved:
    /// `cover_<alphanumerics of the name>.<extension of the cover's path>`.
    pub fn cover_file_name(book_name: &str, cover_path: &str) -> (r: String)
        ensures
            r@ == "cover_"@ + alnum_only(book_name@) + seq!['.'] + match extension_spec(cover_path@) {
                Some(e) => e,
                None => Seq::empty(),
            },
    {
        // Spaces become `_` first, and `_` is then dropped with every other
        // non-alphanumeric character.
        let c = chars_of(book_name);
        let mut kept: Vec<char> = Vec::new();
        let mut i: usize = 0;
        while i < c.len()
            invariant
                i <= c@.len(),
                c@ == book_name@,
                kept@ == alnum_only(c@.take(i as int)),
            decreases c@.len() - i,
        {
            proof {
                assert(c@.take(i + 1).drop_last() =~= c@.take(i as int));
            }
            let ch = if c[i] == ' ' { '_' } else { c[i] };
            if ch != '_' && is_alphanumeric(ch) {
                kept.push(ch);
            }
            i = i + 1;
        }
        proof {
            assert(c@.take(i as int) =~= c@);
        }
        let mut out = lit("cover_");
        append_chars(&mut out, &kept);
        out.push('.');
        match extension(cover_path) {
            Some(e) => append_chars(&mut out, &e),
            None => {},
        }
        string_of(&out)
    }
}

// ---------------------------------------------------------------------------
// Chapters and the whole book
// ---------------------------------------------------------------------------

/// The title of spine item `i` (0-based): the title its HTML gives, else
/// `章节 <i+1>`.
pub open spec fn spine_title(content: Option<Vec<u8>>, i: int) -> Seq<char> {
    match content {
        Some(b) => if vstd::utf8::valid_utf8(b@) && title_spec(vstd::utf8::decode_utf8(b@)) is Some {
            title_spec(vstd::utf8::decode_utf8(b@))->0
        } else {
            "章节 "@ + dec_digits((i + 1) as nat)
        },
        None => "章节 "@ + dec_digits((i + 1) as nat),
    }
}

/// Chapter `i` of a book, numbered from 1 (`id`) and from 0 (`chapter_index`).
pub open spec fn chapter_at(c: Chapter, book_id: Seq<char>, i: int, title: Seq<char>, url: Seq<char>) -> bool {
    &&& c.id == (i + 1) as u32
    &&& c.book_id@ == book_id
    &&& c.title@ == title
    &&& c.url@ == url
    &&& c.chapter_index == i as u32
    &&& c.word_count == 0
    &&& !c.is_vip
}

/// The chapters of an EPUB: one per table-of-contents entry, or, when the
/// table is empty, one per spine item.
pub open spec fn epub_chapters_ok(cs: Seq<Chapter>, src: EpubSource, book_id: Seq<char>) -> bool {
    if src.toc@.len() > 0 {
        &&& cs.len() == src.toc@.len()
        &&& forall|i: int| 0 <= i < cs.len() ==> chapter_at(#[trigger] cs[i], book_id, i, src.toc@[i].label@, norm_ref(src.toc@[i].content@))
    } else {
        &&& cs.len() == src.spine@.len()
        &&& forall|i: int| 0 <= i < cs.len() ==> chapter_at(#[trigger] cs[i], book_id, i, spine_title(src.spine@[i].content, i), src.spine@[i].idref@)
    }
}

impl EpubParser {
    fn one_chapter(book_id: &str, i: usize, title: String, url: String) -> (c: Chapter)
        requires
            i < usize::MAX,
        ensures
            chapter_at(c, book_id@, i as int, title@, url@),
    {
        Chapter {
            id: (i + 1) as u32,
            book_id: book_id.to_owned(),
            title,
            url,
            chapter_index: i as u32,
            word_count: 0,
            is_vip: false,
        }
    }

    /// The chapters of the book whose id is `book_id`.
    pub fn build_chapters(src: &EpubSource, book_id: &str) -> (cs: Vec<Chapter>)
        ensures
            epub_chapters_ok(cs@, *src, book_id@),
    {
        let mut cs: Vec<Chapter> = Vec::new();
        if src.toc.len() > 0 {
            let mut i: usize = 0;
            while i < src.toc.len()
                invariant
                    i <= src.toc@.len(),
                    src.toc@.len() > 0,
                    cs@.len() == i,
                    forall|j: int| 0 <= j < i ==> chapter_at(#[trigger] cs@[j], book_id@, j, src.toc@[j].label@, norm_ref(src.toc@[j].content@)),
                decreases src.toc@.len() - i,
            {
                let url = Self::normalize_toc_path(src.toc[i].content.as_str());
                let c = Self::one_chapter(book_id, i, src.toc[i].label.clone(), url);
                cs.push(c);
                i = i + 1;
            }
        } else {
            let mut i: usize = 0;
            while i < src.spine.len()
                invariant
                    i <= src.spine@.len(),
                    src.toc@.len() == 0,
                    cs@.len() == i,
                    forall|j: int| 0 <= j < i ==> chapter_at(#[trigger] cs@[j], book_id@, j, spine_title(src.spine@[j].content, j), src.spine@[j].idref@),
                decreases src.spine@.len() - i,
            {
                let title = Self::spine_item_title(&src.spine[i].content, i);
                let c = Self::one_chapter(book_id, i, title, src.spine[i].idref.clone());
                cs.push(c);
                i = i + 1;
            }
        }
        cs
    }

    fn numbered_title(i: usize) -> (t: String)
        requires
            i < usize::MAX,
        ensures
            t@ == "章节 "@ + dec_digits((i + 1) as nat),
    {
        let mut v = chars_of("章节 ");
        let d = dec_chars((i + 1) as u64);
        append_chars(&mut v, &d);
        string_of(&v)
    }

    fn spine_item_title(content: &Option<Vec<u8>>, i: usize) -> (t: String)
        requires
            i < usize::MAX,
        ensures
            t@ == spine_title(*content, i as int),
    {
        match content {
            Some(b) => match utf8_to_string(b.as_slice()) {
                Some(html) => match Self::extract_title_from_html(html.as_str()) {
                    Some(t) => t,
                    None => Self::numbered_title(i),
                },
                None => Self::numbered_title(i),
            },
            None => Self::numbered_title(i),
        }
    }
}

/// The book record of an EPUB, given its id.
pub open spec fn epub_book_ok(b: Book, src: EpubSource, book_id: Seq<char>, chapters: Seq<Chapter>) -> bool {
    let md = meta_view(src.metadata@);
    let title = match meta_last(md, "title"@) { Some(v) => v, None => Seq::empty() };
    let creator = match meta_last(md, "creator"@) { Some(v) => v, None => Seq::empty() };
    &&& b.book_id@ == book_id
    &&& b.name@ == (if title.len() > 0 { title } else {
        match file_stem_spec(src.file_path@) { Some(st) => st, None => "未知书名"@ }
    })
    &&& b.author@ == (if creator.len() > 0 { creator } else { "未知作者"@ })
    &&& crate::text::opt_str(b.publisher) == meta_last(md, "publisher"@)
    &&& crate::text::opt_str(b.intro) == meta_last(md, "description"@)
    &&& b.publish_date == match meta_last(md, "date"@) { Some(v) => parse_i64_spec(v), None => None }
    &&& crate::text::opt_str(b.isbn) == match meta_last(md, "identifier"@) { Some(v) => Some(isbn_of(v)), None => None }
    &&& crate::text::opt_str(b.kind) == meta_last(md, "subject"@)
    &&& b.cover_url == src.cover_url
    &&& b.book_type@ == "epub"@
    &&& crate::text::opt_str(b.toc_url) == Some(src.file_path@)
    &&& crate::text::opt_str(b.origin) == Some("本地文件"@)
    &&& b.status@ == "已完成"@
    &&& b.word_count as int == (if (src.spine@.len() as u32) as int * 3000 <= u32::MAX { (src.spine@.len() as u32) as int * 3000 } else { u32::MAX as int })
    &&& crate::text::opt_str(b.latest_chapter_title) == (if chapters.len() > 0 { Some(chapters.last().title@) } else { None })
    &&& b.last_read_time is None
    &&& b.book_group is None
}

impl EpubParser {
    /// Builds the book, its chapters and its initial reading progress from what
    /// the EPUB file holds.
    pub fn parse(src: &EpubSource) -> (r: (Book, Vec<Chapter>, ReadRecord))
        ensures
            epub_book_ok(r.0, *src, "epub:"@ + crate::num::hex_digits(crate::base_parser::xxh64(src.file_bytes@) as nat), r.1@),
            epub_chapters_ok(r.1@, *src, r.0.book_id@),
            r.2.book_id@ == r.0.book_id@,
            r.2.dur_chapter_index == 0,
            r.2.dur_chapter_pos == 0,
            r.2.last_chapter_index == (if r.1@.len() == 0 { 0 } else { r.1@.len() - 1 }),
            r.2.last_chapter_pos == 0,
            r.2.total_read_time == 0,
            r.2.last_read_time is None,
    {
        let book_id = BaseParser::generate_id(src.file_bytes.as_slice(), "epub");
        proof {
            reveal_strlit("epub");
            assert("epub"@ + seq![':'] =~= "epub:"@) by {
                reveal_strlit("epub:");
            }
        }
        let mut book = BaseParser::create_book(book_id.as_str(), src.file_path.as_str(), "epub");
        let f = Self::read_metadata(&src.metadata);
        match f.name {
            Some(v) => book.name = v,
            None => {},
        }
        match f.author {
            Some(v) => book.author = v,
            None => {},
        }
        book.publisher = f.publisher;
        book.intro = f.intro;
        book.publish_date = match f.date {
            Some(d) => parse_i64(&chars_of(d.as_str())),
            None => None,
        };
        book.isbn = match f.identifier {
            Some(v) => Some(Self::strip_isbn_prefix(v.as_str())),
            None => None,
        };
        book.kind = f.subject;
        book.cover_url = src.cover_url.clone();
        // defaults for what the metadata leaves empty
        if book.name.as_str().is_empty() {
            book.name = match file_stem(src.file_path.as_str()) {
                Some(st) => string_of(&st),
                None => "未知书名".to_owned(),
            };
        }
        if book.author.as_str().is_empty() {
            book.author = "未知作者".to_owned();
        }
        let spine_len = src.spine.len() as u32;
        let wc: u64 = spine_len as u64 * 3000;
        book.word_count = if wc <= u32::MAX as u64 {
            wc as u32
        } else {
            u32::MAX
        };
        let chapters = Self::build_chapters(src, book_id.as_str());
        book.latest_chapter_title = if chapters.len() > 0 {
            Some(chapters[chapters.len() - 1].title.clone())
        } else {
            None
        };
        let record = BaseParser::create_read_record(book_id.as_str(), chapters.len());
        proof {
            let md = meta_view(src.metadata@);
            assert(book.book_id@ == "epub:"@ + crate::num::hex_digits(crate::base_parser::xxh64(src.file_bytes@) as nat));
            assert(crate::text::opt_str(book.publisher) == meta_last(md, "publisher"@));
            assert(book.publish_date == match meta_last(md, "date"@) { Some(v) => parse_i64_spec(v), None => None });
            assert(crate::text::opt_str(book.isbn) == match meta_last(md, "identifier"@) { Some(v) => Some(isbn_of(v)), None => None });
            assert(book.word_count as int == (if (src.spine@.len() as u32) as int * 3000 <= u32::MAX { (src.spine@.len() as u32) as int * 3000 } else { u32::MAX as int }));
            assert(crate::text::opt_str(book.latest_chapter_title) == (if chapters@.len() > 0 { Some(chapters@.last().title@) } else { None }));
            assert(crate::text::opt_str(book.toc_url) == Some(src.file_path@));
        }
        (book, chapters, record)
    }
}

// ---------------------------------------------------------------------------
// Chapter content among the resources
// ---------------------------------------------------------------------------

/// The resource keys, with `/` separators.
pub open spec fn res_keys(entries: Seq<(String, Vec<u8>)>) -> Seq<Seq<char>> {
    entries.map_values(|e: (String, Vec<u8>)| slashes(e.0@))
}

/// The content of the first resource whose key is `key`.
pub open spec fn lookup(entries: Seq<(String, Vec<u8>)>, key: Seq<char>) -> Option<Seq<u8>>
    decreases entries.len(),
{
    if entries.len() == 0 {
        None
    } else if entries[0].0@ == key {
        Some(entries[0].1@)
    } else {
        lookup(entries.drop_first(), key)
    }
}

/// Decoding a chapter's bytes.
pub open spec fn decode_spec(b: Seq<u8>) -> Result<Seq<char>, Seq<char>> {
    if vstd::utf8::valid_utf8(b) {
        Ok(vstd::utf8::decode_utf8(b))
    } else {
        Err("章节内容不是有效的UTF-8"@)
    }
}

/// A resource key that matches a content reference by its end.
pub open spec fn key_matches(k: Seq<char>, r: Seq<char>, stripped: Seq<char>, name: Seq<char>) -> bool {
    ends_with(k, r) || ends_with(k, stripped) || (name.len() > 0 && ends_with(k, name))
}

/// The first key that matches.
pub open spec fn first_match(keys: Seq<Seq<char>>, r: Seq<char>, stripped: Seq<char>, name: Seq<char>) -> Option<Seq<char>>
    decreases keys.len(),
{
    if keys.len() == 0 {
        None
    } else if key_matches(keys[0], r, stripped, name) {
        Some(keys[0])
    } else {
        first_match(keys.drop_first(), r, stripped, name)
    }
}

/// The content of a chapter: the resource the normalized reference names, or
/// the one it names without an `OEBPS/` prefix, or the first resource whose key
/// ends with the reference, the reference without `OEBPS/`, or its file name;
/// otherwise an error that previews the first 15 resource keys.
pub open spec fn content_spec(content_ref: Seq<char>, entries: Seq<(String, Vec<u8>)>) -> Result<Seq<char>, Seq<char>> {
    let r = norm_ref(content_ref);
    let stripped_ref = replace_all(r, "OEBPS/"@, Seq::empty());
    let name = match file_name_spec(r) { Some(n) => n, None => Seq::empty() };
    if lookup(entries, r) is Some {
        decode_spec(lookup(entries, r)->0)
    } else if starts_with(r, "OEBPS/"@) && lookup(entries, r.skip(6)) is Some {
        decode_spec(lookup(entries, r.skip(6))->0)
    } else if first_match(res_keys(entries), r, stripped_ref, name) is Some
        && lookup(entries, first_match(res_keys(entries), r, stripped_ref, name)->0) is Some {
        decode_spec(lookup(entries, first_match(res_keys(entries), r, stripped_ref, name)->0)->0)
    } else {
        Err("无法获取章节内容: content_ref="@ + r + " resources_preview="@ + join_spec(
            res_keys(entries).take(if entries.len() < 15 { entries.len() as int } else { 15 }),
            " | "@,
        ))
    }
}

/// Law: a content reference and its normalized form (`\` as `/`, without
/// its `#fragment`) name the same chapter text.
pub proof fn law_content_ignores_fragment(content_ref: Seq<char>, entries: Seq<(String, Vec<u8>)>)
    ensures
        content_spec(norm_ref(content_ref), entries) == content_spec(content_ref, entries),
{
    law_normalize_ref_idempotent(content_ref);
}

/// The view of a content result.
pub open spec fn result_view(r: Result<String, ReaderError>) -> Result<Seq<char>, Seq<char>> {
    match r {
        Ok(s) => Ok(s@),
        Err(e) => Err(e.message@),
    }
}

impl EpubResources {
    fn find(&self, key: &[char]) -> (r: Option<usize>)
        ensures
            match r {
                Some(i) => i < self.entries@.len() && lookup(self.entries@, key@) == Some(self.entries@[i as int].1@),
                None => lookup(self.entries@, key@) is None,
            },
    {
        let mut i: usize = 0;
        proof {
            assert(self.entries@.skip(0) =~= self.entries@);
        }
        while i < self.entries.len()
            invariant
                i <= self.entries@.len(),
                lookup(self.entries@, key@) == lookup(self.entries@.skip(i as int), key@),
            decreases self.entries@.len() - i,
        {
            proof {
                assert(self.entries@.skip(i as int).drop_first() =~= self.entries@.skip(i + 1));
                assert(self.entries@.skip(i as int)[0] == self.entries@[i as int]);
            }
            let k = chars_of(self.entries[i].0.as_str());
            if chars_eq(&k, key) {
                return Some(i);
            }
            i = i + 1;
        }
        None
    }
}

impl EpubParser {
    fn decode(bytes: &[u8]) -> (r: Result<String, ReaderError>)
        ensures
            result_view(r) == decode_spec(bytes@),
    {
        match utf8_to_string(bytes) {
            Some(t) => Ok(t),
            None => Err(ReaderError::new("章节内容不是有效的UTF-8")),
        }
    }

    fn first_matching_key(res: &EpubResources, r: &[char], stripped: &[char], name: &[char]) -> (k: Option<Vec<char>>)
        ensures
            match k {
                Some(v) => first_match(res_keys(res.entries@), r@, stripped@, name@) == Some(v@),
                None => first_match(res_keys(res.entries@), r@, stripped@, name@) is None,
            },
    {
        let ghost keys = res_keys(res.entries@);
        let mut i: usize = 0;
        proof {
            assert(keys.skip(0) =~= keys);
        }
        while i < res.entries.len()
            invariant
                i <= res.entries@.len(),
                keys == res_keys(res.entries@),
                first_match(keys, r@, stripped@, name@) == first_match(keys.skip(i as int), r@, stripped@, name@),
            decreases res.entries@.len() - i,
        {
            let k = to_slashes(&chars_of(res.entries[i].0.as_str()));
            proof {
                assert(keys.skip(i as int).drop_first() =~= keys.skip(i + 1));
                assert(keys.skip(i as int)[0] == k@);
            }
            if ends_with_chars(&k, r) || ends_with_chars(&k, stripped) || (name.len() > 0 && ends_with_chars(&k, name)) {
                return Some(k);
            }
            i = i + 1;
        }
        None
    }

    fn preview(res: &EpubResources) -> (p: Vec<char>)
        ensures
            p@ == join_spec(res_keys(res.entries@).take(if res.entries@.len() < 15 { res.entries@.len() as int } else { 15 }), " | "@),
    {
        let ghost keys = res_keys(res.entries@);
        let n = if res.entries.len() < 15 { res.entries.len() } else { 15 };
        let sep = lit(" | ");
        let mut out: Vec<char> = Vec::new();
        let mut i: usize = 0;
        while i < n
            invariant
                i <= n <= res.entries@.len(),
                keys == res_keys(res.entries@),
                sep@ == " | "@,
                out@ == join_spec(keys.take(i as int), " | "@),
            decreases n - i,
        {
            let k = to_slashes(&chars_of(res.entries[i].0.as_str()));
            proof {
                assert(keys.take(i + 1).drop_last() =~= keys.take(i as int));
                assert(keys.take(i + 1).last() == k@);
                if i == 0 {
                    assert(keys.take(i as int) =~= Seq::<Seq<char>>::empty());
                }
            }
            if i > 0 {
                append_chars(&mut out, &sep);
            }
            append_chars(&mut out, &k);
            proof {
                if i == 0 {
                    assert(out@ =~= keys.take(1)[0]);
                }
            }
            i = i + 1;
        }
        out
    }

    /// The text of the chapter at `content_ref` among the EPUB's resources.
    pub fn get_content(content_ref: &str, res: &EpubResources) -> (r: Result<String, ReaderError>)
        ensures
            result_view(r) == content_spec(content_ref@, res.entries@),
    {
        let rs = Self::normalize_content_ref(content_ref);
        let r = chars_of(rs.as_str());
        if let Some(i) = res.find(&r) {
            return Self::decode(res.entries[i].1.as_slice());
        }
        let oebps = lit("OEBPS/");
        proof {
            reveal_strlit("OEBPS/");
        }
        if starts_with_chars(&r, &oebps) {
            let st = slice_chars(&r, 6, r.len());
            proof {
                assert(st@ =~= r@.skip(6));
            }
            if let Some(i) = res.find(&st) {
                return Self::decode(res.entries[i].1.as_slice());
            }
        }
        let name = match file_name(rs.as_str()) {
            Some(n) => n,
            None => Vec::new(),
        };
        let empty: Vec<char> = Vec::new();
        let stripped = replace_chars(&r, &oebps, &empty);
        if let Some(k) = Self::first_matching_key(res, &r, &stripped, &name) {
            if let Some(i) = res.find(&k) {
                return Self::decode(res.entries[i].1.as_slice());
            }
        }
        let mut msg = chars_of("无法获取章节内容: content_ref=");
        append_chars(&mut msg, &r);
        append_chars(&mut msg, &lit(" resources_preview="));
        append_chars(&mut msg, &Self::preview(res));
        Err(ReaderError { message: string_of(&msg) })
    }
}

} // verus!
