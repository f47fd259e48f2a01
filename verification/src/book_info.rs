//! Book-detail pages: merging what was parsed with what was already known,
//! and resolving the links they hold.
use vstd::prelude::*;
use crate::models::{Book, BookSource};
use crate::text::{
    chars_of, opt_str, starts_with, starts_with_chars, string_of, trim, trim_chars, replace_all,
    replace_chars, append_chars,
};
use crate::url_util::{resolve_spec, resolve_url};
use crate::num::{parse_u32, parse_u32_spec};
use crate::selector::lit;
use crate::models::BookInfoRule;
use crate::error::{debug_of, debug_opt, ReaderError};
use crate::dom::{css_valid, dom_attr, dom_select_doc, strs_view, text_of, HtmlDoc};
use crate::rule_engine::{
    doc_text_spec, extract_list_single_rule, extract_text_from_document, parts_script_free,
    script_free, values_spec,
};
use crate::num::{parse_i64, parse_i64_spec};
use crate::text::trim_str;

verus! {

/// An optional text that is absent or empty.
pub open spec fn blank_opt(o: Option<String>) -> bool {
    match o {
        Some(s) => s@.len() == 0,
        None => true,
    }
}

/// Each field that parsing left empty (or zero) taken from `base`.
pub open spec fn merged(b: Book, parsed: Book, base: Book) -> bool {
    &&& b.book_id == parsed.book_id
    &&& b.name == (if parsed.name@.len() == 0 && base.name@.len() > 0 { base.name } else { parsed.name })
    &&& b.author == (if parsed.author@.len() == 0 && base.author@.len() > 0 { base.author } else { parsed.author })
    &&& b.kind == (if blank_opt(parsed.kind) { base.kind } else { parsed.kind })
    &&& b.cover_url == (if blank_opt(parsed.cover_url) { base.cover_url } else { parsed.cover_url })
    &&& b.intro == (if blank_opt(parsed.intro) { base.intro } else { parsed.intro })
    &&& b.latest_chapter_title == (if blank_opt(parsed.latest_chapter_title) { base.latest_chapter_title } else { parsed.latest_chapter_title })
    &&& b.toc_url == (if blank_opt(parsed.toc_url) { base.toc_url } else { parsed.toc_url })
    &&& b.origin == (if blank_opt(parsed.origin) { base.origin } else { parsed.origin })
    &&& b.book_type == (if parsed.book_type@.len() == 0 { base.book_type } else { parsed.book_type })
    &&& b.word_count == (if parsed.word_count == 0 { base.word_count } else { parsed.word_count })
    &&& b.add_time == (if parsed.add_time == 0 { base.add_time } else { parsed.add_time })
    &&& b.book_group == parsed.book_group
    &&& b.last_read_time == parsed.last_read_time
    &&& b.isbn == parsed.isbn
    &&& b.publisher == parsed.publisher
    &&& b.publish_date == parsed.publish_date
    &&& b.status == parsed.status
}

fn is_blank_opt(o: &Option<String>) -> (b: bool)
    ensures
        b == blank_opt(*o),
{
    match o {
        Some(s) => s.as_str().is_empty(),
        None => true,
    }
}

/// Fills what a parsed book left empty from a book already known.
pub fn merge_base_book(parsed: Book, base: &Book) -> (b: Book)
    ensures
        merged(b, parsed, *base),
{
    let mut p = parsed;
    if p.name.as_str().is_empty() && !base.name.as_str().is_empty() {
        p.name = base.name.clone();
    }
    if p.author.as_str().is_empty() && !base.author.as_str().is_empty() {
        p.author = base.author.clone();
    }
    if is_blank_opt(&p.kind) {
        p.kind = base.kind.clone();
    }
    if is_blank_opt(&p.cover_url) {
        p.cover_url = base.cover_url.clone();
    }
    if is_blank_opt(&p.intro) {
        p.intro = base.intro.clone();
    }
    if is_blank_opt(&p.latest_chapter_title) {
        p.latest_chapter_title = base.latest_chapter_title.clone();
    }
    if is_blank_opt(&p.toc_url) {
        p.toc_url = base.toc_url.clone();
    }
    if is_blank_opt(&p.origin) {
        p.origin = base.origin.clone();
    }
    if p.book_type.as_str().is_empty() {
        p.book_type = base.book_type.clone();
    }
    if p.word_count == 0 {
        p.word_count = base.word_count;
    }
    if p.add_time == 0 {
        p.add_time = base.add_time;
    }
    p
}

/// Law: merging with the same known book a second time changes nothing.
pub proof fn law_merge_idempotent(parsed: Book, base: Book, once: Book, twice: Book)
    requires
        merged(once, parsed, base),
        merged(twice, once, base),
    ensures
        twice == once,
{
}

/// Law: a field that parsing filled is never replaced by the known book's.
pub proof fn law_merge_keeps_parsed(parsed: Book, base: Book, b: Book)
    requires
        merged(b, parsed, base),
    ensures
        parsed.name@.len() > 0 ==> b.name == parsed.name,
        !blank_opt(parsed.cover_url) ==> b.cover_url == parsed.cover_url,
        !blank_opt(parsed.toc_url) ==> b.toc_url == parsed.toc_url,
        parsed.word_count != 0 ==> b.word_count == parsed.word_count,
{
}

/// `s.trim_end_matches(c)`: `s` without any trailing `c`.
pub open spec fn strip_trailing(s: Seq<char>, c: char) -> Seq<char>
    decreases s.len(),
{
    if s.len() > 0 && s.last() == c {
        strip_trailing(s.drop_last(), c)
    } else {
        s
    }
}

pub fn trim_end_char(s: &[char], c: char) -> (r: Vec<char>)
    ensures
        r@ == strip_trailing(s@, c),
{
    let mut k = s.len();
    proof {
        assert(s@.take(k as int) =~= s@);
    }
    while k > 0 && s[k - 1] == c
        invariant
            k <= s@.len(),
            strip_trailing(s@, c) == strip_trailing(s@.take(k as int), c),
        decreases k,
    {
        proof {
            assert(s@.take(k as int).drop_last() =~= s@.take(k - 1));
        }
        k = k - 1;
    }
    crate::text::slice_chars(s, 0, k)
}

/// `link` with a leading `/` (added when missing).
pub open spec fn slash_path(link: Seq<char>) -> Seq<char> {
    if starts_with(link, seq!['/']) {
        link
    } else {
        seq!['/'] + link
    }
}

pub fn with_leading_slash(link: &[char]) -> (r: Vec<char>)
    ensures
        r@ == slash_path(link@),
{
    if link.len() > 0 && link[0] == '/' {
        proof {
            assert(link@.subrange(0, 1) =~= seq!['/']);
        }
        crate::text::slice_chars(link, 0, link.len())
    } else {
        proof {
            if link@.len() > 0 {
                assert(link@.subrange(0, 1)[0] == link@[0]);
            }
        }
        let mut r = vec!['/'];
        append_chars(&mut r, link);
        r
    }
}

/// A link resolved for a book page: absolute links as they are, else against
/// the book's URL, else appended to the source's URL (trailing `/` removed).
pub open spec fn resolve_with_source_spec(source_url: Seq<char>, book_url: Seq<char>, link: Seq<char>) -> Option<Seq<char>> {
    let l = trim(link);
    if l.len() == 0 {
        None
    } else if starts_with(l, "http://"@) || starts_with(l, "https://"@) {
        Some(l)
    } else if resolve_spec(book_url, l) is Some {
        resolve_spec(book_url, l)
    } else if trim(source_url).len() > 0 {
        Some(strip_trailing(source_url, '/') + slash_path(l))
    } else {
        None
    }
}

/// Resolves a link found on a book page.
pub fn resolve_url_with_source(book_source: &BookSource, book_url: &str, link: &str) -> (r: Option<String>)
    ensures
        opt_str(r) == resolve_with_source_spec(book_source.book_source_url@, book_url@, link@),
{
    let l = trim_chars(&chars_of(link));
    if l.len() == 0 {
        return None;
    }
    if starts_with_chars(&l, &lit("http://")) || starts_with_chars(&l, &lit("https://")) {
        return Some(string_of(&l));
    }
    let ls = string_of(&l);
    proof {
        crate::rule_split::lemma_trim_idempotent(link@);
    }
    if let Some(resolved) = resolve_url(book_url, ls.as_str()) {
        return Some(resolved);
    }
    let src = chars_of(book_source.book_source_url.as_str());
    if trim_chars(&src).len() > 0 {
        let mut base = trim_end_char(&src, '/');
        let path = with_leading_slash(&l);
        append_chars(&mut base, &path);
        return Some(string_of(&base));
    }
    None
}

/// The origin of a book from a source: its URL, or its name when the URL is empty.
pub open spec fn origin_spec(src: BookSource) -> Seq<char> {
    if src.book_source_url@.len() == 0 {
        src.book_source_name@
    } else {
        src.book_source_url@
    }
}

pub fn origin_of(src: &BookSource) -> (r: String)
    ensures
        r@ == origin_spec(*src),
{
    if src.book_source_url.as_str().is_empty() {
        src.book_source_name.clone()
    } else {
        src.book_source_url.clone()
    }
}

/// A word count text: `万` and `字` removed, then read as a `u32` (0 when it
/// does not parse).
pub open spec fn word_count_of(s: Seq<char>) -> u32 {
    match parse_u32_spec(replace_all(replace_all(s, "万"@, Seq::empty()), "字"@, Seq::empty())) {
        Some(v) => v,
        None => 0,
    }
}

pub fn parse_word_count(s: &str) -> (n: u32)
    ensures
        n == word_count_of(s@),
{
    let c = chars_of(s);
    let wan = lit("万");
    let zi = lit("字");
    proof {
        reveal_strlit("万");
        reveal_strlit("字");
    }
    let empty: Vec<char> = Vec::new();
    let a = replace_chars(&c, &wan, &empty);
    let b = replace_chars(&a, &zi, &empty);
    match parse_u32(&b) {
        Some(v) => v,
        None => 0,
    }
}


// ---------------------------------------------------------------------------
// Book-detail pages
// ---------------------------------------------------------------------------

/// The text of the first `<title>`, trimmed, unless blank.
pub open spec fn title_spec(src: Seq<char>) -> Option<Seq<char>> {
    if !css_valid("title"@) || dom_select_doc(src, "title"@).len() == 0 {
        None
    } else {
        let t = trim(text_of(src, dom_select_doc(src, "title"@)[0]));
        if t.len() == 0 {
            None
        } else {
            Some(t)
        }
    }
}

/// The `content` of the first element matching the selector, trimmed,
/// unless blank.
pub open spec fn meta_spec(src: Seq<char>, sel: Seq<char>) -> Option<Seq<char>> {
    if !css_valid(sel) || dom_select_doc(src, sel).len() == 0 {
        None
    } else {
        match dom_attr(src, dom_select_doc(src, sel)[0], "content"@) {
            Some(c) => if trim(c).len() == 0 {
                None
            } else {
                Some(trim(c))
            },
            None => None,
        }
    }
}

/// The page's `<title>` text.
pub fn extract_title(d: &HtmlDoc) -> (r: Option<String>)
    ensures
        opt_str(r) == title_spec(d@),
{
    match d.select_all("title") {
        Some(els) => {
            if els.len() == 0 {
                return None;
            }
            let t = trim_str(d.text(els[0]).as_str());
            if chars_of(t.as_str()).len() == 0 {
                None
            } else {
                Some(t)
            }
        },
        None => None,
    }
}

/// The `content` attribute of the first element matching `selector_str`.
pub fn extract_meta_content(d: &HtmlDoc, selector_str: &str) -> (r: Option<String>)
    ensures
        opt_str(r) == meta_spec(d@, selector_str@),
{
    match d.select_all(selector_str) {
        Some(els) => {
            if els.len() == 0 {
                return None;
            }
            match d.attr(els[0], "content") {
                Some(c) => {
                    let t = trim_str(c.as_str());
                    if chars_of(t.as_str()).len() == 0 {
                        None
                    } else {
                        Some(t)
                    }
                },
                None => None,
            }
        },
        None => None,
    }
}

/// What a book-detail page yields, before it becomes a book.
pub struct InfoFields {
    pub title: Option<String>,
    pub og_title: Option<String>,
    pub name: Option<String>,
    pub author: Option<String>,
    pub intro: Option<String>,
    pub kind: Option<String>,
    pub last_chapter: Option<String>,
    pub update_time: Option<String>,
    /// The cover link as found (the rule's, else an image's, else `og:image`).
    pub cover: String,
    /// The table-of-contents links as found.
    pub toc_urls: Vec<String>,
    pub word_count: Option<String>,
}

/// What an optional rule gives on the page.
pub open spec fn field_text(src: Seq<char>, sel: Option<String>) -> Option<Seq<char>> {
    match sel {
        Some(s) => doc_text_spec(src, s@),
        None => None,
    }
}

pub open spec fn or_blank(o: Option<Seq<char>>) -> Seq<char> {
    match o {
        Some(v) => v,
        None => Seq::empty(),
    }
}

/// The cover link: the rule's, else the first of `img@data-original`,
/// `img@data-src`, `img@src` that is not blank, else the `og:image` meta.
pub open spec fn cover_spec(src: Seq<char>, rule: Option<String>) -> Seq<char> {
    let c1 = or_blank(field_text(src, rule));
    let c2 = or_blank(doc_text_spec(src, "img@data-original"@));
    let c3 = or_blank(doc_text_spec(src, "img@data-src"@));
    let c4 = or_blank(doc_text_spec(src, "img@src"@));
    if trim(c1).len() > 0 {
        c1
    } else if trim(c2).len() > 0 {
        c2
    } else if trim(c3).len() > 0 {
        c3
    } else if trim(c4).len() > 0 {
        c4
    } else {
        or_blank(meta_spec(src, "meta[property=\"og:image\"]"@))
    }
}

/// The table-of-contents links the rule finds (none without a rule).
pub open spec fn toc_links_spec(src: Seq<char>, rule: Option<String>) -> Seq<Seq<char>> {
    match rule {
        Some(r) => values_spec(src, r@),
        None => Seq::empty(),
    }
}

/// An optional rule of the page that holds no script.
pub open spec fn rule_free(r: Option<String>) -> bool {
    r matches Some(x) ==> parts_script_free(trim(x@))
}

/// A rule made only of characters that start no operator and no script.
pub open spec fn plain_chars(s: Seq<char>) -> bool {
    forall|i: int| 0 <= i < s.len() ==> {
        let c = #[trigger] s[i];
        c != '&' && c != '|' && c != '%' && c != '<' && c != ':'
    }
}

/// A rule without operator or script characters holds no script.
proof fn lemma_plain_rule_script_free(s: Seq<char>)
    requires
        plain_chars(s),
    ensures
        parts_script_free(trim(s)),
{
    let t = trim(s);
    crate::text::lemma_trim_subrange(s);
    assert forall|i: int| 0 <= i < t.len() implies #[trigger] t[i] != '&' && t[i] != '|' && t[i] != '%' && t[i] != '<' && t[i] != ':' by {
        assert(t[i] == s[crate::text::lead_ws(s) + i]);
    }
    let ops = crate::rule_engine::rule_ops();
    reveal_strlit("&&");
    reveal_strlit("||");
    reveal_strlit("%%");
    assert forall|k: int| 0 <= k < ops.len() implies (#[trigger] ops[k]).len() == 2
        && (ops[k][0] == '&' || ops[k][0] == '|' || ops[k][0] == '%') by {
        assert(ops[0] == "&&"@ && ops[1] == "||"@ && ops[2] == "%%"@);
    }
    assert forall|k: int, p: int| 0 <= k < ops.len() implies !#[trigger] crate::text::matches_at(t, ops[k], p) by {
        if crate::text::matches_at(t, ops[k], p) {
            assert(ops[k].len() == 2);
            assert(t.subrange(p, p + ops[k].len())[0] == ops[k][0]);
            assert(t[p] == ops[k][0]);
        }
    }
    crate::rule_split::law_split_without_operator(t, ops);
    let pieces = crate::rule_split::split_spec(t, ops);
    assert forall|k: int| 0 <= k < pieces.len() implies script_free(#[trigger] pieces[k]) by {
        crate::rule_split::lemma_trim_idempotent(s);
        assert(pieces[k] == t);
        reveal_strlit("<js>");
        reveal_strlit("@js:");
        crate::text::lemma_find_from(t, "<js>"@, 0);
        crate::text::lemma_find_from(t, "@js:"@, 0);
        if crate::text::contains(t, "<js>"@) {
            let j = crate::text::find(t, "<js>"@)->0;
            assert(t.subrange(j, j + 4) == "<js>"@);
            assert(t.subrange(j, j + 4)[0] == '<');
            assert(t[j] == '<');
        }
        if crate::text::contains(t, "@js:"@) {
            let j = crate::text::find(t, "@js:"@)->0;
            assert(t.subrange(j, j + 4) == "@js:"@);
            assert(t.subrange(j, j + 4)[3] == ':');
            assert(t[j + 3] == ':');
        }
    }
}

/// The image rules tried for a cover hold no script.
proof fn lemma_image_rules_script_free()
    ensures
        parts_script_free(trim("img@data-original"@)),
        parts_script_free(trim("img@data-src"@)),
        parts_script_free(trim("img@src"@)),
{
    reveal_strlit("img@data-original");
    reveal_strlit("img@data-src");
    reveal_strlit("img@src");
    lemma_plain_rule_script_free("img@data-original"@);
    lemma_plain_rule_script_free("img@data-src"@);
    lemma_plain_rule_script_free("img@src"@);
}

/// A field read by its own rule: what the rule gives on the page, stated
/// unless that rule holds a script.
pub open spec fn text_field_ok(v: Option<String>, src: Seq<char>, r: Option<String>) -> bool {
    rule_free(r) ==> opt_str(v) == field_text(src, r)
}

/// The fields are what the rules give on the page, each stated unless its
/// own rule holds a script.
pub open spec fn info_fields_ok(f: InfoFields, src: Seq<char>, rule: BookInfoRule) -> bool {
    &&& text_field_ok(f.name, src, rule.name)
    &&& text_field_ok(f.author, src, rule.author)
    &&& text_field_ok(f.intro, src, rule.intro)
    &&& text_field_ok(f.kind, src, rule.kind)
    &&& text_field_ok(f.last_chapter, src, rule.last_chapter)
    &&& text_field_ok(f.update_time, src, rule.update_time)
    &&& rule_free(rule.cover_url) ==> f.cover@ == cover_spec(src, rule.cover_url)
    &&& (rule.toc_url matches Some(r) ==> script_free(r@)) ==> strs_view(f.toc_urls@) == toc_links_spec(src, rule.toc_url)
    &&& text_field_ok(f.word_count, src, rule.word_count)
}

fn field_of(d: &HtmlDoc, rule: &Option<String>) -> (r: Option<String>)
    ensures
        rule is None ==> r is None,
        rule matches Some(x) ==> (parts_script_free(trim(x@)) ==> opt_str(r) == doc_text_spec(d@, x@)),
{
    match rule {
        Some(x) => extract_text_from_document(d, Some(x)),
        None => None,
    }
}

fn text_or_blank(o: Option<String>) -> (r: String)
    ensures
        r@ == or_blank(opt_str(o)),
{
    match o {
        Some(v) => v,
        None => String::new(),
    }
}

fn is_blank_str(s: &String) -> (b: bool)
    ensures
        b == (trim(s@).len() == 0),
{
    chars_of(trim_str(s.as_str()).as_str()).len() == 0
}

/// Reads the fields of a book-detail page by its rules.
pub fn extract_info_fields(d: &HtmlDoc, rule: &BookInfoRule) -> (f: InfoFields)
    ensures
        opt_str(f.title) == title_spec(d@),
        opt_str(f.og_title) == meta_spec(d@, "meta[property=\"og:title\"]"@),
        info_fields_ok(f, d@, *rule),
{
    proof {
        lemma_image_rules_script_free();
    }
    let title = extract_title(d);
    let og_title = extract_meta_content(d, "meta[property=\"og:title\"]");
    let name = field_of(d, &rule.name);
    let author = field_of(d, &rule.author);
    let intro = field_of(d, &rule.intro);
    let kind = field_of(d, &rule.kind);
    let last_chapter = field_of(d, &rule.last_chapter);
    let update_time = field_of(d, &rule.update_time);
    let mut cover = text_or_blank(field_of(d, &rule.cover_url));
    if is_blank_str(&cover) {
        let r = "img@data-original".to_string();
        cover = text_or_blank(extract_text_from_document(d, Some(&r)));
    }
    if is_blank_str(&cover) {
        let r = "img@data-src".to_string();
        cover = text_or_blank(extract_text_from_document(d, Some(&r)));
    }
    if is_blank_str(&cover) {
        let r = "img@src".to_string();
        cover = text_or_blank(extract_text_from_document(d, Some(&r)));
    }
    if is_blank_str(&cover) {
        cover = text_or_blank(extract_meta_content(d, "meta[property=\"og:image\"]"));
    }
    let toc_urls = match &rule.toc_url {
        Some(r) => extract_list_single_rule(d, r.as_str()),
        None => {
            let v: Vec<String> = Vec::new();
            proof {
                assert(strs_view(v@) =~= Seq::<Seq<char>>::empty());
            }
            v
        },
    };
    let word_count = field_of(d, &rule.word_count);
    InfoFields { title, og_title, name, author, intro, kind, last_chapter, update_time, cover, toc_urls, word_count }
}


/// A link resolved for a book page, or the link itself.
pub open spec fn resolved_or_self(source: BookSource, book_url: Seq<char>, link: Seq<char>) -> Seq<char> {
    match resolve_with_source_spec(source.book_source_url@, book_url, link) {
        Some(x) => x,
        None => link,
    }
}

/// The table-of-contents links of a book: those found (the book's own URL
/// when none was), each resolved.
pub open spec fn toc_list_spec(links: Seq<Seq<char>>, book_url: Seq<char>, source: BookSource) -> Seq<Seq<char>> {
    let l = if links.len() == 0 {
        seq![book_url]
    } else {
        links
    };
    l.map_values(|u: Seq<char>| resolved_or_self(source, book_url, u))
}

/// The error when a book page yields no name.
pub open spec fn name_error(book_url: Seq<char>, rule_name: Option<Seq<char>>, title: Option<Seq<char>>, og_title: Option<Seq<char>>) -> Seq<char> {
    "无法提取书籍名称: url="@ + book_url + ", rule.name="@ + debug_opt(rule_name) + ", title="@ + debug_opt(title)
        + ", og:title="@ + debug_opt(og_title)
}

/// The book built from a page's fields (before merging with a known book).
pub open spec fn parsed_book_ok(b: Book, f: InfoFields, book_url: Seq<char>, source: BookSource, toc: Seq<Seq<char>>) -> bool {
    let cover = resolved_or_self(source, book_url, f.cover@);
    let last = or_blank(opt_str(f.last_chapter));
    &&& b.book_id@ == book_url
    &&& opt_str(Some(b.name)) == opt_str(f.name)
    &&& b.author@ == or_blank(opt_str(f.author))
    &&& opt_str(b.kind) == Some(or_blank(opt_str(f.kind)))
    &&& opt_str(b.cover_url) == (if trim(cover).len() == 0 { None } else { Some(cover) })
    &&& opt_str(b.intro) == Some(or_blank(opt_str(f.intro)))
    &&& opt_str(b.origin) == Some(origin_spec(source))
    &&& b.book_type@ == "网络小说"@
    &&& b.word_count == word_count_of(or_blank(opt_str(f.word_count)))
    &&& opt_str(b.latest_chapter_title) == (if last.len() == 0 { None } else { Some(last) })
    &&& opt_str(b.toc_url) == (if toc.len() > 0 { Some(toc[0]) } else { None })
    &&& b.book_group is None
    &&& b.add_time == (match parse_i64_spec(or_blank(opt_str(f.update_time))) { Some(v) => v, None => 0 })
    &&& b.last_read_time is None
    &&& b.isbn is None
    &&& b.publisher is None
    &&& b.publish_date is None
    &&& b.status@ == "连载中"@
}

/// The book and table-of-contents links built from a page's fields: an
/// error when there is no name; otherwise the parsed book, merged with the
/// known book when there is one.
pub open spec fn book_info_ok(
    r: Result<(Book, Vec<String>), ReaderError>,
    f: InfoFields,
    rule_name: Option<String>,
    book_url: Seq<char>,
    source: BookSource,
    base: Option<Book>,
) -> bool {
    match f.name {
        None => r matches Err(e) && e.message@ == name_error(book_url, opt_str(rule_name), opt_str(f.title), opt_str(f.og_title)),
        Some(_) => r matches Ok((b, toc)) && strs_view(toc@) == toc_list_spec(strs_view(f.toc_urls@), book_url, source)
            && exists|p: Book| #[trigger] parsed_book_ok(p, f, book_url, source, strs_view(toc@)) && built_from(b, p, base),
    }
}

/// The book is the parsed one, merged with the known book when there is one.
pub open spec fn built_from(b: Book, parsed: Book, base: Option<Book>) -> bool {
    match base {
        Some(k) => merged(b, parsed, k),
        None => b == parsed,
    }
}

fn resolve_all(links: &Vec<String>, book_url: &str, source: &BookSource) -> (r: Vec<String>)
    ensures
        strs_view(r@) == toc_list_spec(strs_view(links@), book_url@, *source),
{
    let mut list: Vec<String> = Vec::new();
    if links.len() == 0 {
        list.push(book_url.to_string());
    } else {
        let mut k: usize = 0;
        while k < links.len()
            invariant
                k <= links@.len(),
                strs_view(list@) == strs_view(links@.take(k as int)),
            decreases links@.len() - k,
        {
            let ghost before = list@;
            let item = links[k].clone();
            list.push(item);
            proof {
                assert(links@.take(k + 1) =~= links@.take(k as int).push(links@[k as int]));
                assert(strs_view(list@) =~= strs_view(before).push(item@));
                assert(strs_view(links@.take(k + 1)) =~= strs_view(links@.take(k as int)).push(item@));
            }
            k = k + 1;
        }
        proof {
            assert(links@.take(links@.len() as int) =~= links@);
        }
    }
    let ghost lv = strs_view(list@);
    proof {
        if links@.len() == 0 {
            assert(lv =~= seq![book_url@]);
        }
    }
    let mut out: Vec<String> = Vec::new();
    let mut i: usize = 0;
    while i < list.len()
        invariant
            i <= list@.len(),
            lv == strs_view(list@),
            strs_view(out@) == lv.take(i as int).map_values(|u: Seq<char>| resolved_or_self(*source, book_url@, u)),
        decreases list@.len() - i,
    {
        let u = list[i].clone();
        let v = match resolve_url_with_source(source, book_url, u.as_str()) {
            Some(x) => x,
            None => u,
        };
        let ghost before = out@;
        proof {
            assert(u@ == lv[i as int]);
            assert(v@ == resolved_or_self(*source, book_url@, lv[i as int]));
        }
        out.push(v);
        proof {
            assert(lv.take(i + 1) =~= lv.take(i as int).push(lv[i as int]));
            assert(strs_view(out@) =~= strs_view(before).push(v@));
            assert(strs_view(out@) =~= lv.take(i + 1).map_values(|u: Seq<char>| resolved_or_self(*source, book_url@, u)));
        }
        i = i + 1;
    }
    proof {
        assert(lv.take(list@.len() as int) =~= lv);
    }
    out
}

/// Builds the book and its table-of-contents links from a page's fields.
pub fn build_book_info(
    f: InfoFields,
    rule_name: &Option<String>,
    book_url: &str,
    book_source: &BookSource,
    base: Option<&Book>,
) -> (r: Result<(Book, Vec<String>), ReaderError>)
    ensures
        book_info_ok(r, f, *rule_name, book_url@, *book_source, match base { Some(b) => Some(*b), None => None }),
{
    let name = match &f.name {
        Some(n) => n.clone(),
        None => {
            let mut m = "无法提取书籍名称: url=".to_string();
            m.append(book_url);
            m.append(", rule.name=");
            m.append(debug_of(rule_name).as_str());
            m.append(", title=");
            m.append(debug_of(&f.title).as_str());
            m.append(", og:title=");
            m.append(debug_of(&f.og_title).as_str());
            return Err(ReaderError { message: m });
        },
    };
    let toc = resolve_all(&f.toc_urls, book_url, book_source);
    let cover0 = match resolve_url_with_source(book_source, book_url, f.cover.as_str()) {
        Some(x) => x,
        None => f.cover.clone(),
    };
    let cover_url = if is_blank_str(&cover0) {
        None
    } else {
        Some(cover0)
    };
    let last = text_or_blank(f.last_chapter.clone());
    let latest_chapter_title = if chars_of(last.as_str()).len() == 0 {
        None
    } else {
        Some(last)
    };
    let update = text_or_blank(f.update_time.clone());
    let add_time = match parse_i64(&chars_of(update.as_str())) {
        Some(v) => v,
        None => 0,
    };
    let wc = text_or_blank(f.word_count.clone());
    let toc_url = if toc.len() > 0 {
        Some(toc[0].clone())
    } else {
        None
    };
    let parsed = Book {
        book_id: book_url.to_string(),
        name,
        author: text_or_blank(f.author.clone()),
        kind: Some(text_or_blank(f.kind.clone())),
        cover_url,
        intro: Some(text_or_blank(f.intro.clone())),
        origin: Some(origin_of(book_source)),
        book_type: "网络小说".to_string(),
        word_count: parse_word_count(wc.as_str()),
        latest_chapter_title,
        toc_url,
        book_group: None,
        add_time,
        last_read_time: None,
        isbn: None,
        publisher: None,
        publish_date: None,
        status: "连载中".to_string(),
    };
    proof {
        assert(parsed_book_ok(parsed, f, book_url@, *book_source, strs_view(toc@)));
    }
    let ghost p = parsed;
    match base {
        Some(b) => {
            let merged_book = merge_base_book(parsed, b);
            proof {
                assert(parsed_book_ok(p, f, book_url@, *book_source, strs_view(toc@)) && built_from(merged_book, p, Some(*b)));
            }
            let ghost tv = strs_view(toc@);
            let r = Ok((merged_book, toc));
            proof {
                assert(f.name is Some);
                assert(r matches Ok((m, t)) && strs_view(t@) == tv);
                assert(r matches Ok((m, t)) && exists|q: Book| #[trigger] parsed_book_ok(q, f, book_url@, *book_source, strs_view(t@)) && built_from(m, q, Some(*b)));
                assert(book_info_ok(r, f, *rule_name, book_url@, *book_source, Some(*b)));
            }
            r
        },
        None => {
            proof {
                assert(parsed_book_ok(p, f, book_url@, *book_source, strs_view(toc@)) && built_from(parsed, p, None));
            }
            let ghost tv = strs_view(toc@);
            let r = Ok((parsed, toc));
            proof {
                assert(f.name is Some);
                assert(r matches Ok((b, t)) && strs_view(t@) == tv);
                assert(r matches Ok((b, t)) && exists|q: Book| #[trigger] parsed_book_ok(q, f, book_url@, *book_source, strs_view(t@)) && built_from(b, q, None));
                assert(book_info_ok(r, f, *rule_name, book_url@, *book_source, None));
            }
            r
        },
    }
}

/// The known book, if any, by value.
pub open spec fn known_book(base: Option<&Book>) -> Option<Book> {
    match base {
        Some(b) => Some(*b),
        None => None,
    }
}

/// What a book-detail page gives, from the fields read from it: the page's
/// title and `og:title`, the fields by the rules (each stated unless its own
/// rule holds a script), then the book (see `book_info_ok`).
pub open spec fn info_page_ok(
    r: Result<(Book, Vec<String>), ReaderError>,
    f: InfoFields,
    html: Seq<char>,
    rule: BookInfoRule,
    book_url: Seq<char>,
    source: BookSource,
    base: Option<Book>,
) -> bool {
    &&& opt_str(f.title) == title_spec(html)
    &&& opt_str(f.og_title) == meta_spec(html, "meta[property=\"og:title\"]"@)
    &&& info_fields_ok(f, html, rule)
    &&& book_info_ok(r, f, rule.name, book_url, source, base)
}

/// Parses a book-detail page: its fields by the rules, then the book (see
/// `build_book_info`).
pub fn parse_book_info(
    html: &str,
    rule: &BookInfoRule,
    book_url: &str,
    book_source: &BookSource,
    base: Option<&Book>,
) -> (r: Result<(Book, Vec<String>), ReaderError>)
    ensures
        exists|f: InfoFields| #[trigger] info_page_ok(r, f, html@, *rule, book_url@, *book_source, known_book(base)),
{
    let d = HtmlDoc::parse(html);
    let f = extract_info_fields(&d, rule);
    let ghost fg = f;
    let r = build_book_info(f, &rule.name, book_url, book_source, base);
    proof {
        let bo = match base {
            Some(b) => Some(*b),
            None => None,
        };
        assert(bo == known_book(base));
        assert(info_page_ok(r, fg, html@, *rule, book_url@, *book_source, known_book(base)));
    }
    r
}

/// Law: a book page fails exactly when its name rule gives nothing (when
/// that rule holds no script); in particular a rule set without a name rule
/// always fails.
pub proof fn law_book_page_fails_without_name(
    r: Result<(Book, Vec<String>), ReaderError>,
    f: InfoFields,
    html: Seq<char>,
    rule: BookInfoRule,
    book_url: Seq<char>,
    source: BookSource,
    base: Option<Book>,
)
    requires
        info_page_ok(r, f, html, rule, book_url, source, base),
        rule_free(rule.name),
    ensures
        r is Err <==> field_text(html, rule.name) is None,
        rule.name is None ==> r is Err,
{
}
} // verus!
