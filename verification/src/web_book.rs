//! Reading books from the web: the decisions around each request (search
//! URL, which rule applies, what a page yields), the table-of-contents walk
//! over its pages, and the gathering of chapter texts fetched at once.
//! The requests themselves are made by the caller.
use vstd::prelude::*;
use vstd::string::StringSliceAdditionalSpecFns;
use crate::models::{now_timestamp, Book, BookSource, Chapter, ChapterContent, ReadRecord, TocRule};
use crate::error::ReaderError;
use crate::text::{
    append_chars, chars_of, contains, find, lemma_find_from, matches_at, opt_str, replace_all,
    replace_str, string_of, trim, trim_chars,
};
use crate::url_util::{form_encode, form_urlencode, resolve_spec, resolve_url};
use crate::search_result::{parse_search_result, search_ok, SearchResult};
use crate::book_info::{info_page_ok, known_book, parse_book_info, InfoFields};
use crate::chapter::{content_spec, parse_book_toc, parse_chapter_content, text_result, toc_chapters_ok, toc_pairs_spec, toc_result_ok, toc_state, TocParseResult};
use crate::rule_engine::script_free;

verus! {

// ---------------------------------------------------------------------------
// Search URL and page clean-up
// ---------------------------------------------------------------------------

/// The template with its quote characters (`` ` ``, `"`, `'`) removed.
pub open spec fn drop_quotes(s: Seq<char>) -> Seq<char>
    decreases s.len(),
{
    if s.len() == 0 {
        Seq::empty()
    } else {
        let rest = drop_quotes(s.drop_last());
        let c = s.last();
        if c == '`' || c == '"' || c == '\'' {
            rest
        } else {
            rest.push(c)
        }
    }
}

/// The search URL for a keyword: the source's template without quotes,
/// trimmed, with `{{keyword}}`, `{keyword}`, `{{key}}`, `{key}` replaced by
/// the form-encoded keyword and `{{page}}`, `{page}` by `1`, in that order.
pub open spec fn search_url_spec(keyword: Seq<u8>, template: Seq<char>) -> Seq<char> {
    let enc = form_encode(keyword);
    let t = trim(drop_quotes(template));
    replace_all(
        replace_all(
            replace_all(replace_all(replace_all(replace_all(t, "{{keyword}}"@, enc), "{keyword}"@, enc), "{{key}}"@, enc), "{key}"@, enc),
            "{{page}}"@,
            "1"@,
        ),
        "{page}"@,
        "1"@,
    )
}

/// Replacing a text by itself changes nothing.
pub proof fn lemma_replace_same(s: Seq<char>, p: Seq<char>)
    ensures
        replace_all(s, p, p) == s,
    decreases s.len(),
{
    if p.len() > 0 {
        lemma_find_from(s, p, 0);
        match find(s, p) {
            Some(i) => {
                if 0 <= i && i + p.len() <= s.len() {
                    lemma_replace_same(s.skip(i + p.len()), p);
                    assert(s.subrange(i, i + p.len()) == p);
                    assert(s.take(i) + p + s.skip(i + p.len()) =~= s);
                }
            },
            None => {},
        }
    }
}

fn drop_quotes_exec(s: &[char]) -> (r: Vec<char>)
    ensures
        r@ == drop_quotes(s@),
{
    let mut out: Vec<char> = Vec::new();
    let mut i: usize = 0;
    while i < s.len()
        invariant
            i <= s@.len(),
            out@ == drop_quotes(s@.take(i as int)),
        decreases s@.len() - i,
    {
        proof {
            assert(s@.take(i + 1).drop_last() =~= s@.take(i as int));
        }
        let c = s[i];
        if !(c == '`' || c == '"' || c == '\'') {
            out.push(c);
        }
        i = i + 1;
    }
    proof {
        assert(s@.take(s@.len() as int) =~= s@);
    }
    out
}

// ---------------------------------------------------------------------------
// Laws of the search URL
// ---------------------------------------------------------------------------

/// A text without `{`.
pub open spec fn brace_free(s: Seq<char>) -> bool {
    forall|i: int| 0 <= i < s.len() ==> s[i] != '{'
}

proof fn lemma_drop_quotes_none(s: Seq<char>)
    requires
        forall|i: int| 0 <= i < s.len() ==> s[i] != '`' && s[i] != '"' && s[i] != '\'',
    ensures
        drop_quotes(s) == s,
    decreases s.len(),
{
    if s.len() > 0 {
        lemma_drop_quotes_none(s.drop_last());
        assert(s.drop_last().push(s.last()) =~= s);
    }
}

proof fn lemma_trim_none(s: Seq<char>)
    requires
        s.len() > 0,
        !crate::text::is_ws(s[0]),
        !crate::text::is_ws(s.last()),
    ensures
        trim(s) == s,
{
    assert(crate::text::lead_ws(s) == 0);
    assert(crate::text::trim_start(s) =~= s);
    assert(crate::text::trail_ws(s) == 0);
    assert(crate::text::trim_end(s) =~= s);
}

proof fn lemma_form_encode_brace_free(b: Seq<u8>)
    ensures
        brace_free(form_encode(b)),
    decreases b.len(),
{
    if b.len() > 0 {
        lemma_form_encode_brace_free(b.drop_last());
        let x = b.last();
        let f = crate::url_util::form_byte(x);
        assert(brace_free(f)) by {
            if crate::url_util::form_unchanged(x) {
                assert(f[0] == x as char);
            } else if x == 0x20 {
            } else {
                assert(x as int / 16 < 16);
                assert(x as int % 16 < 16);
            }
        }
        let a = form_encode(b.drop_last());
        assert forall|i: int| 0 <= i < (a + f).len() implies (a + f)[i] != '{' by {
            if i < a.len() {
                assert((a + f)[i] == a[i]);
            } else {
                assert((a + f)[i] == f[i - a.len()]);
            }
        }
    }
}

proof fn lemma_replace_no_match(s: Seq<char>, pat: Seq<char>, to: Seq<char>)
    requires
        forall|j: int| !matches_at(s, pat, j),
    ensures
        replace_all(s, pat, to) == s,
{
    lemma_find_from(s, pat, 0);
}

proof fn lemma_replace_brace_free(s: Seq<char>, pat: Seq<char>, to: Seq<char>)
    requires
        brace_free(s),
        pat.len() > 0,
        pat[0] == '{',
    ensures
        replace_all(s, pat, to) == s,
{
    assert forall|j: int| !matches_at(s, pat, j) by {
        if matches_at(s, pat, j) {
            assert(s.subrange(j, j + pat.len())[0] == s[j]);
        }
    }
    lemma_replace_no_match(s, pat, to);
}

/// In `p + ph + q`, with `{` only in the placeholder `ph` (at its start, and
/// at its second character when it is double-braced), `pat` occurs nowhere:
/// `m0` and `m1` point at a character where `pat` differs from `ph` read
/// from each of its braces.
proof fn lemma_no_match(p: Seq<char>, ph: Seq<char>, q: Seq<char>, pat: Seq<char>, m0: int, m1: int)
    requires
        brace_free(p),
        brace_free(q),
        ph.len() >= 2,
        ph[0] == '{',
        forall|k: int| 1 < k < ph.len() ==> ph[k] != '{',
        pat.len() > 0,
        pat[0] == '{',
        0 < m0 < pat.len(),
        m0 < ph.len(),
        ph[m0] != pat[m0],
        ph[1] == '{' ==> 0 < m1 < pat.len() && 1 + m1 < ph.len() && ph[1 + m1] != pat[m1],
    ensures
        forall|j: int| !matches_at(p + ph + q, pat, j),
{
    let t = p + ph + q;
    assert forall|j: int| !matches_at(t, pat, j) by {
        if matches_at(t, pat, j) {
            let w = t.subrange(j, j + pat.len());
            assert(w[0] == t[j]);
            if j < p.len() {
                assert(t[j] == p[j]);
            } else if j >= p.len() + ph.len() {
                assert(t[j] == q[j - p.len() - ph.len()]);
            } else {
                let k = j - p.len();
                assert(t[j] == ph[k]);
                if k == 0 {
                    assert(w[m0] == t[j + m0]);
                    assert(t[j + m0] == ph[m0]);
                } else {
                    assert(k == 1);
                    assert(w[m1] == t[j + m1]);
                    assert(t[j + m1] == ph[1 + m1]);
                }
            }
        }
    }
}

proof fn lemma_placeholder_at(p: Seq<char>, ph: Seq<char>, q: Seq<char>)
    ensures
        matches_at(p + ph + q, ph, p.len() as int),
{
    let t = p + ph + q;
    assert(t.subrange(p.len() as int, (p.len() + ph.len()) as int) =~= ph);
}

proof fn lemma_no_placeholder_in_prefix(p: Seq<char>, ph: Seq<char>, q: Seq<char>, k: int)
    requires
        brace_free(p),
        ph.len() > 0,
        ph[0] == '{',
        0 <= k < p.len(),
    ensures
        !matches_at(p + ph + q, ph, k),
{
    let t = p + ph + q;
    if matches_at(t, ph, k) {
        assert(t.subrange(k, k + ph.len())[0] == t[k]);
        assert(t[k] == p[k]);
    }
}

#[verifier::spinoff_prover]
proof fn lemma_find_placeholder(p: Seq<char>, ph: Seq<char>, q: Seq<char>)
    requires
        brace_free(p),
        ph.len() > 0,
        ph[0] == '{',
    ensures
        find(p + ph + q, ph) == Some(p.len() as int),
{
    let t = p + ph + q;
    let i = p.len() as int;
    lemma_find_from(t, ph, 0);
    lemma_placeholder_at(p, ph, q);
    match crate::text::find_from(t, ph, 0) {
        Some(k) => {
            if k < i {
                lemma_no_placeholder_in_prefix(p, ph, q, k);
            } else if k > i {
                assert(!matches_at(t, ph, i));
            }
        },
        None => {
            assert(!matches_at(t, ph, i));
        },
    }
}

/// Replacing `ph` in `p + ph + q`, with `{` neither in `p` nor in `q`,
/// replaces that one occurrence.
#[verifier::rlimit(30)]
proof fn lemma_replace_one(p: Seq<char>, ph: Seq<char>, q: Seq<char>, to: Seq<char>)
    requires
        brace_free(p),
        brace_free(q),
        ph.len() > 0,
        ph[0] == '{',
    ensures
        replace_all(p + ph + q, ph, to) == p + to + q,
{
    let t = p + ph + q;
    lemma_find_placeholder(p, ph, q);
    let i = p.len() as int;
    assert(t.take(i) =~= p);
    assert(t.skip(i + ph.len()) =~= q);
    lemma_replace_brace_free(q, ph, to);
    assert(replace_all(t, ph, to) == t.take(i) + to + replace_all(t.skip(i + ph.len()), ph, to));
}

/// Law: a search template `p + ph + q`, where `ph` is one of the keyword
/// placeholders `{{keyword}}`, `{keyword}`, `{{key}}`, `{key}` and `p`, `q`
/// hold no `{`, quote or whitespace, gives `p`, the form-encoded keyword,
/// then `q`: the placeholder is replaced whole. A page placeholder
/// (`{{page}}`, `{page}`) is replaced whole by `1`.
pub proof fn law_search_url_fills_placeholder(keyword: Seq<u8>, p: Seq<char>, ph: Seq<char>, q: Seq<char>)
    requires
        ph == "{{keyword}}"@ || ph == "{keyword}"@ || ph == "{{key}}"@ || ph == "{key}"@
            || ph == "{{page}}"@ || ph == "{page}"@,
        forall|i: int| 0 <= i < p.len() ==> p[i] != '{' && p[i] != '`' && p[i] != '"' && p[i] != '\''
            && !crate::text::is_ws(p[i]),
        forall|i: int| 0 <= i < q.len() ==> q[i] != '{' && q[i] != '`' && q[i] != '"' && q[i] != '\''
            && !crate::text::is_ws(q[i]),
    ensures
        (ph == "{{keyword}}"@ || ph == "{keyword}"@ || ph == "{{key}}"@ || ph == "{key}"@)
            ==> search_url_spec(keyword, p + ph + q) == p + form_encode(keyword) + q,
        (ph == "{{page}}"@ || ph == "{page}"@) ==> search_url_spec(keyword, p + ph + q) == p + "1"@ + q,
{
    reveal_strlit("{{keyword}}");
    reveal_strlit("{keyword}");
    reveal_strlit("{{key}}");
    reveal_strlit("{key}");
    reveal_strlit("{{page}}");
    reveal_strlit("{page}");
    reveal_strlit("1");
    let t = p + ph + q;
    let enc = form_encode(keyword);
    let p1 = "{{keyword}}"@;
    let p2 = "{keyword}"@;
    let p3 = "{{key}}"@;
    let p4 = "{key}"@;
    let p5 = "{{page}}"@;
    let p6 = "{page}"@;
    assert(brace_free(p) && brace_free(q));
    assert forall|i: int| 0 <= i < t.len() implies t[i] != '`' && t[i] != '"' && t[i] != '\'' by {
        if i < p.len() {
            assert(t[i] == p[i]);
        } else if i < p.len() + ph.len() {
            assert(t[i] == ph[i - p.len()]);
        } else {
            assert(t[i] == q[i - p.len() - ph.len()]);
        }
    }
    lemma_drop_quotes_none(t);
    assert(t[0] == (if p.len() > 0 { p[0] } else { '{' }));
    assert(t.last() == (if q.len() > 0 { q.last() } else { '}' }));
    lemma_trim_none(t);
    let to: Seq<char> = if ph == p5 || ph == p6 { "1"@ } else { enc };
    lemma_form_encode_brace_free(keyword);
    let u = p + to + q;
    assert(brace_free(u)) by {
        assert forall|i: int| 0 <= i < u.len() implies u[i] != '{' by {
            if i < p.len() {
                assert(u[i] == p[i]);
            } else if i < p.len() + to.len() {
                assert(u[i] == to[i - p.len()]);
            } else {
                assert(u[i] == q[i - p.len() - to.len()]);
            }
        }
    }
    if ph == p1 {
        lemma_replace_one(p, ph, q, enc);
        lemma_replace_brace_free(u, p2, enc);
        lemma_replace_brace_free(u, p3, enc);
        lemma_replace_brace_free(u, p4, enc);
        lemma_replace_brace_free(u, p5, "1"@);
        lemma_replace_brace_free(u, p6, "1"@);
    } else if ph == p2 {
        lemma_no_match(p, ph, q, p1, 1, 1);
        lemma_replace_no_match(t, p1, enc);
        lemma_replace_one(p, ph, q, enc);
        lemma_replace_brace_free(u, p3, enc);
        lemma_replace_brace_free(u, p4, enc);
        lemma_replace_brace_free(u, p5, "1"@);
        lemma_replace_brace_free(u, p6, "1"@);
    } else if ph == p3 {
        lemma_no_match(p, ph, q, p1, 5, 1);
        lemma_replace_no_match(t, p1, enc);
        lemma_no_match(p, ph, q, p2, 1, 4);
        lemma_replace_no_match(t, p2, enc);
        lemma_replace_one(p, ph, q, enc);
        lemma_replace_brace_free(u, p4, enc);
        lemma_replace_brace_free(u, p5, "1"@);
        lemma_replace_brace_free(u, p6, "1"@);
    } else if ph == p4 {
        lemma_no_match(p, ph, q, p1, 1, 1);
        lemma_replace_no_match(t, p1, enc);
        lemma_no_match(p, ph, q, p2, 4, 1);
        lemma_replace_no_match(t, p2, enc);
        lemma_no_match(p, ph, q, p3, 1, 1);
        lemma_replace_no_match(t, p3, enc);
        lemma_replace_one(p, ph, q, enc);
        lemma_replace_brace_free(u, p5, "1"@);
        lemma_replace_brace_free(u, p6, "1"@);
    } else if ph == p5 {
        lemma_no_match(p, ph, q, p1, 2, 1);
        lemma_replace_no_match(t, p1, enc);
        lemma_no_match(p, ph, q, p2, 1, 1);
        lemma_replace_no_match(t, p2, enc);
        lemma_no_match(p, ph, q, p3, 2, 1);
        lemma_replace_no_match(t, p3, enc);
        lemma_no_match(p, ph, q, p4, 1, 1);
        lemma_replace_no_match(t, p4, enc);
        lemma_replace_one(p, ph, q, "1"@);
        lemma_replace_brace_free(u, p6, "1"@);
    } else {
        lemma_no_match(p, ph, q, p1, 1, 1);
        lemma_replace_no_match(t, p1, enc);
        lemma_no_match(p, ph, q, p2, 1, 1);
        lemma_replace_no_match(t, p2, enc);
        lemma_no_match(p, ph, q, p3, 1, 1);
        lemma_replace_no_match(t, p3, enc);
        lemma_no_match(p, ph, q, p4, 1, 1);
        lemma_replace_no_match(t, p4, enc);
        lemma_no_match(p, ph, q, p5, 1, 1);
        lemma_replace_no_match(t, p5, "1"@);
        lemma_replace_one(p, ph, q, "1"@);
    }
}

/// The page clean-up: `</script>` and `</style>` each replaced by itself.
pub open spec fn replace_html_spec(html: Seq<char>) -> Seq<char> {
    replace_all(replace_all(html, "</script>"@, "</script>"@), "</style>"@, "</style>"@)
}

/// Parsing, fetching and gathering for web books.
pub struct WebBookParser;

impl WebBookParser {
    /// The search URL of a source for a keyword (`None` when the source has
    /// no search URL).
    pub fn build_search_url(keyword: &str, book_source: &BookSource) -> (r: Option<String>)
        ensures
            opt_str(r) == match book_source.search_url {
                Some(t) => Some(search_url_spec(keyword.spec_bytes(), t@)),
                None => None,
            },
    {
        match &book_source.search_url {
            Some(template) => {
                let clean = string_of(&trim_chars(&drop_quotes_exec(&chars_of(template.as_str()))));
                let enc = form_urlencode(keyword);
                proof {
                    reveal_strlit("{{keyword}}");
                    reveal_strlit("{keyword}");
                    reveal_strlit("{{key}}");
                    reveal_strlit("{key}");
                    reveal_strlit("{{page}}");
                    reveal_strlit("{page}");
                }
                let a = replace_str(clean.as_str(), "{{keyword}}", enc.as_str());
                let b = replace_str(a.as_str(), "{keyword}", enc.as_str());
                let c = replace_str(b.as_str(), "{{key}}", enc.as_str());
                let d = replace_str(c.as_str(), "{key}", enc.as_str());
                let e = replace_str(d.as_str(), "{{page}}", "1");
                Some(replace_str(e.as_str(), "{page}", "1"))
            },
            None => None,
        }
    }

    /// The page clean-up before parsing: it replaces `</script>` and
    /// `</style>` by themselves, so the page stays as it is.
    pub fn replace_html(html: &str) -> (r: String)
        ensures
            r@ == replace_html_spec(html@),
            r@ == html@,
    {
        proof {
            reveal_strlit("</script>");
            reveal_strlit("</style>");
            lemma_replace_same(html@, "</script>"@);
            lemma_replace_same(html@, "</style>"@);
        }
        let a = replace_str(html, "</script>", "</script>");
        replace_str(a.as_str(), "</style>", "</style>")
    }

    /// A reading record at a chapter and position, stamped with the clock.
    pub fn create_read_record(book_id: &str, chapter_index: u64, chapter_pos: u64) -> (r: ReadRecord)
        ensures
            r.book_id@ == book_id@,
            r.dur_chapter_index == chapter_index,
            r.dur_chapter_pos == chapter_pos,
            r.last_chapter_index == chapter_index,
            r.last_chapter_pos == chapter_pos,
            r.total_read_time == 0,
            r.last_read_time is Some,
    {
        ReadRecord {
            book_id: book_id.to_string(),
            dur_chapter_index: chapter_index,
            dur_chapter_pos: chapter_pos,
            last_chapter_index: chapter_index,
            last_chapter_pos: chapter_pos,
            total_read_time: 0,
            last_read_time: Some(now_timestamp()),
        }
    }

    /// A link resolved against a page URL.
    pub fn resolve_url(base: &str, link: &str) -> (r: Option<String>)
        ensures
            opt_str(r) == resolve_spec(base@, link@),
    {
        resolve_url(base, link)
    }

    /// The URL to request for a search: an error when the source has no
    /// search rule or no search URL.
    pub fn search_request(book_source: &BookSource, keyword: &str) -> (r: Result<String, ReaderError>)
        ensures
            book_source.search_rule is None ==> (r matches Err(e) && e.message@ == "书源未配置搜索规则"@),
            book_source.search_rule is Some && book_source.search_url is None ==> (r matches Err(e) && e.message@ == "书源未配置搜索 URL"@),
            book_source.search_rule is Some ==> (book_source.search_url matches Some(t) ==> r matches Ok(u) && u@ == search_url_spec(keyword.spec_bytes(), t@)),
    {
        if book_source.search_rule.is_none() {
            return Err(ReaderError::new("书源未配置搜索规则"));
        }
        match Self::build_search_url(keyword, book_source) {
            Some(u) => Ok(u),
            None => Err(ReaderError::new("书源未配置搜索 URL")),
        }
    }

    /// The results of a search page (cleaned up, then parsed by the source's
    /// search rule).
    pub fn search_results_from_html(html: &str, book_source: &BookSource) -> (r: Result<Vec<SearchResult>, ReaderError>)
        ensures
            book_source.search_rule is None ==> (r matches Err(e) && e.message@ == "书源未配置搜索规则"@),
            book_source.search_rule matches Some(rule) ==> search_ok(r, html@, rule, *book_source),
    {
        match &book_source.search_rule {
            Some(rule) => {
                let page = Self::replace_html(html);
                parse_search_result(page.as_str(), rule, book_source)
            },
            None => Err(ReaderError::new("书源未配置搜索规则")),
        }
    }

    /// The table-of-contents rule of a source; an error when it has none
    /// (checked before any page is fetched).
    pub fn toc_rule_of(book_source: &BookSource) -> (r: Result<&TocRule, ReaderError>)
        ensures
            match book_source.toc_rule {
                Some(t) => r matches Ok(x) && *x == t,
                None => r matches Err(e) && e.message@ == "书源未配置目录规则"@,
            },
    {
        match &book_source.toc_rule {
            Some(t) => Ok(t),
            None => Err(ReaderError::new("书源未配置目录规则")),
        }
    }

    /// Whether a source can read chapter pages: an error when it has no
    /// content rule (checked before the page is fetched).
    pub fn require_content_rule(book_source: &BookSource) -> (r: Result<(), ReaderError>)
        ensures
            r is Ok <==> book_source.content_rule is Some,
            r matches Err(e) ==> e.message@ == "书源未配置内容规则"@,
    {
        match &book_source.content_rule {
            Some(_) => Ok(()),
            None => Err(ReaderError::new("书源未配置内容规则")),
        }
    }

    /// Whether a source can read book pages: an error when it has no
    /// book-info rule (checked before the page is fetched).
    pub fn require_book_info_rule(book_source: &BookSource) -> (r: Result<(), ReaderError>)
        ensures
            r is Ok <==> book_source.book_info_rule is Some,
            r matches Err(e) ==> e.message@ == "书源未配置书籍信息规则"@,
    {
        match &book_source.book_info_rule {
            Some(_) => Ok(()),
            None => Err(ReaderError::new("书源未配置书籍信息规则")),
        }
    }

    /// The book and table-of-contents links of a book page (see
    /// `parse_book_info`); an error when the source has no book-info rule.
    pub fn book_info_from_html(html: &str, book_source: &BookSource, book_url: &str, base: Option<&Book>) -> (r: Result<(Book, Vec<String>), ReaderError>)
        ensures
            book_source.book_info_rule is None ==> (r matches Err(e) && e.message@ == "书源未配置书籍信息规则"@),
            book_source.book_info_rule matches Some(rule) ==> exists|f: InfoFields| #[trigger] info_page_ok(r, f, html@, rule, book_url@, *book_source, known_book(base)),
    {
        match &book_source.book_info_rule {
            Some(rule) => parse_book_info(html, rule, book_url, book_source, base),
            None => Err(ReaderError::new("书源未配置书籍信息规则")),
        }
    }

    /// The text of a chapter page, with the book it belongs to; an error
    /// when the source has no content rule.
    pub fn chapter_content_from_html(book_id: &str, book_source: &BookSource, html: &str) -> (r: Result<ChapterContent, ReaderError>)
        ensures
            book_source.content_rule is None ==> (r matches Err(e) && e.message@ == "书源未配置内容规则"@),
            r matches Ok(c) ==> c.book_id@ == book_id@,
            book_source.content_rule matches Some(rule) ==> (rule.content is None ==> (r matches Err(e) && e.message@ == "缺少内容规则"@)),
            book_source.content_rule matches Some(rule) ==> (rule.content is Some ==> r is Ok),
            book_source.content_rule matches Some(rule) ==> (rule.content matches Some(c) && script_free(c@) ==> match content_spec(html@, rule) {
                Ok(t) => r matches Ok(c) && c.content@ == t,
                Err(m) => r matches Err(e) && e.message@ == m,
            }),
    {
        match &book_source.content_rule {
            Some(rule) => {
                let content = parse_chapter_content(html, rule)?;
                Ok(ChapterContent { book_id: book_id.to_string(), content })
            },
            None => Err(ReaderError::new("书源未配置内容规则")),
        }
    }

    /// A search needs at least one enabled source.
    pub fn ensure_sources(sources: &Vec<BookSource>) -> (r: Result<(), ReaderError>)
        ensures
            r is Ok <==> sources@.len() > 0,
            r matches Err(e) ==> e.message@ == "没有启用的书源"@,
    {
        if sources.len() == 0 {
            Err(ReaderError::new("没有启用的书源"))
        } else {
            Ok(())
        }
    }

    /// A search result's book: the one read from its page when that worked,
    /// else the one from the search page.
    pub fn detail_or_result(detail: Result<(Book, Vec<String>), ReaderError>, result: SearchResult) -> (b: Book)
        ensures
            match detail {
                Ok((d, _)) => b == d,
                Err(_) => b == result.book,
            },
    {
        match detail {
            Ok((book, _)) => book,
            Err(_) => result.book,
        }
    }
}

// ---------------------------------------------------------------------------
// Chapter texts fetched at once
// ---------------------------------------------------------------------------

/// The values that are present, in order.
pub open spec fn somes<T>(s: Seq<Option<T>>) -> Seq<T>
    decreases s.len(),
{
    if s.len() == 0 {
        Seq::empty()
    } else {
        let rest = somes(s.drop_last());
        match s.last() {
            Some(x) => rest.push(x),
            None => rest,
        }
    }
}

/// The text that arrived last for a chapter position.
pub open spec fn slot(arrivals: Seq<(usize, Result<ChapterContent, ReaderError>)>, i: int) -> Option<ChapterContent>
    decreases arrivals.len(),
{
    if arrivals.len() == 0 {
        None
    } else {
        let (k, res) = arrivals.last();
        if k == i && res is Ok {
            Some(res->Ok_0)
        } else {
            slot(arrivals.drop_last(), i)
        }
    }
}

/// The first error to arrive.
pub open spec fn first_failure(arrivals: Seq<(usize, Result<ChapterContent, ReaderError>)>) -> Option<ReaderError>
    decreases arrivals.len(),
{
    if arrivals.len() == 0 {
        None
    } else {
        match arrivals[0].1 {
            Err(e) => Some(e),
            Ok(_) => first_failure(arrivals.drop_first()),
        }
    }
}

fn copy_content(c: &ChapterContent) -> (r: ChapterContent)
    ensures
        r == *c,
{
    ChapterContent { book_id: c.book_id.clone(), content: c.content.clone() }
}

fn copy_error(e: &ReaderError) -> (r: ReaderError)
    ensures
        r == *e,
{
    ReaderError { message: e.message.clone() }
}

impl WebBookParser {
    /// Gathers the texts of `n` chapters fetched at once, given in the order
    /// they arrived with their positions: the first error to arrive, else
    /// the texts in chapter order (positions past `n`, and positions with no
    /// text, are skipped).
    pub fn collect_contents(n: usize, arrivals: &Vec<(usize, Result<ChapterContent, ReaderError>)>) -> (r: Result<Vec<ChapterContent>, ReaderError>)
        ensures
            match first_failure(arrivals@) {
                Some(e) => r == Err::<Vec<ChapterContent>, ReaderError>(e),
                None => r matches Ok(v) && v@ == somes(Seq::new(n as nat, |i: int| slot(arrivals@, i))),
            },
            r is Ok <==> forall|k: int| 0 <= k < arrivals@.len() ==> (#[trigger] arrivals@[k]).1 is Ok,
            r matches Err(e) ==> exists|k: int| 0 <= k < arrivals@.len() && (#[trigger] arrivals@[k]).1 == Err::<ChapterContent, ReaderError>(e)
                && forall|j: int| 0 <= j < k ==> (#[trigger] arrivals@[j]).1 is Ok,
    {
        proof {
            law_failure_is_the_earliest(arrivals@);
        }
        let mut slots: Vec<Option<ChapterContent>> = Vec::new();
        let mut k: usize = 0;
        while k < n
            invariant
                k <= n,
                slots@ == Seq::new(k as nat, |i: int| slot(arrivals@.take(0), i)),
            decreases n - k,
        {
            slots.push(None);
            proof {
                assert(slots@ =~= Seq::new((k + 1) as nat, |i: int| slot(arrivals@.take(0), i)));
            }
            k = k + 1;
        }
        let mut i: usize = 0;
        proof {
            assert(arrivals@.skip(0) =~= arrivals@);
        }
        while i < arrivals.len()
            invariant
                i <= arrivals@.len(),
                slots@ == Seq::new(n as nat, |j: int| slot(arrivals@.take(i as int), j)),
                first_failure(arrivals@) == first_failure(arrivals@.skip(i as int)),
            decreases arrivals@.len() - i,
        {
            proof {
                assert(arrivals@.take(i + 1).drop_last() =~= arrivals@.take(i as int));
                assert(arrivals@.skip(i as int).drop_first() =~= arrivals@.skip(i + 1));
                assert(arrivals@.skip(i as int)[0] == arrivals@[i as int]);
            }
            let index = arrivals[i].0;
            match &arrivals[i].1 {
                Ok(c) => {
                    if index < n {
                        let copy = copy_content(c);
                        slots.set(index, Some(copy));
                    }
                    proof {
                        assert(slots@ =~= Seq::new(n as nat, |j: int| slot(arrivals@.take(i + 1), j)));
                    }
                },
                Err(e) => {
                    proof {
                        law_failure_is_the_earliest(arrivals@);
                        assert(first_failure(arrivals@.skip(i as int)) == Some(*e));
                    }
                    return Err(copy_error(e));
                },
            }
            i = i + 1;
        }
        proof {
            assert(arrivals@.take(arrivals@.len() as int) =~= arrivals@);
            assert(arrivals@.skip(arrivals@.len() as int) =~= Seq::<(usize, Result<ChapterContent, ReaderError>)>::empty());
        }
        let mut out: Vec<ChapterContent> = Vec::new();
        let mut j: usize = 0;
        while j < slots.len()
            invariant
                j <= slots@.len(),
                slots@.len() == n,
                out@ == somes(slots@.take(j as int)),
            decreases slots@.len() - j,
        {
            proof {
                assert(slots@.take(j + 1).drop_last() =~= slots@.take(j as int));
            }
            if let Some(c) = &slots[j] {
                out.push(copy_content(c));
            }
            j = j + 1;
        }
        proof {
            assert(slots@.take(n as int) =~= slots@);
        }
        Ok(out)
    }
}

// ---------------------------------------------------------------------------
// Walking the pages of a table of contents
// ---------------------------------------------------------------------------

/// A walk over the pages of a table of contents: each page is requested once
/// (the walk stops at a page it has already seen), its chapters numbered on
/// from the previous page's.
pub struct TocCrawl {
    visited: Vec<String>,
    next_url: Option<String>,
    current: Option<String>,
    chapters: Vec<Chapter>,
    chapter_index: u32,
}

pub open spec fn strs(v: Seq<String>) -> Seq<Seq<char>> {
    v.map_values(|s: String| s@)
}

fn contains_string(v: &Vec<String>, s: &str) -> (b: bool)
    ensures
        b == strs(v@).contains(s@),
{
    let mut k: usize = 0;
    while k < v.len()
        invariant
            k <= v@.len(),
            forall|j: int| 0 <= j < k ==> v@[j]@ != s@,
        decreases v@.len() - k,
    {
        if crate::text::str_eq(v[k].as_str(), s) {
            proof {
                assert(strs(v@)[k as int] == s@);
            }
            return true;
        }
        k = k + 1;
    }
    proof {
        if strs(v@).contains(s@) {
            let j = choose|j: int| 0 <= j < strs(v@).len() && strs(v@)[j] == s@;
            assert(v@[j]@ == s@);
        }
    }
    false
}

/// Reading a page: an error when no page was requested; otherwise what the
/// page's parse result makes of the walk (see `page_applied`).
pub open spec fn page_read(before: TocCrawl, after: TocCrawl, r: Result<bool, ReaderError>, html: Seq<char>, rule: TocRule) -> bool {
    match before.current() {
        None => r matches Err(e) && e.message@ == "目录页面未请求"@ && after == before,
        Some(cur) => exists|t: Result<TocParseResult, ReaderError>| #[trigger] toc_result_ok(t, html, rule, before.index(), cur)
            && page_applied(before, after, r, t, cur),
    }
}

/// What reading a page did to the walk, given the page's parse result: an
/// error leaves the chapters and the index as they were; otherwise the page's chapters are
/// added, the index moves on, and the next page is the parsed one resolved
/// against the current page.
pub open spec fn page_applied(before: TocCrawl, after: TocCrawl, r: Result<bool, ReaderError>, t: Result<TocParseResult, ReaderError>, cur: Seq<char>) -> bool {
    match t {
        Err(e) => r == Err::<bool, ReaderError>(e) && after.chapters() == before.chapters() && after.index() == before.index(),
        Ok(p) => {
            &&& after.chapters() == before.chapters() + p.chapters@
            &&& after.index() == p.next_index
            &&& after.pending() == match opt_str(p.next_toc_url) {
                Some(n) => resolve_spec(cur, n),
                None => None,
            }
            &&& r == Ok::<bool, ReaderError>(after.pending() is Some)
        },
    }
}

impl TocCrawl {
    /// The pages requested so far, in order.
    pub closed spec fn visited(&self) -> Seq<Seq<char>> {
        strs(self.visited@)
    }

    /// The page to request next, if any.
    pub closed spec fn pending(&self) -> Option<Seq<char>> {
        opt_str(self.next_url)
    }

    /// The page being read, if any.
    pub closed spec fn current(&self) -> Option<Seq<char>> {
        opt_str(self.current)
    }

    /// The chapters gathered so far.
    pub closed spec fn chapters(&self) -> Seq<Chapter> {
        self.chapters@
    }

    /// The index the next chapter takes.
    pub closed spec fn index(&self) -> u32 {
        self.chapter_index
    }

    /// The chapters are numbered 0, 1, 2, ... in the order gathered, and the
    /// next chapter takes their count as its index.
    pub open spec fn numbered(&self) -> bool {
        &&& self.index() == self.chapters().len()
        &&& forall|i: int| 0 <= i < self.chapters().len() ==> (#[trigger] self.chapters()[i]).chapter_index == i
    }

    /// No page is in the list twice.
    pub open spec fn wf(&self) -> bool {
        forall|i: int, j: int| 0 <= i < j < self.visited().len() ==> self.visited()[i] != self.visited()[j]
    }

    /// A walk that starts at the given page.
    pub fn new(toc_url: &str) -> (c: TocCrawl)
        ensures
            c.wf(),
            c.visited().len() == 0,
            c.pending() == Some(toc_url@),
            c.current() is None,
            c.chapters().len() == 0,
            c.index() == 0,
            c.numbered(),
    {
        let c = TocCrawl {
            visited: Vec::new(),
            next_url: Some(toc_url.to_string()),
            current: None,
            chapters: Vec::new(),
            chapter_index: 0,
        };
        proof {
            assert(c.visited() =~= Seq::<Seq<char>>::empty());
        }
        c
    }

    /// The page to request now: the pending one, unless it was already
    /// requested (then the walk is over).
    pub fn next_request(&mut self) -> (r: Option<String>)
        requires
            old(self).wf(),
        ensures
            final(self).wf(),
            final(self).pending() is None,
            final(self).chapters() == old(self).chapters(),
            final(self).index() == old(self).index(),
            match old(self).pending() {
                None => r is None && final(self).visited() == old(self).visited(),
                Some(u) => if old(self).visited().contains(u) {
                    r is None && final(self).visited() == old(self).visited()
                } else {
                    r matches Some(x) && x@ == u && final(self).visited() == old(self).visited().push(u)
                        && final(self).current() == Some(u)
                },
            },
    {
        let url = match self.next_url.take() {
            Some(u) => u,
            None => return None,
        };
        proof {
            assert(self.visited() == old(self).visited());
        }
        if contains_string(&self.visited, url.as_str()) {
            return None;
        }
        let ghost before = self.visited();
        self.visited.push(url.clone());
        self.current = Some(url.clone());
        proof {
            assert(self.visited() =~= before.push(url@));
            assert forall|i: int, j: int| 0 <= i < j < self.visited().len() implies self.visited()[i] != self.visited()[j] by {
                assert(self.visited()[i] == before[i]);
                if j == before.len() {
                    assert(self.visited()[j] == url@);
                    assert(before[i] != url@) by {
                        if before[i] == url@ {
                            assert(before.contains(url@));
                        }
                    }
                } else {
                    assert(self.visited()[j] == before[j]);
                    assert(old(self).wf());
                    assert(before == old(self).visited());
                }
            }
        }
        Some(url)
    }

    /// Takes in a parsed page: its chapters, the index after them, and the
    /// next page resolved against the current one.
    fn apply_page(&mut self, p: TocParseResult, cur: &str) -> (more: bool)
        requires
            old(self).wf(),
        ensures
            final(self).wf(),
            final(self).visited() == old(self).visited(),
            final(self).chapters() == old(self).chapters() + p.chapters@,
            final(self).index() == p.next_index,
            final(self).pending() == match opt_str(p.next_toc_url) {
                Some(n) => resolve_spec(cur@, n),
                None => None,
            },
            more == final(self).pending() is Some,
    {
        self.chapter_index = p.next_index;
        let mut added = p.chapters;
        self.chapters.append(&mut added);
        self.next_url = match &p.next_toc_url {
            Some(u) => resolve_url(cur, u.as_str()),
            None => None,
        };
        proof {
            assert(self.visited() == old(self).visited());
        }
        self.next_url.is_some()
    }

    /// Reads the page just requested: its chapters numbered on from the
    /// walk's index, and the next page resolved against it. Returns whether
    /// there is a next page.
    pub fn on_page(&mut self, html: &str, toc_rule: &TocRule) -> (r: Result<bool, ReaderError>)
        requires
            old(self).wf(),
        ensures
            final(self).wf(),
            final(self).visited() == old(self).visited(),
            page_read(*old(self), *final(self), r, html@, *toc_rule),
    {
        let cur = match &self.current {
            Some(c) => c.clone(),
            None => {
                let r = Err(ReaderError::new("目录页面未请求"));
                proof {
                    assert(page_read(*old(self), *self, r, html@, *toc_rule));
                }
                return r;
            },
        };
        let parsed = parse_book_toc(html, toc_rule, self.chapter_index, cur.as_str());
        let ghost t = parsed;
        let ghost before = *self;
        let r = match parsed {
            Err(e) => Err(e),
            Ok(p) => Ok(self.apply_page(p, cur.as_str())),
        };
        proof {
            assert(self.visited() == before.visited());
            assert(before == *old(self));
            assert(old(self).current() == Some(cur@));
            assert(toc_result_ok(t, html@, *toc_rule, old(self).index(), cur@));
            assert(page_applied(*old(self), *self, r, t, cur@));
            assert(exists|tt: Result<TocParseResult, ReaderError>| #[trigger] toc_result_ok(tt, html@, *toc_rule, old(self).index(), cur@)
                && page_applied(*old(self), *self, r, tt, cur@));
            assert(old(self).current()->Some_0 == cur@);
            assert(toc_result_ok(t, html@, *toc_rule, old(self).index(), old(self).current()->Some_0));
            assert(page_read(*old(self), *self, r, html@, *toc_rule));
        }
        r
    }

    /// The chapters gathered.
    pub fn into_chapters(self) -> (v: Vec<Chapter>)
        ensures
            v@ == self.chapters(),
    {
        self.chapters
    }
}

/// Law: a walk never requests a page twice; each request is a new page.
pub proof fn law_toc_pages_once(before: TocCrawl, after: TocCrawl, r: Option<String>)
    requires
        before.wf(),
        after.wf(),
        match before.pending() {
            None => r is None && after.visited() == before.visited(),
            Some(u) => if before.visited().contains(u) {
                r is None && after.visited() == before.visited()
            } else {
                r matches Some(x) && x@ == u && after.visited() == before.visited().push(u)
            },
        },
    ensures
        r matches Some(x) ==> !before.visited().contains(x@) && after.visited().contains(x@),
        r matches Some(x) ==> after.visited().len() == before.visited().len() + 1,
        r is None ==> after.visited() == before.visited(),
{
    if let Some(x) = r {
        assert(after.visited()[before.visited().len() as int] == x@);
    }
}

/// Law: reading a page of a walk keeps its chapters numbered 0, 1, 2, ...:
/// the page's chapters come after those gathered before, numbered on from
/// them (a walk starts with none, and requesting a page changes neither the
/// chapters nor the index).
pub proof fn law_toc_numbered_on(before: TocCrawl, after: TocCrawl, r: Result<bool, ReaderError>, html: Seq<char>, rule: TocRule)
    requires
        before.numbered(),
        page_read(before, after, r, html, rule),
    ensures
        after.numbered(),
        after.chapters().take(before.chapters().len() as int) == before.chapters(),
{
    if let Some(cur) = before.current() {
        let t = choose|t: Result<TocParseResult, ReaderError>| #[trigger] toc_result_ok(t, html, rule, before.index(), cur)
            && page_applied(before, after, r, t, cur);
        match t {
            Err(e) => {
                assert(after.chapters().take(before.chapters().len() as int) =~= before.chapters());
            },
            Ok(p) => {
                let pairs = toc_pairs_spec(html, rule)->Ok_0;
                let kept = toc_state(pairs, cur).0;
                assert(toc_chapters_ok(p.chapters@, kept, before.index() as int));
                let n = before.chapters().len();
                assert forall|i: int| 0 <= i < after.chapters().len() implies (#[trigger] after.chapters()[i]).chapter_index == i by {
                    if i >= n {
                        assert(after.chapters()[i] == p.chapters@[i - n]);
                    } else {
                        assert(after.chapters()[i] == before.chapters()[i]);
                    }
                }
                assert(after.chapters().take(n as int) =~= before.chapters());
            },
        }
    } else {
        assert(before.chapters().take(before.chapters().len() as int) =~= before.chapters());
    }
}

proof fn lemma_somes_all(s: Seq<Option<ChapterContent>>, cs: Seq<ChapterContent>)
    requires
        s.len() == cs.len(),
        forall|i: int| 0 <= i < s.len() ==> #[trigger] s[i] == Some(cs[i]),
    ensures
        somes(s) == cs,
    decreases s.len(),
{
    if s.len() > 0 {
        lemma_somes_all(s.drop_last(), cs.drop_last());
        assert(s.last() == Some(cs.last()));
        assert(cs.drop_last().push(cs.last()) =~= cs);
    }
}

/// Law: when every one of `n` chapters has a text among the arrivals and no
/// error arrived, the texts come out in chapter order, whatever order they
/// arrived in.
pub proof fn law_contents_in_chapter_order(arrivals: Seq<(usize, Result<ChapterContent, ReaderError>)>, cs: Seq<ChapterContent>)
    requires
        forall|i: int| 0 <= i < cs.len() ==> #[trigger] slot(arrivals, i) == Some(cs[i]),
    ensures
        somes(Seq::new(cs.len(), |i: int| slot(arrivals, i))) == cs,
{
    let s = Seq::new(cs.len(), |i: int| slot(arrivals, i));
    assert forall|i: int| 0 <= i < s.len() implies #[trigger] s[i] == Some(cs[i]) by {
        assert(s[i] == slot(arrivals, i));
    }
    lemma_somes_all(s, cs);
}

/// Law: a chapter that arrived once, with a text, gets that text, wherever
/// in the order it arrived.
pub proof fn law_slot_of_single_arrival(arrivals: Seq<(usize, Result<ChapterContent, ReaderError>)>, k: int, i: int, c: ChapterContent)
    requires
        0 <= k < arrivals.len(),
        arrivals[k] == (i as usize, Ok::<ChapterContent, ReaderError>(c)),
        0 <= i <= usize::MAX,
        forall|j: int| 0 <= j < arrivals.len() && j != k ==> (#[trigger] arrivals[j]).0 != i,
    ensures
        slot(arrivals, i) == Some(c),
    decreases arrivals.len(),
{
    if k < arrivals.len() - 1 {
        let rest = arrivals.drop_last();
        assert(arrivals[arrivals.len() - 1].0 != i);
        assert forall|j: int| 0 <= j < rest.len() && j != k implies (#[trigger] rest[j]).0 != i by {
            assert(rest[j] == arrivals[j]);
        }
        law_slot_of_single_arrival(rest, k, i, c);
    }
}

/// Law: chapters fetched at once fail together: the gathering fails when
/// any chapter failed, with the error of the earliest failure to arrive, and
/// succeeds only when every chapter arrived with its text.
pub proof fn law_failure_is_the_earliest(arrivals: Seq<(usize, Result<ChapterContent, ReaderError>)>)
    ensures
        first_failure(arrivals) is None <==> forall|k: int| 0 <= k < arrivals.len() ==> (#[trigger] arrivals[k]).1 is Ok,
        first_failure(arrivals) matches Some(e) ==> exists|k: int| 0 <= k < arrivals.len()
            && (#[trigger] arrivals[k]).1 == Err::<ChapterContent, ReaderError>(e)
            && forall|j: int| 0 <= j < k ==> (#[trigger] arrivals[j]).1 is Ok,
    decreases arrivals.len(),
{
    if arrivals.len() > 0 {
        let rest = arrivals.drop_first();
        law_failure_is_the_earliest(rest);
        assert forall|k: int| 0 < k < arrivals.len() implies arrivals[k] == #[trigger] rest[k - 1] by {}
        if arrivals[0].1 is Ok {
            if first_failure(rest) is None {
                assert forall|k: int| 0 <= k < arrivals.len() implies (#[trigger] arrivals[k]).1 is Ok by {
                    if k > 0 {
                        assert(arrivals[k] == rest[k - 1]);
                    }
                }
            } else {
                let e = first_failure(rest)->0;
                let k = choose|k: int| 0 <= k < rest.len() && (#[trigger] rest[k]).1 == Err::<ChapterContent, ReaderError>(e)
                    && forall|j: int| 0 <= j < k ==> (#[trigger] rest[j]).1 is Ok;
                assert(arrivals[k + 1] == rest[k]);
                assert forall|j: int| 0 <= j < k + 1 implies (#[trigger] arrivals[j]).1 is Ok by {
                    if j > 0 {
                        assert(arrivals[j] == rest[j - 1]);
                    }
                }
                assert(!(arrivals[k + 1].1 is Ok));
            }
        } else {
            assert(!(arrivals[0].1 is Ok));
        }
    }
}

} // verus!
