//! Search-result pages: one book per list item that has a name and a link.
use vstd::prelude::*;
use crate::models::{Book, BookSource};
use crate::text::{chars_of, opt_str, starts_with, starts_with_chars, string_of, trim, trim_chars, append_chars};
use crate::book_info::{origin_of, origin_spec, parse_word_count, word_count_of, strip_trailing, trim_end_char, slash_path, with_leading_slash};
use crate::num::{parse_i64, parse_i64_spec};
use crate::selector::lit;
use crate::models::SearchRule;
use crate::error::ReaderError;
use crate::capture::{all_in_one_spec, caps_field_spec, extract_text_from_caps, parse_all_in_one_rule};
use crate::regex_util::{captures_all, caps_view, regex_captures, regex_valid};
use crate::dom::{dom_root, HtmlDoc};
use crate::css::{elements_spec, select_elements_from_element};
use crate::rule_engine::{element_values_spec, extract_text_from_element, first_nonempty, script_free};

verus! {

/// A book found by a search, with the URL of its page.
#[derive(Debug, Clone)]
pub struct SearchResult {
    pub book: Book,
    pub book_url: String,
}

/// The fields read from one list item.
#[derive(Debug, Clone)]
pub struct SearchFields {
    pub name: Option<String>,
    pub url: Option<String>,
    pub cover: Option<String>,
    pub author: Option<String>,
    pub intro: Option<String>,
    pub kind: Option<String>,
    pub last_chapter: Option<String>,
    pub update_time: Option<String>,
    pub word_count: Option<String>,
}

/// A link made absolute: links starting with `http` stay, others are appended
/// (with a leading `/`) to the source's URL (or a fixed site when the source
/// has none), without its trailing `/`.
pub open spec fn normalize_url_spec(source_url: Seq<char>, u: Seq<char>) -> Seq<char> {
    if starts_with(u, "http"@) {
        u
    } else {
        let base = if source_url.len() == 0 { "http://www.haitaozhe.com"@ } else { source_url };
        strip_trailing(base, '/') + slash_path(u)
    }
}

pub fn normalize_url(book_source: &BookSource, url: Option<String>) -> (r: Option<String>)
    ensures
        opt_str(r) == match opt_str(url) {
            Some(u) => Some(normalize_url_spec(book_source.book_source_url@, u)),
            None => None,
        },
{
    match url {
        None => None,
        Some(u) => {
            let c = chars_of(u.as_str());
            proof {
                reveal_strlit("http");
            }
            if starts_with_chars(&c, &lit("http")) {
                Some(u)
            } else {
                let base_str = if book_source.book_source_url.as_str().is_empty() {
                    lit("http://www.haitaozhe.com")
                } else {
                    chars_of(book_source.book_source_url.as_str())
                };
                let mut base = trim_end_char(&base_str, '/');
                let path = with_leading_slash(&c);
                append_chars(&mut base, &path);
                Some(string_of(&base))
            }
        },
    }
}

/// The table-of-contents URL of a found book: none when the source's
/// book-info rule gives one (non-blank), else the book's URL.
pub open spec fn search_toc_url(src: BookSource, url: Seq<char>) -> Option<Seq<char>> {
    match src.book_info_rule {
        Some(r) => match r.toc_url {
            Some(v) => if trim(v@).len() > 0 { None } else { Some(url) },
            None => Some(url),
        },
        None => Some(url),
    }
}

/// An optional text or the empty text.
pub open spec fn or_empty(o: Option<Seq<char>>) -> Seq<char> {
    match o {
        Some(s) => s,
        None => Seq::empty(),
    }
}

/// The result for one list item: a book when the item has a name and a link.
pub open spec fn search_result_ok(r: Option<SearchResult>, f: SearchFields, src: BookSource) -> bool {
    match (opt_str(f.name), opt_str(f.url)) {
        (Some(name), Some(raw)) => {
            let url = normalize_url_spec(src.book_source_url@, raw);
            &&& r is Some
            &&& r->0.book_url@ == url
            &&& r->0.book.book_id@ == url
            &&& r->0.book.name@ == name
            &&& r->0.book.author@ == or_empty(opt_str(f.author))
            &&& opt_str(r->0.book.kind) == opt_str(f.kind)
            &&& opt_str(r->0.book.cover_url) == match opt_str(f.cover) { Some(c) => Some(normalize_url_spec(src.book_source_url@, c)), None => None }
            &&& opt_str(r->0.book.intro) == opt_str(f.intro)
            &&& opt_str(r->0.book.origin) == Some(origin_spec(src))
            &&& r->0.book.book_type@ == "网络小说"@
            &&& r->0.book.word_count == word_count_of(or_empty(opt_str(f.word_count)))
            &&& opt_str(r->0.book.latest_chapter_title) == match opt_str(f.last_chapter) { Some(l) => if l.len() > 0 { Some(l) } else { None }, None => None }
            &&& opt_str(r->0.book.toc_url) == search_toc_url(src, url)
            &&& r->0.book.add_time == match parse_i64_spec(or_empty(opt_str(f.update_time))) { Some(v) => v, None => 0 }
            &&& r->0.book.status@ == "连载中"@
            &&& r->0.book.book_group is None
            &&& r->0.book.last_read_time is None
            &&& r->0.book.isbn is None
            &&& r->0.book.publisher is None
            &&& r->0.book.publish_date is None
        },
        _ => r is None,
    }
}

fn toc_url_for(src: &BookSource, url: &String) -> (r: Option<String>)
    ensures
        opt_str(r) == search_toc_url(*src, url@),
{
    match &src.book_info_rule {
        Some(rule) => match &rule.toc_url {
            Some(v) => if trim_chars(&chars_of(v.as_str())).len() > 0 {
                None
            } else {
                Some(url.clone())
            },
            None => Some(url.clone()),
        },
        None => Some(url.clone()),
    }
}

fn text_or_empty(o: &Option<String>) -> (r: String)
    ensures
        r@ == or_empty(opt_str(*o)),
{
    match o {
        Some(s) => s.clone(),
        None => String::new(),
    }
}

/// The search result for the fields of one list item.
pub fn build_search_result(f: SearchFields, book_source: &BookSource) -> (r: Option<SearchResult>)
    ensures
        search_result_ok(r, f, *book_source),
{
    let url = normalize_url(book_source, f.url.clone());
    let cover = normalize_url(book_source, f.cover.clone());
    match (f.name.clone(), url) {
        (Some(name), Some(url)) => {
            let word_count = parse_word_count(text_or_empty(&f.word_count).as_str());
            let toc_url = toc_url_for(book_source, &url);
            let update = text_or_empty(&f.update_time);
            let add_time = match parse_i64(&chars_of(update.as_str())) {
                Some(v) => v,
                None => 0,
            };
            let latest = match f.last_chapter.clone() {
                Some(l) => if l.as_str().is_empty() {
                    None
                } else {
                    Some(l)
                },
                None => None,
            };
            let book = Book {
                book_id: url.clone(),
                name,
                author: text_or_empty(&f.author),
                kind: f.kind.clone(),
                cover_url: cover,
                intro: f.intro.clone(),
                origin: Some(origin_of(book_source)),
                book_type: "网络小说".to_owned(),
                word_count,
                latest_chapter_title: latest,
                toc_url,
                book_group: None,
                add_time,
                last_read_time: None,
                isbn: None,
                publisher: None,
                publish_date: None,
                status: "连载中".to_owned(),
            };
            Some(SearchResult { book_url: url, book })
        },
        _ => None,
    }
}


// ---------------------------------------------------------------------------
// Search-result pages
// ---------------------------------------------------------------------------

/// Every result has a non-empty name.
pub open spec fn names_nonempty(v: Seq<SearchResult>) -> bool {
    forall|i: int| 0 <= i < v.len() ==> (#[trigger] v[i]).book.name@.len() > 0
}

/// The results kept among the per-item results.
pub open spec fn keep_somes(outs: Seq<Option<SearchResult>>) -> Seq<SearchResult>
    decreases outs.len(),
{
    if outs.len() == 0 {
        Seq::empty()
    } else {
        let rest = keep_somes(outs.drop_last());
        match outs.last() {
            Some(x) => rest.push(x),
            None => rest,
        }
    }
}

/// The results are those built from the items' fields, in order.
pub open spec fn results_from(rs: Seq<SearchResult>, fs: Seq<SearchFields>, src: BookSource) -> bool {
    exists|outs: Seq<Option<SearchResult>>| #![trigger keep_somes(outs)]
        outs.len() == fs.len() && (forall|i: int| 0 <= i < fs.len() ==> search_result_ok(#[trigger] outs[i], fs[i], src))
            && rs == keep_somes(outs)
}

/// The fields that the templates give for one all-in-one match.
pub open spec fn caps_fields_ok(f: SearchFields, rule: SearchRule, caps: Seq<Option<Seq<char>>>) -> bool {
    &&& opt_str(f.name) == caps_field_spec(opt_str(rule.name), caps)
    &&& opt_str(f.url) == caps_field_spec(opt_str(rule.url), caps)
    &&& opt_str(f.cover) == caps_field_spec(opt_str(rule.cover), caps)
    &&& opt_str(f.author) == caps_field_spec(opt_str(rule.author), caps)
    &&& opt_str(f.intro) == caps_field_spec(opt_str(rule.intro), caps)
    &&& opt_str(f.kind) == caps_field_spec(opt_str(rule.kind), caps)
    &&& opt_str(f.last_chapter) == caps_field_spec(opt_str(rule.last_chapter), caps)
    &&& opt_str(f.update_time) == caps_field_spec(opt_str(rule.update_time), caps)
    &&& opt_str(f.word_count) == caps_field_spec(opt_str(rule.word_count), caps)
}

/// What an optional rule gives on an element.
pub open spec fn elem_field(src: Seq<char>, node: usize, r: Option<String>) -> Option<Seq<char>> {
    match r {
        Some(x) => first_nonempty(element_values_spec(src, node, x@)),
        None => None,
    }
}

pub open spec fn opt_script_free(r: Option<String>) -> bool {
    r matches Some(x) ==> script_free(x@)
}

/// A field read by its own rule: what the rule gives on the element, stated
/// when that rule holds no script.
pub open spec fn elem_field_ok(v: Option<String>, src: Seq<char>, node: usize, r: Option<String>) -> bool {
    opt_script_free(r) ==> opt_str(v) == elem_field(src, node, r)
}

/// The fields that the rules give on one list element, each stated unless
/// its own rule holds a script.
pub open spec fn element_fields_ok(f: SearchFields, src: Seq<char>, node: usize, rule: SearchRule) -> bool {
    &&& elem_field_ok(f.name, src, node, rule.name)
    &&& elem_field_ok(f.url, src, node, rule.url)
    &&& elem_field_ok(f.cover, src, node, rule.cover)
    &&& elem_field_ok(f.author, src, node, rule.author)
    &&& elem_field_ok(f.intro, src, node, rule.intro)
    &&& elem_field_ok(f.kind, src, node, rule.kind)
    &&& elem_field_ok(f.last_chapter, src, node, rule.last_chapter)
    &&& elem_field_ok(f.update_time, src, node, rule.update_time)
    &&& elem_field_ok(f.word_count, src, node, rule.word_count)
}

/// A search page parsed: without a list rule, an error; for an all-in-one
/// list rule (`:regex` / `-:regex`) that compiles, one item per match (in
/// reverse for `-:`); otherwise one item per element the list rule selects
/// under the root (each field stated unless its own rule holds a script).
pub open spec fn search_ok(r: Result<Vec<SearchResult>, ReaderError>, html: Seq<char>, rule: SearchRule, src: BookSource) -> bool {
    match rule.list {
        None => r matches Err(e) && e.message@ == "缺少搜索列表规则"@,
        Some(l) => match all_in_one_spec(l@) {
            Some((p, rev)) => if regex_valid(p) {
                search_caps_ok(r, if rev { regex_captures(p, html).reverse() } else { regex_captures(p, html) }, rule, src)
            } else {
                search_css_ok(r, html, elements_spec(html, dom_root(html), l@), rule, src)
            },
            None => search_css_ok(r, html, elements_spec(html, dom_root(html), l@), rule, src),
        },
    }
}

/// One result per match, from the fields its templates give.
pub open spec fn search_caps_ok(r: Result<Vec<SearchResult>, ReaderError>, ms: Seq<Seq<Option<Seq<char>>>>, rule: SearchRule, src: BookSource) -> bool {
    r matches Ok(v) && exists|fs: Seq<SearchFields>| #![trigger results_from(v@, fs, src)]
        fs.len() == ms.len() && (forall|i: int| 0 <= i < fs.len() ==> caps_fields_ok(#[trigger] fs[i], rule, ms[i]))
            && results_from(v@, fs, src)
}

/// One result per element, from the fields read from it; what each field
/// holds is stated unless its own rule holds a script.
pub open spec fn search_css_ok(r: Result<Vec<SearchResult>, ReaderError>, html: Seq<char>, els: Seq<usize>, rule: SearchRule, src: BookSource) -> bool {
    r matches Ok(v) && exists|fs: Seq<SearchFields>| #![trigger results_from(v@, fs, src)]
        fs.len() == els.len() && results_from(v@, fs, src)
            && (forall|i: int| 0 <= i < fs.len() ==> element_fields_ok(#[trigger] fs[i], html, els[i], rule))
}

fn caps_fields(rule: &SearchRule, caps: &Vec<Option<String>>) -> (f: SearchFields)
    ensures
        caps_fields_ok(f, *rule, caps@.map_values(|o: Option<String>| opt_str(o))),
        f.name matches Some(n) ==> n@.len() > 0,
{
    SearchFields {
        name: extract_text_from_caps(&rule.name, caps),
        url: extract_text_from_caps(&rule.url, caps),
        cover: extract_text_from_caps(&rule.cover, caps),
        author: extract_text_from_caps(&rule.author, caps),
        intro: extract_text_from_caps(&rule.intro, caps),
        kind: extract_text_from_caps(&rule.kind, caps),
        last_chapter: extract_text_from_caps(&rule.last_chapter, caps),
        update_time: extract_text_from_caps(&rule.update_time, caps),
        word_count: extract_text_from_caps(&rule.word_count, caps),
    }
}

fn elem_field_exec(d: &HtmlDoc, node: usize, r: &Option<String>) -> (v: Option<String>)
    ensures
        elem_field_ok(v, d@, node, *r),
        v matches Some(s) ==> s@.len() > 0,
{
    match r {
        Some(x) => extract_text_from_element(d, node, x.as_str()),
        None => None,
    }
}

fn element_fields(d: &HtmlDoc, node: usize, rule: &SearchRule) -> (f: SearchFields)
    ensures
        element_fields_ok(f, d@, node, *rule),
        f.name matches Some(n) ==> n@.len() > 0,
{
    SearchFields {
        name: elem_field_exec(d, node, &rule.name),
        url: elem_field_exec(d, node, &rule.url),
        cover: elem_field_exec(d, node, &rule.cover),
        author: elem_field_exec(d, node, &rule.author),
        intro: elem_field_exec(d, node, &rule.intro),
        kind: elem_field_exec(d, node, &rule.kind),
        last_chapter: elem_field_exec(d, node, &rule.last_chapter),
        update_time: elem_field_exec(d, node, &rule.update_time),
        word_count: elem_field_exec(d, node, &rule.word_count),
    }
}

fn push_result(results: &mut Vec<SearchResult>, r: Option<SearchResult>, outs: Ghost<Seq<Option<SearchResult>>>)
    requires
        old(results)@ == keep_somes(outs@),
    ensures
        final(results)@ == keep_somes(outs@.push(r)),
        r matches Some(x) ==> final(results)@ == old(results)@.push(x),
        r is None ==> final(results)@ == old(results)@,
{
    proof {
        assert(outs@.push(r).drop_last() =~= outs@);
    }
    if let Some(x) = r {
        results.push(x);
    }
}

fn reverse_caps(matches: Vec<Vec<Option<String>>>) -> (m: Vec<Vec<Option<String>>>)
    ensures
        caps_view(m@) == caps_view(matches@).reverse(),
{
    let mut m: Vec<Vec<Option<String>>> = Vec::new();
    let mut k = matches.len();
    while k > 0
        invariant
            k <= matches@.len(),
            caps_view(m@) == caps_view(matches@).reverse().take(matches@.len() - k),
        decreases k,
    {
        let ghost before = caps_view(m@);
        m.push(matches[k - 1].clone());
        proof {
            let cv = caps_view(matches@);
            assert(caps_view(m@) =~= before.push(cv[k - 1]));
            assert(cv.reverse()[matches@.len() - k] == cv[k - 1]);
            assert(caps_view(m@) =~= cv.reverse().take(matches@.len() - k + 1));
        }
        k = k - 1;
    }
    proof {
        assert(caps_view(matches@).reverse().take(matches@.len() as int) =~= caps_view(matches@).reverse());
    }
    m
}

/// One result per match.
fn caps_results(rule: &SearchRule, ordered: &Vec<Vec<Option<String>>>, book_source: &BookSource) -> (v: Vec<SearchResult>)
    ensures
        search_caps_ok(Ok(v), caps_view(ordered@), *rule, *book_source),
        names_nonempty(v@),
{
    let ghost ms = caps_view(ordered@);
    let mut results: Vec<SearchResult> = Vec::new();
    let ghost mut fs: Seq<SearchFields> = Seq::empty();
    let ghost mut outs: Seq<Option<SearchResult>> = Seq::empty();
    let mut i: usize = 0;
    while i < ordered.len()
        invariant
            i <= ordered@.len(),
            ms == caps_view(ordered@),
            fs.len() == i,
            outs.len() == i,
            forall|j: int| 0 <= j < i ==> caps_fields_ok(#[trigger] fs[j], *rule, ms[j]),
            names_nonempty(results@),
            forall|j: int| 0 <= j < i ==> search_result_ok(#[trigger] outs[j], fs[j], *book_source),
            results@ == keep_somes(outs),
        decreases ordered@.len() - i,
    {
        let f = caps_fields(rule, &ordered[i]);
        let ghost fg = f;
        let out = build_search_result(f, book_source);
        push_result(&mut results, out, Ghost(outs));
        proof {
            fs = fs.push(fg);
            outs = outs.push(out);
        }
        i = i + 1;
    }
    proof {
        assert(results_from(results@, fs, *book_source));
        assert(fs.len() == ms.len());
        assert(forall|j: int| 0 <= j < fs.len() ==> caps_fields_ok(#[trigger] fs[j], *rule, ms[j]));
        let ok: Result<Vec<SearchResult>, ReaderError> = Ok(results);
        assert(ok matches Ok(v) && v@ == results@);
        assert(search_caps_ok(ok, ms, *rule, *book_source));
    }
    results
}

/// One result per element.
fn element_results(d: &HtmlDoc, els: &Vec<usize>, rule: &SearchRule, book_source: &BookSource) -> (v: Vec<SearchResult>)
    ensures
        search_css_ok(Ok(v), d@, els@, *rule, *book_source),
        names_nonempty(v@),
{
    let mut results: Vec<SearchResult> = Vec::new();
    let ghost mut fs: Seq<SearchFields> = Seq::empty();
    let ghost mut outs: Seq<Option<SearchResult>> = Seq::empty();
    let mut i: usize = 0;
    while i < els.len()
        invariant
            i <= els@.len(),
            fs.len() == i,
            outs.len() == i,
            forall|j: int| 0 <= j < i ==> element_fields_ok(#[trigger] fs[j], d@, els@[j], *rule),
            names_nonempty(results@),
            forall|j: int| 0 <= j < i ==> search_result_ok(#[trigger] outs[j], fs[j], *book_source),
            results@ == keep_somes(outs),
        decreases els@.len() - i,
    {
        let f = element_fields(d, els[i], rule);
        let ghost fg = f;
        let out = build_search_result(f, book_source);
        push_result(&mut results, out, Ghost(outs));
        proof {
            fs = fs.push(fg);
            outs = outs.push(out);
        }
        i = i + 1;
    }
    proof {
        assert(results_from(results@, fs, *book_source));
        assert(fs.len() == els@.len());
        let ok: Result<Vec<SearchResult>, ReaderError> = Ok(results);
        assert(ok matches Ok(v) && v@ == results@);
        assert(search_css_ok(ok, d@, els@, *rule, *book_source));
    }
    results
}

/// Parses a search-result page (see `search_ok`).
pub fn parse_search_result(html: &str, rule: &SearchRule, book_source: &BookSource) -> (r: Result<Vec<SearchResult>, ReaderError>)
    ensures
        search_ok(r, html@, *rule, *book_source),
        r matches Ok(v) ==> names_nonempty(v@),
{
    let d = HtmlDoc::parse(html);
    let list = match &rule.list {
        Some(l) => l,
        None => return Err(ReaderError::new("缺少搜索列表规则")),
    };
    match parse_all_in_one_rule(list.as_str()) {
        Some((re, rev)) => {
            let matches = captures_all(&re, html);
            let ordered = if rev {
                reverse_caps(matches)
            } else {
                matches
            };
            Ok(caps_results(rule, &ordered, book_source))
        },
        None => {
            let els = select_elements_from_element(&d, d.root(), list.as_str());
            Ok(element_results(&d, &els, rule, book_source))
        },
    }
}

} // verus!
