//! Table-of-contents pages: the chapter list (links resolved, repeated links
//! and titles skipped, numbered on from the previous page) and the next page.
use vstd::prelude::*;
use crate::models::Chapter;
use crate::text::{chars_of, opt_str, string_of, trim};
use crate::url_util::{resolve_spec, resolve_url};
use crate::selector::chars_eq;
use crate::capture::{template_spec, apply_capture_template, all_in_one_spec, parse_all_in_one_rule};
use crate::models::{TocRule, ContentRule};
use crate::error::ReaderError;
use crate::dom::{css_valid, dom_attr, dom_root, dom_select, dom_select_doc, strs_view, text_of, HtmlDoc, parse_selector, select_below, select_document};
use crate::css::{all_nonempty, chain_select, lemma_texts_in_nonempty, select_elements_from_document, select_text_from_element, texts_in_spec};
use crate::selector::{strip_css_prefix, strip_css_prefix_spec, lit};
use crate::regex_util::{captures_all, regex_captures, regex_valid};
use crate::rule_engine::{doc_text_spec, extract_text_from_document, extract_list_single_rule, parts_script_free, script_free, values_spec};
use crate::text::{contains, contains_str, str_eq, trim_str, join_spec, join_chars, trim_chars};

verus! {

/// One page of a table of contents.
#[derive(Debug)]
pub struct TocParseResult {
    pub chapters: Vec<Chapter>,
    pub next_toc_url: Option<String>,
    /// The index the next page's first chapter takes.
    pub next_index: u32,
}

/// A chapter link resolved against the page URL (kept as written when it
/// does not resolve).
pub open spec fn resolved_or_raw(base: Seq<char>, raw: Seq<char>) -> Seq<char> {
    match resolve_spec(base, raw) {
        Some(u) => u,
        None => raw,
    }
}

/// Walking the `(title, link)` pairs in order: the kept `(title, url)`
/// chapters, the URLs seen and the titles seen. A pair whose URL was seen is
/// skipped; a pair whose URL is new but whose title was seen is skipped too
/// (its URL then counts as seen).
pub open spec fn toc_state(pairs: Seq<(Seq<char>, Seq<char>)>, base: Seq<char>) -> (Seq<(Seq<char>, Seq<char>)>, Seq<Seq<char>>, Seq<Seq<char>>)
    decreases pairs.len(),
{
    if pairs.len() == 0 {
        (Seq::empty(), Seq::empty(), Seq::empty())
    } else {
        let (kept, urls, titles) = toc_state(pairs.drop_last(), base);
        let name = pairs.last().0;
        let url = resolved_or_raw(base, pairs.last().1);
        if urls.contains(url) {
            (kept, urls, titles)
        } else if titles.contains(name) {
            (kept, urls.push(url), titles)
        } else {
            (kept.push((name, url)), urls.push(url), titles.push(name))
        }
    }
}

/// The kept chapters, numbered from `start`.
pub open spec fn toc_chapters_ok(cs: Seq<Chapter>, kept: Seq<(Seq<char>, Seq<char>)>, start: int) -> bool {
    &&& cs.len() == kept.len()
    &&& forall|i: int| 0 <= i < cs.len() ==> {
        &&& (#[trigger] cs[i]).title@ == kept[i].0
        &&& cs[i].url@ == kept[i].1
        &&& cs[i].chapter_index == start + i
        &&& cs[i].id == 0
        &&& cs[i].book_id@.len() == 0
        &&& cs[i].word_count == 0
        &&& !cs[i].is_vip
    }
}

/// Every pair has a non-empty title and a non-empty link.
pub open spec fn pairs_nonempty(ps: Seq<(Seq<char>, Seq<char>)>) -> bool {
    forall|i: int| 0 <= i < ps.len() ==> (#[trigger] ps[i]).0.len() > 0 && ps[i].1.len() > 0
}

/// Every chapter has a non-empty title and a non-empty URL.
pub open spec fn chapters_nonempty(cs: Seq<Chapter>) -> bool {
    forall|i: int| 0 <= i < cs.len() ==> (#[trigger] cs[i]).title@.len() > 0 && cs[i].url@.len() > 0
}

fn contains_chars(v: &Vec<Vec<char>>, x: &[char]) -> (b: bool)
    ensures
        b == v@.map_values(|e: Vec<char>| e@).contains(x@),
{
    let ghost vv = v@.map_values(|e: Vec<char>| e@);
    let mut i: usize = 0;
    while i < v.len()
        invariant
            i <= v@.len(),
            vv == v@.map_values(|e: Vec<char>| e@),
            forall|j: int| 0 <= j < i ==> vv[j] != x@,
        decreases v@.len() - i,
    {
        if chars_eq(&v[i], x) {
            proof {
                assert(vv[i as int] == x@);
            }
            return true;
        }
        i = i + 1;
    }
    proof {
        if vv.contains(x@) {
            let j = choose|j: int| 0 <= j < vv.len() && vv[j] == x@;
            assert(vv[j] != x@);
        }
    }
    false
}

/// The view of `(title, link)` pairs.
pub open spec fn pairs_view(p: Seq<(String, String)>) -> Seq<(Seq<char>, Seq<char>)> {
    p.map_values(|x: (String, String)| (x.0@, x.1@))
}

/// Turns the `(title, link)` pairs of a page into chapters numbered from
/// `start_index`: links resolved against `base_url`, repeats skipped.
/// Returns the chapters and the index after the last one.
/// `None` when the numbering would pass `u32::MAX`.
pub fn assemble_toc(pairs: &Vec<(String, String)>, start_index: u32, base_url: &str) -> (r: Option<(Vec<Chapter>, u32)>)
    ensures
        r is None <==> start_index + toc_state(pairs_view(pairs@), base_url@).0.len() > u32::MAX,
        r matches Some((cs, next)) ==> toc_chapters_ok(cs@, toc_state(pairs_view(pairs@), base_url@).0, start_index as int)
            && next == start_index + toc_state(pairs_view(pairs@), base_url@).0.len(),
        r matches Some((cs, next)) ==> (pairs_nonempty(pairs_view(pairs@)) ==> chapters_nonempty(cs@)),
{
    let ghost pv = pairs_view(pairs@);
    let mut chapters: Vec<Chapter> = Vec::new();
    let mut seen_urls: Vec<Vec<char>> = Vec::new();
    let mut seen_titles: Vec<Vec<char>> = Vec::new();
    let mut index = start_index;
    let mut k: usize = 0;
    while k < pairs.len()
        invariant
            k <= pairs@.len(),
            pv == pairs_view(pairs@),
            ({
                let (kept, urls, titles) = toc_state(pv.take(k as int), base_url@);
                &&& toc_chapters_ok(chapters@, kept, start_index as int)
                &&& seen_urls@.map_values(|e: Vec<char>| e@) == urls
                &&& seen_titles@.map_values(|e: Vec<char>| e@) == titles
                &&& index == start_index + kept.len()
            }),
            pairs_nonempty(pv) ==> chapters_nonempty(chapters@),
        decreases pairs@.len() - k,
    {
        proof {
            assert(pv.take(k + 1).drop_last() =~= pv.take(k as int));
            assert(pv.take(k + 1).last() == (pairs@[k as int].0@, pairs@[k as int].1@));
        }
        let name = pairs[k].0.clone();
        let raw = pairs[k].1.as_str();
        let url = match resolve_url(base_url, raw) {
            Some(u) => u,
            None => raw.to_owned(),
        };
        proof {
            if pairs_nonempty(pv) {
                assert(pv[k as int].0.len() > 0 && pv[k as int].1.len() > 0);
            }
        }
        let uc = chars_of(url.as_str());
        let nc = chars_of(name.as_str());
        let ghost old_urls = seen_urls@.map_values(|e: Vec<char>| e@);
        let ghost old_titles = seen_titles@.map_values(|e: Vec<char>| e@);
        if contains_chars(&seen_urls, &uc) {
        } else if contains_chars(&seen_titles, &nc) {
            seen_urls.push(uc);
            proof {
                assert(seen_urls@.map_values(|e: Vec<char>| e@) =~= old_urls.push(url@));
            }
        } else {
            seen_urls.push(uc);
            seen_titles.push(nc);
            proof {
                assert(seen_urls@.map_values(|e: Vec<char>| e@) =~= old_urls.push(url@));
                assert(seen_titles@.map_values(|e: Vec<char>| e@) =~= old_titles.push(name@));
            }
            chapters.push(Chapter {
                id: 0,
                book_id: String::new(),
                title: name,
                url,
                chapter_index: index,
                word_count: 0,
                is_vip: false,
            });
            if index == u32::MAX {
                proof {
                    lemma_kept_grows(pv, base_url@, k + 1);
                }
                return None;
            }
            index = index + 1;
        }
        k = k + 1;
    }
    proof {
        assert(pv.take(k as int) =~= pv);
    }
    Some((chapters, index))
}

/// More pairs never keep fewer chapters.
proof fn lemma_kept_grows(pv: Seq<(Seq<char>, Seq<char>)>, base: Seq<char>, k: int)
    requires
        0 <= k <= pv.len(),
    ensures
        toc_state(pv.take(k), base).0.len() <= toc_state(pv, base).0.len(),
    decreases pv.len() - k,
{
    if k < pv.len() {
        lemma_kept_grows(pv, base, k + 1);
        assert(pv.take(k + 1).drop_last() =~= pv.take(k));
    } else {
        assert(pv.take(k) =~= pv);
    }
}

proof fn lemma_toc_state_distinct(pairs: Seq<(Seq<char>, Seq<char>)>, base: Seq<char>)
    ensures
        ({
            let (kept, urls, titles) = toc_state(pairs, base);
            &&& forall|i: int| 0 <= i < kept.len() ==> urls.contains(#[trigger] kept[i].1) && titles.contains(kept[i].0)
            &&& forall|i: int, j: int| 0 <= i < j < kept.len() ==> kept[i].1 != kept[j].1 && kept[i].0 != kept[j].0
        }),
    decreases pairs.len(),
{
    if pairs.len() > 0 {
        lemma_toc_state_distinct(pairs.drop_last(), base);
        let (kept, urls, titles) = toc_state(pairs.drop_last(), base);
        let name = pairs.last().0;
        let url = resolved_or_raw(base, pairs.last().1);
        if !urls.contains(url) && !titles.contains(name) {
            let k2 = kept.push((name, url));
            assert forall|i: int| 0 <= i < k2.len() implies urls.push(url).contains(#[trigger] k2[i].1) && titles.push(name).contains(k2[i].0) by {
                if i < kept.len() {
                    assert(k2[i] == kept[i]);
                    let a = choose|a: int| 0 <= a < urls.len() && urls[a] == kept[i].1;
                    assert(urls.push(url)[a] == kept[i].1);
                    let b = choose|b: int| 0 <= b < titles.len() && titles[b] == kept[i].0;
                    assert(titles.push(name)[b] == kept[i].0);
                } else {
                    assert(urls.push(url)[urls.len() as int] == url);
                    assert(titles.push(name)[titles.len() as int] == name);
                }
            }
            assert forall|i: int, j: int| 0 <= i < j < k2.len() implies k2[i].1 != k2[j].1 && k2[i].0 != k2[j].0 by {
                if j == kept.len() {
                    assert(k2[i] == kept[i]);
                    assert(urls.contains(kept[i].1));
                    assert(titles.contains(kept[i].0));
                } else {
                    assert(k2[i] == kept[i] && k2[j] == kept[j]);
                }
            }
        } else if !urls.contains(url) {
            let (kept2, urls2, titles2) = toc_state(pairs, base);
            assert forall|i: int| 0 <= i < kept2.len() implies urls2.contains(#[trigger] kept2[i].1) && titles2.contains(kept2[i].0) by {
                let a = choose|a: int| 0 <= a < urls.len() && urls[a] == kept[i].1;
                assert(urls.push(url)[a] == kept[i].1);
            }
        }
    }
}

/// Law: the chapters of a table-of-contents page have distinct URLs and
/// distinct titles.
pub proof fn law_toc_no_repeats(pairs: Seq<(Seq<char>, Seq<char>)>, base: Seq<char>)
    ensures
        forall|i: int, j: int| 0 <= i < j < toc_state(pairs, base).0.len() ==> toc_state(pairs, base).0[i].1 != toc_state(pairs, base).0[j].1
            && toc_state(pairs, base).0[i].0 != toc_state(pairs, base).0[j].0,
{
    lemma_toc_state_distinct(pairs, base);
}

/// The `(title, link)` pair of one all-in-one match: both templates applied,
/// kept when neither is blank.
pub open spec fn match_pair(name_tpl: Option<Seq<char>>, url_tpl: Option<Seq<char>>, caps: Seq<Option<Seq<char>>>) -> Option<(Seq<char>, Seq<char>)> {
    let name = match name_tpl { Some(t) => template_spec(t, caps), None => Seq::empty() };
    let url = match url_tpl { Some(t) => template_spec(t, caps), None => Seq::empty() };
    if trim(name).len() > 0 && trim(url).len() > 0 {
        Some((name, url))
    } else {
        None
    }
}

/// The pairs of all matches, in order.
pub open spec fn match_pairs(name_tpl: Option<Seq<char>>, url_tpl: Option<Seq<char>>, matches: Seq<Seq<Option<Seq<char>>>>) -> Seq<(Seq<char>, Seq<char>)>
    decreases matches.len(),
{
    if matches.len() == 0 {
        Seq::empty()
    } else {
        let rest = match_pairs(name_tpl, url_tpl, matches.drop_last());
        match match_pair(name_tpl, url_tpl, matches.last()) {
            Some(p) => rest.push(p),
            None => rest,
        }
    }
}

/// The `(title, link)` pairs of an all-in-one table of contents.
pub fn pairs_from_matches(name_tpl: &Option<String>, url_tpl: &Option<String>, matches: &Vec<Vec<Option<String>>>) -> (r: Vec<(String, String)>)
    ensures
        pairs_view(r@) == match_pairs(opt_str(*name_tpl), opt_str(*url_tpl), crate::regex_util::caps_view(matches@)),
{
    let ghost mv = crate::regex_util::caps_view(matches@);
    let mut out: Vec<(String, String)> = Vec::new();
    let mut k: usize = 0;
    while k < matches.len()
        invariant
            k <= matches@.len(),
            mv == crate::regex_util::caps_view(matches@),
            pairs_view(out@) == match_pairs(opt_str(*name_tpl), opt_str(*url_tpl), mv.take(k as int)),
        decreases matches@.len() - k,
    {
        proof {
            assert(mv.take(k + 1).drop_last() =~= mv.take(k as int));
            assert(mv.take(k + 1).last() == matches@[k as int]@.map_values(|o: Option<String>| opt_str(o)));
        }
        let caps = &matches[k];
        let name = match name_tpl {
            Some(t) => apply_capture_template(t.as_str(), caps),
            None => String::new(),
        };
        let url = match url_tpl {
            Some(t) => apply_capture_template(t.as_str(), caps),
            None => String::new(),
        };
        let ghost before = pairs_view(out@);
        if crate::text::trim_chars(&chars_of(name.as_str())).len() > 0 && crate::text::trim_chars(&chars_of(url.as_str())).len() > 0 {
            out.push((name, url));
            proof {
                assert(pairs_view(out@) =~= before.push((name@, url@)));
            }
        }
        k = k + 1;
    }
    proof {
        assert(mv.take(k as int) =~= mv);
    }
    out
}

/// The pairs in reverse order.
pub fn reverse_pairs(v: Vec<(String, String)>) -> (r: Vec<(String, String)>)
    ensures
        pairs_view(r@) == pairs_view(v@).reverse(),
{
    let mut r: Vec<(String, String)> = Vec::new();
    let mut k = v.len();
    while k > 0
        invariant
            k <= v@.len(),
            pairs_view(r@) == pairs_view(v@).reverse().take(v@.len() - k),
        decreases k,
    {
        let ghost before = pairs_view(r@);
        r.push((v[k - 1].0.clone(), v[k - 1].1.clone()));
        proof {
            let pv = pairs_view(v@);
            assert(pairs_view(r@) =~= before.push((v@[k - 1].0@, v@[k - 1].1@)));
            assert(pv.reverse()[v@.len() - k] == pv[k - 1]);
            assert(pairs_view(r@) =~= pv.reverse().take(v@.len() - k + 1));
        }
        k = k - 1;
    }
    proof {
        assert(pairs_view(v@).reverse().take(v@.len() as int) =~= pairs_view(v@).reverse());
    }
    r
}


// ---------------------------------------------------------------------------
// Table-of-contents pages
// ---------------------------------------------------------------------------

/// The elements that hold the chapter links: for the rule
/// `.section.chapter_list ul li a` on a page with two such sections, the
/// links of the second section when the first one's title says it lists the
/// latest chapters; otherwise the rule as a chained selection from the root.
pub open spec fn toc_elements_spec(src: Seq<char>, chapter_list: Seq<char>) -> Result<Seq<usize>, Seq<char>> {
    let n = trim(chapter_list);
    let plain = chain_select(src, seq![dom_root(src)], n);
    if strip_css_prefix_spec(n) == ".section.chapter_list ul li a"@ {
        if !css_valid(".section.chapter_list"@) {
            Err("解析目录分区选择器失败"@)
        } else if !css_valid(".title"@) {
            Err("解析目录标题选择器失败"@)
        } else if !css_valid("ul li a"@) {
            Err("解析目录链接选择器失败"@)
        } else {
            let secs = dom_select_doc(src, ".section.chapter_list"@);
            if secs.len() >= 2 {
                let titles = dom_select(src, secs[0], ".title"@);
                let first = if titles.len() > 0 { text_of(src, titles[0]) } else { Seq::empty() };
                if contains(first, "最新章节"@) {
                    Ok(dom_select(src, secs[1], "ul li a"@))
                } else {
                    Ok(plain)
                }
            } else {
                Ok(plain)
            }
        }
    } else {
        Ok(plain)
    }
}

pub open spec fn opt_els_result(r: Result<Vec<usize>, ReaderError>) -> Result<Seq<usize>, Seq<char>> {
    match r {
        Ok(v) => Ok(v@),
        Err(e) => Err(e.message@),
    }
}

/// Selects the elements that hold the chapter links (see `toc_elements_spec`).
pub fn toc_elements(d: &HtmlDoc, chapter_list: &str) -> (r: Result<Vec<usize>, ReaderError>)
    ensures
        opt_els_result(r) == toc_elements_spec(d@, chapter_list@),
        r is Ok,
{
    let n = trim_str(chapter_list);
    let stripped = strip_css_prefix(n.as_str());
    if !str_eq(stripped.as_str(), ".section.chapter_list ul li a") {
        return Ok(select_elements_from_document(d, n.as_str()));
    }
    let section_sel = match parse_selector(".section.chapter_list") {
        Some(s) => s,
        None => return Err(ReaderError::new("解析目录分区选择器失败")),
    };
    let title_sel = match parse_selector(".title") {
        Some(s) => s,
        None => return Err(ReaderError::new("解析目录标题选择器失败")),
    };
    let link_sel = match parse_selector("ul li a") {
        Some(s) => s,
        None => return Err(ReaderError::new("解析目录链接选择器失败")),
    };
    let sections = select_document(d, &section_sel);
    if sections.len() >= 2 {
        let titles = select_below(d, sections[0], &title_sel);
        let first = if titles.len() > 0 {
            d.text(titles[0])
        } else {
            String::new()
        };
        if contains_str(first.as_str(), "最新章节") {
            return Ok(select_below(d, sections[1], &link_sel));
        }
    }
    Ok(select_elements_from_document(d, n.as_str()))
}

/// The texts an optional CSS rule gives on an element.
pub open spec fn rule_texts(src: Seq<char>, e: usize, r: Option<String>) -> Seq<Seq<char>> {
    match r {
        Some(x) => texts_in_spec(src, e, x@),
        None => Seq::empty(),
    }
}

/// Pairs of names and links, as many as the shorter list has.
pub open spec fn zip_min(a: Seq<Seq<char>>, b: Seq<Seq<char>>) -> Seq<(Seq<char>, Seq<char>)> {
    Seq::new(if a.len() < b.len() { a.len() } else { b.len() }, |i: int| (a[i], b[i]))
}

/// The `(title, link)` pairs of the elements: under each element, the names
/// and links its rules give, paired in order.
pub open spec fn css_pairs(src: Seq<char>, els: Seq<usize>, name_rule: Option<String>, url_rule: Option<String>) -> Seq<(Seq<char>, Seq<char>)>
    decreases els.len(),
{
    if els.len() == 0 {
        Seq::empty()
    } else {
        css_pairs(src, els.drop_last(), name_rule, url_rule) + zip_min(
            rule_texts(src, els.last(), name_rule),
            rule_texts(src, els.last(), url_rule),
        )
    }
}

/// Law: the pairs of the elements come element by element; within one
/// element, the k-th title its name rule finds goes with the k-th link its
/// link rule finds, for as many as the shorter list has.
pub proof fn law_pairs_title_k_with_link_k(src: Seq<char>, els: Seq<usize>, e: usize, name_rule: Option<String>, url_rule: Option<String>)
    ensures
        ({
            let a = rule_texts(src, e, name_rule);
            let b = rule_texts(src, e, url_rule);
            let m: int = if a.len() < b.len() { a.len() as int } else { b.len() as int };
            let before = css_pairs(src, els, name_rule, url_rule);
            let after = css_pairs(src, els.push(e), name_rule, url_rule);
            &&& after.len() == before.len() + m
            &&& forall|k: int| 0 <= k < before.len() ==> #[trigger] after[k] == before[k]
            &&& forall|k: int| 0 <= k < m ==> #[trigger] after[before.len() + k] == (a[k], b[k])
        }),
{
    assert(els.push(e).drop_last() =~= els);
    assert(els.push(e).last() == e);
}

fn rule_texts_exec(d: &HtmlDoc, e: usize, r: &Option<String>) -> (v: Vec<String>)
    ensures
        strs_view(v@) == rule_texts(d@, e, *r),
{
    match r {
        Some(x) => select_text_from_element(d, e, x.as_str()),
        None => {
            let v: Vec<String> = Vec::new();
            proof {
                assert(strs_view(v@) =~= Seq::<Seq<char>>::empty());
            }
            v
        },
    }
}

/// The `(title, link)` pairs of the elements (see `css_pairs`).
pub fn element_pairs(d: &HtmlDoc, els: &Vec<usize>, name_rule: &Option<String>, url_rule: &Option<String>) -> (r: Vec<(String, String)>)
    ensures
        pairs_view(r@) == css_pairs(d@, els@, *name_rule, *url_rule),
{
    let mut out: Vec<(String, String)> = Vec::new();
    let mut k: usize = 0;
    while k < els.len()
        invariant
            k <= els@.len(),
            pairs_view(out@) == css_pairs(d@, els@.take(k as int), *name_rule, *url_rule),
        decreases els@.len() - k,
    {
        proof {
            assert(els@.take(k + 1).drop_last() =~= els@.take(k as int));
        }
        let names = rule_texts_exec(d, els[k], name_rule);
        let urls = rule_texts_exec(d, els[k], url_rule);
        let count = if names.len() < urls.len() { names.len() } else { urls.len() };
        let ghost start = pairs_view(out@);
        let ghost z = zip_min(strs_view(names@), strs_view(urls@));
        let mut i: usize = 0;
        while i < count
            invariant
                i <= count <= names@.len(),
                count <= urls@.len(),
                count == z.len(),
                z == zip_min(strs_view(names@), strs_view(urls@)),
                pairs_view(out@) == start + z.take(i as int),
            decreases count - i,
        {
            let ghost before = pairs_view(out@);
            out.push((names[i].clone(), urls[i].clone()));
            proof {
                assert(pairs_view(out@) =~= before.push((names@[i as int]@, urls@[i as int]@)));
                assert(z.take(i + 1) =~= z.take(i as int).push(z[i as int]));
                assert(pairs_view(out@) =~= start + z.take(i + 1));
            }
            i = i + 1;
        }
        proof {
            assert(z.take(count as int) =~= z);
        }
        k = k + 1;
    }
    proof {
        assert(els@.take(els@.len() as int) =~= els@);
    }
    out
}

/// The `(title, link)` pairs of a table-of-contents page: by the all-in-one
/// regex (`:pattern`, `-:pattern` reversed) when the chapter-list rule is one
/// that compiles, else by the CSS rules.
pub open spec fn toc_pairs_spec(src: Seq<char>, rule: TocRule) -> Result<Seq<(Seq<char>, Seq<char>)>, Seq<char>> {
    match rule.chapter_list {
        None => Err("缺少目录列表规则"@),
        Some(cl) => {
            let css = match toc_elements_spec(src, cl@) {
                Err(m) => Err(m),
                Ok(els) => Ok(css_pairs(src, els, rule.chapter_name, rule.chapter_url)),
            };
            match all_in_one_spec(cl@) {
                Some((p, rev)) => if regex_valid(p) {
                    let ps = match_pairs(opt_str(rule.chapter_name), opt_str(rule.chapter_url), regex_captures(p, src));
                    Ok(if rev { ps.reverse() } else { ps })
                } else {
                    css
                },
                None => css,
            }
        },
    }
}

/// The first link whose text speaks of a next page and that has an `href`.
pub open spec fn next_link_from(src: Seq<char>, els: Seq<usize>) -> Option<Seq<char>>
    decreases els.len(),
{
    if els.len() == 0 {
        None
    } else {
        let t = text_of(src, els[0]);
        if (contains(t, "下─页"@) || contains(t, "下一页"@) || contains(t, "下页"@)) && dom_attr(src, els[0], "href"@) is Some {
            dom_attr(src, els[0], "href"@)
        } else {
            next_link_from(src, els.drop_first())
        }
    }
}

/// Law: the fallback next page is the `href` of the first link whose text
/// contains 下─页, 下一页 or 下页 and that has an `href`; there is none when no
/// link is such.
pub proof fn law_next_link_is_first_next_page_link(src: Seq<char>, els: Seq<usize>)
    ensures
        (forall|k: int| 0 <= k < els.len() ==> !((contains(text_of(src, #[trigger] els[k]), "下─页"@) || contains(text_of(src, els[k]), "下一页"@) || contains(text_of(src, els[k]), "下页"@)) && dom_attr(src, els[k], "href"@) is Some))
            ==> next_link_from(src, els) is None,
        forall|k: int| 0 <= k < els.len() && (contains(text_of(src, #[trigger] els[k]), "下─页"@) || contains(text_of(src, els[k]), "下一页"@) || contains(text_of(src, els[k]), "下页"@)) && dom_attr(src, els[k], "href"@) is Some
            && (forall|j: int| 0 <= j < k ==> !((contains(text_of(src, #[trigger] els[j]), "下─页"@) || contains(text_of(src, els[j]), "下一页"@) || contains(text_of(src, els[j]), "下页"@)) && dom_attr(src, els[j], "href"@) is Some))
            ==> next_link_from(src, els) == dom_attr(src, els[k], "href"@),
    decreases els.len(),
{
    if els.len() > 0 {
        let rest = els.drop_first();
        law_next_link_is_first_next_page_link(src, rest);
        assert forall|k: int| 0 < k < els.len() implies els[k] == #[trigger] rest[k - 1] by {}
        assert forall|k: int| 0 <= k < els.len() && (contains(text_of(src, #[trigger] els[k]), "下─页"@) || contains(text_of(src, els[k]), "下一页"@) || contains(text_of(src, els[k]), "下页"@)) && dom_attr(src, els[k], "href"@) is Some
            && (forall|j: int| 0 <= j < k ==> !((contains(text_of(src, #[trigger] els[j]), "下─页"@) || contains(text_of(src, els[j]), "下一页"@) || contains(text_of(src, els[j]), "下页"@)) && dom_attr(src, els[j], "href"@) is Some))
            implies next_link_from(src, els) == dom_attr(src, els[k], "href"@) by {
            if k > 0 {
                assert(!((contains(text_of(src, els[0]), "下─页"@) || contains(text_of(src, els[0]), "下一页"@) || contains(text_of(src, els[0]), "下页"@)) && dom_attr(src, els[0], "href"@) is Some));
                assert(els[k] == rest[k - 1]);
                assert forall|j: int| 0 <= j < k - 1 implies !((contains(text_of(src, #[trigger] rest[j]), "下─页"@) || contains(text_of(src, rest[j]), "下一页"@) || contains(text_of(src, rest[j]), "下页"@)) && dom_attr(src, rest[j], "href"@) is Some) by {
                    assert(rest[j] == els[j + 1]);
                }
            }
        }
        if forall|k: int| 0 <= k < els.len() ==> !((contains(text_of(src, #[trigger] els[k]), "下─页"@) || contains(text_of(src, els[k]), "下一页"@) || contains(text_of(src, els[k]), "下页"@)) && dom_attr(src, els[k], "href"@) is Some) {
            assert forall|k: int| 0 <= k < rest.len() implies !((contains(text_of(src, #[trigger] rest[k]), "下─页"@) || contains(text_of(src, rest[k]), "下一页"@) || contains(text_of(src, rest[k]), "下页"@)) && dom_attr(src, rest[k], "href"@) is Some) by {
                assert(rest[k] == els[k + 1]);
            }
            assert(!((contains(text_of(src, els[0]), "下─页"@) || contains(text_of(src, els[0]), "下一页"@) || contains(text_of(src, els[0]), "下页"@)) && dom_attr(src, els[0], "href"@) is Some));
        }
    }
}

/// Law: a page without a next-page rule, whose first link speaking of the
/// next page (its text containing 下─页, 下一页 or 下页) has the `href` `h`,
/// goes on to `h` resolved against the page's URL (or `h` as written when it
/// does not resolve).
pub proof fn law_next_toc_from_next_page_link(src: Seq<char>, base: Seq<char>, k: int)
    requires
        css_valid("a"@),
        0 <= k < dom_select_doc(src, "a"@).len(),
        (contains(text_of(src, dom_select_doc(src, "a"@)[k]), "下─页"@) || contains(text_of(src, dom_select_doc(src, "a"@)[k]), "下一页"@) || contains(text_of(src, dom_select_doc(src, "a"@)[k]), "下页"@)),
        dom_attr(src, dom_select_doc(src, "a"@)[k], "href"@) is Some,
        forall|j: int| 0 <= j < k ==> !((contains(text_of(src, #[trigger] dom_select_doc(src, "a"@)[j]), "下─页"@) || contains(text_of(src, dom_select_doc(src, "a"@)[j]), "下一页"@) || contains(text_of(src, dom_select_doc(src, "a"@)[j]), "下页"@))
            && dom_attr(src, dom_select_doc(src, "a"@)[j], "href"@) is Some),
    ensures
        next_toc_spec(src, None, base) == Some(resolved_or_raw(base, dom_attr(src, dom_select_doc(src, "a"@)[k], "href"@)->0)),
{
    law_next_link_is_first_next_page_link(src, dom_select_doc(src, "a"@));
}

/// The next page of the table of contents: what the rule gives, else the
/// first "next page" link of the page, resolved.
pub open spec fn next_toc_spec(src: Seq<char>, rule: Option<String>, base: Seq<char>) -> Option<Seq<char>> {
    let by_rule = match rule {
        Some(r) => doc_text_spec(src, r@),
        None => None,
    };
    if by_rule is Some {
        by_rule
    } else if !css_valid("a"@) {
        None
    } else {
        match next_link_from(src, dom_select_doc(src, "a"@)) {
            Some(h) => Some(resolved_or_raw(base, h)),
            None => None,
        }
    }
}

fn next_link_fallback(d: &HtmlDoc, base_url: &str) -> (r: Option<String>)
    ensures
        opt_str(r) == (if !css_valid("a"@) {
            None
        } else {
            match next_link_from(d@, dom_select_doc(d@, "a"@)) {
                Some(h) => Some(resolved_or_raw(base_url@, h)),
                None => None,
            }
        }),
{
    let a_sel = match parse_selector("a") {
        Some(s) => s,
        None => return None,
    };
    let links = select_document(d, &a_sel);
    let ghost lv = links@;
    let mut i: usize = 0;
    proof {
        assert(lv.skip(0) =~= lv);
    }
    while i < links.len()
        invariant
            i <= links@.len(),
            lv == links@,
            lv == dom_select_doc(d@, "a"@),
            css_valid("a"@),
            next_link_from(d@, lv) == next_link_from(d@, lv.skip(i as int)),
        decreases links@.len() - i,
    {
        proof {
            assert(lv.skip(i as int).drop_first() =~= lv.skip(i + 1));
            assert(lv.skip(i as int)[0] == lv[i as int]);
        }
        let t = d.text(links[i]);
        if contains_str(t.as_str(), "下─页") || contains_str(t.as_str(), "下一页") || contains_str(t.as_str(), "下页") {
            if let Some(href) = d.attr(links[i], "href") {
                proof {
                    let rest = lv.skip(i as int);
                    assert(rest[0] == links@[i as int]);
                    assert(next_link_from(d@, rest) == Some(href@));
                    assert(next_link_from(d@, dom_select_doc(d@, "a"@)) == Some(href@));
                }
                let resolved = resolve_url(base_url, href.as_str());
                let r = match resolved {
                    Some(u) => Some(u),
                    None => Some(href),
                };
                proof {
                    assert(opt_str(r) == Some(resolved_or_raw(base_url@, href@)));
                }
                return r;
            }
        }
        i = i + 1;
    }
    None
}

/// The next-page rule holds no script.
pub open spec fn next_rule_script_free(rule: TocRule) -> bool {
    rule.next_toc_url matches Some(r) ==> parts_script_free(trim(r@))
}

/// A table-of-contents page parsed: the kept chapters numbered from `start`,
/// the index after them, and the next page (when its rule holds no script);
/// the errors of `toc_pairs_spec`, and an error when the numbering would pass
/// `u32::MAX`.
pub open spec fn toc_result_ok(r: Result<TocParseResult, ReaderError>, src: Seq<char>, rule: TocRule, start: u32, base: Seq<char>) -> bool {
    match toc_pairs_spec(src, rule) {
        Err(m) => r matches Err(e) && e.message@ == m,
        Ok(pairs) => {
            let kept = toc_state(pairs, base).0;
            if start + kept.len() > u32::MAX {
                r matches Err(e) && e.message@ == "目录章节序号溢出"@
            } else {
                r matches Ok(t) && toc_chapters_ok(t.chapters@, kept, start as int) && t.next_index == start + kept.len()
                    && (next_rule_script_free(rule) ==> opt_str(t.next_toc_url) == next_toc_spec(src, rule.next_toc_url, base))
            }
        },
    }
}

proof fn lemma_match_pairs_nonempty(n: Option<Seq<char>>, u: Option<Seq<char>>, ms: Seq<Seq<Option<Seq<char>>>>)
    ensures
        pairs_nonempty(match_pairs(n, u, ms)),
    decreases ms.len(),
{
    if ms.len() > 0 {
        lemma_match_pairs_nonempty(n, u, ms.drop_last());
        match match_pair(n, u, ms.last()) {
            Some(p) => {
                crate::text::lemma_trim_len(p.0);
                crate::text::lemma_trim_len(p.1);
            },
            None => {},
        }
    }
}

proof fn lemma_css_pairs_nonempty(src: Seq<char>, els: Seq<usize>, n: Option<String>, u: Option<String>)
    ensures
        pairs_nonempty(css_pairs(src, els, n, u)),
    decreases els.len(),
{
    if els.len() > 0 {
        lemma_css_pairs_nonempty(src, els.drop_last(), n, u);
        let a = rule_texts(src, els.last(), n);
        let b = rule_texts(src, els.last(), u);
        if let Some(x) = n {
            lemma_texts_in_nonempty(src, els.last(), x@);
        }
        if let Some(x) = u {
            lemma_texts_in_nonempty(src, els.last(), x@);
        }
        assert(all_nonempty(a) && all_nonempty(b));
        let rest = css_pairs(src, els.drop_last(), n, u);
        let z = zip_min(a, b);
        assert forall|i: int| 0 <= i < (rest + z).len() implies (#[trigger] (rest + z)[i]).0.len() > 0 && (rest + z)[i].1.len() > 0 by {
            if i < rest.len() {
                assert((rest + z)[i] == rest[i]);
            } else {
                assert((rest + z)[i] == z[i - rest.len()]);
                assert(a[i - rest.len()].len() > 0);
                assert(b[i - rest.len()].len() > 0);
            }
        }
    }
}

/// The `(title, link)` pairs of a page, when there are any, have non-empty
/// titles and links.
proof fn lemma_toc_pairs_nonempty(src: Seq<char>, rule: TocRule)
    ensures
        toc_pairs_spec(src, rule) matches Ok(ps) ==> pairs_nonempty(ps),
{
    if let Some(cl) = rule.chapter_list {
        if let Ok(els) = toc_elements_spec(src, cl@) {
            lemma_css_pairs_nonempty(src, els, rule.chapter_name, rule.chapter_url);
        }
        if let Some((p, rev)) = all_in_one_spec(cl@) {
            let ps = match_pairs(opt_str(rule.chapter_name), opt_str(rule.chapter_url), regex_captures(p, src));
            lemma_match_pairs_nonempty(opt_str(rule.chapter_name), opt_str(rule.chapter_url), regex_captures(p, src));
            assert forall|i: int| 0 <= i < ps.reverse().len() implies (#[trigger] ps.reverse()[i]).0.len() > 0 && ps.reverse()[i].1.len() > 0 by {
                assert(ps.reverse()[i] == ps[ps.len() - 1 - i]);
            }
        }
    }
}

/// Parses one page of a table of contents.
pub fn parse_book_toc(html: &str, rule: &TocRule, start_index: u32, base_url: &str) -> (r: Result<TocParseResult, ReaderError>)
    ensures
        toc_result_ok(r, html@, *rule, start_index, base_url@),
        rule.chapter_list is Some ==> (r is Ok || (r matches Err(e) && e.message@ == "目录章节序号溢出"@)),
        r matches Ok(t) ==> chapters_nonempty(t.chapters@),
{
    let d = HtmlDoc::parse(html);
    let cl = match &rule.chapter_list {
        Some(c) => c,
        None => return Err(ReaderError::new("缺少目录列表规则")),
    };
    let pairs = match parse_all_in_one_rule(cl.as_str()) {
        Some((re, rev)) => {
            let caps = captures_all(&re, html);
            let ps = pairs_from_matches(&rule.chapter_name, &rule.chapter_url, &caps);
            if rev {
                reverse_pairs(ps)
            } else {
                ps
            }
        },
        None => {
            let els = match toc_elements(&d, cl.as_str()) {
                Ok(v) => v,
                Err(e) => return Err(e),
            };
            element_pairs(&d, &els, &rule.chapter_name, &rule.chapter_url)
        },
    };
    proof {
        lemma_toc_pairs_nonempty(html@, *rule);
    }
    let (chapters, next_index) = match assemble_toc(&pairs, start_index, base_url) {
        Some(x) => x,
        None => return Err(ReaderError::new("目录章节序号溢出")),
    };
    let by_rule = match &rule.next_toc_url {
        Some(x) => extract_text_from_document(&d, Some(x)),
        None => None,
    };
    let next_toc_url = match by_rule {
        Some(v) => Some(v),
        None => next_link_fallback(&d, base_url),
    };
    Ok(TocParseResult { chapters, next_toc_url, next_index })
}

/// The text of a chapter page: the content rule's values joined by blank
/// lines, trimmed; an error without a content rule.
pub open spec fn content_spec(src: Seq<char>, rule: ContentRule) -> Result<Seq<char>, Seq<char>> {
    match rule.content {
        None => Err("缺少内容规则"@),
        Some(c) => {
            let list = values_spec(src, c@);
            if list.len() > 0 {
                Ok(trim(join_spec(list, "\n\n"@)))
            } else {
                Ok(Seq::empty())
            }
        },
    }
}

pub open spec fn text_result(r: Result<String, ReaderError>) -> Result<Seq<char>, Seq<char>> {
    match r {
        Ok(s) => Ok(s@),
        Err(e) => Err(e.message@),
    }
}

/// Parses the text of a chapter page (see `content_spec` for rules without
/// scripts).
pub fn parse_chapter_content(html: &str, rule: &ContentRule) -> (r: Result<String, ReaderError>)
    ensures
        rule.content is None ==> text_result(r) == content_spec(html@, *rule),
        rule.content is Some ==> r is Ok,
        rule.content matches Some(c) ==> (script_free(c@) ==> text_result(r) == content_spec(html@, *rule)),
{
    let d = HtmlDoc::parse(html);
    let c = match &rule.content {
        Some(c) => c,
        None => return Err(ReaderError::new("缺少内容规则")),
    };
    let list = extract_list_single_rule(&d, c.as_str());
    if list.len() > 0 {
        let mut parts: Vec<Vec<char>> = Vec::new();
        let mut i: usize = 0;
        while i < list.len()
            invariant
                i <= list@.len(),
                parts@.map_values(|p: Vec<char>| p@) == strs_view(list@).take(i as int),
            decreases list@.len() - i,
        {
            let ghost before = parts@;
            parts.push(chars_of(list[i].as_str()));
            proof {
                assert(parts@.map_values(|p: Vec<char>| p@) =~= before.map_values(|p: Vec<char>| p@).push(list@[i as int]@));
                assert(strs_view(list@).take(i + 1) =~= strs_view(list@).take(i as int).push(list@[i as int]@));
            }
            i = i + 1;
        }
        proof {
            assert(strs_view(list@).take(list@.len() as int) =~= strs_view(list@));
        }
        let joined = join_chars(&parts, &lit("\n\n"));
        return Ok(string_of(&trim_chars(&joined)));
    }
    Ok(String::new())
}
} // verus!
