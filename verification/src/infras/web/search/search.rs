//! Searching the web through Brave: choosing result links in a search page,
//! turning article pages into Markdown, and the steps of the `web.search` intent.
use vstd::prelude::*;

use super::html::{
    element_facts, elements_facts, host_of, html_select, percent_decode, percent_decoded, select,
    url_host, ElementFacts, HtmlElement,
};
use crate::json::{model, object, string_value, Json, JsonValue};
use crate::text::{
    chars_of, contains, decimal, decimal_chars, ends_with, has_infix, has_prefix, has_suffix, join, join_chars, occurs_at,
    replace_char, replace_chars, starts_with, string_of, trim, trim_chars, trim_str,
};
use crate::types::{ExecutionStatus, IntentInput, IntentResult};

verus! {

/// How many result links a search follows.
pub const RESULTS_LIMIT: usize = 5;

// ---------------------------------------------------------------------------
// Choosing result links
// ---------------------------------------------------------------------------

/// Hosts whose pages are not articles; a link to one of them, or to a
/// subdomain ending in one of them, is skipped.
pub open spec fn blocked_hosts() -> Seq<Seq<char>> {
    seq![
        "youtube.com"@,
        "youtu.be"@,
        "twitter.com"@,
        "facebook.com"@,
        "instagram.com"@,
        "linkedin.com"@,
        "amazon.com"@,
        "spotify.com"@,
        "apple.com"@,
        "wikipedia.org"@,
    ]
}

/// The host ends with one of the blocked hosts.
pub open spec fn is_blocked_host(host: Seq<char>) -> bool {
    exists|k: int| 0 <= k < blocked_hosts().len() && has_suffix(host, blocked_hosts()[k])
}

/// A (trimmed) `href` that is not followed: empty, a fragment, a script or mail
/// link, not `http(s)`, or a link back into Brave search.
pub open spec fn skipped_href(h: Seq<char>) -> bool {
    ||| h.len() == 0
    ||| has_prefix(h, "#"@)
    ||| has_prefix(h, "javascript:"@)
    ||| has_prefix(h, "mailto:"@)
    ||| !(has_prefix(h, "http://"@) || has_prefix(h, "https://"@))
    ||| has_infix(h, "search.brave.com"@)
    ||| has_infix(h, "cdn.search.brave.com"@)
    ||| has_infix(h, "imgs.search.brave.com"@)
    ||| has_infix(h, "tiles.search.brave.com"@)
}

/// The title of a link: its text pieces joined by spaces, line breaks turned
/// into spaces, trimmed.
pub open spec fn link_title(texts: Seq<Seq<char>>) -> Seq<char> {
    trim(replace_char(join(texts, seq![' ']), '\n', ' '))
}

/// The `(title, url)` a link element contributes before duplicates are
/// removed, or `None` when it is skipped.
pub open spec fn link_candidate(e: ElementFacts) -> Option<(Seq<char>, Seq<char>)> {
    match e.0 {
        None => None,
        Some(raw) => {
            let h = trim(raw);
            let title = link_title(e.1);
            let decoded = percent_decoded(h);
            if skipped_href(h) || title.len() == 0 {
                None
            } else if url_host(decoded) matches Some(host) && is_blocked_host(host) {
                None
            } else {
                Some((title, decoded))
            }
        },
    }
}

/// `url` is already the url of one of `links`.
pub open spec fn has_url(links: Seq<(Seq<char>, Seq<char>)>, url: Seq<char>) -> bool {
    exists|k: int| 0 <= k < links.len() && links[k].1 == url
}

/// The links chosen from `elements`, in document order: each candidate whose
/// url was not chosen before, until `limit` links are chosen.
pub open spec fn chosen_links(elements: Seq<ElementFacts>, limit: nat) -> Seq<(Seq<char>, Seq<char>)>
    decreases elements.len(),
{
    if elements.len() == 0 {
        Seq::empty()
    } else {
        let before = chosen_links(elements.drop_last(), limit);
        if before.len() >= limit {
            before
        } else {
            match link_candidate(elements.last()) {
                Some(link) => if has_url(before, link.1) {
                    before
                } else {
                    before.push(link)
                },
                None => before,
            }
        }
    }
}

/// `link` is the candidate of one of `elements`.
pub open spec fn is_candidate_in(elements: Seq<ElementFacts>, link: (Seq<char>, Seq<char>)) -> bool {
    exists|k: int| 0 <= k < elements.len() && #[trigger] link_candidate(elements[k]) == Some(link)
}

/// The chosen links are at most `limit`, their urls are pairwise different,
/// their titles are not empty, and each is the candidate of one of the elements.
pub proof fn law_chosen_links(elements: Seq<ElementFacts>, limit: nat)
    ensures
        chosen_links(elements, limit).len() <= limit,
        forall|a: int, b: int|
            0 <= a < b < chosen_links(elements, limit).len() ==> chosen_links(elements, limit)[a].1
                != chosen_links(elements, limit)[b].1,
        forall|a: int|
            0 <= a < chosen_links(elements, limit).len() ==> chosen_links(elements, limit)[a].0.len()
                > 0,
        forall|a: int|
            0 <= a < chosen_links(elements, limit).len() ==> is_candidate_in(
                elements,
                #[trigger] chosen_links(elements, limit)[a],
            ),
    decreases elements.len(),
{
    if elements.len() > 0 {
        let init = elements.drop_last();
        law_chosen_links(init, limit);
        let before = chosen_links(init, limit);
        let now = chosen_links(elements, limit);
        assert forall|a: int| 0 <= a < now.len() implies is_candidate_in(
            elements,
            #[trigger] now[a],
        ) by {
            if a < before.len() {
                assert(is_candidate_in(init, before[a]));
                let k: int = choose|k: int|
                    0 <= k < init.len() && #[trigger] link_candidate(init[k]) == Some(before[a]);
                assert(elements[k] == init[k]);
            } else {
                assert(link_candidate(elements[elements.len() - 1]) == Some(now[a]));
                assert(is_candidate_in(elements, now[a]));
            }
        }
        assert forall|a: int, b: int| 0 <= a < b < now.len() implies now[a].1 != now[b].1 by {
            if b == before.len() && now.len() > before.len() {
                assert(!has_url(before, now[b].1));
                assert(before[a].1 == now[a].1);
            }
        }
    }
}

/// An occurrence of `p` in `s` holds each occurrence of `q` in `p`.
proof fn lemma_infix_within(s: Seq<char>, p: Seq<char>, q: Seq<char>, off: int)
    requires
        has_infix(s, p),
        occurs_at(p, q, off),
    ensures
        has_infix(s, q),
{
    let i: int = choose|i: int| occurs_at(s, p, i);
    assert(s.subrange(i + off, i + off + q.len()) =~= p.subrange(off, off + q.len()));
    assert(occurs_at(s, q, i + off));
}

/// Every Brave host that is skipped contains `search.brave.com`.
proof fn lemma_brave_hosts(h: Seq<char>)
    requires
        !has_infix(h, "search.brave.com"@),
    ensures
        !has_infix(h, "cdn.search.brave.com"@),
        !has_infix(h, "imgs.search.brave.com"@),
        !has_infix(h, "tiles.search.brave.com"@),
{
    reveal_strlit("search.brave.com");
    reveal_strlit("cdn.search.brave.com");
    reveal_strlit("imgs.search.brave.com");
    reveal_strlit("tiles.search.brave.com");
    if has_infix(h, "cdn.search.brave.com"@) {
        assert("cdn.search.brave.com"@.subrange(4, 20) =~= "search.brave.com"@);
        lemma_infix_within(h, "cdn.search.brave.com"@, "search.brave.com"@, 4);
    }
    if has_infix(h, "imgs.search.brave.com"@) {
        assert("imgs.search.brave.com"@.subrange(5, 21) =~= "search.brave.com"@);
        lemma_infix_within(h, "imgs.search.brave.com"@, "search.brave.com"@, 5);
    }
    if has_infix(h, "tiles.search.brave.com"@) {
        assert("tiles.search.brave.com"@.subrange(6, 22) =~= "search.brave.com"@);
        lemma_infix_within(h, "tiles.search.brave.com"@, "search.brave.com"@, 6);
    }
}

/// A link is a result when its trimmed `href` is a plain `http://` or
/// `https://` address outside Brave search, it has a title, and its host is not
/// blocked: it contributes its title and its decoded address.
pub proof fn law_web_links_are_candidates(e: ElementFacts)
    requires
        e.0 is Some,
        has_prefix(trim(e.0->0), "http://"@) || has_prefix(trim(e.0->0), "https://"@),
        !has_infix(trim(e.0->0), "search.brave.com"@),
        link_title(e.1).len() > 0,
        !(url_host(percent_decoded(trim(e.0->0))) matches Some(host) && is_blocked_host(host)),
    ensures
        link_candidate(e) == Some((link_title(e.1), percent_decoded(trim(e.0->0)))),
{
    let h = trim(e.0->0);
    reveal_strlit("http://");
    reveal_strlit("https://");
    reveal_strlit("#");
    reveal_strlit("javascript:");
    reveal_strlit("mailto:");
    assert(h.subrange(0, 1)[0] == h[0]);
    if has_prefix(h, "http://"@) {
        assert(h.subrange(0, 7)[0] == h[0]);
    } else {
        assert(h.subrange(0, 8)[0] == h[0]);
    }
    assert(h[0] == 'h');
    assert(!has_prefix(h, "#"@));
    if has_prefix(h, "javascript:"@) {
        assert(h.subrange(0, 11)[0] == h[0]);
    }
    if has_prefix(h, "mailto:"@) {
        assert(h.subrange(0, 7)[0] == h[0]);
    }
    lemma_brave_hosts(h);
    assert(!skipped_href(h));
}

/// Only such links are results: a link that contributes a candidate has an
/// `href` whose trimmed form is an `http://` or `https://` address outside
/// Brave search, a non-empty title, a host that is not blocked, and the
/// candidate is that title with the decoded address.
pub proof fn law_candidates_are_web_links(e: ElementFacts)
    requires
        link_candidate(e) is Some,
    ensures
        e.0 is Some,
        has_prefix(trim(e.0->0), "http://"@) || has_prefix(trim(e.0->0), "https://"@),
        !has_infix(trim(e.0->0), "search.brave.com"@),
        link_title(e.1).len() > 0,
        !(url_host(percent_decoded(trim(e.0->0))) matches Some(host) && is_blocked_host(host)),
        link_candidate(e) == Some((link_title(e.1), percent_decoded(trim(e.0->0)))),
{
}

/// Nothing is lost below the limit: while fewer than `limit` links are chosen,
/// the url of every element's candidate is among them.
pub proof fn law_chosen_links_complete(elements: Seq<ElementFacts>, limit: nat)
    ensures
        chosen_links(elements, limit).len() < limit ==> forall|k: int|
            0 <= k < elements.len() ==> (#[trigger] link_candidate(elements[k]) matches Some(link)
                ==> has_url(chosen_links(elements, limit), link.1)),
    decreases elements.len(),
{
    if elements.len() > 0 {
        let init = elements.drop_last();
        law_chosen_links_complete(init, limit);
        let before = chosen_links(init, limit);
        let now = chosen_links(elements, limit);
        if now.len() < limit {
            assert(before.len() < limit);
            assert forall|k: int|
                0 <= k < elements.len() implies (#[trigger] link_candidate(elements[k]) matches Some(
                    link,
                ) ==> has_url(now, link.1)) by {
                if let Some(link) = link_candidate(elements[k]) {
                let url = link.1;
                if k < init.len() {
                    assert(init[k] == elements[k]);
                    assert(has_url(before, url));
                    let m: int = choose|m: int| 0 <= m < before.len() && before[m].1 == url;
                    assert(now[m] == before[m]);
                } else {
                    if !has_url(before, url) {
                        assert(now[before.len() as int].1 == url);
                    } else {
                        let m: int = choose|m: int| 0 <= m < before.len() && before[m].1 == url;
                        assert(now[m] == before[m]);
                    }
                }
                }
            }
        }
    }
}

/// The view of a list of `(title, url)` pairs.
pub open spec fn links_view(links: Seq<(String, String)>) -> Seq<(Seq<char>, Seq<char>)> {
    links.map_values(|l: (String, String)| (l.0@, l.1@))
}

/// Once `limit` links are chosen, later elements change nothing.
proof fn lemma_chosen_saturated(elements: Seq<ElementFacts>, i: int, j: int, limit: nat)
    requires
        0 <= i <= j <= elements.len(),
        chosen_links(elements.take(i), limit).len() >= limit,
    ensures
        chosen_links(elements.take(j), limit) == chosen_links(elements.take(i), limit),
    decreases j - i,
{
    if j > i {
        lemma_chosen_saturated(elements, i, j - 1, limit);
        assert(elements.take(j).drop_last() =~= elements.take(j - 1));
    }
}

/// Whether `url` is the url of one of `links`.
fn links_have_url(links: &Vec<(String, String)>, url: &String) -> (r: bool)
    ensures
        r == has_url(links_view(links@), url@),
{
    let mut k: usize = 0;
    while k < links.len()
        invariant
            k <= links.len(),
            forall|m: int| 0 <= m < k ==> links@[m].1@ != url@,
        decreases links.len() - k,
    {
        if links[k].1 == *url {
            assert(links_view(links@)[k as int].1 == url@);
            return true;
        }
        k = k + 1;
    }
    false
}

/// Whether `host` ends with one of the blocked hosts.
fn is_blocked(host: &Vec<char>) -> (r: bool)
    ensures
        r == is_blocked_host(host@),
{
    let blocked = vec![
        "youtube.com",
        "youtu.be",
        "twitter.com",
        "facebook.com",
        "instagram.com",
        "linkedin.com",
        "amazon.com",
        "spotify.com",
        "apple.com",
        "wikipedia.org",
    ];
    assert(blocked@.map_values(|s: &str| s@) =~= blocked_hosts());
    let mut k: usize = 0;
    while k < blocked.len()
        invariant
            k <= blocked.len(),
            blocked@.map_values(|s: &str| s@) == blocked_hosts(),
            forall|m: int| 0 <= m < k ==> !has_suffix(host@, #[trigger] blocked_hosts()[m]),
        decreases blocked.len() - k,
    {
        let b = chars_of(blocked[k]);
        assert(b@ == blocked_hosts()[k as int]);
        if ends_with(host, &b) {
            return true;
        }
        k = k + 1;
    }
    false
}

/// Whether a trimmed `href` is skipped.
fn is_skipped_href(h: &Vec<char>) -> (r: bool)
    ensures
        r == skipped_href(h@),
{
    if h.len() == 0 {
        return true;
    }
    if starts_with(h, &chars_of("#")) || starts_with(h, &chars_of("javascript:")) || starts_with(
        h,
        &chars_of("mailto:"),
    ) {
        return true;
    }
    if !(starts_with(h, &chars_of("http://")) || starts_with(h, &chars_of("https://"))) {
        return true;
    }
    contains(h, &chars_of("search.brave.com")) || contains(h, &chars_of("cdn.search.brave.com"))
        || contains(h, &chars_of("imgs.search.brave.com")) || contains(
        h,
        &chars_of("tiles.search.brave.com"),
    )
}

/// The characters of each text piece.
fn pieces_chars(texts: &Vec<String>) -> (r: Vec<Vec<char>>)
    ensures
        r@.map_values(|p: Vec<char>| p@) == texts@.map_values(|t: String| t@),
{
    let mut r: Vec<Vec<char>> = Vec::new();
    let mut k: usize = 0;
    while k < texts.len()
        invariant
            k <= texts.len(),
            r@.len() == k,
            forall|m: int| 0 <= m < k ==> #[trigger] r@[m]@ == texts@[m]@,
        decreases texts.len() - k,
    {
        r.push(chars_of(texts[k].as_str()));
        k = k + 1;
    }
    assert(r@.map_values(|p: Vec<char>| p@) =~= texts@.map_values(|t: String| t@));
    r
}

/// The title of a link whose text pieces are `texts`.
fn title_of(texts: &Vec<String>) -> (r: Vec<char>)
    ensures
        r@ == link_title(texts@.map_values(|t: String| t@)),
{
    let pieces = pieces_chars(texts);
    let space = vec![' '];
    assert(space@ =~= seq![' ']);
    let joined = join_chars(&pieces, &space);
    let flat = replace_chars(&joined, '\n', ' ');
    trim_chars(&flat)
}

/// The candidate link of one element.
fn candidate_of(e: &HtmlElement) -> (r: Option<(String, String)>)
    ensures
        match r {
            Some(l) => link_candidate(element_facts(*e)) == Some((l.0@, l.1@)),
            None => link_candidate(element_facts(*e)) is None,
        },
{
    match &e.href {
        None => None,
        Some(raw) => {
            let h = trim_chars(&chars_of(raw.as_str()));
            if is_skipped_href(&h) {
                return None;
            }
            let title = title_of(&e.texts);
            if title.len() == 0 {
                return None;
            }
            let href = string_of(h.as_slice());
            let decoded = percent_decode(href.as_str());
            let blocked = match host_of(decoded.as_str()) {
                Some(host) => is_blocked(&chars_of(host.as_str())),
                None => false,
            };
            if blocked {
                None
            } else {
                Some((string_of(title.as_slice()), decoded))
            }
        },
    }
}

/// The result links among `elements` (the anchors of a search page), at most
/// `limit` of them, without repeated urls.
pub fn choose_links(elements: &Vec<HtmlElement>, limit: usize) -> (r: Vec<(String, String)>)
    ensures
        links_view(r@) == chosen_links(elements_facts(elements@), limit as nat),
{
    let ghost facts = elements_facts(elements@);
    let mut links: Vec<(String, String)> = Vec::new();
    let mut i: usize = 0;
    while i < elements.len()
        invariant
            i <= elements.len(),
            facts == elements_facts(elements@),
            links_view(links@) == chosen_links(facts.take(i as int), limit as nat),
        decreases elements.len() - i,
    {
        if links.len() >= limit {
            proof {
                lemma_chosen_saturated(facts, i as int, facts.len() as int, limit as nat);
                assert(facts.take(facts.len() as int) =~= facts);
            }
            return links;
        }
        assert(facts.take(i + 1).drop_last() =~= facts.take(i as int));
        assert(facts.take(i + 1).last() == element_facts(elements@[i as int]));
        match candidate_of(&elements[i]) {
            Some(link) => {
                if !links_have_url(&links, &link.1) {
                    let ghost before = links@;
                    links.push(link);
                    assert(links_view(links@) =~= links_view(before).push((link.0@, link.1@)));
                }
            },
            None => {},
        }
        i = i + 1;
    }
    assert(facts.take(elements.len() as int) =~= facts);
    links
}

/// The result links of a Brave search page `body`: its anchors, chosen as
/// [`choose_links`] does, at most `limit` of them.
pub fn parse_brave_results(body: &str, limit: usize) -> (r: Vec<(String, String)>)
    ensures
        links_view(r@) == chosen_links(html_select(body@, "a"@), limit as nat),
{
    let anchors = select(body, "a");
    choose_links(&anchors, limit)
}

// ---------------------------------------------------------------------------
// Article pages as Markdown
// ---------------------------------------------------------------------------

/// The selector list of a page's title.
pub open spec fn title_selector() -> Seq<char> {
    "h1#firstHeading,h1,header h1"@
}

/// The selector list of a page's subtitle.
pub open spec fn subtitle_selector() -> Seq<char> {
    "h2,header h2,.subtitle,.lead"@
}

/// The paragraph selectors, most specific first.
pub open spec fn paragraph_selectors() -> Seq<Seq<char>> {
    seq!["article p"@, "#mw-content-text p"@, "main p"@, "div[class*='content'] p"@, "p"@]
}

/// The text of an element: its text pieces joined by spaces, trimmed.
pub open spec fn element_text(e: ElementFacts) -> Seq<char> {
    trim(join(e.1, seq![' ']))
}

/// The text of the first element, or nothing.
pub open spec fn first_text(es: Seq<ElementFacts>) -> Seq<char> {
    if es.len() > 0 {
        element_text(es[0])
    } else {
        Seq::empty()
    }
}

/// The subtitle: the first element's text, unless it reads "contents" in any
/// ASCII case (a table of contents).
pub open spec fn subtitle_text(es: Seq<ElementFacts>) -> Seq<char> {
    if crate::text::eq_ignore_ascii_case(first_text(es), "contents"@) {
        Seq::empty()
    } else {
        first_text(es)
    }
}

/// The number of bytes of the UTF-8 encoding of `s`.
pub open spec fn utf8_len(s: Seq<char>) -> nat {
    vstd::utf8::encode_utf8(s).len()
}

/// The paragraphs kept from the elements `es` of one selector: the non-empty
/// texts longer than 30 bytes, and the first non-empty text whatever its length.
pub open spec fn kept_paragraphs(es: Seq<ElementFacts>) -> Seq<Seq<char>>
    decreases es.len(),
{
    if es.len() == 0 {
        Seq::empty()
    } else {
        let before = kept_paragraphs(es.drop_last());
        let t = element_text(es.last());
        if t.len() > 0 && (utf8_len(t) > 30 || before.len() == 0) {
            before.push(t)
        } else {
            before
        }
    }
}

/// A text that is kept as a paragraph on its length: not empty and longer
/// than 30 UTF-8 bytes.
pub open spec fn is_long_text(t: Seq<char>) -> bool {
    t.len() > 0 && utf8_len(t) > 30
}

/// Every long text of the elements is kept, in document order and without
/// any cap; besides them at most one other paragraph is kept, a non-empty
/// one, first.
pub proof fn law_long_paragraphs_kept(es: Seq<ElementFacts>)
    ensures
        kept_paragraphs(es).filter(|t: Seq<char>| is_long_text(t)) == es.map_values(
            |e: ElementFacts| element_text(e),
        ).filter(|t: Seq<char>| is_long_text(t)),
        forall|i: int| 0 <= i < kept_paragraphs(es).len() ==> #[trigger] kept_paragraphs(es)[i].len() > 0,
        forall|i: int| 0 < i < kept_paragraphs(es).len() ==> is_long_text(#[trigger] kept_paragraphs(es)[i]),
    decreases es.len(),
{
    broadcast use Seq::lemma_filter_push;

    let long = |t: Seq<char>| is_long_text(t);
    let texts = es.map_values(|e: ElementFacts| element_text(e));
    if es.len() == 0 {
        assert(kept_paragraphs(es) =~= Seq::<Seq<char>>::empty());
        assert(texts =~= Seq::<Seq<char>>::empty());
        reveal(Seq::filter);
    } else {
        let init = es.drop_last();
        law_long_paragraphs_kept(init);
        let before = kept_paragraphs(init);
        let t = element_text(es.last());
        let init_texts = init.map_values(|e: ElementFacts| element_text(e));
        assert(texts =~= init_texts.push(t));
        assert(texts.filter(long) == if long(t) { init_texts.filter(long).push(t) } else {
            init_texts.filter(long)
        });
        if t.len() > 0 && (utf8_len(t) > 30 || before.len() == 0) {
            assert(kept_paragraphs(es) == before.push(t));
            assert(before.push(t).filter(long) == if long(t) { before.filter(long).push(t) } else {
                before.filter(long)
            });
            if !long(t) {
                assert(before =~= Seq::<Seq<char>>::empty());
            }
        }
    }
}

/// The paragraphs of the first selector that keeps any, in selector order.
pub open spec fn chosen_paragraphs(per_selector: Seq<Seq<ElementFacts>>) -> Seq<Seq<char>>
    decreases per_selector.len(),
{
    if per_selector.len() == 0 {
        Seq::empty()
    } else if kept_paragraphs(per_selector[0]).len() > 0 {
        kept_paragraphs(per_selector[0])
    } else {
        chosen_paragraphs(per_selector.drop_first())
    }
}

/// `# title` and a blank line, when there is a title.
pub open spec fn heading(title: Seq<char>) -> Seq<char> {
    if title.len() > 0 {
        seq!['#', ' '] + title + seq!['\n', '\n']
    } else {
        Seq::empty()
    }
}

/// `## subtitle` and a blank line, when there is a subtitle.
pub open spec fn subheading(subtitle: Seq<char>) -> Seq<char> {
    if subtitle.len() > 0 {
        seq!['#', '#', ' '] + subtitle + seq!['\n', '\n']
    } else {
        Seq::empty()
    }
}

/// Each paragraph followed by a blank line.
pub open spec fn paragraphs_block(ps: Seq<Seq<char>>) -> Seq<char> {
    crate::text::concat(ps.map_values(|p: Seq<char>| p + seq!['\n', '\n']))
}

/// The Markdown of an article: heading, subheading and paragraphs, trimmed.
pub open spec fn page_markdown(title: Seq<char>, subtitle: Seq<char>, ps: Seq<Seq<char>>) -> Seq<char> {
    trim(heading(title) + subheading(subtitle) + paragraphs_block(ps))
}

/// The Markdown that [`extract_page_text`] makes of the HTML page `body`.
pub open spec fn page_text_of(body: Seq<char>) -> Seq<char> {
    page_markdown(
        first_text(html_select(body, title_selector())),
        subtitle_text(html_select(body, subtitle_selector())),
        chosen_paragraphs(paragraph_selectors().map_values(|sel: Seq<char>| html_select(body, sel))),
    )
}

/// The facts of the elements matched by each selector.
pub open spec fn nested_facts(per_selector: Seq<Vec<HtmlElement>>) -> Seq<Seq<ElementFacts>> {
    per_selector.map_values(|v: Vec<HtmlElement>| elements_facts(v@))
}

/// Whether the UTF-8 encoding of `t` takes more than `n` bytes.
fn utf8_longer_than(t: &Vec<char>, n: usize) -> (r: bool)
    requires
        n < usize::MAX - 4,
    ensures
        r == (utf8_len(t@) > n),
{
    let mut i: usize = t.len();
    let mut acc: usize = 0;
    assert(t@.skip(t.len() as int) =~= Seq::<char>::empty());
    while i > 0
        invariant
            i <= t.len(),
            n < usize::MAX - 4,
            acc <= n + 1,
            utf8_len(t@.skip(i as int)) > n ==> acc == n + 1,
            utf8_len(t@.skip(i as int)) <= n ==> acc == utf8_len(t@.skip(i as int)),
        decreases i,
    {
        let c: u32 = t[i - 1] as u32;
        let w: usize = if c <= 0x7F {
            1
        } else if c <= 0x7FF {
            2
        } else if c <= 0xFFFF {
            3
        } else {
            4
        };
        assert(t@.skip(i - 1).drop_first() =~= t@.skip(i as int));
        assert(t@.skip(i - 1)[0] == t@[i - 1]);
        proof {
            vstd::utf8::char_is_scalar(t@[i - 1]);
        }
        assert(vstd::utf8::encode_scalar(c).len() == w);
        acc = acc + w;
        if acc > n {
            acc = n + 1;
        }
        i = i - 1;
    }
    assert(t@.skip(0) =~= t@);
    acc > n
}

/// The text of one element.
fn text_of(e: &HtmlElement) -> (r: Vec<char>)
    ensures
        r@ == element_text(element_facts(*e)),
{
    let pieces = pieces_chars(&e.texts);
    let space = vec![' '];
    assert(space@ =~= seq![' ']);
    let joined = join_chars(&pieces, &space);
    trim_chars(&joined)
}

/// The text of the first element, or nothing.
fn first_text_of(es: &Vec<HtmlElement>) -> (r: Vec<char>)
    ensures
        r@ == first_text(elements_facts(es@)),
{
    if es.len() > 0 {
        text_of(&es[0])
    } else {
        Vec::new()
    }
}

/// The paragraphs kept from the elements of one selector.
fn kept_paragraphs_of(es: &Vec<HtmlElement>) -> (r: Vec<Vec<char>>)
    ensures
        r@.map_values(|p: Vec<char>| p@) == kept_paragraphs(elements_facts(es@)),
{
    let ghost facts = elements_facts(es@);
    let mut kept: Vec<Vec<char>> = Vec::new();
    let mut i: usize = 0;
    while i < es.len()
        invariant
            i <= es.len(),
            facts == elements_facts(es@),
            kept@.map_values(|p: Vec<char>| p@) == kept_paragraphs(facts.take(i as int)),
        decreases es.len() - i,
    {
        assert(facts.take(i + 1).drop_last() =~= facts.take(i as int));
        assert(facts.take(i + 1).last() == element_facts(es@[i as int]));
        let t = text_of(&es[i]);
        let ghost prior = kept@.map_values(|p: Vec<char>| p@);
        assert(prior.len() == kept@.len());
        if t.len() > 0 {
            if utf8_longer_than(&t, 30) || kept.len() == 0 {
                let ghost before = kept@;
                kept.push(t);
                assert(kept@.map_values(|p: Vec<char>| p@) =~= before.map_values(
                    |p: Vec<char>| p@,
                ).push(t@));
            }
        }
        i = i + 1;
    }
    assert(facts.take(es.len() as int) =~= facts);
    kept
}

/// The paragraphs of the first selector that keeps any.
fn chosen_paragraphs_of(per_selector: &Vec<Vec<HtmlElement>>) -> (r: Vec<Vec<char>>)
    ensures
        r@.map_values(|p: Vec<char>| p@) == chosen_paragraphs(nested_facts(per_selector@)),
{
    let ghost all = nested_facts(per_selector@);
    assert(all.skip(0) =~= all);
    let mut i: usize = 0;
    while i < per_selector.len()
        invariant
            i <= per_selector.len(),
            all == nested_facts(per_selector@),
            chosen_paragraphs(all) == chosen_paragraphs(all.skip(i as int)),
        decreases per_selector.len() - i,
    {
        let kept = kept_paragraphs_of(&per_selector[i]);
        assert(all.skip(i as int)[0] == elements_facts(per_selector@[i as int]@));
        if kept.len() > 0 {
            return kept;
        }
        assert(all.skip(i as int).drop_first() =~= all.skip(i + 1));
        i = i + 1;
    }
    let r: Vec<Vec<char>> = Vec::new();
    assert(r@.map_values(|p: Vec<char>| p@) =~= Seq::<Seq<char>>::empty());
    r
}

/// Appends `c` twice.
fn push_blank_line(out: &mut Vec<char>)
    ensures
        final(out)@ == old(out)@ + seq!['\n', '\n'],
{
    out.push('\n');
    out.push('\n');
    assert(out@ =~= old(out)@ + seq!['\n', '\n']);
}

/// The Markdown of an article from the elements its title, subtitle and
/// paragraph selectors matched (the latter in selector order).
pub fn page_text(
    title: &Vec<HtmlElement>,
    subtitle: &Vec<HtmlElement>,
    paragraphs: &Vec<Vec<HtmlElement>>,
) -> (r: String)
    ensures
        r@ == page_markdown(
            first_text(elements_facts(title@)),
            subtitle_text(elements_facts(subtitle@)),
            chosen_paragraphs(nested_facts(paragraphs@)),
        ),
{
    let t = first_text_of(title);
    let mut sub = first_text_of(subtitle);
    let contents = chars_of("contents");
    if crate::text::equal_ignoring_ascii_case(&sub, &contents) {
        sub = Vec::new();
    }
    let ps = chosen_paragraphs_of(paragraphs);
    let mut out: Vec<char> = Vec::new();
    if t.len() > 0 {
        out.push('#');
        out.push(' ');
        crate::text::push_all(&mut out, &t);
        push_blank_line(&mut out);
    }
    assert(out@ =~= heading(t@));
    let ghost after_heading = out@;
    if sub.len() > 0 {
        out.push('#');
        out.push('#');
        out.push(' ');
        crate::text::push_all(&mut out, &sub);
        push_blank_line(&mut out);
    }
    assert(out@ =~= heading(t@) + subheading(sub@));
    let ghost base = out@;
    let ghost pv = ps@.map_values(|p: Vec<char>| p@);
    let mut k: usize = 0;
    while k < ps.len()
        invariant
            k <= ps.len(),
            pv == ps@.map_values(|p: Vec<char>| p@),
            out@ == base + paragraphs_block(pv.take(k as int)),
        decreases ps.len() - k,
    {
        crate::text::push_all(&mut out, &ps[k]);
        push_blank_line(&mut out);
        assert(pv.take(k + 1).map_values(|p: Seq<char>| p + seq!['\n', '\n']).drop_last()
            =~= pv.take(k as int).map_values(|p: Seq<char>| p + seq!['\n', '\n']));
        assert(out@ =~= base + paragraphs_block(pv.take(k + 1)));
        k = k + 1;
    }
    assert(pv.take(ps.len() as int) =~= pv);
    let trimmed = trim_chars(&out);
    string_of(trimmed.as_slice())
}

/// Turns an article page into Markdown: its title as `# ` heading, its
/// subtitle as `## ` heading, then its main paragraphs, blank lines between.
pub fn extract_page_text(body: &str) -> (r: String)
    ensures
        r@ == page_text_of(body@),
{
    let title = select(body, "h1#firstHeading,h1,header h1");
    let subtitle = select(body, "h2,header h2,.subtitle,.lead");
    let mut paragraphs: Vec<Vec<HtmlElement>> = Vec::new();
    paragraphs.push(select(body, "article p"));
    paragraphs.push(select(body, "#mw-content-text p"));
    paragraphs.push(select(body, "main p"));
    paragraphs.push(select(body, "div[class*='content'] p"));
    paragraphs.push(select(body, "p"));
    assert(nested_facts(paragraphs@) =~= paragraph_selectors().map_values(
        |sel: Seq<char>| html_select(body@, sel),
    ));
    page_text(&title, &subtitle, &paragraphs)
}

// ---------------------------------------------------------------------------
// The query and the search url
// ---------------------------------------------------------------------------

/// The query of a request: the trimmed data when it is not blank, else the
/// trimmed first argument when it is not blank.
pub open spec fn query_of(data: Option<String>, args: Seq<String>) -> Option<Seq<char>> {
    if data matches Some(d) && trim(d@).len() > 0 {
        Some(trim(data->0@))
    } else if args.len() > 0 && trim(args[0]@).len() > 0 {
        Some(trim(args[0]@))
    } else {
        None
    }
}

/// The message of a request without a query.
pub open spec fn missing_query_message() -> Seq<char> {
    "Missing query for web.search intent"@
}

/// The Brave search url of `query`, spaces written as `+`.
pub open spec fn search_url_text(query: Seq<char>) -> Seq<char> {
    "https://search.brave.com/search?q="@ + replace_char(query, ' ', '+')
}

/// The query of `input`, or the message saying there is none.
pub fn extract_query(input: IntentInput) -> (r: Result<String, String>)
    ensures
        match query_of(input.data, input.args@) {
            Some(q) => r matches Ok(s) && s@ == q,
            None => r matches Err(m) && m@ == missing_query_message(),
        },
{
    if let Some(data) = &input.data {
        let trimmed = trim_str(data.as_str());
        if !trimmed.as_str().is_empty() {
            return Ok(trimmed);
        }
    }
    if input.args.len() > 0 {
        let trimmed = trim_str(input.args[0].as_str());
        if !trimmed.as_str().is_empty() {
            return Ok(trimmed);
        }
    }
    Err("Missing query for web.search intent".to_owned())
}

/// The Brave search url of `query`.
pub fn search_url(query: &str) -> (r: String)
    ensures
        r@ == search_url_text(query@),
{
    let plus = replace_chars(&chars_of(query), ' ', '+');
    let tail = string_of(plus.as_slice());
    let mut url = String::new();
    url.append("https://search.brave.com/search?q=");
    url.append(tail.as_str());
    url
}

// ---------------------------------------------------------------------------
// The Markdown of the search results
// ---------------------------------------------------------------------------

/// The Markdown of the `i`-th result (counted from 0): its number and link,
/// its content when there is some, and a rule.
pub open spec fn entry_markdown(i: nat, title: Seq<char>, url: Seq<char>, content: Seq<char>) -> Seq<
    char,
> {
    decimal(i + 1) + seq!['.', ' ', '['] + title + seq![']', '('] + url + seq![')', '\n', '\n'] + (
    if content.len() > 0 {
        content + seq!['\n', '\n']
    } else {
        Seq::empty()
    }) + seq!['-', '-', '-', '\n', '\n']
}

/// The entries of the first `n` results.
pub open spec fn entries_markdown(items: Seq<(Seq<char>, Seq<char>, Seq<char>)>, n: nat) -> Seq<char>
    decreases n,
{
    if n == 0 || n > items.len() {
        Seq::empty()
    } else {
        entries_markdown(items, (n - 1) as nat) + entry_markdown(
            (n - 1) as nat,
            items[n - 1].0,
            items[n - 1].1,
            items[n - 1].2,
        )
    }
}

/// The Markdown of all `(title, url, content)` results, trimmed.
pub open spec fn results_markdown(items: Seq<(Seq<char>, Seq<char>, Seq<char>)>) -> Seq<char> {
    trim(entries_markdown(items, items.len()))
}

/// Appends the characters of `s`.
fn push_str(out: &mut Vec<char>, s: &str)
    ensures
        final(out)@ == old(out)@ + s@,
{
    crate::text::push_all(out, &chars_of(s));
}

/// The view of `(title, url, content)` triples.
pub open spec fn triples_view(items: Seq<(String, String, String)>) -> Seq<
    (Seq<char>, Seq<char>, Seq<char>),
> {
    items.map_values(|t: (String, String, String)| (t.0@, t.1@, t.2@))
}

/// The Markdown listing of the results `items`, numbered from 1.
pub fn render_markdown(items: &Vec<(String, String, String)>) -> (r: String)
    ensures
        r@ == results_markdown(triples_view(items@)),
{
    proof {
        reveal_strlit(". [");
        reveal_strlit("](");
        reveal_strlit(")");
        reveal_strlit("---");
    }
    let ghost tv = triples_view(items@);
    let mut out: Vec<char> = Vec::new();
    let mut i: usize = 0;
    while i < items.len()
        invariant
            i <= items.len(),
            tv == triples_view(items@),
            out@ == entries_markdown(tv, i as nat),
            ". ["@ =~= seq!['.', ' ', '['],
            "]("@ =~= seq![']', '('],
            ")"@ =~= seq![')'],
            "---"@ =~= seq!['-', '-', '-'],
        decreases items.len() - i,
    {
        let ghost before = out@;
        let item = &items[i];
        let number = decimal_chars((i + 1) as u64);
        crate::text::push_all(&mut out, &number);
        push_str(&mut out, ". [");
        push_str(&mut out, item.0.as_str());
        push_str(&mut out, "](");
        push_str(&mut out, item.1.as_str());
        push_str(&mut out, ")");
        push_blank_line(&mut out);
        let ghost middle = out@;
        if !item.2.as_str().is_empty() {
            push_str(&mut out, item.2.as_str());
            push_blank_line(&mut out);
        }
        assert(out@ =~= middle + (if tv[i as int].2.len() > 0 {
            tv[i as int].2 + seq!['\n', '\n']
        } else {
            Seq::empty()
        }));
        push_str(&mut out, "---");
        push_blank_line(&mut out);
        assert(out@ =~= before + entry_markdown(
            i as nat,
            tv[i as int].0,
            tv[i as int].1,
            tv[i as int].2,
        ));
        i = i + 1;
    }
    let trimmed = trim_chars(&out);
    string_of(trimmed.as_slice())
}

// ---------------------------------------------------------------------------
// The steps of the intent
// ---------------------------------------------------------------------------

/// Where a `web.search` request stands between fetches.
pub enum SearchStage {
    /// Nothing done yet.
    Start,
    /// The search page was asked for.
    AwaitingResults,
    /// The article pages of these `(title, url)` links were asked for.
    AwaitingArticles { links: Vec<(String, String)> },
    /// The answer was given.
    Finished,
}

/// What happened since the last step.
pub enum SearchEvent {
    /// The request arrived.
    Begin(IntentInput),
    /// No async runtime could be created, for the reason given.
    RuntimeUnavailable(String),
    /// The pages asked for came back, in the order asked, or the first error.
    Fetched(Result<Vec<String>, String>),
}

/// What to do next.
pub enum SearchAction {
    /// Fetch these urls (all of them, concurrently) and report them as `Fetched`.
    Fetch(Vec<String>),
    /// Answer the request with this result.
    Answer(IntentResult),
}

/// `r` is the error result with message `message`.
pub open spec fn failed_with(r: IntentResult, message: Seq<char>) -> bool {
    &&& r.status == ExecutionStatus::Error
    &&& r.result is None
    &&& r.error matches Some(m) && m@ == message
}

/// `r` is the successful result carrying `text` under `"data"`.
pub open spec fn succeeded_with(r: IntentResult, text: Seq<char>) -> bool {
    &&& r.status == ExecutionStatus::Success
    &&& r.error is None
    &&& r.result matches Some(v) && model(v) == Json::Object(seq![("data"@, Json::Str(text))])
}

/// The events a stage waits for.
pub open spec fn event_expected(stage: SearchStage, event: SearchEvent) -> bool {
    match stage {
        SearchStage::Start => event is Begin,
        SearchStage::AwaitingResults => match event {
            SearchEvent::RuntimeUnavailable(_) => true,
            SearchEvent::Fetched(Ok(bodies)) => bodies@.len() == 1,
            SearchEvent::Fetched(Err(_)) => true,
            _ => false,
        },
        SearchStage::AwaitingArticles { links } => match event {
            SearchEvent::Fetched(Ok(bodies)) => bodies@.len() == links@.len(),
            SearchEvent::Fetched(Err(_)) => true,
            _ => false,
        },
        SearchStage::Finished => false,
    }
}

/// The views of a list of strings.
pub open spec fn strings_view(v: Seq<String>) -> Seq<Seq<char>> {
    v.map_values(|s: String| s@)
}

/// The results of the article pages `bodies` of the links `links`.
pub open spec fn article_triples(links: Seq<(Seq<char>, Seq<char>)>, bodies: Seq<Seq<char>>) -> Seq<
    (Seq<char>, Seq<char>, Seq<char>),
> {
    Seq::new(links.len(), |i: int| (links[i].0, links[i].1, page_text_of(bodies[i])))
}

/// The next stage and action after `event` at `stage`.
pub open spec fn step_outcome(
    stage: SearchStage,
    event: SearchEvent,
    next: SearchStage,
    action: SearchAction,
) -> bool {
    match event {
        SearchEvent::Begin(input) => match query_of(input.data, input.args@) {
            None => {
                &&& next is Finished
                &&& action matches SearchAction::Answer(r) && failed_with(r, missing_query_message())
            },
            Some(q) => {
                &&& next is AwaitingResults
                &&& action matches SearchAction::Fetch(urls) && strings_view(urls@) == seq![
                    search_url_text(q),
                ]
            },
        },
        SearchEvent::RuntimeUnavailable(e) => {
            &&& next is Finished
            &&& action matches SearchAction::Answer(r) && failed_with(
                r,
                "Failed to create async runtime: "@ + e@,
            )
        },
        SearchEvent::Fetched(Err(e)) => {
            &&& next is Finished
            &&& action matches SearchAction::Answer(r) && failed_with(
                r,
                "Failed to execute web.search: "@ + e@,
            )
        },
        SearchEvent::Fetched(Ok(bodies)) => match stage {
            SearchStage::AwaitingArticles { links } => {
                &&& next is Finished
                &&& action matches SearchAction::Answer(r) && succeeded_with(
                    r,
                    results_markdown(article_triples(links_view(links@), strings_view(bodies@))),
                )
            },
            _ => {
                let links = chosen_links(html_select(bodies@[0]@, "a"@), RESULTS_LIMIT as nat);
                &&& next matches SearchStage::AwaitingArticles { links: l } && links_view(l@)
                    == links
                &&& action matches SearchAction::Fetch(urls) && strings_view(urls@)
                    == links.map_values(|l: (Seq<char>, Seq<char>)| l.1)
            },
        },
    }
}

/// A search follows at most [`RESULTS_LIMIT`] results: when the search page
/// comes back, the links kept for the next stage and the article pages asked
/// for are at most that many, one page per link.
pub proof fn law_search_follows_at_most_limit(
    bodies: Vec<String>,
    next: SearchStage,
    action: SearchAction,
)
    requires
        step_outcome(SearchStage::AwaitingResults, SearchEvent::Fetched(Ok(bodies)), next, action),
    ensures
        next matches SearchStage::AwaitingArticles { links } && links@.len() <= RESULTS_LIMIT,
        action matches SearchAction::Fetch(urls) && urls@.len() <= RESULTS_LIMIT,
        next matches SearchStage::AwaitingArticles { links } && (action matches SearchAction::Fetch(
            urls,
        ) && urls@.len() == links@.len()),
{
    let chosen = chosen_links(html_select(bodies@[0]@, "a"@), RESULTS_LIMIT as nat);
    law_chosen_links(html_select(bodies@[0]@, "a"@), RESULTS_LIMIT as nat);
    if let SearchAction::Fetch(urls) = action {
        assert(strings_view(urls@).len() == chosen.len());
        assert(strings_view(urls@).len() == urls@.len());
    }
    if let SearchStage::AwaitingArticles { links } = next {
        assert(links_view(links@).len() == links@.len());
    }
}

/// The error result with message `prefix` followed by `detail`.
fn failure_with_prefix(prefix: &str, detail: &str) -> (r: IntentResult)
    ensures
        failed_with(r, prefix@ + detail@),
        r.well_formed(),
{
    let mut message = String::new();
    message.append(prefix);
    message.append(detail);
    IntentResult::failure(message)
}

/// The successful result carrying `text` under `"data"`.
fn data_result(text: &str) -> (r: IntentResult)
    ensures
        succeeded_with(r, text@),
        r.well_formed(),
{
    let entries = vec![("data".to_owned(), string_value(text))];
    assert(entries@.map_values(|e: (String, JsonValue)| (e.0@, model(e.1))) =~= seq![
        ("data"@, Json::Str(text@)),
    ]);
    IntentResult::success(object(entries))
}

/// The urls of `links`, in order.
fn urls_of(links: &Vec<(String, String)>) -> (r: Vec<String>)
    ensures
        strings_view(r@) == links_view(links@).map_values(|l: (Seq<char>, Seq<char>)| l.1),
{
    let mut urls: Vec<String> = Vec::new();
    let mut k: usize = 0;
    while k < links.len()
        invariant
            k <= links.len(),
            urls@.len() == k,
            forall|m: int| 0 <= m < k ==> #[trigger] urls@[m]@ == links@[m].1@,
        decreases links.len() - k,
    {
        urls.push(links[k].1.clone());
        k = k + 1;
    }
    assert(strings_view(urls@) =~= links_view(links@).map_values(
        |l: (Seq<char>, Seq<char>)| l.1,
    ));
    urls
}

/// The results of the article pages `bodies` of the links `links`.
fn articles_of(links: &Vec<(String, String)>, bodies: &Vec<String>) -> (r: Vec<
    (String, String, String),
>)
    requires
        bodies@.len() == links@.len(),
    ensures
        triples_view(r@) == article_triples(links_view(links@), strings_view(bodies@)),
{
    let mut items: Vec<(String, String, String)> = Vec::new();
    let mut k: usize = 0;
    while k < links.len()
        invariant
            k <= links.len(),
            bodies@.len() == links@.len(),
            items@.len() == k,
            forall|m: int|
                0 <= m < k ==> #[trigger] triples_view(items@)[m] == (
                    links@[m].0@,
                    links@[m].1@,
                    page_text_of(bodies@[m]@),
                ),
        decreases links.len() - k,
    {
        let content = extract_page_text(bodies[k].as_str());
        let ghost before = items@;
        items.push((links[k].0.clone(), links[k].1.clone(), content));
        assert forall|m: int| 0 <= m < k + 1 implies #[trigger] triples_view(items@)[m] == (
            links@[m].0@,
            links@[m].1@,
            page_text_of(bodies@[m]@),
        ) by {
            if m < k {
                assert(items@[m] == before[m]);
                assert(triples_view(before)[m] == triples_view(items@)[m]);
            }
        }
        k = k + 1;
    }
    assert(triples_view(items@) =~= article_triples(links_view(links@), strings_view(bodies@)));
    items
}

/// The `web.search` intent: searches Brave for the query and answers a
/// Markdown digest of the result articles under `"data"`.
///
/// Fetching is left to the caller: [`Search::step`] says what to fetch next
/// and, once everything is fetched, the answer.
pub struct Search;

impl Search {
    /// `"search"`.
    pub fn name(&self) -> (r: &'static str)
        ensures
            r@ == "search"@,
    {
        "search"
    }

    /// `"web.search"`.
    pub fn path(&self) -> (r: &'static str)
        ensures
            r@ == "web.search"@,
    {
        "web.search"
    }

    /// One-line description of the intent.
    pub fn description(&self) -> (r: &'static str)
        ensures
            r@ == "Search the web using Brave and return a Markdown summary buffer."@,
    {
        "Search the web using Brave and return a Markdown summary buffer."
    }

    /// The next stage and action after `event` at `stage`.
    ///
    /// At `Start`, a request without query is answered with
    /// [`missing_query_message`]; otherwise its search page is fetched. The
    /// search page gives at most [`RESULTS_LIMIT`] links (see
    /// [`parse_brave_results`]), whose articles are fetched next; their pages,
    /// made Markdown by [`extract_page_text`], are listed by
    /// [`render_markdown`] in the answer. A failed fetch or a missing runtime
    /// ends the request with an error.
    pub fn step(stage: SearchStage, event: SearchEvent) -> (r: (SearchStage, SearchAction))
        requires
            event_expected(stage, event),
        ensures
            step_outcome(stage, event, r.0, r.1),
            r.1 matches SearchAction::Answer(res) ==> res.well_formed(),
    {
        match event {
            SearchEvent::Begin(input) => match extract_query(input) {
                Ok(query) => {
                    let url = search_url(query.as_str());
                    let urls = vec![url];
                    assert(strings_view(urls@) =~= seq![search_url_text(query@)]);
                    (SearchStage::AwaitingResults, SearchAction::Fetch(urls))
                },
                Err(message) => (
                    SearchStage::Finished,
                    SearchAction::Answer(IntentResult::failure(message)),
                ),
            },
            SearchEvent::RuntimeUnavailable(detail) => (
                SearchStage::Finished,
                SearchAction::Answer(
                    failure_with_prefix("Failed to create async runtime: ", detail.as_str()),
                ),
            ),
            SearchEvent::Fetched(Err(detail)) => (
                SearchStage::Finished,
                SearchAction::Answer(
                    failure_with_prefix("Failed to execute web.search: ", detail.as_str()),
                ),
            ),
            SearchEvent::Fetched(Ok(bodies)) => match stage {
                SearchStage::AwaitingArticles { links } => {
                    let items = articles_of(&links, &bodies);
                    let markdown = render_markdown(&items);
                    (SearchStage::Finished, SearchAction::Answer(data_result(markdown.as_str())))
                },
                _ => {
                    let links = parse_brave_results(bodies[0].as_str(), RESULTS_LIMIT);
                    let urls = urls_of(&links);
                    (SearchStage::AwaitingArticles { links }, SearchAction::Fetch(urls))
                },
            },
        }
    }
}

} // verus!
