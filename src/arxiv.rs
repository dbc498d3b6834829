//! Reading paper records out of an arXiv Atom feed, and the retry policy of
//! the feed's fetch loop.

use vstd::prelude::*;
use crate::text::{
    chars_of, string_of, occurs_at, contains_spec, contains_chars, find_from, first_from,
    lemma_first_from, is_ws, is_ws_spec, trim_spec, trim_chars, push_all, slice_chars, strs_view,
    lemma_trim_shape,
};

verus! {

/// One paper of the feed.
#[derive(Debug, Clone)]
pub struct ArxivPaper {
    pub title: String,
    pub link: String,
    pub pdf_url: Option<String>,
    pub published: Option<String>,
    pub updated: Option<String>,
    pub authors: Vec<String>,
    pub abstract_text: String,
}

/// The value of a paper record, with its texts as character sequences.
pub ghost struct PaperView {
    pub title: Seq<char>,
    pub link: Seq<char>,
    pub pdf_url: Option<Seq<char>>,
    pub published: Option<Seq<char>>,
    pub updated: Option<Seq<char>>,
    pub authors: Seq<Seq<char>>,
    pub abstract_text: Seq<char>,
}

/// The characters of an optional string.
pub open spec fn opt_chars(o: Option<String>) -> Option<Seq<char>> {
    match o {
        Some(s) => Some(s@),
        None => None,
    }
}

impl View for ArxivPaper {
    type V = PaperView;

    open spec fn view(&self) -> PaperView {
        PaperView {
            title: self.title@,
            link: self.link@,
            pdf_url: opt_chars(self.pdf_url),
            published: opt_chars(self.published),
            updated: opt_chars(self.updated),
            authors: strs_view(self.authors@),
            abstract_text: self.abstract_text@,
        }
    }
}

/// `s` up to the first occurrence of `t`, or all of `s`.
pub open spec fn upto(s: Seq<char>, t: Seq<char>) -> Seq<char> {
    match first_from(s, t, 0) {
        Some(q) => s.subrange(0, q),
        None => s,
    }
}

/// The text between the first `a` of `h` and the first `b` after it.
pub open spec fn between(h: Seq<char>, a: Seq<char>, b: Seq<char>) -> Option<Seq<char>> {
    match first_from(h, a, 0) {
        None => None,
        Some(p) => match first_from(h, b, p + a.len()) {
            None => None,
            Some(q) => Some(h.subrange(p + a.len(), q)),
        },
    }
}

/// `acc` followed by the words of `s` from position `i` on, each run of
/// whitespace between two words written as one space; `gap` says that
/// whitespace was seen since the last word character.
pub open spec fn norm_from(s: Seq<char>, i: int, acc: Seq<char>, gap: bool) -> Seq<char>
    decreases s.len() - i,
{
    if i < 0 || i >= s.len() {
        acc
    } else if is_ws_spec(s[i]) {
        norm_from(s, i + 1, acc, true)
    } else if gap && acc.len() > 0 {
        norm_from(s, i + 1, acc + seq![' ', s[i]], false)
    } else {
        norm_from(s, i + 1, acc.push(s[i]), false)
    }
}

/// The words of `s` joined by single spaces.
pub open spec fn normalize_ws_spec(s: Seq<char>) -> Seq<char> {
    norm_from(s, 0, Seq::empty(), false)
}

/// `<tag>`.
pub open spec fn open_tag(tag: Seq<char>) -> Seq<char> {
    seq!['<'] + tag + seq!['>']
}

/// `</tag>`.
pub open spec fn close_tag(tag: Seq<char>) -> Seq<char> {
    seq!['<', '/'] + tag + seq!['>']
}

/// `<tag ` (a start tag with attributes).
pub open spec fn open_attr_tag(tag: Seq<char>) -> Seq<char> {
    seq!['<'] + tag + seq![' ']
}

/// The text of the first `tag` element of `e`, trimmed and with its
/// whitespace runs made single spaces: `<tag>...</tag>` if there is one,
/// else `<tag attrs>...</tag>`.
pub open spec fn tag_text(e: Seq<char>, tag: Seq<char>) -> Option<Seq<char>> {
    match between(e, open_tag(tag), close_tag(tag)) {
        Some(v) => Some(normalize_ws_spec(trim_spec(v))),
        None => match first_from(e, open_attr_tag(tag), 0) {
            None => None,
            Some(i0) => match first_from(e, seq!['>'], i0) {
                None => None,
                Some(g) => match first_from(e, close_tag(tag), g + 1) {
                    None => None,
                    Some(j) => Some(normalize_ws_spec(trim_spec(e.subrange(g + 1, j)))),
                },
            },
        },
    }
}

fn upto_exec(s: &Vec<char>, t: &Vec<char>) -> (r: Vec<char>)
    ensures
        r@ == upto(s@, t@),
{
    match find_from(s, t, 0) {
        Some(q) => slice_chars(s, 0, q),
        None => slice_chars(s, 0, s.len()),
    }
}

fn extract_between(h: &Vec<char>, a: &Vec<char>, b: &Vec<char>) -> (r: Option<Vec<char>>)
    ensures
        r matches Some(v) ==> between(h@, a@, b@) == Some(v@),
        r is None ==> between(h@, a@, b@) is None,
{
    let p = match find_from(h, a, 0) {
        Some(p) => p,
        None => return None,
    };
    let n = h.len();
    assert(p + a@.len() <= n);
    let i = p + a.len();
    match find_from(h, b, i) {
        Some(q) => {
            proof {
                lemma_first_from(h@, b@, i as int);
            }
            Some(slice_chars(h, i, q))
        },
        None => None,
    }
}

fn normalize_ws(s: &Vec<char>) -> (r: Vec<char>)
    ensures
        r@ == normalize_ws_spec(s@),
{
    let mut acc: Vec<char> = Vec::new();
    let mut gap = false;
    let mut i: usize = 0;
    while i < s.len()
        invariant
            i <= s@.len(),
            norm_from(s@, i as int, acc@, gap) == normalize_ws_spec(s@),
        decreases s@.len() - i,
    {
        let c = s[i];
        if is_ws(c) {
            gap = true;
        } else {
            if gap && acc.len() > 0 {
                let ghost before = acc@;
                acc.push(' ');
                acc.push(c);
                assert(acc@ =~= before + seq![' ', c]);
            } else {
                acc.push(c);
            }
            gap = false;
        }
        i = i + 1;
    }
    acc
}

fn tag_of(open: char, tag: &Vec<char>, close: char) -> (r: Vec<char>)
    ensures
        r@ == seq![open] + tag@ + seq![close],
{
    let mut r: Vec<char> = Vec::new();
    r.push(open);
    push_all(&mut r, tag);
    r.push(close);
    r
}

fn extract_first_tag_text(entry: &Vec<char>, tag: &Vec<char>) -> (r: Option<Vec<char>>)
    ensures
        r matches Some(v) ==> tag_text(entry@, tag@) == Some(v@),
        r is None ==> tag_text(entry@, tag@) is None,
{
    let open = tag_of('<', tag, '>');
    let mut close: Vec<char> = Vec::new();
    close.push('<');
    close.push('/');
    push_all(&mut close, tag);
    close.push('>');
    assert(close@ =~= close_tag(tag@));
    if let Some(v) = extract_between(entry, &open, &close) {
        return Some(normalize_ws(&trim_chars(&v)));
    }
    let open2 = tag_of('<', tag, ' ');
    let i0 = match find_from(entry, &open2, 0) {
        Some(i0) => i0,
        None => return None,
    };
    let mut gt: Vec<char> = Vec::new();
    gt.push('>');
    assert(gt@ =~= seq!['>']);
    let g = match find_from(entry, &gt, i0) {
        Some(g) => g,
        None => return None,
    };
    proof {
        lemma_first_from(entry@, gt@, i0 as int);
    }
    let n = entry.len();
    assert(g + 1 <= n);
    let j = match find_from(entry, &close, g + 1) {
        Some(j) => j,
        None => return None,
    };
    Some(normalize_ws(&trim_chars(&slice_chars(entry, g + 1, j))))
}

/// The piece of `s` that follows the occurrence of `sep` at `p`, up to the
/// next `sep` or the end.
pub open spec fn piece_after(s: Seq<char>, sep: Seq<char>, p: int) -> Seq<char> {
    let st = p + sep.len();
    match first_from(s, sep, st) {
        Some(q) => s.subrange(st, q),
        None => s.subrange(st, s.len() as int),
    }
}

/// `acc` followed by the author names of the `<author` pieces of `e` found
/// at or after `from`: each piece up to `</author>`, its `name` text
/// trimmed, and kept when not empty.
pub open spec fn authors_from(e: Seq<char>, from: int, acc: Seq<Seq<char>>) -> Seq<Seq<char>>
    decreases e.len() - from,
{
    let sep = "<author"@;
    match first_from(e, sep, from) {
        None => acc,
        Some(p) => if from <= p && 0 < sep.len() && p + sep.len() <= e.len() {
            let block = upto(piece_after(e, sep, p), "</author>"@);
            let next = match tag_text(block, "name"@) {
                Some(nm) => if trim_spec(nm).len() > 0 {
                    acc.push(trim_spec(nm))
                } else {
                    acc
                },
                None => acc,
            };
            authors_from(e, p + sep.len(), next)
        } else {
            acc
        },
    }
}

/// The lower-case form of `s`.
pub uninterp spec fn lower_of(s: Seq<char>) -> Seq<char>;

/// Relies on `str::to_lowercase`: the result depends on the characters alone.
#[verifier::external_body]
fn lowercase(s: &str) -> (r: String)
    ensures
        r@ == lower_of(s@),
{
    s.to_lowercase()
}

/// The first `<link` piece of `e` at or after `from` whose tag names a PDF
/// (in any letter case) and whose `href` points into arxiv.org: that `href`.
pub open spec fn pdf_from(e: Seq<char>, from: int) -> Option<Seq<char>>
    decreases e.len() - from,
{
    let sep = "<link"@;
    match first_from(e, sep, from) {
        None => None,
        Some(p) => if from <= p && 0 < sep.len() && p + sep.len() <= e.len() {
            let tag = upto(piece_after(e, sep, p), seq!['>']);
            let low = lower_of(tag);
            let href = between(tag, "href=\""@, seq!['"']);
            if (contains_spec(low, "pdf"@) || contains_spec(low, "application/pdf"@))
                && href is Some && contains_spec(href->Some_0, "arxiv.org"@) {
                href
            } else {
                pdf_from(e, p + sep.len())
            }
        } else {
            None
        },
    }
}

/// The text, or the empty text when there is none.
pub open spec fn or_empty(o: Option<Seq<char>>) -> Seq<char> {
    match o {
        Some(v) => v,
        None => Seq::empty(),
    }
}

/// The paper that an entry block describes; `None` when it lacks a title or
/// an id.
pub open spec fn paper_of(b: Seq<char>) -> Option<PaperView> {
    let title = or_empty(tag_text(b, "title"@));
    let link = or_empty(tag_text(b, "id"@));
    if title.len() == 0 || link.len() == 0 {
        None
    } else {
        Some(
            PaperView {
                title,
                link,
                pdf_url: pdf_from(b, 0),
                published: tag_text(b, "published"@),
                updated: tag_text(b, "updated"@),
                authors: authors_from(b, 0, Seq::empty()),
                abstract_text: or_empty(tag_text(b, "summary"@)),
            },
        )
    }
}

/// `acc` followed by the papers of the `<entry` pieces of `s` found at or
/// after `from` (each piece up to `</entry>`), stopping once `max` papers
/// are collected (and after the first one when `max` is zero).
pub open spec fn papers_from(s: Seq<char>, from: int, acc: Seq<PaperView>, max: int) -> Seq<
    PaperView,
>
    decreases s.len() - from,
{
    let sep = "<entry"@;
    match first_from(s, sep, from) {
        None => acc,
        Some(p) => if from <= p && 0 < sep.len() && p + sep.len() <= s.len() {
            match paper_of(upto(piece_after(s, sep, p), "</entry>"@)) {
                None => papers_from(s, p + sep.len(), acc, max),
                Some(pv) => if acc.len() + 1 >= max {
                    acc.push(pv)
                } else {
                    papers_from(s, p + sep.len(), acc.push(pv), max)
                },
            }
        } else {
            acc
        },
    }
}

fn piece_after_exec(s: &Vec<char>, sep: &Vec<char>, p: usize) -> (r: Vec<char>)
    requires
        occurs_at(s@, sep@, p as int),
    ensures
        r@ == piece_after(s@, sep@, p as int),
{
    let n = s.len();
    let st = p + sep.len();
    match find_from(s, sep, st) {
        Some(q) => {
            proof {
                lemma_first_from(s@, sep@, st as int);
            }
            slice_chars(s, st, q)
        },
        None => slice_chars(s, st, n),
    }
}

fn extract_authors(entry: &Vec<char>) -> (r: Vec<String>)
    ensures
        strs_view(r@) == authors_from(entry@, 0, Seq::empty()),
{
    let sep = chars_of("<author");
    let close = chars_of("</author>");
    let name = chars_of("name");
    proof {
        reveal_strlit("<author");
    }
    assert(sep@.len() == 7);
    let mut out: Vec<String> = Vec::new();
    assert(strs_view(out@) =~= Seq::<Seq<char>>::empty());
    let mut from: usize = 0;
    while from <= entry.len()
        invariant
            from <= entry@.len() + 1,
            sep@ == "<author"@,
            sep@.len() == 7,
            close@ == "</author>"@,
            name@ == "name"@,
            authors_from(entry@, from as int, strs_view(out@)) == authors_from(
                entry@,
                0,
                Seq::empty(),
            ),
        ensures
            authors_from(entry@, from as int, strs_view(out@)) == strs_view(out@),
        decreases entry@.len() + 1 - from,
    {
        let p = match find_from(entry, &sep, from) {
            Some(p) => p,
            None => {
                assert(authors_from(entry@, from as int, strs_view(out@)) == strs_view(out@));
                break;
            },
        };
        proof {
            lemma_first_from(entry@, sep@, from as int);
        }
        let block = upto_exec(&piece_after_exec(entry, &sep, p), &close);
        let ghost before = out@;
        match extract_first_tag_text(&block, &name) {
            Some(nm) => {
                let t = trim_chars(&nm);
                if t.len() > 0 {
                    out.push(string_of(&t));
                    assert(strs_view(out@) =~= strs_view(before).push(t@));
                }
            },
            None => {},
        }
        from = p + 7;
    }
    out
}

fn extract_pdf_url(entry: &Vec<char>) -> (r: Option<String>)
    ensures
        opt_chars(r) == pdf_from(entry@, 0),
{
    let sep = chars_of("<link");
    let href_open = chars_of("href=\"");
    let pdf = chars_of("pdf");
    let app_pdf = chars_of("application/pdf");
    let host = chars_of("arxiv.org");
    let mut gt: Vec<char> = Vec::new();
    gt.push('>');
    let mut quote: Vec<char> = Vec::new();
    quote.push('"');
    assert(gt@ =~= seq!['>']);
    assert(quote@ =~= seq!['"']);
    proof {
        reveal_strlit("<link");
    }
    assert(sep@.len() == 5);
    let mut from: usize = 0;
    while from <= entry.len()
        invariant
            from <= entry@.len() + 1,
            sep@ == "<link"@,
            sep@.len() == 5,
            href_open@ == "href=\""@,
            pdf@ == "pdf"@,
            app_pdf@ == "application/pdf"@,
            host@ == "arxiv.org"@,
            gt@ == seq!['>'],
            quote@ == seq!['"'],
            pdf_from(entry@, from as int) == pdf_from(entry@, 0),
        decreases entry@.len() + 1 - from,
    {
        let p = match find_from(entry, &sep, from) {
            Some(p) => p,
            None => {
                assert(pdf_from(entry@, from as int) is None);
                return None;
            },
        };
        proof {
            lemma_first_from(entry@, sep@, from as int);
        }
        let tag = upto_exec(&piece_after_exec(entry, &sep, p), &gt);
        let low = chars_of(lowercase(string_of(&tag).as_str()).as_str());
        if contains_chars(&low, &pdf) || contains_chars(&low, &app_pdf) {
            if let Some(h) = extract_between(&tag, &href_open, &quote) {
                if contains_chars(&h, &host) {
                    return Some(string_of(&h));
                }
            }
        }
        from = p + 5;
    }
    assert(pdf_from(entry@, from as int) is None);
    None
}

/// Reads the papers of an Atom feed, in feed order: each `<entry` piece (up
/// to `</entry>`) that has a title and an id gives one paper, and reading
/// stops once `max_results` papers are collected.
pub fn parse_arxiv_atom(xml: &str, max_results: usize) -> (r: Vec<ArxivPaper>)
    ensures
        r@.map_values(|p: ArxivPaper| p@) == papers_from(xml@, 0, Seq::empty(), max_results as int),
{
    let s = chars_of(xml);
    let sep = chars_of("<entry");
    let close = chars_of("</entry>");
    let t_title = chars_of("title");
    let t_id = chars_of("id");
    let t_published = chars_of("published");
    let t_updated = chars_of("updated");
    let t_summary = chars_of("summary");
    proof {
        reveal_strlit("<entry");
    }
    assert(sep@.len() == 6);
    let mut out: Vec<ArxivPaper> = Vec::new();
    assert(out@.map_values(|p: ArxivPaper| p@) =~= Seq::<PaperView>::empty());
    let mut from: usize = 0;
    while from <= s.len()
        invariant
            from <= s@.len() + 1,
            s@ == xml@,
            sep@ == "<entry"@,
            sep@.len() == 6,
            close@ == "</entry>"@,
            t_title@ == "title"@,
            t_id@ == "id"@,
            t_published@ == "published"@,
            t_updated@ == "updated"@,
            t_summary@ == "summary"@,
            out@.len() < max_results || out@.len() == 0,
            papers_from(s@, from as int, out@.map_values(|p: ArxivPaper| p@), max_results as int)
                == papers_from(s@, 0, Seq::empty(), max_results as int),
        ensures
            papers_from(s@, from as int, out@.map_values(|p: ArxivPaper| p@), max_results as int)
                == out@.map_values(|p: ArxivPaper| p@),
        decreases s@.len() + 1 - from,
    {
        let p = match find_from(&s, &sep, from) {
            Some(p) => p,
            None => {
                assert(papers_from(s@, from as int, out@.map_values(|p: ArxivPaper| p@), max_results as int)
                    == out@.map_values(|p: ArxivPaper| p@));
                break;
            },
        };
        proof {
            lemma_first_from(s@, sep@, from as int);
        }
        let block = upto_exec(&piece_after_exec(&s, &sep, p), &close);
        let title = match extract_first_tag_text(&block, &t_title) {
            Some(v) => v,
            None => Vec::new(),
        };
        let link = match extract_first_tag_text(&block, &t_id) {
            Some(v) => v,
            None => Vec::new(),
        };
        assert(title@ == or_empty(tag_text(block@, "title"@)));
        assert(link@ == or_empty(tag_text(block@, "id"@)));
        if title.len() > 0 && link.len() > 0 {
            let published = match extract_first_tag_text(&block, &t_published) {
                Some(v) => Some(string_of(&v)),
                None => None,
            };
            let updated = match extract_first_tag_text(&block, &t_updated) {
                Some(v) => Some(string_of(&v)),
                None => None,
            };
            let abstract_text = match extract_first_tag_text(&block, &t_summary) {
                Some(v) => string_of(&v),
                None => string_of(&Vec::new()),
            };
            let paper = ArxivPaper {
                title: string_of(&title),
                link: string_of(&link),
                pdf_url: extract_pdf_url(&block),
                published,
                updated,
                authors: extract_authors(&block),
                abstract_text,
            };
            assert(paper_of(block@) == Some(paper@));
            let ghost before = out@;
            out.push(paper);
            assert(out@.map_values(|p: ArxivPaper| p@) =~= before.map_values(|p: ArxivPaper| p@).push(paper@));
            if out.len() >= max_results {
                return out;
            }
        }
        from = p + 6;
    }
    out
}

/// Every name is non-empty and already trimmed.
pub open spec fn names_trimmed(names: Seq<Seq<char>>) -> bool {
    forall|k: int|
        0 <= k < names.len() ==> #[trigger] names[k].len() > 0 && trim_spec(names[k]) == names[k]
}

proof fn lemma_authors_trimmed(e: Seq<char>, from: int, acc: Seq<Seq<char>>)
    requires
        names_trimmed(acc),
    ensures
        names_trimmed(authors_from(e, from, acc)),
    decreases e.len() - from,
{
    let sep = "<author"@;
    if let Some(p) = first_from(e, sep, from) {
        if from <= p && 0 < sep.len() && p + sep.len() <= e.len() {
            let block = upto(piece_after(e, sep, p), "</author>"@);
            if let Some(nm) = tag_text(block, "name"@) {
                lemma_trim_shape(nm);
                let next = if trim_spec(nm).len() > 0 {
                    acc.push(trim_spec(nm))
                } else {
                    acc
                };
                assert(names_trimmed(next)) by {
                    assert forall|k: int| 0 <= k < next.len() implies #[trigger] next[k].len() > 0
                        && trim_spec(next[k]) == next[k] by {
                        if k < acc.len() {
                            assert(next[k] == acc[k]);
                        }
                    }
                }
                lemma_authors_trimmed(e, p + sep.len(), next);
            } else {
                lemma_authors_trimmed(e, p + sep.len(), acc);
            }
        }
    }
}

/// Every paper has a title and an id, and its author names are non-empty
/// and trimmed.
pub open spec fn papers_well_formed(ps: Seq<PaperView>) -> bool {
    forall|k: int|
        0 <= k < ps.len() ==> #[trigger] ps[k].title.len() > 0 && ps[k].link.len() > 0
            && names_trimmed(ps[k].authors)
}

proof fn lemma_papers_from(s: Seq<char>, from: int, acc: Seq<PaperView>, max: int)
    requires
        papers_well_formed(acc),
        acc.len() < max || acc.len() == 0,
    ensures
        papers_well_formed(papers_from(s, from, acc, max)),
        papers_from(s, from, acc, max).len() <= if max < 1 {
            1
        } else {
            max
        },
    decreases s.len() - from,
{
    let sep = "<entry"@;
    if let Some(p) = first_from(s, sep, from) {
        if from <= p && 0 < sep.len() && p + sep.len() <= s.len() {
            let b = upto(piece_after(s, sep, p), "</entry>"@);
            match paper_of(b) {
                None => lemma_papers_from(s, p + sep.len(), acc, max),
                Some(pv) => {
                    lemma_authors_trimmed(b, 0, Seq::empty());
                    let next = acc.push(pv);
                    assert(papers_well_formed(next)) by {
                        assert forall|k: int| 0 <= k < next.len() implies #[trigger] next[k].title.len()
                            > 0 && next[k].link.len() > 0 && names_trimmed(next[k].authors) by {
                            if k < acc.len() {
                                assert(next[k] == acc[k]);
                            }
                        }
                    }
                    if acc.len() + 1 < max {
                        lemma_papers_from(s, p + sep.len(), next, max);
                    }
                },
            }
        }
    }
}

/// What a feed reads as: papers in feed order, each with a title and an id
/// and with non-empty, trimmed author names, and no more than `max_results`
/// of them (one at most when `max_results` is zero).
pub proof fn parse_arxiv_atom_laws(xml: Seq<char>, max_results: usize)
    ensures
        papers_well_formed(papers_from(xml, 0, Seq::empty(), max_results as int)),
        papers_from(xml, 0, Seq::empty(), max_results as int).len() <= if max_results < 1 {
            1
        } else {
            max_results as int
        },
{
    lemma_papers_from(xml, 0, Seq::empty(), max_results as int);
}

// ---------------------------------------------------------------------------
// Retry policy of the feed's fetch loop
// ---------------------------------------------------------------------------

/// The number of results to ask the feed for: `n` brought into `1 ..= 50`.
pub fn clamp_max_results(n: usize) -> (r: usize)
    ensures
        r == if n < 1 {
            1
        } else if n > 50 {
            50
        } else {
            n
        },
{
    if n < 1 {
        1
    } else if n > 50 {
        50
    } else {
        n
    }
}

/// The value of a non-empty run of decimal digits.
pub open spec fn digits_value(d: Seq<char>) -> int
    decreases d.len(),
{
    if d.len() == 0 {
        0
    } else {
        digits_value(d.drop_last()) * 10 + (d.last() as int - '0' as int)
    }
}

/// `d` is a non-empty run of ASCII digits.
pub open spec fn all_digits(d: Seq<char>) -> bool {
    d.len() > 0 && forall|i: int| 0 <= i < d.len() ==> '0' <= #[trigger] d[i] && d[i] <= '9'
}

/// The number that `s` writes in decimal, with an optional leading `+`, as
/// `u64::from_str` reads it; `None` when `s` writes no number or one past
/// `u64::MAX`.
pub open spec fn decimal_u64(s: Seq<char>) -> Option<u64> {
    let d = if s.len() > 0 && s[0] == '+' {
        s.drop_first()
    } else {
        s
    };
    if all_digits(d) && digits_value(d) <= u64::MAX {
        Some(digits_value(d) as u64)
    } else {
        None
    }
}

proof fn lemma_digits_value_nonneg(d: Seq<char>)
    requires
        forall|i: int| 0 <= i < d.len() ==> '0' <= #[trigger] d[i] && d[i] <= '9',
    ensures
        digits_value(d) >= 0,
    decreases d.len(),
{
    if d.len() > 0 {
        lemma_digits_value_nonneg(d.drop_last());
    }
}

/// Reads a decimal number (see `decimal_u64`).
pub fn parse_decimal_u64(s: &Vec<char>) -> (r: Option<u64>)
    ensures
        r == decimal_u64(s@),
{
    let start: usize = if s.len() > 0 && s[0] == '+' {
        1
    } else {
        0
    };
    let ghost d = if s@.len() > 0 && s@[0] == '+' {
        s@.drop_first()
    } else {
        s@
    };
    assert(d =~= s@.subrange(start as int, s@.len() as int));
    if start >= s.len() {
        return None;
    }
    let mut acc: u64 = 0;
    let mut i: usize = start;
    while i < s.len()
        invariant
            start <= i <= s@.len(),
            d == s@.subrange(start as int, s@.len() as int),
            d == (if s@.len() > 0 && s@[0] == '+' {
                s@.drop_first()
            } else {
                s@
            }),
            forall|k: int| start <= k < i ==> '0' <= #[trigger] s@[k] && s@[k] <= '9',
            acc as int == digits_value(s@.subrange(start as int, i as int)),
        decreases s@.len() - i,
    {
        let c = s[i];
        let ghost pre = s@.subrange(start as int, i as int);
        let ghost next = s@.subrange(start as int, i + 1);
        assert(next.drop_last() =~= pre);
        if c < '0' || c > '9' {
            assert(!all_digits(d)) by {
                assert(d[i - start] == c);
            }
            assert(decimal_u64(s@) is None);
            return None;
        }
        let digit = (c as u32 - '0' as u32) as u64;
        assert(digits_value(next) == acc * 10 + digit);
        if acc > (u64::MAX - digit) / 10 {
            proof {
                assert(acc * 10 + digit > u64::MAX) by (nonlinear_arith)
                    requires
                        acc > (u64::MAX - digit) / 10,
                        digit <= 9,
                ;
                // every longer run of digits is worth at least as much
                assert(all_digits(d) ==> digits_value(d) > u64::MAX) by {
                    if all_digits(d) {
                        lemma_prefix_value_grows(d, (i + 1 - start) as int);
                        assert(d.subrange(0, i + 1 - start) =~= next);
                    }
                }
            }
            assert(decimal_u64(s@) is None);
            return None;
        }
        proof {
            assert(acc * 10 + digit <= u64::MAX) by (nonlinear_arith)
                requires
                    acc <= (u64::MAX - digit) / 10,
                    digit <= 9,
            ;
        }
        acc = acc * 10 + digit;
        i = i + 1;
    }
    assert(all_digits(d)) by {
        assert forall|k: int| 0 <= k < d.len() implies '0' <= #[trigger] d[k] && d[k] <= '9' by {
            assert(d[k] == s@[start + k]);
        }
    }
    Some(acc)
}

/// A run of digits is worth at least as much as any of its prefixes.
proof fn lemma_prefix_value_grows(d: Seq<char>, k: int)
    requires
        all_digits(d),
        0 <= k <= d.len(),
    ensures
        digits_value(d) >= digits_value(d.subrange(0, k)),
    decreases d.len() - k,
{
    if k < d.len() {
        lemma_prefix_value_grows(d, k + 1);
        let p = d.subrange(0, k + 1);
        assert(p.drop_last() =~= d.subrange(0, k));
        assert forall|i: int| 0 <= i < d.subrange(0, k).len() implies '0' <= #[trigger] d.subrange(0, k)[i] && d.subrange(0, k)[i] <= '9' by {
            assert(d.subrange(0, k)[i] == d[i]);
        }
        lemma_digits_value_nonneg(d.subrange(0, k));
        assert(p.last() == d[k]);
    } else {
        assert(d.subrange(0, k) =~= d);
    }
}

/// How many times the fetch is retried: the configured number when it reads
/// as a `u32` (surrounding whitespace allowed), else 2; at most 6.
pub fn max_retries_from(setting: Option<&str>) -> (r: u32)
    ensures
        r == match setting {
            Some(t) => match decimal_u64(trim_spec(t@)) {
                Some(v) => if v > u32::MAX {
                    2
                } else if v > 6 {
                    6
                } else {
                    v as u32
                },
                None => 2,
            },
            None => 2,
        },
{
    let v: u32 = match setting {
        Some(t) => match parse_decimal_u64(&trim_chars(&chars_of(t))) {
            Some(n) => if n > u32::MAX as u64 {
                2
            } else {
                n as u32
            },
            None => 2,
        },
        None => 2,
    };
    if v > 6 {
        6
    } else {
        v
    }
}

/// What the fetch loop does next.
#[derive(PartialEq, Eq, Structural, Debug, Clone, Copy)]
pub enum FetchAction {
    /// The answer is good: read its body and parse the feed.
    ReadBody,
    /// Wait this many seconds, then try again.
    Sleep(u64),
    /// Give up and report the last failure.
    Fail,
}

/// Seconds to wait before retry number `attempt + 1`: doubling from 1
/// (1, 2, 4), capped at 8 from the fourth retry on.
pub open spec fn backoff_spec(attempt: u32) -> u64 {
    if attempt == 0 {
        1
    } else if attempt == 1 {
        2
    } else if attempt == 2 {
        4
    } else {
        8
    }
}

fn backoff_secs(attempt: u32) -> (r: u64)
    ensures
        r == backoff_spec(attempt),
{
    match attempt {
        0 => 1,
        1 => 2,
        2 => 4,
        _ => 8,
    }
}

/// The step after an HTTP answer with `status` to attempt `attempt` (from
/// 0): a 2xx status reads the body; a 429 or 5xx status is retried while
/// attempts remain, after the backoff or the server's `Retry-After` seconds,
/// whichever is longer, and never more than 8 seconds; anything else fails.
pub fn after_response(attempt: u32, max_retries: u32, status: u16, retry_after: Option<&str>) -> (r:
    FetchAction)
    ensures
        200 <= status <= 299 ==> r == FetchAction::ReadBody,
        !(200 <= status <= 299) && (status == 429 || 500 <= status <= 599) && attempt
            < max_retries ==> r == FetchAction::Sleep(
            {
                let hint: u64 = match retry_after {
                    Some(t) => match decimal_u64(trim_spec(t@)) {
                        Some(v) => v,
                        None => 0,
                    },
                    None => 0,
                };
                let base = backoff_spec(attempt);
                let longer = if hint > base {
                    hint
                } else {
                    base
                };
                if longer > 8 {
                    8u64
                } else {
                    longer
                }
            },
        ),
        !(200 <= status <= 299) && !((status == 429 || 500 <= status <= 599) && attempt
            < max_retries) ==> r == FetchAction::Fail,
{
    if 200 <= status && status <= 299 {
        return FetchAction::ReadBody;
    }
    if (status == 429 || (500 <= status && status <= 599)) && attempt < max_retries {
        let hint: u64 = match retry_after {
            Some(t) => match parse_decimal_u64(&trim_chars(&chars_of(t))) {
                Some(v) => v,
                None => 0,
            },
            None => 0,
        };
        let base = backoff_secs(attempt);
        let longer = if hint > base {
            hint
        } else {
            base
        };
        return FetchAction::Sleep(
            if longer > 8 {
                8
            } else {
                longer
            },
        );
    }
    FetchAction::Fail
}

/// The step after a transport failure of attempt `attempt` (from 0): retry
/// after the backoff while attempts remain, else fail.
pub fn after_transport_error(attempt: u32, max_retries: u32) -> (r: FetchAction)
    ensures
        attempt < max_retries ==> r == FetchAction::Sleep(backoff_spec(attempt)),
        attempt >= max_retries ==> r == FetchAction::Fail,
{
    if attempt < max_retries {
        FetchAction::Sleep(backoff_secs(attempt))
    } else {
        FetchAction::Fail
    }
}

} // verus!
