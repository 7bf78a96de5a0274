//! What the HTTP frontend decides before it asks the search service.

use vstd::prelude::*;
use crate::text::{chars_of, decimal, owned, push_u64, str_eq};

verus! {

/// The most sessions that one request may ask for.
pub const MAX_LIMIT: usize = 100;

/// The parameters of a search request.
#[derive(Debug)]
pub struct SearchQuery {
    pub q: String,
    pub limit: usize,
    pub offset: usize,
    /// `compact` asks for a plain-text table.
    pub format: Option<String>,
}

/// How many sessions a request gets when it names no limit.
pub fn default_limit() -> (n: usize)
    ensures
        n == 20,
{
    20
}

impl SearchQuery {
    /// A request for `q` with the default limit, from the first result on.
    pub fn new(q: String) -> (query: Self)
        ensures
            query.q == q,
            query.limit == 20,
            query.offset == 0,
            query.format is None,
    {
        SearchQuery { q, limit: default_limit(), offset: 0, format: None }
    }

    /// The limit that is handed to the search service: the request's, but
    /// no more than [`MAX_LIMIT`].
    pub fn effective_limit(&self) -> (n: usize)
        ensures
            n == if self.limit < MAX_LIMIT {
                self.limit
            } else {
                MAX_LIMIT
            },
    {
        if self.limit < MAX_LIMIT {
            self.limit
        } else {
            MAX_LIMIT
        }
    }

    /// Whether the request asks for the plain-text table.
    pub fn is_compact(&self) -> (b: bool)
        ensures
            b == (match self.format {
                Some(f) => f@ == "compact"@,
                None => false,
            }),
    {
        match &self.format {
            Some(f) => str_eq(f.as_str(), "compact"),
            None => false,
        }
    }
}


/// How many characters of a hit's text the plain-text table shows.
pub const SNIPPET_CHARS: usize = 80;

/// What the plain-text table says when there is no hit.
pub const NO_RESULTS: &'static str = "No results found.\n";

/// `s` with every occurrence of `pattern` taken out, the occurrences found
/// from left to right.
pub open spec fn without(s: Seq<char>, pattern: Seq<char>) -> Seq<char>
    decreases s.len(),
{
    if pattern.len() == 0 || s.len() < pattern.len() {
        s
    } else if pattern.is_prefix_of(s) {
        without(s.skip(pattern.len() as int), pattern)
    } else {
        seq![s[0]] + without(s.skip(1), pattern)
    }
}

/// Whether a character ends a line.
pub open spec fn is_line_break(c: char) -> bool {
    c == '\n' || c == '\r'
}

/// The text of a hit as the table shows it: without the highlight marks
/// and the line breaks, and no longer than [`SNIPPET_CHARS`].
pub open spec fn snippet_of(text: Seq<char>) -> Seq<char> {
    let clean = without(without(text, "<mark>"@), "</mark>"@);
    let flat = clean.filter(|c: char| !is_line_break(c));
    if flat.len() <= SNIPPET_CHARS {
        flat
    } else {
        flat.take(SNIPPET_CHARS as int)
    }
}

fn matches_here(text: &Vec<char>, at: usize, pattern: &Vec<char>) -> (b: bool)
    requires
        at <= text.len(),
    ensures
        b == (pattern@.len() <= text@.len() - at && pattern@.is_prefix_of(text@.skip(at as int))),
{
    if pattern.len() > text.len() - at {
        return false;
    }
    let mut k: usize = 0;
    while k < pattern.len()
        invariant
            k <= pattern.len(),
            at + pattern.len() <= text.len(),
            forall|j: int| 0 <= j < k ==> text@[at + j] == pattern@[j],
        decreases pattern.len() - k,
    {
        if text[at + k] != pattern[k] {
            assert(text@.skip(at as int)[k as int] != pattern@[k as int]);
            return false;
        }
        k += 1;
    }
    assert(pattern@ =~= text@.skip(at as int).subrange(0, pattern@.len() as int));
    true
}

fn remove_all(text: &Vec<char>, pattern: &Vec<char>) -> (out: Vec<char>)
    requires
        pattern@.len() > 0,
    ensures
        out@ == without(text@, pattern@),
{
    let mut out: Vec<char> = Vec::new();
    let mut i: usize = 0;
    assert(text@.skip(0) =~= text@);
    while i < text.len()
        invariant
            i <= text.len(),
            pattern@.len() > 0,
            out@ + without(text@.skip(i as int), pattern@) == without(text@, pattern@),
        decreases text.len() - i,
    {
        let ghost rest = text@.skip(i as int);
        if matches_here(text, i, pattern) {
            assert(rest.skip(pattern@.len() as int) =~= text@.skip(i + pattern@.len()));
            i += pattern.len();
        } else {
            let ghost before = out@;
            out.push(text[i]);
            proof {
                assert(rest.skip(1) =~= text@.skip(i + 1));
                if rest.len() < pattern@.len() {
                    lemma_short_rest(rest.skip(1), pattern@);
                    assert(rest =~= seq![rest[0]] + rest.skip(1));
                }
                assert(out@ + without(text@.skip(i + 1), pattern@) =~= before + without(
                    rest,
                    pattern@,
                ));
            }
            i += 1;
        }
    }
    assert(out@ + without(text@.skip(text.len() as int), pattern@) =~= out@);
    out
}

proof fn lemma_short_rest(s: Seq<char>, pattern: Seq<char>)
    requires
        s.len() < pattern.len(),
    ensures
        without(s, pattern) == s,
{
}

/// Prepares the text of a hit for the plain-text table.
pub fn snippet(text: &str) -> (s: String)
    ensures
        s@ == snippet_of(text@),
{
    let chars = chars_of(text);
    let open = chars_of("<mark>");
    let close = chars_of("</mark>");
    proof {
        reveal_strlit("<mark>");
        reveal_strlit("</mark>");
    }
    let clean = remove_all(&remove_all(&chars, &open), &close);
    let ghost keep = |c: char| !is_line_break(c);
    let mut out = String::new();
    let mut taken: usize = 0;
    let mut i: usize = 0;
    proof {
        clean@.take(0).lemma_filter_len(keep);
    }
    while i < clean.len() && taken < SNIPPET_CHARS
        invariant
            i <= clean.len(),
            taken <= SNIPPET_CHARS,
            keep == (|c: char| !is_line_break(c)),
            out@ == clean@.take(i as int).filter(keep),
            taken == out@.len(),
        decreases clean.len() - i,
    {
        let c = clean[i];
        proof {
            assert(clean@.take(i + 1) =~= clean@.take(i as int).push(c));
            clean@.take(i as int).lemma_filter_push(c, keep);
        }
        if c != '\n' && c != '\r' {
            out.push(c);
            taken += 1;
        }
        i += 1;
    }
    proof {
        let flat = clean@.filter(keep);
        let seen = clean@.take(i as int);
        assert(clean@ =~= seen + clean@.skip(i as int));
        Seq::filter_distributes_over_add(seen, clean@.skip(i as int), keep);
        if i == clean.len() {
            assert(clean@.skip(i as int) =~= Seq::<char>::empty());
            clean@.skip(i as int).lemma_filter_len(keep);
            assert(flat =~= out@);
        } else {
            assert(out@ =~= flat.take(SNIPPET_CHARS as int));
        }
    }
    out
}

/// One hit of the plain-text table. The scores come as text, or not at all.
#[derive(Debug)]
pub struct CompactEntry {
    pub session_name: String,
    pub semantic_score: Option<String>,
    pub keyword_score: Option<String>,
    pub text: String,
    pub url: String,
}

/// A score as the table shows it: its text, or a dash.
pub open spec fn score_text(score: Option<String>) -> Seq<char> {
    match score {
        Some(s) => s@,
        None => "-"@,
    }
}

/// How an entry starts: its number from one, and the session's name in brackets.
pub open spec fn entry_head(index: nat, e: CompactEntry) -> Seq<char> {
    decimal(index + 1) + ". ["@ + e.session_name@ + "] "@
}

/// The scores of an entry in parentheses.
pub open spec fn entry_scores(e: CompactEntry) -> Seq<char> {
    "(sem="@ + score_text(e.semantic_score) + " kw="@ + score_text(e.keyword_score) + ") "@
}

/// The two lines of hit number `index`, counted from zero: its number from
/// one, the session's name, the scores and the snippet, then the address
/// of the session.
pub open spec fn entry_lines(index: nat, e: CompactEntry) -> Seq<char> {
    entry_head(index, e) + entry_scores(e) + snippet_of(e.text@) + "\n   "@ + e.url@ + "\n"@
}

fn head_text(index: usize, e: &CompactEntry) -> (text: String)
    requires
        index < usize::MAX,
    ensures
        text@ == entry_head(index as nat, *e),
{
    let mut text = String::new();
    push_u64(&mut text, (index as u64) + 1);
    text.push_str(". [");
    text.push_str(e.session_name.as_str());
    text.push_str("] ");
    text
}

fn scores_text(e: &CompactEntry) -> (text: String)
    ensures
        text@ == entry_scores(*e),
{
    let mut text = owned("(sem=");
    match &e.semantic_score {
        Some(s) => text.push_str(s.as_str()),
        None => text.push_str("-"),
    }
    text.push_str(" kw=");
    match &e.keyword_score {
        Some(s) => text.push_str(s.as_str()),
        None => text.push_str("-"),
    }
    text.push_str(") ");
    text
}

fn entry_text(index: usize, e: &CompactEntry) -> (text: String)
    requires
        index < usize::MAX,
    ensures
        text@ == entry_lines(index as nat, *e),
{
    let mut text = head_text(index, e);
    text.push_str(scores_text(e).as_str());
    text.push_str(snippet(e.text.as_str()).as_str());
    text.push_str("\n   ");
    text.push_str(e.url.as_str());
    text.push_str("\n");
    text
}

/// The lines of the first `count` hits.
pub open spec fn table_lines(entries: Seq<CompactEntry>, count: nat) -> Seq<char>
    decreases count,
{
    if count == 0 {
        Seq::empty()
    } else {
        table_lines(entries, (count - 1) as nat) + entry_lines(
            (count - 1) as nat,
            entries[count - 1],
        )
    }
}

/// The plain-text table of a search's hits.
pub open spec fn compact_table(entries: Seq<CompactEntry>) -> Seq<char> {
    if entries.len() == 0 {
        NO_RESULTS@
    } else {
        table_lines(entries, entries.len())
    }
}

/// Writes the plain-text table of a search's hits.
pub fn format_compact(entries: &[CompactEntry]) -> (out: String)
    ensures
        out@ == compact_table(entries@),
{
    if entries.len() == 0 {
        return owned(NO_RESULTS);
    }
    let mut out = String::new();
    let mut i: usize = 0;
    while i < entries.len()
        invariant
            i <= entries.len(),
            out@ == table_lines(entries@, i as nat),
        decreases entries.len() - i,
    {
        out.push_str(entry_text(i, &entries[i]).as_str());
        i += 1;
    }
    out
}

} // verus!
