//! Query-time grouping and ranking of search hits.
//!
//! The engine returns chunks; a caller wants sessions. Hits are grouped by
//! session, each group is represented by its best hit, and the groups are
//! ordered by score, then by how many chunks matched.

use vstd::prelude::*;
use crate::json::{Json, JsonView};
use crate::models::{SearchHit, SearchHitSession, SearchResponse};
use crate::text::{
    chars_of, contains_chars, is_substring, is_white_space, lowercased, owned,
    trim_trailing_slashes, without_trailing_slashes,
};

verus! {

/// The fewest hits that are asked of the engine.
pub const MIN_FETCH: usize = 50;

/// The most hits that are asked of the engine.
pub const MAX_FETCH: usize = 200;

/// How many hits to ask of the engine for `limit` sessions: five times as
/// many, but no fewer than [`MIN_FETCH`] and no more than [`MAX_FETCH`].
pub open spec fn fetch_limit_of(limit: nat) -> nat {
    if limit * 5 < MIN_FETCH {
        MIN_FETCH as nat
    } else if limit * 5 > MAX_FETCH {
        MAX_FETCH as nat
    } else {
        limit * 5
    }
}

/// How many hits to ask of the engine so that `limit` sessions can be filled.
pub fn fetch_limit(limit: usize) -> (n: usize)
    ensures
        n == fetch_limit_of(limit as nat),
        MIN_FETCH <= n <= MAX_FETCH,
{
    if limit >= 40 {
        MAX_FETCH
    } else if limit * 5 < MIN_FETCH {
        MIN_FETCH
    } else {
        limit * 5
    }
}

/// Whether `c` ends a query token: white space, a comma or an ideographic comma.
pub open spec fn is_separator(c: char) -> bool {
    is_white_space(c) || c == ',' || c == '\u{3001}'
}

/// The pieces of `s` between separators, empty pieces included.
pub open spec fn split_pieces(s: Seq<char>) -> Seq<Seq<char>>
    decreases s.len(),
{
    if s.len() == 0 {
        seq![Seq::empty()]
    } else {
        let rest = split_pieces(s.drop_last());
        if is_separator(s.last()) {
            rest.push(Seq::empty())
        } else {
            rest.drop_last().push(rest.last().push(s.last()))
        }
    }
}

/// How many bytes the UTF-8 form of a character takes.
pub open spec fn utf8_width(c: char) -> nat {
    if (c as u32) < 0x80 {
        1
    } else if (c as u32) < 0x800 {
        2
    } else if (c as u32) < 0x10000 {
        3
    } else {
        4
    }
}

/// How many bytes the UTF-8 form of a text takes.
pub open spec fn utf8_len(s: Seq<char>) -> nat
    decreases s.len(),
{
    if s.len() == 0 {
        0
    } else {
        utf8_len(s.drop_last()) + utf8_width(s.last())
    }
}

/// Whether a piece counts as a token: its UTF-8 form is longer than two bytes.
pub open spec fn is_token(piece: Seq<char>) -> bool {
    utf8_len(piece) > 2
}

fn counts_as_token(piece: &Vec<char>) -> (r: bool)
    ensures
        r == is_token(piece@),
{
    let mut bytes: usize = 0;
    let mut i: usize = 0;
    while i < piece.len()
        invariant
            i <= piece.len(),
            bytes <= 3,
            bytes == if utf8_len(piece@.take(i as int)) < 3 {
                utf8_len(piece@.take(i as int))
            } else {
                3
            },
        decreases piece.len() - i,
    {
        assert(piece@.take(i + 1).drop_last() =~= piece@.take(i as int));
        let code = piece[i] as u32;
        let width: usize = if code < 0x80 {
            1
        } else if code < 0x800 {
            2
        } else if code < 0x10000 {
            3
        } else {
            4
        };
        bytes = if bytes + width > 3 {
            3
        } else {
            bytes + width
        };
        i += 1;
    }
    assert(piece@.take(piece.len() as int) =~= piece@);
    bytes > 2
}

/// The tokens of a query.
pub open spec fn query_tokens(query: Seq<char>) -> Seq<Seq<char>> {
    split_pieces(query).filter(|p: Seq<char>| is_token(p))
}

/// The tokens of a query that occur in a name.
pub open spec fn matched_tokens(name: Seq<char>, query: Seq<char>) -> Seq<Seq<char>> {
    query_tokens(query).filter(|t: Seq<char>| is_substring(t, name))
}

/// How well a session's name matches a query: `matched` of the query's
/// `total` tokens occur in the name.
///
/// The boost that a hit's score gets is `matched / total` of the full boost
/// of 0.02, and nothing when `total` is zero.
#[derive(Debug, Clone, Copy, PartialEq, Eq)]
pub struct NameBoost {
    pub matched: usize,
    pub total: usize,
}

/// The match of a session name against a lower-cased query.
pub open spec fn name_boost_of(session_name: Seq<char>, query_lower: Seq<char>) -> (nat, nat) {
    if session_name.len() == 0 {
        (0, 0)
    } else {
        let name_lower = lowercased(session_name);
        (matched_tokens(name_lower, query_lower).len(), query_tokens(query_lower).len())
    }
}

/// The name boost never leaves its range.
///
/// Of the tokens of a query no more can match a name than there are: the
/// share of matching tokens lies between zero and one, and the boost,
/// which is that share of 0.02, between zero and 0.02.
pub proof fn lemma_name_boost_is_bounded(session_name: Seq<char>, query_lower: Seq<char>)
    ensures
        0 <= name_boost_of(session_name, query_lower).0 <= name_boost_of(
            session_name,
            query_lower,
        ).1,
{
    if session_name.len() > 0 {
        let name_lower = lowercased(session_name);
        query_tokens(query_lower).lemma_filter_len(|t: Seq<char>| is_substring(t, name_lower));
    }
}

fn split_query(query: &str) -> (pieces: Vec<Vec<char>>)
    ensures
        pieces@.map_values(|p: Vec<char>| p@) == split_pieces(query@),
{
    let chars = chars_of(query);
    let mut done: Vec<Vec<char>> = Vec::new();
    let mut current: Vec<char> = Vec::new();
    let mut i: usize = 0;
    while i < chars.len()
        invariant
            i <= chars.len(),
            chars@ == query@,
            done@.map_values(|p: Vec<char>| p@).push(current@) == split_pieces(
                chars@.take(i as int),
            ),
        decreases chars.len() - i,
    {
        let c = chars[i];
        let ghost before = done@.map_values(|p: Vec<char>| p@);
        proof {
            assert(chars@.take(i + 1).drop_last() =~= chars@.take(i as int));
            assert(before.push(current@).drop_last() =~= before);
        }
        if c.is_whitespace() || c == ',' || c == '\u{3001}' {
            done.push(current);
            current = Vec::new();
            assert(done@.map_values(|p: Vec<char>| p@) =~= before.push(done@.last()@));
        } else {
            current.push(c);
        }
        i += 1;
    }
    let ghost before = done@.map_values(|p: Vec<char>| p@);
    done.push(current);
    proof {
        assert(chars@.take(chars.len() as int) =~= chars@);
        assert(done@.map_values(|p: Vec<char>| p@) =~= before.push(current@));
    }
    done
}

/// Counts how many tokens of a lower-cased query occur in a session's name.
pub fn compute_name_boost(session_name: &str, query_lower: &str) -> (boost: NameBoost)
    ensures
        (boost.matched as nat, boost.total as nat) == name_boost_of(session_name@, query_lower@),
        boost.matched <= boost.total,
{
    if session_name.is_empty() {
        return NameBoost { matched: 0, total: 0 };
    }
    let name_lower = session_name.to_lowercase();
    let name = chars_of(name_lower.as_str());
    let pieces = split_query(query_lower);
    let ghost all = pieces@.map_values(|p: Vec<char>| p@);
    let ghost counts = |p: Seq<char>| is_token(p);
    let ghost occurs = |t: Seq<char>| is_substring(t, name@);
    let mut matched: usize = 0;
    let mut total: usize = 0;
    let mut i: usize = 0;
    proof {
        assert(all.take(0).filter(counts).len() == 0) by {
            all.take(0).lemma_filter_len(counts);
        }
        assert(all.take(0).filter(counts).filter(occurs).len() == 0) by {
            all.take(0).filter(counts).lemma_filter_len(occurs);
        }
    }
    while i < pieces.len()
        invariant
            i <= pieces.len(),
            all == pieces@.map_values(|p: Vec<char>| p@),
            counts == (|p: Seq<char>| is_token(p)),
            occurs == (|t: Seq<char>| is_substring(t, name@)),
            total == all.take(i as int).filter(counts).len(),
            matched == all.take(i as int).filter(counts).filter(occurs).len(),
            matched <= total <= i,
        decreases pieces.len() - i,
    {
        let ghost x = pieces@[i as int]@;
        proof {
            let prev = all.take(i as int);
            assert(all.take(i + 1) =~= prev.push(x));
            prev.lemma_filter_push(x, counts);
            prev.filter(counts).lemma_filter_push(x, occurs);
            assert(counts(x) == is_token(x));
            assert(occurs(x) == is_substring(x, name@));
        }
        if counts_as_token(&pieces[i]) {
            total += 1;
            if contains_chars(&name, &pieces[i]) {
                matched += 1;
            }
        }
        i += 1;
    }
    assert(all.take(pieces.len() as int) =~= all);
    NameBoost { matched, total }
}


/// The hits of one session: its best hit, and how many chunks matched.
#[derive(Debug)]
pub struct SessionGroup {
    pub best_hit: SearchHit,
    pub chunk_count: usize,
}

/// The position of the group of session `id`, if there is one.
pub open spec fn group_position(groups: Seq<SessionGroup>, id: Seq<char>) -> Option<int>
    decreases groups.len(),
{
    if groups.len() == 0 {
        None
    } else if group_position(groups.drop_last(), id) is Some {
        group_position(groups.drop_last(), id)
    } else if groups.last().best_hit.session.id@ == id {
        Some(groups.len() - 1)
    } else {
        None
    }
}

/// The group `g` after one more hit of its session has been seen: the hit
/// replaces the best hit only when its score is strictly higher.
pub open spec fn absorbed(g: SessionGroup, hit: SearchHit) -> SessionGroup {
    SessionGroup {
        best_hit: if hit.score > g.best_hit.score {
            hit
        } else {
            g.best_hit
        },
        chunk_count: (g.chunk_count + 1) as usize,
    }
}

/// The hits grouped by session, the groups in the order in which their
/// sessions were first seen.
pub open spec fn grouped(hits: Seq<SearchHit>) -> Seq<SessionGroup>
    decreases hits.len(),
{
    if hits.len() == 0 {
        Seq::empty()
    } else {
        let groups = grouped(hits.drop_last());
        let hit = hits.last();
        match group_position(groups, hit.session.id@) {
            Some(k) => groups.update(k, absorbed(groups[k], hit)),
            None => groups.push(SessionGroup { best_hit: hit, chunk_count: 1 }),
        }
    }
}

/// No two groups are of the same session.
pub open spec fn distinct_sessions(groups: Seq<SessionGroup>) -> bool {
    forall|i: int, j: int|
        0 <= i < j < groups.len() ==> (#[trigger] groups[i]).best_hit.session.id@ != (
        #[trigger] groups[j]).best_hit.session.id@
}

proof fn lemma_group_position(groups: Seq<SessionGroup>, id: Seq<char>)
    ensures
        match group_position(groups, id) {
            Some(k) => 0 <= k < groups.len() && groups[k].best_hit.session.id@ == id,
            None => forall|i: int|
                0 <= i < groups.len() ==> (#[trigger] groups[i]).best_hit.session.id@ != id,
        },
    decreases groups.len(),
{
    if groups.len() > 0 {
        lemma_group_position(groups.drop_last(), id);
        if group_position(groups.drop_last(), id) is None {
            assert forall|i: int| 0 <= i < groups.len() - 1 implies (
            #[trigger] groups[i]).best_hit.session.id@ != id by {
                assert(groups.drop_last()[i] == groups[i]);
            }
        } else {
            let k = group_position(groups.drop_last(), id)->0;
            assert(groups.drop_last()[k] == groups[k]);
        }
    }
}

/// Grouping yields one group per session, never more groups than hits, and
/// no group counts more chunks than there are hits.
pub proof fn lemma_grouped_sessions_are_distinct(hits: Seq<SearchHit>)
    requires
        hits.len() <= usize::MAX,
    ensures
        distinct_sessions(grouped(hits)),
        grouped(hits).len() <= hits.len(),
        forall|k: int|
            0 <= k < grouped(hits).len() ==> 1 <= (#[trigger] grouped(hits)[k]).chunk_count
                <= hits.len(),
    decreases hits.len(),
{
    if hits.len() > 0 {
        let prev = grouped(hits.drop_last());
        let hit = hits.last();
        lemma_grouped_sessions_are_distinct(hits.drop_last());
        lemma_group_position(prev, hit.session.id@);
        let now = grouped(hits);
        match group_position(prev, hit.session.id@) {
            Some(k) => {
                assert forall|i: int, j: int| 0 <= i < j < now.len() implies (
                #[trigger] now[i]).best_hit.session.id@ != (
                #[trigger] now[j]).best_hit.session.id@ by {
                    assert(prev[i].best_hit.session.id@ != prev[j].best_hit.session.id@);
                }
                assert forall|i: int| 0 <= i < now.len() implies 1 <= (
                #[trigger] now[i]).chunk_count <= hits.len() by {
                    assert(1 <= prev[i].chunk_count <= hits.len() - 1);
                }
            },
            None => {
                assert forall|i: int, j: int| 0 <= i < j < now.len() implies (
                #[trigger] now[i]).best_hit.session.id@ != (
                #[trigger] now[j]).best_hit.session.id@ by {
                    if j < prev.len() {
                        assert(prev[i].best_hit.session.id@ != prev[j].best_hit.session.id@);
                    } else {
                        assert(prev[i].best_hit.session.id@ != hit.session.id@);
                    }
                }
                assert forall|i: int| 0 <= i < now.len() implies 1 <= (
                #[trigger] now[i]).chunk_count <= hits.len() by {
                    if i < prev.len() {
                        assert(1 <= prev[i].chunk_count <= hits.len() - 1);
                    }
                }
            },
        }
    }
}

/// The hits of session `id`, in the order in which they came.
pub open spec fn hits_of(hits: Seq<SearchHit>, id: Seq<char>) -> Seq<SearchHit>
    decreases hits.len(),
{
    if hits.len() == 0 {
        Seq::empty()
    } else {
        let rest = hits_of(hits.drop_last(), id);
        if hits.last().session.id@ == id {
            rest.push(hits.last())
        } else {
            rest
        }
    }
}

proof fn lemma_hits_of_len(hits: Seq<SearchHit>, id: Seq<char>)
    ensures
        hits_of(hits, id).len() <= hits.len(),
    decreases hits.len(),
{
    if hits.len() > 0 {
        lemma_hits_of_len(hits.drop_last(), id);
    }
}

/// The first of the hits with the highest score.
pub open spec fn best_of(hits: Seq<SearchHit>) -> SearchHit
    recommends
        hits.len() > 0,
    decreases hits.len(),
{
    if hits.len() <= 1 {
        hits[0]
    } else {
        let best = best_of(hits.drop_last());
        if hits.last().score > best.score {
            hits.last()
        } else {
            best
        }
    }
}

/// Whether each group sums up the hits of its session: it counts them,
/// and its best hit is the first of them with the highest score.
pub open spec fn groups_summarize(groups: Seq<SessionGroup>, hits: Seq<SearchHit>) -> bool {
    &&& forall|i: int|
        0 <= i < hits.len() ==> exists|k: int|
            0 <= k < groups.len() && (#[trigger] groups[k]).best_hit.session.id@ == (
            #[trigger] hits[i]).session.id@
    &&& forall|k: int|
        0 <= k < groups.len() ==> {
            let of_session = hits_of(hits, (#[trigger] groups[k]).best_hit.session.id@);
            &&& of_session.len() >= 1
            &&& groups[k].chunk_count == of_session.len()
            &&& groups[k].best_hit == best_of(of_session)
        }
}

proof fn lemma_no_hits_of(hits: Seq<SearchHit>, id: Seq<char>)
    requires
        forall|i: int| 0 <= i < hits.len() ==> (#[trigger] hits[i]).session.id@ != id,
    ensures
        hits_of(hits, id).len() == 0,
    decreases hits.len(),
{
    if hits.len() > 0 {
        assert forall|i: int| 0 <= i < hits.drop_last().len() implies (
        #[trigger] hits.drop_last()[i]).session.id@ != id by {
            assert(hits.drop_last()[i] == hits[i]);
        }
        lemma_no_hits_of(hits.drop_last(), id);
        assert(hits.last() == hits[hits.len() - 1]);
    }
}

/// Every session among the hits has its group, and each group counts the
/// hits of its session and holds the first of them with the highest score.
pub proof fn lemma_groups_summarize_sessions(hits: Seq<SearchHit>)
    requires
        hits.len() <= usize::MAX,
    ensures
        groups_summarize(grouped(hits), hits),
    decreases hits.len(),
{
    if hits.len() > 0 {
        let prev = hits.drop_last();
        let h = hits.last();
        let id_h = h.session.id@;
        let before = grouped(prev);
        let groups = grouped(hits);
        lemma_groups_summarize_sessions(prev);
        lemma_grouped_sessions_are_distinct(prev);
        lemma_group_position(before, id_h);
        assert(hits =~= prev.push(h));
        assert forall|k: int| 0 <= k < groups.len() implies {
            let of_session = hits_of(hits, (#[trigger] groups[k]).best_hit.session.id@);
            &&& of_session.len() >= 1
            &&& groups[k].chunk_count == of_session.len()
            &&& groups[k].best_hit == best_of(of_session)
        } by {
            let id = groups[k].best_hit.session.id@;
            match group_position(before, id_h) {
                Some(p) => {
                    if k == p {
                        let earlier = hits_of(prev, id);
                        assert(before[k].best_hit.session.id@ == id);
                        assert(hits_of(hits, id) == earlier.push(h));
                        assert(earlier.push(h).drop_last() =~= earlier);
                        lemma_hits_of_len(prev, id);
                    } else {
                        assert(groups[k] == before[k]);
                        if k < p {
                            assert(before[k].best_hit.session.id@ != before[p].best_hit.session.id@);
                        } else {
                            assert(before[p].best_hit.session.id@ != before[k].best_hit.session.id@);
                        }
                    }
                },
                None => {
                    if k < before.len() {
                        assert(groups[k] == before[k]);
                    } else {
                        assert forall|i: int| 0 <= i < prev.len() implies (
                        #[trigger] prev[i]).session.id@ != id_h by {
                            let j = choose|j: int|
                                0 <= j < before.len() && (#[trigger] before[j]).best_hit.session.id@
                                    == prev[i].session.id@;
                        }
                        lemma_no_hits_of(prev, id_h);
                        assert(hits_of(hits, id_h) =~= seq![h]);
                    }
                },
            }
        }
        assert forall|i: int| 0 <= i < hits.len() implies exists|k: int|
            0 <= k < groups.len() && (#[trigger] groups[k]).best_hit.session.id@ == (
            #[trigger] hits[i]).session.id@ by {
            if i < prev.len() {
                assert(hits[i] == prev[i]);
                let j = choose|j: int|
                    0 <= j < before.len() && (#[trigger] before[j]).best_hit.session.id@
                        == prev[i].session.id@;
                assert(groups[j].best_hit.session.id@ == before[j].best_hit.session.id@);
            } else {
                match group_position(before, id_h) {
                    Some(p) => {
                        assert(groups[p].best_hit.session.id@ == id_h);
                    },
                    None => {
                        assert(groups[before.len() as int].best_hit.session.id@ == id_h);
                    },
                }
            }
        }
    }
}

fn find_group(groups: &Vec<SessionGroup>, id: &str) -> (found: Option<usize>)
    ensures
        match found {
            Some(k) => group_position(groups@, id@) == Some(k as int) && k < groups.len(),
            None => group_position(groups@, id@) is None,
        },
{
    let mut i: usize = 0;
    while i < groups.len()
        invariant
            i <= groups.len(),
            group_position(groups@.take(i as int), id@) is None,
        decreases groups.len() - i,
    {
        proof {
            assert(groups@.take(i + 1).drop_last() =~= groups@.take(i as int));
        }
        if crate::text::str_eq(groups[i].best_hit.session.id.as_str(), id) {
            proof {
                lemma_position_is_stable(groups@, i + 1);
            }
            return Some(i);
        }
        i += 1;
    }
    assert(groups@.take(groups.len() as int) =~= groups@);
    None
}

proof fn lemma_position_is_stable(groups: Seq<SessionGroup>, n: int)
    requires
        0 <= n <= groups.len(),
        group_position(groups.take(n), groups[n - 1].best_hit.session.id@) is Some,
        n >= 1,
    ensures
        group_position(groups, groups[n - 1].best_hit.session.id@) == group_position(
            groups.take(n),
            groups[n - 1].best_hit.session.id@,
        ),
    decreases groups.len() - n,
{
    if n < groups.len() {
        let id = groups[n - 1].best_hit.session.id@;
        assert(groups.take(n + 1).drop_last() =~= groups.take(n));
        assert(groups.take(n + 1)[n - 1] == groups[n - 1]);
        lemma_position_extends(groups, n, id);
    } else {
        assert(groups.take(n) =~= groups);
    }
}

proof fn lemma_position_extends(groups: Seq<SessionGroup>, n: int, id: Seq<char>)
    requires
        0 <= n <= groups.len(),
        group_position(groups.take(n), id) is Some,
    ensures
        group_position(groups, id) == group_position(groups.take(n), id),
    decreases groups.len() - n,
{
    if n < groups.len() {
        assert(groups.take(n + 1).drop_last() =~= groups.take(n));
        lemma_position_extends(groups, n + 1, id);
    } else {
        assert(groups.take(n) =~= groups);
    }
}

/// Groups hits by session and keeps the best hit of each.
pub fn group_by_session(hits: Vec<SearchHit>) -> (groups: Vec<SessionGroup>)
    ensures
        groups@ == grouped(hits@),
        distinct_sessions(groups@),
        groups_summarize(groups@, hits@),
{
    let mut rest = hits;
    let mut stack: Vec<SearchHit> = Vec::new();
    while rest.len() > 0
        invariant
            rest.len() + stack.len() == hits.len(),
            rest@ == hits@.take(rest.len() as int),
            forall|k: int|
                0 <= k < stack.len() ==> #[trigger] stack@[k] == hits@[hits.len() - 1 - k],
        decreases rest.len(),
    {
        let hit = rest.pop().unwrap();
        stack.push(hit);
    }
    let mut groups: Vec<SessionGroup> = Vec::new();
    let ghost mut seen: int = 0;
    while stack.len() > 0
        invariant
            seen + stack.len() == hits.len(),
            0 <= seen,
            forall|k: int|
                0 <= k < stack.len() ==> #[trigger] stack@[k] == hits@[hits.len() - 1 - k],
            groups@ == grouped(hits@.take(seen)),
        decreases stack.len(),
    {
        let hit = stack.pop().unwrap();
        proof {
            assert(hit == hits@[seen]);
            assert(hits@.take(seen + 1).drop_last() =~= hits@.take(seen));
            lemma_grouped_sessions_are_distinct(hits@.take(seen));
            lemma_group_position(groups@, hit.session.id@);
        }
        match find_group(&groups, hit.session.id.as_str()) {
            Some(k) => {
                let ghost before = groups@;
                let old_group = groups.remove(k);
                let count = old_group.chunk_count + 1;
                let best = if hit.score > old_group.best_hit.score {
                    hit
                } else {
                    old_group.best_hit
                };
                groups.insert(k, SessionGroup { best_hit: best, chunk_count: count });
                assert(groups@ =~= before.update(k as int, absorbed(before[k as int], hit)));
            },
            None => {
                groups.push(SessionGroup { best_hit: hit, chunk_count: 1 });
            },
        }
        proof {
            seen = seen + 1;
        }
    }
    proof {
        assert(hits@.take(seen) =~= hits@);
        lemma_grouped_sessions_are_distinct(hits@);
        lemma_groups_summarize_sessions(hits@);
    }
    groups
}


/// Whether group `a` may stand before group `b`: its score is higher, or
/// the scores are equal and it matched at least as many chunks.
pub open spec fn ranks_before(a: SessionGroup, b: SessionGroup) -> bool {
    a.best_hit.score > b.best_hit.score || (a.best_hit.score == b.best_hit.score && a.chunk_count
        >= b.chunk_count)
}

/// Whether the groups stand best first.
pub open spec fn ranked(groups: Seq<SessionGroup>) -> bool {
    forall|i: int, j: int|
        0 <= i < j < groups.len() ==> ranks_before(#[trigger] groups[i], #[trigger] groups[j])
}

/// Whether `out` holds the items of `inp` in another order: item `k` of
/// `out` is item `perm[k]` of `inp`, and `perm` names every position once.
pub open spec fn is_rearrangement(
    out: Seq<SessionGroup>,
    inp: Seq<SessionGroup>,
    perm: Seq<int>,
) -> bool {
    &&& perm.len() == out.len()
    &&& out.len() == inp.len()
    &&& forall|k: int|
        0 <= k < perm.len() ==> 0 <= #[trigger] perm[k] < inp.len() && out[k] == inp[perm[k]]
    &&& forall|a: int, b: int| 0 <= a < b < perm.len() ==> #[trigger] perm[a] != #[trigger] perm[b]
}

fn outranks(a: &SessionGroup, b: &SessionGroup) -> (r: bool)
    ensures
        r == !ranks_before(*b, *a),
{
    a.best_hit.score > b.best_hit.score || (a.best_hit.score == b.best_hit.score && a.chunk_count
        > b.chunk_count)
}

/// Orders the groups best first: by score, then by the number of chunks.
pub fn rank_groups(groups: Vec<SessionGroup>) -> (out: Vec<SessionGroup>)
    ensures
        ranked(out@),
        exists|perm: Seq<int>| is_rearrangement(out@, groups@, perm),
        distinct_sessions(groups@) ==> distinct_sessions(out@),
{
    let mut rest = groups;
    let mut out: Vec<SessionGroup> = Vec::new();
    let ghost mut perm: Seq<int> = Seq::empty();
    while rest.len() > 0
        invariant
            rest@ == groups@.take(rest.len() as int),
            rest.len() <= groups.len(),
            ranked(out@),
            perm.len() == out.len(),
            out.len() + rest.len() == groups.len(),
            forall|k: int|
                0 <= k < perm.len() ==> rest.len() <= #[trigger] perm[k] < groups.len() && out@[k]
                    == groups@[perm[k]],
            forall|a: int, b: int|
                0 <= a < b < perm.len() ==> #[trigger] perm[a] != #[trigger] perm[b],
        decreases rest.len(),
    {
        let ghost from = rest.len() - 1;
        let group = rest.pop().unwrap();
        assert(group == groups@[from]);
        let mut pos: usize = 0;
        while pos < out.len() && !outranks(&group, &out[pos])
            invariant
                pos <= out.len(),
                forall|k: int| 0 <= k < pos ==> ranks_before(#[trigger] out@[k], group),
            decreases out.len() - pos,
        {
            pos += 1;
        }
        let ghost before = out@;
        let ghost old_perm = perm;
        out.insert(pos, group);
        proof {
            perm = old_perm.insert(pos as int, from);
            assert forall|k: int| 0 <= k < perm.len() implies rest.len() <= #[trigger] perm[k]
                < groups.len() && out@[k] == groups@[perm[k]] by {
                if k < pos {
                    assert(perm[k] == old_perm[k]);
                    assert(out@[k] == before[k]);
                } else if k > pos {
                    assert(perm[k] == old_perm[k - 1]);
                    assert(out@[k] == before[k - 1]);
                }
            }
            assert forall|a: int, b: int| 0 <= a < b < perm.len() implies #[trigger] perm[a]
                != #[trigger] perm[b] by {
                let pa = if a < pos {
                    a
                } else {
                    a - 1
                };
                let pb = if b < pos {
                    b
                } else {
                    b - 1
                };
                if a != pos && b != pos {
                    assert(perm[a] == old_perm[pa]);
                    assert(perm[b] == old_perm[pb]);
                } else if a == pos {
                    assert(perm[b] == old_perm[pb]);
                } else {
                    assert(perm[a] == old_perm[pa]);
                }
            }
            assert forall|i: int, j: int| 0 <= i < j < out@.len() implies ranks_before(
                #[trigger] out@[i],
                #[trigger] out@[j],
            ) by {
                let pi = if i < pos {
                    i
                } else {
                    i - 1
                };
                let pj = if j < pos {
                    j
                } else {
                    j - 1
                };
                if i != pos && j != pos {
                    assert(out@[i] == before[pi]);
                    assert(out@[j] == before[pj]);
                    assert(ranks_before(before[pi], before[pj]));
                } else if i == pos {
                    assert(out@[j] == before[pj]);
                    assert(!ranks_before(before[pos as int], group));
                    if pj > pos {
                        assert(ranks_before(before[pos as int], before[pj]));
                    }
                } else {
                    assert(out@[i] == before[pi]);
                    assert(ranks_before(before[pi], group));
                }
            }
        }
    }
    proof {
        assert(is_rearrangement(out@, groups@, perm));
        if distinct_sessions(groups@) {
            assert forall|i: int, j: int| 0 <= i < j < out@.len() implies (
            #[trigger] out@[i]).best_hit.session.id@ != (
            #[trigger] out@[j]).best_hit.session.id@ by {
                let a = perm[i];
                let b = perm[j];
                if a < b {
                    assert(groups@[a].best_hit.session.id@ != groups@[b].best_hit.session.id@);
                } else {
                    assert(groups@[b].best_hit.session.id@ != groups@[a].best_hit.session.id@);
                }
            }
        }
    }
    out
}

/// Where a page starts: at `offset`, or at the end when there are fewer items.
pub open spec fn page_start(len: nat, offset: nat) -> nat {
    if offset < len {
        offset
    } else {
        len
    }
}

/// Where a page ends: `limit` items after its start, or at the end.
pub open spec fn page_end(len: nat, offset: nat, limit: nat) -> nat {
    if page_start(len, offset) + limit < len {
        page_start(len, offset) + limit
    } else {
        len
    }
}

/// The best hits of the groups of one page.
pub open spec fn paged(groups: Seq<SessionGroup>, offset: nat, limit: nat) -> Seq<SearchHit> {
    groups.subrange(
        page_start(groups.len(), offset) as int,
        page_end(groups.len(), offset, limit) as int,
    ).map_values(|g: SessionGroup| g.best_hit)
}

/// Skips `offset` groups and returns the best hits of the next `limit`.
pub fn take_page(groups: Vec<SessionGroup>, offset: usize, limit: usize) -> (hits: Vec<SearchHit>)
    ensures
        hits@ == paged(groups@, offset as nat, limit as nat),
{
    let len = groups.len();
    let start = if offset < len {
        offset
    } else {
        len
    };
    let end = if limit < len - start {
        start + limit
    } else {
        len
    };
    let mut rest = groups;
    let mut back: Vec<SearchHit> = Vec::new();
    while rest.len() > start
        invariant
            start <= end <= len,
            len == groups.len(),
            start <= rest.len() <= len,
            rest@ == groups@.take(rest.len() as int),
            rest.len() >= end ==> back.len() == 0,
            rest.len() < end ==> back.len() == end - rest.len(),
            forall|k: int|
                0 <= k < back.len() ==> #[trigger] back@[k] == groups@[end - 1 - k].best_hit,
        decreases rest.len(),
    {
        let group = rest.pop().unwrap();
        if rest.len() < end {
            back.push(group.best_hit);
        }
    }
    let mut hits: Vec<SearchHit> = Vec::new();
    while back.len() > 0
        invariant
            start <= end <= len,
            len == groups.len(),
            hits.len() + back.len() == end - start,
            forall|k: int|
                0 <= k < back.len() ==> #[trigger] back@[k] == groups@[end - 1 - k].best_hit,
            forall|k: int| 0 <= k < hits.len() ==> #[trigger] hits@[k] == groups@[start + k].best_hit,
        decreases back.len(),
    {
        let hit = back.pop().unwrap();
        hits.push(hit);
    }
    assert(hits@ =~= paged(groups@, offset as nat, limit as nat));
    hits
}

/// What a response is for a list of engine hits: the page `offset..offset +
/// limit` of some best-first order of the hits' groups.
pub open spec fn is_response_to(
    response: SearchResponse,
    query: Seq<char>,
    hits: Seq<SearchHit>,
    limit: nat,
    offset: nat,
    processing_time_ms: u64,
) -> bool {
    &&& response.query@ == query
    &&& response.total_hits == grouped(hits).len()
    &&& response.processing_time_ms == processing_time_ms
    &&& exists|order: Seq<SessionGroup>, perm: Seq<int>|
        #![auto]
        is_rearrangement(order, grouped(hits), perm) && ranked(order) && response.hits@ == paged(
            order,
            offset,
            limit,
        )
}

/// Whether no two hits are of the same session.
pub open spec fn one_hit_per_session(hits: Seq<SearchHit>) -> bool {
    forall|i: int, j: int|
        0 <= i < j < hits.len() ==> (#[trigger] hits[i]).session.id@ != (
        #[trigger] hits[j]).session.id@
}

/// Whether no hit has a higher score than the one before it.
pub open spec fn scores_descend(hits: Seq<SearchHit>) -> bool {
    forall|i: int, j: int|
        0 <= i < j < hits.len() ==> (#[trigger] hits[i]).score >= (#[trigger] hits[j]).score
}

/// Groups the engine's hits by session, ranks the groups and returns one page.
///
/// The response holds at most one hit per session, at most `limit` hits, and
/// its scores never rise from one hit to the next.
pub fn rank_hits(
    query: &str,
    hits: Vec<SearchHit>,
    limit: usize,
    offset: usize,
    processing_time_ms: u64,
) -> (response: SearchResponse)
    ensures
        is_response_to(response, query@, hits@, limit as nat, offset as nat, processing_time_ms),
        one_hit_per_session(response.hits@),
        scores_descend(response.hits@),
        response.hits@.len() <= limit,
{
    let groups = group_by_session(hits);
    let total = groups.len();
    let order = rank_groups(groups);
    let ghost ordered = order@;
    let page = take_page(order, offset, limit);
    proof {
        let start = page_start(ordered.len(), offset as nat) as int;
        assert forall|i: int, j: int| 0 <= i < j < page@.len() implies (
        #[trigger] page@[i]).session.id@ != (#[trigger] page@[j]).session.id@ && page@[i].score
            >= page@[j].score by {
            assert(page@[i] == ordered[start + i].best_hit);
            assert(page@[j] == ordered[start + j].best_hit);
            assert(ranks_before(ordered[start + i], ordered[start + j]));
        }
    }
    SearchResponse { query: owned(query), hits: page, total_hits: total, processing_time_ms }
}


/// The integer that `key` names in a document, or zero.
pub open spec fn int_or_zero(result: JsonView, key: Seq<char>) -> i64 {
    match result.get(key) {
        Some(v) => match v.as_i64() {
            Some(n) => n,
            None => 0,
        },
        None => 0,
    }
}

/// The address of a session's page.
pub open spec fn session_url_of(hapi_url: Seq<char>, session_id: Seq<char>) -> Seq<char> {
    hapi_url + "/sessions/"@ + session_id
}

fn text_of(result: &Json, key: &str) -> (text: String)
    ensures
        text@ == result@.str_or_empty(key@),
{
    match result.str_at(key) {
        Some(s) => owned(s),
        None => String::new(),
    }
}

fn int_of(result: &Json, key: &str) -> (n: i64)
    ensures
        n == int_or_zero(result@, key@),
{
    match result.get(key) {
        Some(v) => match v.as_i64() {
            Some(n) => n,
            None => 0,
        },
        None => 0,
    }
}

/// The scores of an engine hit, each as a key that orders as the score does.
#[derive(Debug, Clone, Copy)]
pub struct ScoreKeys {
    /// The ranking score with the name boost added.
    pub score: u64,
    pub semantic_score: Option<u64>,
    pub keyword_score: Option<u64>,
}

/// The search service, without the engine and the embedder that it asks.
#[derive(Debug)]
pub struct SearchService {
    pub hapi_url: String,
}

impl SearchService {
    /// A service that links sessions under `hapi_url`, whose trailing
    /// slashes are dropped.
    pub fn new(hapi_url: &str) -> (service: Self)
        ensures
            service.hapi_url@ == without_trailing_slashes(hapi_url@),
    {
        SearchService { hapi_url: trim_trailing_slashes(hapi_url) }
    }

    /// How well the name of a hit's session matches a query.
    pub fn name_boost(result: &Json, query: &str) -> (boost: NameBoost)
        ensures
            (boost.matched as nat, boost.total as nat) == name_boost_of(
                result@.str_or_empty("sessionName"@),
                lowercased(query@),
            ),
            boost.matched <= boost.total,
    {
        let name = text_of(result, "sessionName");
        let query_lower = query.to_lowercase();
        compute_name_boost(name.as_str(), query_lower.as_str())
    }

    /// Builds a hit from a document of the engine: what the document does
    /// not name is empty or zero, and the session's page lies under the
    /// service's address.
    pub fn hit(&self, result: &Json, highlighted_text: String, scores: ScoreKeys) -> (hit:
        SearchHit)
        ensures
            hit.text == highlighted_text,
            hit.role@ == result@.str_or_empty("role"@),
            hit.message_id@ == result@.str_or_empty("messageId"@),
            hit.seq == int_or_zero(result@, "seq"@),
            hit.created_at == int_or_zero(result@, "createdAt"@),
            hit.session.id@ == result@.str_or_empty("sessionId"@),
            hit.session.name@ == result@.str_or_empty("sessionName"@),
            hit.session.path@ == result@.str_or_empty("sessionPath"@),
            hit.session.flavor@ == result@.str_or_empty("sessionFlavor"@),
            hit.session.url@ == session_url_of(self.hapi_url@, result@.str_or_empty("sessionId"@)),
            hit.score == scores.score,
            hit.semantic_score == scores.semantic_score,
            hit.keyword_score == scores.keyword_score,
    {
        let session_id = text_of(result, "sessionId");
        let mut url = self.hapi_url.clone();
        url.push_str("/sessions/");
        url.push_str(session_id.as_str());
        SearchHit {
            text: highlighted_text,
            role: text_of(result, "role"),
            message_id: text_of(result, "messageId"),
            seq: int_of(result, "seq"),
            created_at: int_of(result, "createdAt"),
            session: SearchHitSession {
                id: session_id,
                name: text_of(result, "sessionName"),
                path: text_of(result, "sessionPath"),
                flavor: text_of(result, "sessionFlavor"),
                url,
            },
            score: scores.score,
            semantic_score: scores.semantic_score,
            keyword_score: scores.keyword_score,
        }
    }

    /// Groups the engine's hits by session, ranks the groups and returns
    /// the page that was asked for.
    pub fn search(
        &self,
        query: &str,
        hits: Vec<SearchHit>,
        limit: usize,
        offset: usize,
        processing_time_ms: u64,
    ) -> (response: SearchResponse)
        ensures
            is_response_to(
                response,
                query@,
                hits@,
                limit as nat,
                offset as nat,
                processing_time_ms,
            ),
            one_hit_per_session(response.hits@),
            scores_descend(response.hits@),
            response.hits@.len() <= limit,
    {
        rank_hits(query, hits, limit, offset, processing_time_ms)
    }
}

} // verus!
