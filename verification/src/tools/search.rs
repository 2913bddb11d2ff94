//! Ranked search over the catalog.
//!
//! A query is put into lower case. A record whose category passes the filter
//! is a candidate where its name holds the query, with a score that favours
//! short names, or where the fuzzy matcher aligns the query with its name,
//! with the matcher's score. Candidates are ranked by score, the highest
//! first; candidates with equal scores keep the order of the catalog.

use vstd::prelude::*;
use vstd::utf8::encode_utf8;
use crate::engines::{fuzzy_match, fuzzy_score, lowercase_of, to_lowercase, FUZZY_LIMIT};
use crate::icon_index::IconIndex;
use crate::text::{contains_text, has_text, to_chars};
use crate::types::{
    summaries_of, text_of, IconInfo, IconInfoView, SearchIconInfo, SearchIconInfoView,
    SearchIconsParams, SearchIconsResult,
};

verus! {

/// A candidate with its score.
pub struct Scored {
    pub score: int,
    /// The position of the candidate's record in the catalog.
    pub position: int,
}

/// The query as it is matched: in lower case.
pub open spec fn normalized_query(query: Seq<char>) -> Seq<char> {
    if query.len() == 0 {
        query
    } else {
        lowercase_of(query)
    }
}

/// The score of a name that holds the query: 1000 and, on top of it, what
/// the name's length in bytes leaves of 100.
pub open spec fn containment_score(name: Seq<char>) -> int {
    1000 + (100 - encode_utf8(name).len())
}

/// The score of the fuzzy matcher for `name` and `query`. Texts beyond the
/// matcher's working range are not aligned.
pub open spec fn fuzzy_alignment(name: Seq<char>, query: Seq<char>) -> Option<int> {
    if name.len() <= FUZZY_LIMIT && query.len() <= FUZZY_LIMIT {
        match fuzzy_score(name, query) {
            Some(score) => Some(score as int),
            None => None,
        }
    } else {
        None
    }
}

/// The record passes the category filter.
pub open spec fn passes_filter(record: IconInfoView, filter: Option<Seq<char>>) -> bool {
    match filter {
        Some(category) => record.category == category,
        None => true,
    }
}

/// The score of `record` for the query `query`, already in lower case, under
/// the category filter `filter`; `None` where the record is no candidate.
pub open spec fn candidate_score(record: IconInfoView, query: Seq<char>, filter: Option<Seq<char>>) -> Option<
    int,
> {
    if !passes_filter(record, filter) {
        None
    } else if contains_text(record.name, query) {
        Some(containment_score(record.name))
    } else {
        fuzzy_alignment(record.name, query)
    }
}

/// The candidates among the first `n` records, in the order of the catalog.
pub open spec fn candidates(
    records: Seq<IconInfoView>,
    query: Seq<char>,
    filter: Option<Seq<char>>,
    n: int,
) -> Seq<Scored>
    decreases n,
{
    if 0 < n <= records.len() {
        let before = candidates(records, query, filter, n - 1);
        match candidate_score(records[n - 1], query, filter) {
            Some(score) => before.push(Scored { score, position: n - 1 }),
            None => before,
        }
    } else {
        Seq::empty()
    }
}

/// `x` ranks before `y`: by the higher score, or with equal scores by the
/// earlier position.
pub open spec fn ranks_before(x: Scored, y: Scored) -> bool {
    x.score > y.score || (x.score == y.score && x.position < y.position)
}

/// Every entry of `ranked` ranks before the entries behind it.
pub open spec fn is_ranked(ranked: Seq<Scored>) -> bool {
    forall|a: int, b: int| 0 <= a < b < ranked.len() ==> ranks_before(ranked[a], ranked[b])
}

/// The place at which a newcomer with the score `score` enters `ranked`:
/// behind the last entry whose score is not lower.
pub open spec fn entry_point(ranked: Seq<Scored>, score: int) -> int
    decreases ranked.len(),
{
    if ranked.len() == 0 {
        0
    } else if ranked.last().score >= score {
        ranked.len() as int
    } else {
        entry_point(ranked.drop_last(), score)
    }
}

/// The ranking of `scored`: the entries enter one by one in their order, each
/// behind the last entry whose score is not lower than its own.
pub open spec fn ranking(scored: Seq<Scored>) -> Seq<Scored>
    decreases scored.len(),
{
    if scored.len() == 0 {
        Seq::empty()
    } else {
        let ranked = ranking(scored.drop_last());
        ranked.insert(entry_point(ranked, scored.last().score), scored.last())
    }
}

/// What a search gives for the query `query`, already in lower case, under
/// the category filter `filter`: the candidates in the order of their ranking.
pub open spec fn search_results(
    records: Seq<IconInfoView>,
    query: Seq<char>,
    filter: Option<Seq<char>>,
) -> Seq<SearchIconInfoView> {
    let ranked = ranking(candidates(records, query, filter, records.len() as int));
    Seq::new(ranked.len(), |a: int| records[ranked[a].position].summary())
}

/// The positions of `scored` ascend and lie below `bound`.
pub open spec fn positions_ascend(scored: Seq<Scored>, bound: int) -> bool {
    &&& forall|a: int| 0 <= a < scored.len() ==> 0 <= (#[trigger] scored[a]).position < bound
    &&& forall|a: int, b: int|
        0 <= a < b < scored.len() ==> (#[trigger] scored[a]).position < (
        #[trigger] scored[b]).position
}

/// `ranked` holds the entries of `scored`, each once.
pub open spec fn same_entries(ranked: Seq<Scored>, scored: Seq<Scored>) -> bool {
    &&& ranked.len() == scored.len()
    &&& forall|k: int| 0 <= k < scored.len() ==> ranked.contains(#[trigger] scored[k])
    &&& forall|a: int| 0 <= a < ranked.len() ==> scored.contains(#[trigger] ranked[a])
}

/// Where a newcomer enters: behind entries whose score is not lower, before
/// entries whose score is lower.
pub proof fn lemma_entry_point(ranked: Seq<Scored>, score: int)
    requires
        is_ranked(ranked),
    ensures
        0 <= entry_point(ranked, score) <= ranked.len(),
        forall|a: int| 0 <= a < entry_point(ranked, score) ==> (#[trigger] ranked[a]).score >= score,
        forall|b: int|
            entry_point(ranked, score) <= b < ranked.len() ==> (#[trigger] ranked[b]).score < score,
    decreases ranked.len(),
{
    if ranked.len() == 0 {
    } else if ranked.last().score >= score {
        assert forall|a: int| 0 <= a < ranked.len() implies (#[trigger] ranked[a]).score
            >= score by {
            if a < ranked.len() - 1 {
                assert(ranks_before(ranked[a], ranked[ranked.len() - 1]));
            }
        }
    } else {
        let shorter = ranked.drop_last();
        assert forall|a: int, b: int| 0 <= a < b < shorter.len() implies ranks_before(
            shorter[a],
            shorter[b],
        ) by {
            assert(ranks_before(ranked[a], ranked[b]));
        }
        lemma_entry_point(shorter, score);
        let at = entry_point(shorter, score);
        assert forall|a: int| 0 <= a < at implies (#[trigger] ranked[a]).score >= score by {
            assert(shorter[a] == ranked[a]);
        }
        assert forall|b: int| at <= b < ranked.len() implies (#[trigger] ranked[b]).score
            < score by {
            if b < shorter.len() {
                assert(shorter[b] == ranked[b]);
            }
        }
    }
}

/// The ranking holds the entries that were ranked, each once, and every
/// entry of it ranks before the entries behind it.
pub proof fn lemma_ranking(scored: Seq<Scored>, bound: int)
    requires
        positions_ascend(scored, bound),
    ensures
        same_entries(ranking(scored), scored),
        is_ranked(ranking(scored)),
    decreases scored.len(),
{
    if scored.len() > 0 {
        let shorter = scored.drop_last();
        let last = scored.last();
        assert forall|a: int| 0 <= a < shorter.len() implies 0 <= (#[trigger] shorter[a]).position
            < last.position by {
            assert(shorter[a] == scored[a]);
        }
        assert forall|a: int, b: int| 0 <= a < b < shorter.len() implies (
        #[trigger] shorter[a]).position < (#[trigger] shorter[b]).position by {
            assert(shorter[a] == scored[a] && shorter[b] == scored[b]);
        }
        lemma_ranking(shorter, last.position);
        let ranked = ranking(shorter);
        lemma_entry_point(ranked, last.score);
        let at = entry_point(ranked, last.score);
        let grown = ranked.insert(at, last);
        assert(ranking(scored) == grown);
        assert forall|a: int| 0 <= a < ranked.len() implies (#[trigger] ranked[a]).position
            < last.position by {
            assert(shorter.contains(ranked[a]));
            let k = choose|k: int| 0 <= k < shorter.len() && shorter[k] == ranked[a];
            assert(0 <= shorter[k].position < last.position);
        }
        assert forall|a: int, b: int| 0 <= a < b < grown.len() implies ranks_before(
            grown[a],
            grown[b],
        ) by {
            if b < at {
                assert(grown[a] == ranked[a] && grown[b] == ranked[b]);
            } else if b == at {
                assert(grown[a] == ranked[a]);
            } else if a < at {
                assert(grown[a] == ranked[a] && grown[b] == ranked[b - 1]);
            } else if a == at {
                assert(grown[b] == ranked[b - 1]);
            } else {
                assert(grown[a] == ranked[a - 1] && grown[b] == ranked[b - 1]);
            }
        }
        assert forall|k: int| 0 <= k < scored.len() implies grown.contains(
            #[trigger] scored[k],
        ) by {
            if k < shorter.len() {
                assert(shorter[k] == scored[k]);
                assert(ranked.contains(shorter[k]));
                let a = choose|a: int| 0 <= a < ranked.len() && ranked[a] == shorter[k];
                if a < at {
                    assert(grown[a] == ranked[a]);
                } else {
                    assert(grown[a + 1] == ranked[a]);
                }
            } else {
                assert(grown[at] == last);
            }
        }
        assert forall|a: int| 0 <= a < grown.len() implies scored.contains(#[trigger] grown[a]) by {
            if a == at {
                assert(scored[scored.len() - 1] == last);
            } else {
                let before = if a < at {
                    a
                } else {
                    a - 1
                };
                assert(grown[a] == ranked[before]);
                assert(shorter.contains(ranked[before]));
                let k = choose|k: int| 0 <= k < shorter.len() && shorter[k] == ranked[before];
                assert(scored[k] == shorter[k]);
            }
        }
    }
}

/// The candidates are the records with a score, in the order of the catalog.
pub proof fn lemma_candidates(
    records: Seq<IconInfoView>,
    query: Seq<char>,
    filter: Option<Seq<char>>,
    n: int,
)
    requires
        0 <= n <= records.len(),
    ensures
        positions_ascend(candidates(records, query, filter, n), n),
        candidates(records, query, filter, n).len() <= n,
        forall|a: int|
            0 <= a < candidates(records, query, filter, n).len() ==> candidate_score(
                records[(#[trigger] candidates(records, query, filter, n)[a]).position],
                query,
                filter,
            ) == Some(candidates(records, query, filter, n)[a].score),
        forall|k: int|
            0 <= k < n && (#[trigger] candidate_score(records[k], query, filter)) is Some
                ==> candidates(records, query, filter, n).contains(
                Scored { score: candidate_score(records[k], query, filter)->0, position: k },
            ),
    decreases n,
{
    if n > 0 {
        lemma_candidates(records, query, filter, n - 1);
        let before = candidates(records, query, filter, n - 1);
        let all = candidates(records, query, filter, n);
        assert forall|a: int| 0 <= a < all.len() implies 0 <= (#[trigger] all[a]).position < n
            && candidate_score(records[all[a].position], query, filter) == Some(all[a].score) by {
            if a < before.len() {
                assert(all[a] == before[a]);
            }
        }
        assert forall|a: int, b: int| 0 <= a < b < all.len() implies (#[trigger] all[a]).position
            < (#[trigger] all[b]).position by {
            assert(all[a] == before[a]);
            if b < before.len() {
                assert(all[b] == before[b]);
            }
        }
        assert forall|k: int|
            0 <= k < n && (#[trigger] candidate_score(records[k], query, filter)) is Some implies all.contains(
            Scored { score: candidate_score(records[k], query, filter)->0, position: k },
        ) by {
            let entry = Scored { score: candidate_score(records[k], query, filter)->0, position: k };
            if k < n - 1 {
                assert(before.contains(entry));
                let a = choose|a: int| 0 <= a < before.len() && before[a] == entry;
                assert(all[a] == entry);
            } else {
                assert(all[all.len() - 1] == entry);
            }
        }
    }
}

/// Of two candidates, the one with the higher score stands first in the
/// ranking; with equal scores, the one that stands first in the catalog.
pub proof fn lemma_ranks_first(scored: Seq<Scored>, bound: int, x: Scored, y: Scored)
    requires
        positions_ascend(scored, bound),
        scored.contains(x),
        scored.contains(y),
        ranks_before(x, y),
    ensures
        exists|a: int, b: int|
            0 <= a < b < ranking(scored).len() && ranking(scored)[a] == x && ranking(scored)[b]
                == y,
{
    lemma_ranking(scored, bound);
    let ranked = ranking(scored);
    let kx = choose|k: int| 0 <= k < scored.len() && scored[k] == x;
    let ky = choose|k: int| 0 <= k < scored.len() && scored[k] == y;
    assert(ranked.contains(scored[kx]));
    assert(ranked.contains(scored[ky]));
    let a = choose|a: int| 0 <= a < ranked.len() && ranked[a] == x;
    let b = choose|b: int| 0 <= b < ranked.len() && ranked[b] == y;
    if b < a {
        assert(ranks_before(ranked[b], ranked[a]));
    }
    assert(a != b);
    assert(ranked[a] == x && ranked[b] == y);
}

/// The record at position `i` stands before the record at position `j` in
/// what a search gives.
pub open spec fn stands_before(
    records: Seq<IconInfoView>,
    query: Seq<char>,
    filter: Option<Seq<char>>,
    i: int,
    j: int,
) -> bool {
    let ranked = ranking(candidates(records, query, filter, records.len() as int));
    exists|a: int, b: int|
        0 <= a < b < ranked.len() && (#[trigger] ranked[a]).position == i && (
        #[trigger] ranked[b]).position == j
}

/// Of two candidates, the one with the higher score stands first in what a
/// search gives; with equal scores, the one that stands first in the catalog.
pub proof fn lemma_higher_score_first(
    records: Seq<IconInfoView>,
    query: Seq<char>,
    filter: Option<Seq<char>>,
    i: int,
    j: int,
)
    requires
        0 <= i < records.len(),
        0 <= j < records.len(),
        candidate_score(records[i], query, filter) matches Some(high) && candidate_score(
            records[j],
            query,
            filter,
        ) matches Some(low) && ranks_before(
            Scored { score: high, position: i },
            Scored { score: low, position: j },
        ),
    ensures
        stands_before(records, query, filter, i, j),
{
    let n = records.len() as int;
    let scored = candidates(records, query, filter, n);
    let x = Scored { score: candidate_score(records[i], query, filter)->0, position: i };
    let y = Scored { score: candidate_score(records[j], query, filter)->0, position: j };
    lemma_candidates(records, query, filter, n);
    lemma_ranks_first(scored, n, x, y);
    let ranked = ranking(scored);
    let (a, b) = choose|a: int, b: int|
        0 <= a < b < ranked.len() && ranked[a] == x && ranked[b] == y;
    assert(ranked[a].position == i && ranked[b].position == j);
}

/// A name that holds the query ranks above a name that the query only
/// aligns with, unless the fuzzy matcher scores the alignment as high as
/// the score of the holding name.
pub proof fn lemma_containment_before_alignment(
    records: Seq<IconInfoView>,
    query: Seq<char>,
    filter: Option<Seq<char>>,
    i: int,
    j: int,
)
    requires
        0 <= i < records.len(),
        0 <= j < records.len(),
        passes_filter(records[i], filter),
        passes_filter(records[j], filter),
        contains_text(records[i].name, query),
        !contains_text(records[j].name, query),
        fuzzy_alignment(records[j].name, query) matches Some(aligned) && ranks_before(
            Scored { score: containment_score(records[i].name), position: i },
            Scored { score: aligned, position: j },
        ),
    ensures
        stands_before(records, query, filter, i, j),
{
    lemma_higher_score_first(records, query, filter, i, j);
}

/// Of two names that hold the query, the one of fewer bytes ranks above the other.
pub proof fn lemma_shorter_name_first(
    records: Seq<IconInfoView>,
    query: Seq<char>,
    filter: Option<Seq<char>>,
    i: int,
    j: int,
)
    requires
        0 <= i < records.len(),
        0 <= j < records.len(),
        passes_filter(records[i], filter),
        passes_filter(records[j], filter),
        contains_text(records[i].name, query),
        contains_text(records[j].name, query),
        encode_utf8(records[i].name).len() < encode_utf8(records[j].name).len(),
    ensures
        stands_before(records, query, filter, i, j),
{
    lemma_higher_score_first(records, query, filter, i, j);
}

/// The number of records among the first `n` that pass the filter.
pub open spec fn count_passing(records: Seq<IconInfoView>, filter: Option<Seq<char>>, n: int) -> int
    decreases n,
{
    if 0 < n <= records.len() {
        count_passing(records, filter, n - 1) + if passes_filter(records[n - 1], filter) {
            1int
        } else {
            0int
        }
    } else {
        0
    }
}

/// Under the empty query the candidates are the records that pass the filter.
pub proof fn lemma_empty_query_candidates(
    records: Seq<IconInfoView>,
    filter: Option<Seq<char>>,
    n: int,
)
    requires
        0 <= n <= records.len(),
    ensures
        candidates(records, Seq::empty(), filter, n).len() == count_passing(records, filter, n),
        filter is None ==> count_passing(records, filter, n) == n,
        forall|k: int|
            0 <= k < n ==> (candidate_score(#[trigger] records[k], Seq::empty(), filter) is Some
                <==> passes_filter(records[k], filter)),
    decreases n,
{
    assert forall|k: int| 0 <= k < n implies (candidate_score(
        #[trigger] records[k],
        Seq::empty(),
        filter,
    ) is Some <==> passes_filter(records[k], filter)) by {
        let name = records[k].name;
        assert(name.subrange(0, 0) =~= Seq::<char>::empty());
        assert(crate::text::occurs_at(name, Seq::empty(), 0));
    }
    if n > 0 {
        lemma_empty_query_candidates(records, filter, n - 1);
    }
}

/// The empty query matches every record that passes the category filter, and
/// nothing else: the search gives each of these records, and as many entries
/// as there are such records; without a filter, as many as the catalog holds.
pub proof fn lemma_empty_query_matches_all(records: Seq<IconInfoView>, filter: Option<Seq<char>>)
    ensures
        search_results(records, Seq::empty(), filter).len() == count_passing(
            records,
            filter,
            records.len() as int,
        ),
        filter is None ==> search_results(records, Seq::empty(), filter).len() == records.len(),
        forall|k: int|
            0 <= k < records.len() && passes_filter(#[trigger] records[k], filter)
                ==> search_results(records, Seq::empty(), filter).contains(records[k].summary()),
        forall|a: int|
            0 <= a < search_results(records, Seq::empty(), filter).len() ==> exists|k: int|
                0 <= k < records.len() && passes_filter(#[trigger] records[k], filter)
                    && records[k].summary() == #[trigger] search_results(
                    records,
                    Seq::empty(),
                    filter,
                )[a],
{
    let n = records.len() as int;
    let query = Seq::<char>::empty();
    let scored = candidates(records, query, filter, n);
    let ranked = ranking(scored);
    let results = search_results(records, query, filter);
    lemma_empty_query_candidates(records, filter, n);
    lemma_candidates(records, query, filter, n);
    lemma_ranking(scored, n);
    assert forall|k: int|
        0 <= k < records.len() && passes_filter(#[trigger] records[k], filter) implies results.contains(
        records[k].summary(),
    ) by {
        let entry = Scored { score: candidate_score(records[k], query, filter)->0, position: k };
        assert(scored.contains(entry));
        let at = choose|at: int| 0 <= at < scored.len() && scored[at] == entry;
        assert(ranked.contains(scored[at]));
        let a = choose|a: int| 0 <= a < ranked.len() && ranked[a] == entry;
        assert(results[a] == records[k].summary());
    }
    assert forall|a: int| 0 <= a < results.len() implies exists|k: int|
        0 <= k < records.len() && passes_filter(#[trigger] records[k], filter)
            && records[k].summary() == #[trigger] results[a] by {
        assert(scored.contains(ranked[a]));
        let at = choose|at: int| 0 <= at < scored.len() && scored[at] == ranked[a];
        let k = scored[at].position;
        assert(candidate_score(records[k], query, filter) is Some);
        assert(passes_filter(records[k], filter));
    }
}

/// The candidates that a ranking in the making holds.
pub open spec fn scored_of(ranked: Seq<(i128, usize)>) -> Seq<Scored> {
    Seq::new(ranked.len(), |a: int| Scored { score: ranked[a].0 as int, position: ranked[a].1 as int })
}

/// Enters the candidate at `position` with the score `score` into the
/// ranking `ranked`: behind the last entry whose score is not lower.
pub fn enter_ranking(ranked: &mut Vec<(i128, usize)>, score: i128, position: usize)
    ensures
        scored_of(final(ranked)@) == scored_of(old(ranked)@).insert(
            entry_point(scored_of(old(ranked)@), score as int),
            Scored { score: score as int, position: position as int },
        ),
        final(ranked)@.len() == old(ranked)@.len() + 1,
{
    let ghost entries = scored_of(ranked@);
    let mut at: usize = ranked.len();
    assert(entries.take(at as int) =~= entries);
    while at > 0 && ranked[at - 1].0 < score
        invariant
            at <= ranked.len(),
            entries == scored_of(ranked@),
            ranked@ == old(ranked)@,
            entry_point(entries.take(at as int), score as int) == entry_point(
                entries,
                score as int,
            ),
        decreases at,
    {
        assert(entries.take(at as int).drop_last() =~= entries.take(at - 1));
        assert(entries.take(at as int).last() == entries[at - 1]);
        at -= 1;
    }
    proof {
        if at > 0 {
            assert(entries.take(at as int).last() == entries[at - 1]);
        }
        assert(entry_point(entries, score as int) == at);
    }
    ranked.insert(at, (score, position));
    assert(scored_of(ranked@) =~= entries.insert(
        at as int,
        Scored { score: score as int, position: position as int },
    ));
}

/// The score of the name `name` where it holds the query.
pub fn name_score(name: &str) -> (score: i128)
    ensures
        score == containment_score(name@),
{
    let length: usize = name.as_bytes().len();
    1000 + (100 - length as i128)
}

/// The score of `icon` for the query `query`, already in lower case, under
/// the category filter `filter`.
fn score_candidate(icon: &IconInfo, query: &str, query_chars: &[char], filter: &Option<String>) -> (score:
    Option<i128>)
    requires
        query_chars@ == query@,
    ensures
        match score {
            Some(score) => candidate_score(icon@, query@, text_of(*filter)) == Some(score as int),
            None => candidate_score(icon@, query@, text_of(*filter)) is None,
        },
{
    match filter {
        Some(category) => {
            if icon.category != *category {
                return None;
            }
        },
        None => {},
    }
    let name_chars = to_chars(icon.name.as_str());
    if has_text(name_chars.as_slice(), query_chars) {
        return Some(name_score(icon.name.as_str()));
    }
    if name_chars.len() <= FUZZY_LIMIT && query_chars.len() <= FUZZY_LIMIT {
        match fuzzy_match(icon.name.as_str(), query) {
            Some(score) => Some(score as i128),
            None => None,
        }
    } else {
        None
    }
}

/// Searches the catalog for the query `query`, taken as it is given, among
/// the records of the category `category`, or among all records where no
/// category is given. The matches come ranked, the best first, with their
/// number.
pub fn search_normalized(index: &IconIndex, query: &str, category: &Option<String>) -> (result:
    SearchIconsResult)
    ensures
        summaries_of(result.icons@) == search_results(index@, query@, text_of(*category)),
        result.total_matches == result.icons.len(),
        query@.len() == 0 && category is None ==> result.total_matches == index@.len(),
        query@.len() == 0 ==> forall|k: int|
            0 <= k < index@.len() && passes_filter(#[trigger] index@[k], text_of(*category))
                ==> summaries_of(result.icons@).contains(index@[k].summary()),
{
    let query_chars = to_chars(query);
    let icons = index.icons();
    let ghost records = index@;
    let ghost filter = text_of(*category);
    let mut ranked: Vec<(i128, usize)> = Vec::new();
    let mut n: usize = 0;
    assert(scored_of(ranked@) =~= ranking(candidates(records, query@, filter, 0)));
    while n < icons.len()
        invariant
            n <= icons.len(),
            records == crate::types::records_of(icons@),
            filter == text_of(*category),
            query_chars@ == query@,
            scored_of(ranked@) == ranking(candidates(records, query@, filter, n as int)),
            forall|a: int| 0 <= a < ranked.len() ==> (#[trigger] ranked[a]).1 < n,
        decreases icons.len() - n,
    {
        assert(records[n as int] == icons[n as int]@);
        match score_candidate(&icons[n], query, query_chars.as_slice(), category) {
            Some(score) => {
                let ghost before = ranked@;
                let ghost scored = candidates(records, query@, filter, n as int);
                enter_ranking(&mut ranked, score, n);
                proof {
                    let grown = candidates(records, query@, filter, n + 1);
                    assert(grown.drop_last() =~= scored);
                    lemma_candidates(records, query@, filter, n as int);
                    lemma_ranking(scored, n as int);
                    lemma_entry_point(scored_of(before), score as int);
                    let at = entry_point(scored_of(before), score as int);
                    assert forall|a: int| 0 <= a < ranked.len() implies (#[trigger] ranked[a]).1
                        < n + 1 by {
                        let entry = scored_of(ranked@)[a];
                        assert(entry.position == ranked[a].1);
                        if a < at {
                            assert(entry == scored_of(before)[a]);
                            assert(before[a].1 < n);
                        } else if a > at {
                            assert(entry == scored_of(before)[a - 1]);
                            assert(before[a - 1].1 < n);
                        }
                    }
                }
            },
            None => {},
        }
        n += 1;
    }
    let mut found: Vec<SearchIconInfo> = Vec::new();
    let mut a: usize = 0;
    while a < ranked.len()
        invariant
            a <= ranked.len(),
            found.len() == a,
            records == crate::types::records_of(icons@),
            forall|b: int| 0 <= b < ranked.len() ==> (#[trigger] ranked[b]).1 < icons.len(),
            forall|b: int|
                0 <= b < a ==> (#[trigger] found[b])@ == records[ranked[b].1 as int].summary(),
        decreases ranked.len() - a,
    {
        let icon = &icons[ranked[a].1];
        assert(records[ranked[a as int].1 as int] == icon@);
        found.push(
            SearchIconInfo {
                name: icon.name.clone(),
                rust_name: icon.rust_name.clone(),
                category: icon.category.clone(),
                import_path: icon.import_path.clone(),
            },
        );
        a += 1;
    }
    proof {
        assert(summaries_of(found@) =~= search_results(records, query@, filter));
        if query@.len() == 0 {
            assert(query@ =~= Seq::<char>::empty());
            lemma_empty_query_matches_all(records, filter);
        }
    }
    let total_matches = found.len();
    SearchIconsResult { icons: found, total_matches }
}

/// Searches the catalog for `params.query`, put into lower case, among the
/// records of the category `params.category`, or among all records where no
/// category is given. The matches come ranked, the best first, with their
/// number.
pub fn search_icons(index: &IconIndex, params: SearchIconsParams) -> (result: SearchIconsResult)
    ensures
        summaries_of(result.icons@) == search_results(
            index@,
            normalized_query(params.query@),
            text_of(params.category),
        ),
        result.total_matches == result.icons.len(),
        params.query@.len() == 0 && params.category is None ==> result.total_matches
            == index@.len(),
        params.query@.len() == 0 ==> forall|k: int|
            0 <= k < index@.len() && passes_filter(#[trigger] index@[k], text_of(params.category))
                ==> summaries_of(result.icons@).contains(index@[k].summary()),
{
    let query = if params.query.as_str().is_empty() {
        String::new()
    } else {
        to_lowercase(params.query.as_str())
    };
    assert(query@ =~= normalized_query(params.query@));
    search_normalized(index, query.as_str(), &params.category)
}

} // verus!
