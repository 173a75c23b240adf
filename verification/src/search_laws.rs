//! What lookup and keyword search come to, in terms of the names and descriptions that the stubs
//! have and of the positions at which a term stands in them.

use crate::catalog::{self, Entry, Stub};
use crate::laws;
use crate::mcp_deferred::DeferredMcpToolSet;
use crate::native_deferred::DeferredNativeToolSet;
use crate::text;
use crate::text_laws::{self, small_code};
use crate::tool::Tool;
use vstd::prelude::*;

verus! {

/// Whether a term stands in some text from position `at` on, ASCII case aside.
pub open spec fn stands_at(term: Seq<char>, s: Seq<char>, at: int) -> bool {
    &&& 0 <= at
    &&& at + term.len() <= s.len()
    &&& forall|k: int| 0 <= k < term.len() ==> (#[trigger] term[k]) as int == small_code(s[at + k])
}

/// Whether a term is the end of one text, a single space, and the start of another, ASCII case
/// aside.
pub open spec fn spans(term: Seq<char>, left: Seq<char>, right: Seq<char>, cut: int) -> bool {
    &&& 0 <= cut < term.len()
    &&& term[cut] == ' '
    &&& cut <= left.len()
    &&& term.len() - cut - 1 <= right.len()
    &&& forall|k: int|
        0 <= k < cut ==> (#[trigger] term[k]) as int == small_code(left[left.len() - cut + k])
    &&& forall|k: int|
        cut < k < term.len() ==> (#[trigger] term[k]) as int == small_code(right[k - cut - 1])
}

/// Whether a term stands in an entry: anywhere in the whole of its name, anywhere in the whole of
/// its description, or across the single space that parts the two.
pub open spec fn stands_in(term: Seq<char>, entry: Entry) -> bool {
    ||| exists|at: int| stands_at(term, entry.name, at)
    ||| exists|at: int| stands_at(term, entry.description, at)
    ||| exists|cut: int| spans(term, entry.name, entry.description, cut)
}

/// How many terms of a list stand in an entry, each counted as often as it is listed.
pub open spec fn standing(terms: Seq<Seq<char>>, entry: Entry) -> nat
    decreases terms.len(),
{
    if terms.len() == 0 {
        0
    } else {
        standing(terms.drop_last(), entry) + if stands_in(terms.last(), entry) {
            1nat
        } else {
            0nat
        }
    }
}

/// How many entries of a catalog have at least one of the terms.
pub open spec fn matching(terms: Seq<Seq<char>>, entries: Seq<Entry>) -> nat
    decreases entries.len(),
{
    if entries.len() == 0 {
        0
    } else {
        matching(terms, entries.drop_last()) + if standing(terms, entries.last()) > 0 {
            1nat
        } else {
            0nat
        }
    }
}

/// How many entries before position `i` have as many of the terms as the entry there.
pub open spec fn peers_before(terms: Seq<Seq<char>>, entries: Seq<Entry>, i: int, end: int) -> nat
    decreases end,
{
    if end <= 0 {
        0
    } else {
        peers_before(terms, entries, i, end - 1) + if standing(terms, entries[end - 1]) == standing(
            terms,
            entries[i],
        ) {
            1nat
        } else {
            0nat
        }
    }
}

/// A term occurs in an entry exactly where it stands at some position of the entry's name or
/// description, or across the space between them.
pub proof fn law_term_is_looked_for_everywhere(term: Seq<char>, entry: Entry)
    ensures
        text::occurs(term, catalog::haystack(entry)) <==> stands_in(term, entry),
{
    let hay = catalog::haystack(entry);
    let m = entry.name.len() as int;
    let n = entry.description.len() as int;
    let size = term.len() as int;
    text_laws::law_letters_made_small_one_by_one(entry.name);
    text_laws::law_letters_made_small_one_by_one(entry.description);
    assert(hay.len() == m + 1 + n);
    assert(forall|i: int| 0 <= i < m ==> (#[trigger] hay[i]) as int == small_code(entry.name[i]));
    assert(hay[m] == ' ');
    assert forall|i: int| m < i < hay.len() implies (#[trigger] hay[i]) as int == small_code(
        entry.description[i - m - 1],
    ) by {
        assert(hay[i] == text::lowered(entry.description)[i - m - 1]);
    }
    if text::occurs(term, hay) {
        let at = choose|at: int| text::occurs_at(term, hay, at);
        let part = hay.subrange(at, at + size);
        assert(forall|k: int| 0 <= k < size ==> #[trigger] term[k] == hay[at + k]) by {
            assert(forall|k: int| 0 <= k < size ==> #[trigger] part[k] == hay[at + k]);
        }
        if at + size <= m {
            assert(stands_at(term, entry.name, at));
        } else if at > m {
            assert(stands_at(term, entry.description, at - m - 1));
        } else {
            assert(spans(term, entry.name, entry.description, m - at));
        }
    }
    if stands_in(term, entry) {
        if exists|at: int| stands_at(term, entry.name, at) {
            let at = choose|at: int| stands_at(term, entry.name, at);
            assert forall|k: int| 0 <= k < size implies hay.subrange(at, at + size)[k]
                == term[k] by {
                assert(hay[at + k] as int == small_code(entry.name[at + k]));
                assert(term[k] as int == hay[at + k] as int);
            }
            assert(hay.subrange(at, at + size) =~= term);
            assert(text::occurs_at(term, hay, at));
        } else if exists|at: int| stands_at(term, entry.description, at) {
            let at = choose|at: int| stands_at(term, entry.description, at);
            let from = at + m + 1;
            assert forall|k: int| 0 <= k < size implies hay.subrange(from, from + size)[k]
                == term[k] by {
                assert(hay[from + k] as int == small_code(entry.description[at + k]));
                assert(term[k] as int == hay[from + k] as int);
            }
            assert(hay.subrange(from, from + size) =~= term);
            assert(text::occurs_at(term, hay, from));
        } else {
            let cut = choose|cut: int| spans(term, entry.name, entry.description, cut);
            let from = m - cut;
            assert forall|k: int| 0 <= k < size implies hay.subrange(from, from + size)[k]
                == term[k] by {
                if k < cut {
                    assert(hay[from + k] as int == small_code(entry.name[m - cut + k]));
                    assert(term[k] as int == hay[from + k] as int);
                } else if k > cut {
                    assert(hay[from + k] as int == small_code(entry.description[k - cut - 1]));
                    assert(term[k] as int == hay[from + k] as int);
                }
            }
            assert(hay.subrange(from, from + size) =~= term);
            assert(text::occurs_at(term, hay, from));
        }
    }
}

/// An entry counts every term that stands in it, each time it is listed, and no other.
pub proof fn law_every_term_counts(terms: Seq<Seq<char>>, entry: Entry)
    ensures
        catalog::hits(terms, entry) == standing(terms, entry),
        standing(terms, entry) <= terms.len(),
    decreases terms.len(),
{
    reveal(Seq::filter);
    if terms.len() > 0 {
        law_every_term_counts(terms.drop_last(), entry);
        law_term_is_looked_for_everywhere(terms.last(), entry);
    }
}

/// For a query without white space an entry counts one hit exactly where the query, in small
/// letters, stands in its name or in its description. No space can stand in such a query, so it
/// never reaches from the one into the other.
pub proof fn law_one_term_query(query: Seq<char>, entry: Entry)
    requires
        query.len() > 0,
        text_laws::solid(query),
    ensures
        ({
            let hits = catalog::hits(catalog::terms_of(query), entry);
            let small = |s: Seq<char>, at: int|
                0 <= at && at + query.len() <= s.len() && forall|k: int|
                    0 <= k < query.len() ==> small_code(#[trigger] query[k]) == small_code(
                        s[at + k],
                    );
            &&& hits <= 1
            &&& hits == 1 <==> (exists|at: int| #[trigger] small(entry.name, at)) || (exists|at: int|
                #[trigger] small(entry.description, at))
        }),
{
    let small = |s: Seq<char>, at: int|
        0 <= at && at + query.len() <= s.len() && forall|k: int|
            0 <= k < query.len() ==> small_code(#[trigger] query[k]) == small_code(s[at + k]);
    let terms = catalog::terms_of(query);
    let term = terms[0];
    text_laws::law_solid_query_is_one_term(query);
    law_every_term_counts(terms, entry);
    assert(terms.drop_last() =~= Seq::empty());
    assert(standing(terms.drop_last(), entry) == 0);
    assert forall|s: Seq<char>, at: int| #[trigger] stands_at(term, s, at) == small(s, at) by {
        if stands_at(term, s, at) {
            assert forall|k: int| 0 <= k < query.len() implies small_code(#[trigger] query[k])
                == small_code(s[at + k]) by {
                assert(term[k] as int == small_code(query[k]));
            }
        }
        if small(s, at) {
            assert forall|k: int| 0 <= k < term.len() implies (#[trigger] term[k]) as int
                == small_code(s[at + k]) by {
                assert(small_code(query[k]) == small_code(s[at + k]));
            }
        }
    }
    assert forall|cut: int| !(#[trigger] spans(term, entry.name, entry.description, cut)) by {
        if 0 <= cut < term.len() && term[cut] == ' ' {
            assert(small_code(query[cut]) == 32);
            assert(text::white(query[cut]));
        }
    }
    if stands_in(term, entry) {
        if exists|at: int| stands_at(term, entry.name, at) {
            let at = choose|at: int| stands_at(term, entry.name, at);
            assert(small(entry.name, at));
        } else {
            let at = choose|at: int| stands_at(term, entry.description, at);
            assert(small(entry.description, at));
        }
    }
    if exists|at: int| #[trigger] small(entry.name, at) {
        let at = choose|at: int| #[trigger] small(entry.name, at);
        assert(stands_at(term, entry.name, at));
    }
    if exists|at: int| #[trigger] small(entry.description, at) {
        let at = choose|at: int| #[trigger] small(entry.description, at);
        assert(stands_at(term, entry.description, at));
    }
}

/// How many scores lie from 1 to `top`.
pub(crate) open spec fn upto(scores: Seq<nat>, top: nat) -> nat
    decreases scores.len(),
{
    if scores.len() == 0 {
        0
    } else {
        upto(scores.drop_last(), top) + if 0 < scores.last() <= top {
            1nat
        } else {
            0nat
        }
    }
}

/// The scores up to a bound are those at the bound and those below it.
pub(crate) proof fn lemma_upto_step(scores: Seq<nat>, top: nat)
    requires
        top > 0,
    ensures
        upto(scores, top) == catalog::with_score(scores, top).len() + upto(
            scores,
            (top - 1) as nat,
        ),
    decreases scores.len(),
{
    if scores.len() > 0 {
        lemma_upto_step(scores.drop_last(), top);
    }
}

/// No score lies from 1 to 0.
pub(crate) proof fn lemma_upto_zero(scores: Seq<nat>)
    ensures
        upto(scores, 0) == 0,
    decreases scores.len(),
{
    if scores.len() > 0 {
        lemma_upto_zero(scores.drop_last());
    }
}

/// The rankings hold every position with a score up to the bound once.
pub(crate) proof fn lemma_ranking_size(first: Seq<nat>, second: Seq<nat>, top: nat)
    ensures
        catalog::best_first(first, top).len() == upto(first, top),
        catalog::best_of_both(first, second, top).len() == upto(first, top) + upto(second, top),
    decreases top,
{
    if top == 0 {
        lemma_upto_zero(first);
        lemma_upto_zero(second);
    } else {
        lemma_ranking_size(first, second, (top - 1) as nat);
        lemma_upto_step(first, top);
        lemma_upto_step(second, top);
    }
}

/// The entries with at least one of the terms are those with a score from 1 to the number of
/// terms.
pub(crate) proof fn lemma_matching(terms: Seq<Seq<char>>, entries: Seq<Entry>)
    ensures
        matching(terms, entries) == upto(catalog::scores(terms, entries), terms.len()),
    decreases entries.len(),
{
    if entries.len() > 0 {
        lemma_matching(terms, entries.drop_last());
        law_every_term_counts(terms, entries.last());
        assert(catalog::scores(terms, entries).drop_last() =~= catalog::scores(
            terms,
            entries.drop_last(),
        ));
    }
}

/// Whether one position of a catalog ranks before another for some terms: more of the terms stand
/// in its entry, or equally many, and it stands first.
pub open spec fn ranks_ahead(terms: Seq<Seq<char>>, entries: Seq<Entry>, i: int, j: int) -> bool {
    let m = standing(terms, entries[i]);
    let n = standing(terms, entries[j]);
    m > n || (m == n && i < j)
}

/// A search of one catalog returns exactly as many entries as asked for, or as match where fewer
/// do. Each of them has one of the terms, they stand in the order of the ranking, and no entry
/// that matches and is left out ranks before one that is returned.
pub proof fn law_search_returns_the_best(entries: Seq<Entry>, query: Seq<char>, max_results: nat)
    requires
        catalog::terms_of(query).len() > 0,
    ensures
        ({
            let terms = catalog::terms_of(query);
            let at = catalog::found(entries, query, max_results);
            &&& at.len() == if max_results < matching(terms, entries) {
                max_results
            } else {
                matching(terms, entries)
            }
            &&& forall|a: int|
                0 <= a < at.len() ==> 0 <= #[trigger] at[a] < entries.len() && standing(
                    terms,
                    entries[at[a]],
                ) > 0
            &&& forall|a: int, b: int|
                0 <= a < b < at.len() ==> ranks_ahead(
                    terms,
                    entries,
                    #[trigger] at[a],
                    #[trigger] at[b],
                )
            &&& forall|a: int, i: int|
                0 <= a < at.len() && 0 <= i < entries.len() && #[trigger] standing(
                    terms,
                    entries[i],
                ) > 0 && !at.contains(i) ==> ranks_ahead(terms, entries, #[trigger] at[a], i)
        }),
{
    let terms = catalog::terms_of(query);
    let scores = catalog::scores(terms, entries);
    let at = catalog::found(entries, query, max_results);
    lemma_ranking_size(scores, scores, terms.len());
    lemma_matching(terms, entries);
    laws::law_search_ranks_by_matches(entries, query, max_results);
    assert forall|i: int| 0 <= i < entries.len() implies #[trigger] standing(terms, entries[i])
        == catalog::hits(terms, entries[i]) by {
        law_every_term_counts(terms, entries[i]);
    }
    assert forall|a: int| 0 <= a < at.len() implies 0 <= #[trigger] at[a] < entries.len()
        && standing(terms, entries[at[a]]) > 0 by {
        law_every_term_counts(terms, entries[at[a]]);
    }
    assert forall|a: int, b: int| 0 <= a < b < at.len() implies ranks_ahead(
        terms,
        entries,
        #[trigger] at[a],
        #[trigger] at[b],
    ) by {
        assert(laws::ranks_before(terms, entries, at[a], at[b]));
        law_every_term_counts(terms, entries[at[a]]);
        law_every_term_counts(terms, entries[at[b]]);
    }
    assert forall|a: int, i: int|
        0 <= a < at.len() && 0 <= i < entries.len() && #[trigger] standing(terms, entries[i]) > 0
            && !at.contains(i) implies ranks_ahead(terms, entries, #[trigger] at[a], i) by {
        assert(catalog::hits(terms, entries[i]) > 0);
        assert(laws::ranks_before(terms, entries, at[a], i));
        law_every_term_counts(terms, entries[at[a]]);
    }
}

/// A larger limit only adds to what a search finds.
pub proof fn law_larger_limit_extends_the_results(
    first: Seq<Entry>,
    second: Seq<Entry>,
    query: Seq<char>,
    fewer: nat,
    more: nat,
)
    requires
        fewer <= more,
    ensures
        catalog::found(first, query, fewer).is_prefix_of(catalog::found(first, query, more)),
        catalog::names_in_both(first, second, query, fewer).is_prefix_of(
            catalog::names_in_both(first, second, query, more),
        ),
{
    let few = catalog::found(first, query, fewer);
    let many = catalog::found(first, query, more);
    assert(few =~= many.subrange(0, few.len() as int));
    let few = catalog::names_in_both(first, second, query, fewer);
    let many = catalog::names_in_both(first, second, query, more);
    assert(few =~= many.subrange(0, few.len() as int));
}

/// How many of the terms stand in the entry at a position in two catalogs.
pub open spec fn standing_at(
    terms: Seq<Seq<char>>,
    first: Seq<Entry>,
    second: Seq<Entry>,
    at: (bool, int),
) -> nat {
    standing(
        terms,
        if at.0 {
            second[at.1]
        } else {
            first[at.1]
        },
    )
}

/// How many entries of the same catalog stand before a position and have as many of the terms.
pub open spec fn turn_of(
    terms: Seq<Seq<char>>,
    first: Seq<Entry>,
    second: Seq<Entry>,
    at: (bool, int),
) -> nat {
    if at.0 {
        peers_before(terms, second, at.1, at.1)
    } else {
        peers_before(terms, first, at.1, at.1)
    }
}

/// Whether one position in two catalogs ranks before another. More of the terms stand in its
/// entry; or equally many do, and it is its catalog's turn: fewer equal entries of its catalog
/// stand before it, or as many and it is from the first catalog.
pub open spec fn ranks_ahead_of_both(
    terms: Seq<Seq<char>>,
    first: Seq<Entry>,
    second: Seq<Entry>,
    p: (bool, int),
    q: (bool, int),
) -> bool {
    let m = standing_at(terms, first, second, p);
    let n = standing_at(terms, first, second, q);
    let i = turn_of(terms, first, second, p);
    let j = turn_of(terms, first, second, q);
    m > n || (m == n && (i < j || (i == j && !p.0 && q.0)))
}

/// A position stands among those with its score behind as many as come before it.
pub(crate) proof fn lemma_turn(scores: Seq<nat>, score: nat, k: int)
    requires
        0 <= k < catalog::with_score(scores, score).len(),
    ensures
        ({
            let i = catalog::with_score(scores, score)[k];
            &&& 0 <= i < scores.len()
            &&& scores[i] == score
            &&& catalog::with_score(scores.take(i), score).len() == k
        }),
    decreases scores.len(),
{
    if scores.len() > 0 {
        let before = catalog::with_score(scores.drop_last(), score);
        let i = catalog::with_score(scores, score)[k];
        if k < before.len() {
            lemma_turn(scores.drop_last(), score, k);
            assert(scores.drop_last().take(i) =~= scores.take(i));
        } else {
            assert(scores.take(i) =~= scores.drop_last());
        }
    }
}

/// The peers before a position are those with its score.
pub(crate) proof fn lemma_peers(terms: Seq<Seq<char>>, entries: Seq<Entry>, i: int, end: int)
    requires
        0 <= i < entries.len(),
        0 <= end <= entries.len(),
    ensures
        peers_before(terms, entries, i, end) == catalog::with_score(
            catalog::scores(terms, entries).take(end),
            catalog::hits(terms, entries[i]),
        ).len(),
    decreases end,
{
    let scores = catalog::scores(terms, entries);
    if end > 0 {
        lemma_peers(terms, entries, i, end - 1);
        law_every_term_counts(terms, entries[end - 1]);
        law_every_term_counts(terms, entries[i]);
        assert(scores.take(end).drop_last() =~= scores.take(end - 1));
        assert(scores.take(end).last() == catalog::hits(terms, entries[end - 1]));
    }
}

/// Which turn a position takes among those with its score in its catalog.
pub(crate) open spec fn turn(first: Seq<nat>, second: Seq<nat>, at: (bool, int)) -> nat {
    if at.0 {
        catalog::with_score(second.take(at.1), second[at.1]).len()
    } else {
        catalog::with_score(first.take(at.1), first[at.1]).len()
    }
}

/// Among equal scores the two catalogs take turns.
pub(crate) proof fn lemma_turns(first: Seq<nat>, second: Seq<nat>, score: nat, a: int, b: int)
    requires
        0 <= a < b < catalog::with_score_in_both(first, second, score).len(),
    ensures
        ({
            let p = catalog::with_score_in_both(first, second, score)[a];
            let q = catalog::with_score_in_both(first, second, score)[b];
            let i = turn(first, second, p);
            let j = turn(first, second, q);
            i < j || (i == j && !p.0 && q.0)
        }),
{
    let m = catalog::with_score(first, score);
    let n = catalog::with_score(second, score);
    let paired = if m.len() < n.len() {
        m.len()
    } else {
        n.len()
    };
    let all = catalog::with_score_in_both(first, second, score);
    let ka = if a < 2 * paired {
        a / 2
    } else {
        a - paired
    };
    let kb = if b < 2 * paired {
        b / 2
    } else {
        b - paired
    };
    lemma_turn_of_place(first, second, score, a);
    lemma_turn_of_place(first, second, score, b);
    assert(turn(first, second, all[a]) == ka);
    assert(turn(first, second, all[b]) == kb);
    if ka == kb {
        assert(b < 2 * paired);
        assert(a % 2 == 0 && b % 2 == 1);
    }
}

/// The turn of the position at a place among those with one score.
pub(crate) proof fn lemma_turn_of_place(first: Seq<nat>, second: Seq<nat>, score: nat, a: int)
    requires
        0 <= a < catalog::with_score_in_both(first, second, score).len(),
    ensures
        ({
            let m = catalog::with_score(first, score).len();
            let n = catalog::with_score(second, score).len();
            let paired = if m < n {
                m
            } else {
                n
            };
            turn(first, second, catalog::with_score_in_both(first, second, score)[a]) == if a < 2
                * paired {
                a / 2
            } else {
                a - paired
            }
        }),
{
    let m = catalog::with_score(first, score);
    let n = catalog::with_score(second, score);
    let paired = if m.len() < n.len() {
        m.len()
    } else {
        n.len()
    };
    let all = catalog::with_score_in_both(first, second, score);
    let k = if a < 2 * paired {
        a / 2
    } else {
        a - paired
    };
    if (a < 2 * paired && a % 2 == 0) || (a >= 2 * paired && m.len() > paired) {
        lemma_turn(first, score, k);
        assert(all[a] == (false, m[k]));
    } else {
        lemma_turn(second, score, k);
        assert(all[a] == (true, n[k]));
    }
}

/// The order of the joint ranking.
pub(crate) proof fn lemma_joint_order(first: Seq<nat>, second: Seq<nat>, top: nat, a: int, b: int)
    requires
        0 <= a < b < catalog::best_of_both(first, second, top).len(),
    ensures
        ({
            let p = catalog::best_of_both(first, second, top)[a];
            let q = catalog::best_of_both(first, second, top)[b];
            let i = turn(first, second, p);
            let j = turn(first, second, q);
            let m = catalog::item_at(first, second, p);
            let n = catalog::item_at(first, second, q);
            m > n || (m == n && (i < j || (i == j && !p.0 && q.0)))
        }),
    decreases top,
{
    let here = catalog::with_score_in_both(first, second, top);
    let rest = catalog::best_of_both(first, second, (top - 1) as nat);
    let all = catalog::best_of_both(first, second, top);
    catalog::lemma_with_score_in_both(first, second, top);
    catalog::lemma_best_of_both(first, second, (top - 1) as nat);
    if b < here.len() {
        lemma_turns(first, second, top, a, b);
        assert(all[a] == here[a] && all[b] == here[b]);
    } else {
        assert(all[b] == rest[b - here.len()]);
        if a < here.len() {
            assert(all[a] == here[a]);
        } else {
            assert(all[a] == rest[a - here.len()]);
            lemma_joint_order(first, second, (top - 1) as nat, a - here.len(), b - here.len());
        }
    }
}

/// Whether some names are the right result of a search over two catalogs for some terms, with a
/// limit. They are the names of distinct positions, as many as asked for, or as match where fewer
/// do. Each of these has one of the terms, they stand in the order of the joint ranking, and
/// nothing that matches and is left out ranks before one of them.
pub open spec fn are_the_best(
    terms: Seq<Seq<char>>,
    first: Seq<Entry>,
    second: Seq<Entry>,
    max_results: nat,
    names: Seq<Seq<char>>,
) -> bool {
    let total = matching(terms, first) + matching(terms, second);
    &&& names.len() == if max_results < total {
        max_results
    } else {
        total
    }
    &&& exists|at: Seq<(bool, int)>| #[trigger]
        are_best_places(terms, first, second, at) && at.len() == names.len() && forall|a: int|
            0 <= a < at.len() ==> #[trigger] names[a] == if at[a].0 {
                second[at[a].1].name
            } else {
                first[at[a].1].name
            }
}

/// Whether some positions in two catalogs are the best ones for some terms, in order.
pub open spec fn are_best_places(
    terms: Seq<Seq<char>>,
    first: Seq<Entry>,
    second: Seq<Entry>,
    at: Seq<(bool, int)>,
) -> bool {
    &&& forall|a: int|
        0 <= a < at.len() ==> 0 <= (#[trigger] at[a]).1 < (if at[a].0 {
            second.len()
        } else {
            first.len()
        }) && standing_at(terms, first, second, at[a]) > 0
    &&& forall|a: int, b: int|
        0 <= a < b < at.len() ==> ranks_ahead_of_both(
            terms,
            first,
            second,
            #[trigger] at[a],
            #[trigger] at[b],
        )
    &&& forall|a: int, p: (bool, int)|
        0 <= a < at.len() && 0 <= p.1 < (if p.0 {
            second.len()
        } else {
            first.len()
        }) && #[trigger] standing_at(terms, first, second, p) > 0 && !at.contains(p)
            ==> ranks_ahead_of_both(terms, first, second, #[trigger] at[a], p)
}

/// A search over two catalogs returns the best of both together.
pub proof fn law_joint_search_returns_the_best(
    first: Seq<Entry>,
    second: Seq<Entry>,
    query: Seq<char>,
    max_results: nat,
)
    ensures
        are_the_best(
            catalog::terms_of(query),
            first,
            second,
            max_results,
            catalog::names_in_both(first, second, query, max_results),
        ),
{
    let terms = catalog::terms_of(query);
    let m = catalog::scores(terms, first);
    let n = catalog::scores(terms, second);
    let all = catalog::best_of_both(m, n, terms.len());
    let at = catalog::found_in_both(first, second, query, max_results);
    let names = catalog::names_in_both(first, second, query, max_results);
    lemma_ranking_size(m, n, terms.len());
    lemma_matching(terms, first);
    lemma_matching(terms, second);
    catalog::lemma_best_of_both(m, n, terms.len());
    assert forall|a: int| 0 <= a < all.len() implies 0 <= (#[trigger] all[a]).1 < (if all[a].0 {
        second.len()
    } else {
        first.len()
    }) && standing_at(terms, first, second, all[a]) > 0 by {
        assert(catalog::is_place(m, n, all[a]));
        lemma_place(terms, first, second, all[a]);
    }
    assert forall|a: int, b: int| 0 <= a < b < all.len() implies ranks_ahead_of_both(
        terms,
        first,
        second,
        #[trigger] all[a],
        #[trigger] all[b],
    ) by {
        assert(catalog::is_place(m, n, all[a]) && catalog::is_place(m, n, all[b]));
        lemma_place(terms, first, second, all[a]);
        lemma_place(terms, first, second, all[b]);
        lemma_joint_order(m, n, terms.len(), a, b);
    }
    assert(forall|a: int| 0 <= a < at.len() ==> #[trigger] at[a] == all[a]);
    assert forall|a: int, p: (bool, int)|
        0 <= a < at.len() && 0 <= p.1 < (if p.0 {
            second.len()
        } else {
            first.len()
        }) && #[trigger] standing_at(terms, first, second, p) > 0 && !at.contains(
            p,
        ) implies ranks_ahead_of_both(terms, first, second, #[trigger] at[a], p) by {
        lemma_place(terms, first, second, p);
        assert(catalog::is_place(m, n, p));
        assert(all.contains(p));
        let k = all.index_of(p);
        assert(all[k] == p);
        if k < at.len() {
            assert(at[k] == p);
        }
        assert(ranks_ahead_of_both(terms, first, second, all[a], all[k]));
    }
    assert(are_best_places(terms, first, second, at));
}

/// The score and the turn of a position are the terms in its entry and its peers before it.
pub(crate) proof fn lemma_place(
    terms: Seq<Seq<char>>,
    first: Seq<Entry>,
    second: Seq<Entry>,
    at: (bool, int),
)
    requires
        0 <= at.1 < if at.0 {
            second.len()
        } else {
            first.len()
        },
    ensures
        ({
            let m = catalog::scores(terms, first);
            let n = catalog::scores(terms, second);
            &&& standing_at(terms, first, second, at) == catalog::item_at(m, n, at)
            &&& standing_at(terms, first, second, at) <= terms.len()
            &&& turn_of(terms, first, second, at) == turn(m, n, at)
        }),
{
    if at.0 {
        law_every_term_counts(terms, second[at.1]);
        lemma_peers(terms, second, at.1, at.1);
    } else {
        law_every_term_counts(terms, first[at.1]);
        lemma_peers(terms, first, at.1, at.1);
    }
}

/// What search sees of a list of stubs is the name and the description of each, in full and in
/// order.
pub proof fn law_every_stub_is_seen<S: Stub>(stubs: Seq<S>)
    ensures
        catalog::entries(stubs).len() == stubs.len(),
        catalog::names_in(catalog::entries(stubs)).len() == stubs.len(),
        forall|i: int|
            0 <= i < stubs.len() ==> #[trigger] catalog::entries(stubs)[i] == stubs[i].entry(),
        forall|i: int|
            0 <= i < stubs.len() ==> #[trigger] catalog::names_in(catalog::entries(stubs))[i]
                == stubs[i].entry().name,
{
}

/// A native stub is seen under its name and description, and a native set has all of its stubs.
pub proof fn law_native_stubs_are_seen<T: ?Sized + Tool>(
    set: DeferredNativeToolSet<T>,
)
    ensures
        set.catalog().len() == set.names().len() == set.stubs@.len(),
        forall|i: int|
            0 <= i < set.stubs@.len() ==> {
                &&& (#[trigger] set.catalog()[i]).name == set.stubs@[i].name@
                &&& set.catalog()[i].description == set.stubs@[i].description@
            },
        forall|i: int| 0 <= i < set.stubs@.len() ==> #[trigger] set.names()[i] == set.stubs@[i].name@,
{
}

/// An MCP stub is seen under its prefixed name and description, and an MCP set has all of its
/// stubs.
pub proof fn law_mcp_stubs_are_seen<T: ?Sized + Tool>(set: DeferredMcpToolSet<T>)
    ensures
        set.catalog().len() == set.names().len() == set.stubs@.len(),
        forall|i: int|
            0 <= i < set.stubs@.len() ==> {
                &&& (#[trigger] set.catalog()[i]).name == set.stubs@[i].prefixed_name@
                &&& set.catalog()[i].description == set.stubs@[i].description@
            },
        forall|i: int|
            0 <= i < set.stubs@.len() ==> #[trigger] set.names()[i] == set.stubs@[i].prefixed_name@,
{
}

/// Lookup among native stubs is by exact name. A stub that is given has the very name asked for,
/// and none before it in the set has. Where none is given, no stub of the set has the name.
pub proof fn law_native_lookup_is_exact<T: ?Sized + Tool>(
    set: DeferredNativeToolSet<T>,
    name: Seq<char>,
)
    ensures
        match set.named(name) {
            Some(stub) => stub.name@ == name && exists|i: int|
                0 <= i < set.stubs@.len() && #[trigger] set.stubs@[i] == stub && forall|j: int|
                    0 <= j < i ==> (#[trigger] set.stubs@[j]).name@ != name,
            None => forall|i: int|
                0 <= i < set.stubs@.len() ==> (#[trigger] set.stubs@[i]).name@ != name,
        },
{
    let names = set.names();
    catalog::lemma_first_named(names, name);
    law_native_stubs_are_seen(set);
    match catalog::first_named(names, name) {
        Some(at) => {
            assert forall|j: int| 0 <= j < at implies (#[trigger] set.stubs@[j]).name@ != name by {
                assert(names[j] != name);
            }
            assert(names[at] == name);
            assert(set.stubs@[at] == set.named(name)->0);
        },
        None => {
            assert forall|i: int| 0 <= i < set.stubs@.len() implies (#[trigger] set.stubs@[i]).name@
                != name by {
                assert(names[i] != name);
            }
        },
    }
}

/// Lookup among MCP stubs is by exact prefixed name. A stub that is given has the very name asked
/// for, and none before it in the set has. Where none is given, no stub of the set has the name.
pub proof fn law_mcp_lookup_is_exact<T: ?Sized + Tool>(
    set: DeferredMcpToolSet<T>,
    name: Seq<char>,
)
    ensures
        match set.named(name) {
            Some(stub) => stub.prefixed_name@ == name && exists|i: int|
                0 <= i < set.stubs@.len() && #[trigger] set.stubs@[i] == stub && forall|j: int|
                    0 <= j < i ==> (#[trigger] set.stubs@[j]).prefixed_name@ != name,
            None => forall|i: int|
                0 <= i < set.stubs@.len() ==> (#[trigger] set.stubs@[i]).prefixed_name@ != name,
        },
{
    let names = set.names();
    catalog::lemma_first_named(names, name);
    law_mcp_stubs_are_seen(set);
    match catalog::first_named(names, name) {
        Some(at) => {
            assert forall|j: int| 0 <= j < at implies (#[trigger] set.stubs@[j]).prefixed_name@
                != name by {
                assert(names[j] != name);
            }
            assert(names[at] == name);
            assert(set.stubs@[at] == set.named(name)->0);
        },
        None => {
            assert forall|i: int| 0 <= i < set.stubs@.len() implies (
            #[trigger] set.stubs@[i]).prefixed_name@ != name by {
                assert(names[i] != name);
            }
        },
    }
}

} // verus!
