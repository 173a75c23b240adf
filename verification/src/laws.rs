//! What holds of the library as a whole: of every query, every pair of deferred sets and every
//! set of activated tools.

use crate::catalog::{self, Entry};
use crate::mcp_deferred::DeferredMcpToolSet;
use crate::native_deferred::DeferredNativeToolSet;
use crate::text;
use crate::tool::Tool;
use crate::tool_search::{self, PlanView, ToolSearchTool};
use std::sync::Arc;
use vstd::prelude::*;

verus! {

/// A search ranks by the number of matching terms. What it finds matches at least one term; more
/// matching terms come first, and equal matches keep the order of the catalog. An entry that
/// matches is left out only where the limit is reached by entries that come before it in this
/// ranking.
pub proof fn law_search_ranks_by_matches(catalog: Seq<Entry>, query: Seq<char>, max_results: nat)
    requires
        catalog::terms_of(query).len() > 0,
    ensures
        ({
            let terms = catalog::terms_of(query);
            let at = catalog::found(catalog, query, max_results);
            &&& at.len() <= max_results
            &&& forall|a: int|
                0 <= a < at.len() ==> 0 <= #[trigger] at[a] < catalog.len()
                    && catalog::hits(terms, catalog[at[a]]) > 0
            &&& forall|a: int, b: int|
                0 <= a < b < at.len() ==> ranks_before(
                    terms,
                    catalog,
                    #[trigger] at[a],
                    #[trigger] at[b],
                )
            &&& forall|i: int|
                0 <= i < catalog.len() && #[trigger] catalog::hits(terms, catalog[i]) > 0
                    && !at.contains(i) ==> at.len() == max_results && forall|a: int|
                    0 <= a < at.len() ==> ranks_before(terms, catalog, #[trigger] at[a], i)
        }),
{
    let terms = catalog::terms_of(query);
    let scores = catalog::scores(terms, catalog);
    let all = catalog::best_first(scores, terms.len());
    let at = catalog::found(catalog, query, max_results);
    catalog::lemma_best_first(scores, terms.len());
    assert forall|i: int|
        0 <= i < catalog.len() && #[trigger] catalog::hits(terms, catalog[i]) > 0
            && !at.contains(i) implies at.len() == max_results && forall|a: int|
        0 <= a < at.len() ==> ranks_before(terms, catalog, #[trigger] at[a], i) by {
        let matching = |term: Seq<char>|
            text::occurs(term, catalog::haystack(catalog[i]));
        terms.lemma_filter_len(matching);
        assert(scores[i] == catalog::hits(terms, catalog[i]));
        assert(all.contains(i));
        let k = all.index_of(i);
        assert(all[k] == i);
        if k < at.len() {
            assert(at[k] == i);
        }
        assert forall|a: int| 0 <= a < at.len() implies ranks_before(
            terms,
            catalog,
            #[trigger] at[a],
            i,
        ) by {
            assert(at[a] == all[a]);
        }
    }
    assert(forall|a: int| 0 <= a < at.len() ==> at[a] == all[a]);
}

/// Whether one position of a catalog comes before another in the ranking for some terms.
pub open spec fn ranks_before(
    terms: Seq<Seq<char>>,
    catalog: Seq<Entry>,
    i: int,
    j: int,
) -> bool {
    let first = catalog::hits(terms, catalog[i]);
    let second = catalog::hits(terms, catalog[j]);
    first > second || (first == second && i < j)
}

/// A search over two catalogs returns the best matches of both together. What it finds matches at
/// least one term, at most as many entries as asked for are found, and none twice. The number of
/// matching terms never rises along the results, whichever catalog they come from, and the results
/// from one catalog are ranked as a search of that catalog alone ranks them. An entry of either
/// catalog that matches is left out only where the limit is reached, and then no result matches
/// fewer terms than it does.
pub proof fn law_joint_search_returns_best_matches(
    first: Seq<Entry>,
    second: Seq<Entry>,
    query: Seq<char>,
    max_results: nat,
)
    ensures
        ({
            let terms = catalog::terms_of(query);
            let at = catalog::found_in_both(first, second, query, max_results);
            &&& at.len() <= max_results
            &&& at.no_duplicates()
            &&& forall|a: int|
                0 <= a < at.len() ==> catalog::is_place(first, second, #[trigger] at[a])
                    && matches_at(terms, first, second, at[a]) > 0
            &&& forall|a: int, b: int|
                0 <= a < b < at.len() ==> matches_at(terms, first, second, #[trigger] at[a])
                    >= matches_at(terms, first, second, #[trigger] at[b])
            &&& forall|a: int, b: int|
                0 <= a < b < at.len() && (#[trigger] at[a]).0 == (#[trigger] at[b]).0
                    ==> ranks_before(
                    terms,
                    if at[a].0 {
                        second
                    } else {
                        first
                    },
                    at[a].1,
                    at[b].1,
                )
            &&& forall|place: (bool, int)|
                catalog::is_place(first, second, place) && #[trigger] matches_at(
                    terms,
                    first,
                    second,
                    place,
                ) > 0 && !at.contains(place) ==> at.len() == max_results && forall|a: int|
                    0 <= a < at.len() ==> matches_at(terms, first, second, #[trigger] at[a])
                        >= matches_at(terms, first, second, place)
        }),
{
    let terms = catalog::terms_of(query);
    let a_scores = catalog::scores(terms, first);
    let b_scores = catalog::scores(terms, second);
    let all = catalog::best_of_both(a_scores, b_scores, terms.len());
    let at = catalog::found_in_both(first, second, query, max_results);
    catalog::lemma_best_of_both(a_scores, b_scores, terms.len());
    assert forall|place: (bool, int)|
        catalog::is_place(first, second, place) implies #[trigger] matches_at(
        terms,
        first,
        second,
        place,
    ) == catalog::item_at(a_scores, b_scores, place) && catalog::is_place(
        a_scores,
        b_scores,
        place,
    ) by {}
    assert forall|a: int| 0 <= a < at.len() implies #[trigger] at[a] == all[a]
        && catalog::is_place(first, second, at[a]) && matches_at(terms, first, second, at[a])
        == catalog::item_at(a_scores, b_scores, all[a]) by {
        assert(catalog::is_place(a_scores, b_scores, all[a]));
    }
    assert forall|place: (bool, int)|
        catalog::is_place(first, second, place) && #[trigger] matches_at(
            terms,
            first,
            second,
            place,
        ) > 0 && !at.contains(place) implies at.len() == max_results && forall|a: int|
        0 <= a < at.len() ==> matches_at(terms, first, second, #[trigger] at[a]) >= matches_at(
            terms,
            first,
            second,
            place,
        ) by {
        let entry = catalog::item_at(first, second, place);
        terms.lemma_filter_len(|term: Seq<char>| text::occurs(term, catalog::haystack(entry)));
        assert(all.contains(place));
        let k = all.index_of(place);
        assert(all[k] == place);
        if k < at.len() {
            assert(at[k] == place);
        }
    }
}

/// How many terms match the entry at a position in two catalogs.
pub open spec fn matches_at(
    terms: Seq<Seq<char>>,
    first: Seq<Entry>,
    second: Seq<Entry>,
    at: (bool, int),
) -> nat {
    catalog::hits(terms, catalog::item_at(first, second, at))
}

/// A search over two catalogs, one of which is empty, finds what a search of the other alone does.
pub proof fn law_joint_search_with_one_catalog(
    catalog: Seq<Entry>,
    query: Seq<char>,
    max_results: nat,
)
    requires
        catalog::terms_of(query).len() > 0,
    ensures
        catalog::found_in_both(catalog, Seq::empty(), query, max_results) == catalog::side(
            false,
            catalog::found(catalog, query, max_results),
        ),
        catalog::found_in_both(Seq::empty(), catalog, query, max_results) == catalog::side(
            true,
            catalog::found(catalog, query, max_results),
        ),
{
    let terms = catalog::terms_of(query);
    let scores = catalog::scores(terms, catalog);
    let none = catalog::scores(terms, Seq::empty());
    let order = catalog::best_first(scores, terms.len());
    let at = catalog::found(catalog, query, max_results);
    lemma_best_of_one(scores, none, terms.len());
    assert(catalog::first_of(catalog::side(false, order), max_results) =~= catalog::side(
        false,
        at,
    ));
    assert(catalog::first_of(catalog::side(true, order), max_results) =~= catalog::side(true, at));
}

/// The joint ranking of a catalog and an empty one is the ranking of the catalog.
pub(crate) proof fn lemma_best_of_one(scores: Seq<nat>, none: Seq<nat>, top: nat)
    requires
        none.len() == 0,
    ensures
        catalog::best_of_both(scores, none, top) == catalog::side(
            false,
            catalog::best_first(scores, top),
        ),
        catalog::best_of_both(none, scores, top) == catalog::side(
            true,
            catalog::best_first(scores, top),
        ),
    decreases top,
{
    if top > 0 {
        let here = catalog::with_score(scores, top);
        let rest = catalog::best_first(scores, (top - 1) as nat);
        lemma_best_of_one(scores, none, (top - 1) as nat);
        assert(catalog::with_score_in_both(scores, none, top) =~= catalog::side(false, here));
        assert(catalog::with_score_in_both(none, scores, top) =~= catalog::side(true, here));
        assert(catalog::side(false, here + rest) =~= catalog::side(false, here) + catalog::side(
            false,
            rest,
        ));
        assert(catalog::side(true, here + rest) =~= catalog::side(true, here) + catalog::side(
            true,
            rest,
        ));
    } else {
        assert(catalog::best_of_both(scores, none, top) =~= catalog::side(
            false,
            catalog::best_first(scores, top),
        ));
        assert(catalog::best_of_both(none, scores, top) =~= catalog::side(
            true,
            catalog::best_first(scores, top),
        ));
    }
}

/// A search without terms finds the first entries of the catalog, up to the limit.
pub proof fn law_search_without_terms_finds_all(
    catalog: Seq<Entry>,
    query: Seq<char>,
    max_results: nat,
)
    requires
        catalog::terms_of(query).len() == 0,
    ensures
        ({
            let at = catalog::found(catalog, query, max_results);
            &&& at.len() == if catalog.len() < max_results {
                catalog.len()
            } else {
                max_results
            }
            &&& forall|a: int| 0 <= a < at.len() ==> #[trigger] at[a] == a
        }),
{
}

/// Small letters are no capital letters, so making letters small twice changes nothing more, and
/// white space is not touched.
pub(crate) proof fn lemma_lower(c: char)
    ensures
        text::lower(text::lower(c)) == text::lower(c),
        text::white(text::lower(c)) == text::white(c),
{
}

/// Making letters small twice changes nothing more.
pub(crate) proof fn lemma_lowered_twice(s: Seq<char>)
    ensures
        text::lowered(text::lowered(s)) == text::lowered(s),
{
    assert forall|i: int| 0 <= i < s.len() implies text::lower(
        text::lower(#[trigger] s[i]),
    ) == text::lower(s[i]) by {
        lemma_lower(s[i]);
    }
    assert(text::lowered(text::lowered(s)) =~= text::lowered(s));
}

/// The words of text in small letters are its words in small letters.
pub(crate) proof fn lemma_words_lowered(s: Seq<char>)
    ensures
        text::words(text::lowered(s)) == catalog::terms_of(s),
        s.len() > 0 && !text::white(s.last()) ==> text::words(s).len() > 0,
    decreases s.len(),
{
    let small = text::lowered(s);
    if s.len() > 0 {
        let before = s.drop_last();
        lemma_words_lowered(before);
        lemma_lower(s.last());
        assert(small.drop_last() =~= text::lowered(before));
        assert(small.last() == text::lower(s.last()));
        if before.len() > 0 {
            lemma_lower(before.last());
            assert(small.drop_last().last() == text::lower(before.last()));
        }
        let words = text::words(before);
        if !text::white(s.last()) {
            if before.len() == 0 || text::white(before.last()) {
                assert(text::lowered(seq![s.last()]) =~= seq![small.last()]);
            } else {
                assert(text::lowered(words.last().push(s.last())) =~= text::lowered(
                    words.last(),
                ).push(small.last()));
                assert(catalog::terms_of(before).drop_last() =~= words.drop_last().map_values(
                    |word: Seq<char>| text::lowered(word),
                ));
            }
        }
        assert(text::words(small) =~= catalog::terms_of(s));
    } else {
        assert(text::words(small) =~= catalog::terms_of(s));
    }
}

/// The terms of a query are not empty and hold neither white space nor ASCII capital letters. Put
/// together they are the characters of the query in small letters, with the white space left out.
pub proof fn law_terms_are_the_words_of_the_query(query: Seq<char>)
    ensures
        forall|i: int|
            0 <= i < catalog::terms_of(query).len() ==> (#[trigger] catalog::terms_of(
                query,
            )[i]).len() > 0,
        forall|i: int, k: int|
            0 <= i < catalog::terms_of(query).len() && 0 <= k < catalog::terms_of(query)[i].len()
                ==> {
                let c = #[trigger] catalog::terms_of(query)[i][k];
                !text::white(c) && !('A' <= c && c <= 'Z')
            },
        text::joined(catalog::terms_of(query), Seq::empty()) == text::lowered(query).filter(
            |c: char| !text::white(c),
        ),
{
    let small = text::lowered(query);
    lemma_words_lowered(query);
    lemma_lowered_twice(query);
    lemma_words(small);
    assert(catalog::terms_of(query) == text::words(small));
    assert forall|i: int, k: int|
        0 <= i < text::words(small).len() && 0 <= k < text::words(small)[i].len() implies {
        let c = #[trigger] text::words(small)[i][k];
        !text::white(c) && !('A' <= c && c <= 'Z')
    } by {
        let c = text::words(small)[i][k];
        assert(small.contains(c));
        let j = small.index_of(c);
        assert(c == text::lower(query[j]));
    }
}

/// The words of some text are not empty and hold no white space, and put together they are the
/// text without its white space.
pub(crate) proof fn lemma_words(s: Seq<char>)
    ensures
        forall|i: int| 0 <= i < text::words(s).len() ==> (#[trigger] text::words(s)[i]).len() > 0,
        forall|i: int, k: int|
            0 <= i < text::words(s).len() && 0 <= k < text::words(s)[i].len() ==> {
                let c = #[trigger] text::words(s)[i][k];
                !text::white(c) && s.contains(c)
            },
        text::joined(text::words(s), Seq::empty()) == s.filter(|c: char| !text::white(c)),
        s.len() > 0 && !text::white(s.last()) ==> text::words(s).len() > 0,
    decreases s.len(),
{
    let all = text::words(s);
    let none = Seq::<char>::empty();
    reveal(Seq::filter);
    if s.len() > 0 {
        let before = text::words(s.drop_last());
        let c = s.last();
        lemma_words(s.drop_last());
        assert forall|i: int, k: int| 0 <= i < all.len() && 0 <= k < all[i].len() implies {
            let d = #[trigger] all[i][k];
            !text::white(d) && s.contains(d)
        } by {
            let d = all[i][k];
            assert(s[s.len() - 1] == c);
            if i < before.len() && k < before[i].len() {
                assert(d == before[i][k]);
                let j = s.drop_last().index_of(d);
                assert(s[j] == d);
            } else {
                assert(d == c);
            }
        }
        if !text::white(c) {
            if s.len() == 1 || text::white(s.drop_last().last()) {
                assert(all.drop_last() =~= before);
            } else {
                assert(all.drop_last() =~= before.drop_last());
                assert(all.last() =~= before.last().push(c));
            }
            assert(text::joined(all, none) =~= text::joined(before, none).push(c));
        }
    }
}

/// A catalog with the capital letters of its names and descriptions made small.
pub open spec fn lowered_catalog(catalog: Seq<Entry>) -> Seq<Entry> {
    catalog.map_values(
        |entry: Entry|
            Entry {
                name: text::lowered(entry.name),
                description: text::lowered(entry.description),
            },
    )
}

/// The number of matching terms does not depend on ASCII case.
pub(crate) proof fn lemma_case_does_not_matter(catalog: Seq<Entry>, query: Seq<char>)
    ensures
        catalog::terms_of(text::lowered(query)) == catalog::terms_of(query),
        catalog::scores(catalog::terms_of(query), lowered_catalog(catalog)) == catalog::scores(
            catalog::terms_of(query),
            catalog,
        ),
{
    let small = |word: Seq<char>| text::lowered(word);
    let words = text::words(query);
    lemma_words_lowered(query);
    assert forall|i: int| 0 <= i < words.len() implies text::lowered(
        text::lowered(#[trigger] words[i]),
    ) == text::lowered(words[i]) by {
        lemma_lowered_twice(words[i]);
    }
    assert(words.map_values(small).map_values(small) =~= words.map_values(small));

    let terms = catalog::terms_of(query);
    let lowered = lowered_catalog(catalog);
    assert forall|i: int| 0 <= i < catalog.len() implies #[trigger] catalog::hits(terms, lowered[i])
        == catalog::hits(terms, catalog[i]) by {
        lemma_lowered_twice(catalog[i].name);
        lemma_lowered_twice(catalog[i].description);
        assert(catalog::haystack(lowered[i]) == catalog::haystack(catalog[i]));
    }
    assert(catalog::scores(terms, lowered) =~= catalog::scores(terms, catalog));
}

/// A search of one catalog does not tell ASCII capital letters from small ones, neither in the
/// query nor in the names and descriptions.
pub proof fn law_search_ignores_case(catalog: Seq<Entry>, query: Seq<char>, max_results: nat)
    ensures
        catalog::found(catalog, text::lowered(query), max_results) == catalog::found(
            catalog,
            query,
            max_results,
        ),
        catalog::found(lowered_catalog(catalog), query, max_results) == catalog::found(
            catalog,
            query,
            max_results,
        ),
{
    lemma_case_does_not_matter(catalog, query);
}

/// Neither does a search over two catalogs tell capital letters from small ones.
pub proof fn law_joint_search_ignores_case(
    first: Seq<Entry>,
    second: Seq<Entry>,
    query: Seq<char>,
    max_results: nat,
)
    ensures
        catalog::found_in_both(first, second, text::lowered(query), max_results)
            == catalog::found_in_both(first, second, query, max_results),
        catalog::found_in_both(lowered_catalog(first), lowered_catalog(second), query, max_results)
            == catalog::found_in_both(first, second, query, max_results),
{
    lemma_case_does_not_matter(first, query);
    lemma_case_does_not_matter(second, query);
}

/// Where the `k`-th item of the first of two lists stands when the lists are taken in turns.
pub open spec fn place_of_first(k: int, first: nat, second: nat) -> int {
    if k < second {
        2 * k
    } else {
        k + second
    }
}

/// Where the `k`-th item of the second of two lists stands when the lists are taken in turns.
pub open spec fn place_of_second(k: int, first: nat, second: nat) -> int {
    if k < first {
        2 * k + 1
    } else {
        k + first
    }
}

/// Taking two lists in turns keeps every item of both, and keeps the order within each of them.
/// Neither list can hold the other up: the item at position `k` of the first list stands at `2 * k`
/// or before, that of the second at `2 * k + 1` or before.
pub proof fn law_interleaving_keeps_order<A>(first: Seq<A>, second: Seq<A>)
    ensures
        ({
            let all = catalog::interleaved(first, second);
            let m = first.len();
            let n = second.len();
            &&& all.len() == m + n
            &&& forall|k: int|
                0 <= k < m ==> 0 <= #[trigger] place_of_first(k, m, n) < all.len()
                    && all[place_of_first(k, m, n)] == first[k] && place_of_first(k, m, n) <= 2 * k
            &&& forall|k: int|
                0 <= k < n ==> 0 <= #[trigger] place_of_second(k, m, n) < all.len()
                    && all[place_of_second(k, m, n)] == second[k] && place_of_second(k, m, n) <= 2
                    * k + 1
            &&& forall|j: int, k: int|
                0 <= j < k < m ==> #[trigger] place_of_first(j, m, n) < #[trigger] place_of_first(
                    k,
                    m,
                    n,
                )
            &&& forall|j: int, k: int|
                0 <= j < k < n ==> #[trigger] place_of_second(j, m, n)
                    < #[trigger] place_of_second(k, m, n)
            &&& forall|j: int, k: int|
                0 <= j < m && 0 <= k < n ==> #[trigger] place_of_first(j, m, n)
                    != #[trigger] place_of_second(k, m, n)
        }),
{
}

/// A keyword search returns at most as many names as the limit says. It returns none only where
/// the limit is zero or no deferred tool of either set matches a term.
pub proof fn law_search_hits_limit<T: ?Sized + Tool>(
    tool: ToolSearchTool<T>,
    query: Seq<char>,
    max_results: nat,
)
    ensures
        ({
            let terms = catalog::terms_of(query);
            let hits = tool.search_hits(query, max_results);
            &&& hits.len() <= max_results
            &&& hits.len() == 0 <==> max_results == 0 || ((forall|i: int|
                0 <= i < tool.mcp_catalog().len() ==> catalog::hits(
                    terms,
                    #[trigger] tool.mcp_catalog()[i],
                ) == 0) && (forall|i: int|
                0 <= i < tool.native_catalog().len() ==> catalog::hits(
                    terms,
                    #[trigger] tool.native_catalog()[i],
                ) == 0))
        }),
{
    let terms = catalog::terms_of(query);
    let first = tool.mcp_catalog();
    let second = tool.native_catalog();
    let at = catalog::found_in_both(first, second, query, max_results);
    law_joint_search_returns_best_matches(first, second, query, max_results);
    assert(tool.search_hits(query, max_results).len() == at.len());
    if at.len() > 0 {
        assert(matches_at(terms, first, second, at[0]) > 0);
    } else if max_results > 0 {
        assert forall|i: int| 0 <= i < first.len() implies catalog::hits(terms, #[trigger] first[i])
            == 0 by {
            assert(matches_at(terms, first, second, (false, i)) == 0);
        }
        assert forall|i: int| 0 <= i < second.len() implies catalog::hits(
            terms,
            #[trigger] second[i],
        ) == 0 by {
            assert(matches_at(terms, first, second, (true, i)) == 0);
        }
    }
}

/// A name that stands in a list is found in it.
pub(crate) proof fn lemma_listed(names: Seq<Seq<char>>, i: int)
    requires
        0 <= i < names.len(),
    ensures
        catalog::first_named(names, names[i]) is Some,
        catalog::first_named(names, names[i])->0 <= i,
{
    catalog::lemma_first_named(names, names[i]);
    assert(names.contains(names[i]));
}

/// Every native stub is found under its name, and it is the one found unless an earlier stub has
/// the same name.
pub proof fn law_native_stub_found_by_name<T: ?Sized + Tool>(set: DeferredNativeToolSet<T>, i: int)
    requires
        0 <= i < set.stubs@.len(),
    ensures
        set.named(set.stubs@[i].name@) is Some,
        set.named(set.stubs@[i].name@)->0.name@ == set.stubs@[i].name@,
        (forall|j: int| 0 <= j < i ==> (#[trigger] set.stubs@[j]).name@ != set.stubs@[i].name@)
            ==> set.named(set.stubs@[i].name@)->0 == set.stubs@[i],
{
    let names = set.names();
    lemma_listed(names, i);
    catalog::lemma_first_named(names, names[i]);
    let at = catalog::first_named(names, names[i])->0;
    assert(names[at] == set.stubs@[at].name@);
}

/// Every MCP stub is found under its prefixed name, and it is the one found unless an earlier
/// stub has the same name.
pub proof fn law_mcp_stub_found_by_name<T: ?Sized + Tool>(set: DeferredMcpToolSet<T>, i: int)
    requires
        0 <= i < set.stubs@.len(),
    ensures
        set.named(set.stubs@[i].prefixed_name@) is Some,
        set.named(set.stubs@[i].prefixed_name@)->0.prefixed_name@ == set.stubs@[i].prefixed_name@,
        (forall|j: int|
            0 <= j < i ==> (#[trigger] set.stubs@[j]).prefixed_name@
                != set.stubs@[i].prefixed_name@) ==> set.named(set.stubs@[i].prefixed_name@)->0
            == set.stubs@[i],
{
    let names = set.names();
    lemma_listed(names, i);
    catalog::lemma_first_named(names, names[i]);
    let at = catalog::first_named(names, names[i])->0;
    assert(names[at] == set.stubs@[at].prefixed_name@);
}

/// A name that both sets have stands for the native tool.
pub proof fn law_native_before_mcp<T: ?Sized + Tool>(tool: ToolSearchTool<T>, name: Seq<char>)
    ensures
        tool.native_tool(name) is Some ==> tool.resolve(name) == tool.native_tool(name),
        tool.native_tool(name) is None ==> tool.resolve(name) == tool.mcp_tool(name),
{
}

/// Every name that a keyword search returns stands for a deferred tool.
pub proof fn law_search_hits_are_deferred<T: ?Sized + Tool>(
    tool: ToolSearchTool<T>,
    query: Seq<char>,
    max_results: nat,
)
    ensures
        forall|name: Seq<char>| #[trigger]
            tool.search_hits(query, max_results).contains(name) ==> tool.resolve(name) is Some,
{
    let first = tool.mcp_catalog();
    let second = tool.native_catalog();
    let at = catalog::found_in_both(first, second, query, max_results);
    law_joint_search_returns_best_matches(first, second, query, max_results);
    assert forall|name: Seq<char>| #[trigger]
        tool.search_hits(query, max_results).contains(name) implies tool.resolve(
        name,
    ) is Some by {
        let k = tool.search_hits(query, max_results).index_of(name);
        assert(catalog::is_place(first, second, at[k]));
        let i = at[k].1;
        if at[k].0 {
            assert(tool.native()->0.names()[i] == name);
            lemma_listed(tool.native()->0.names(), i);
        } else {
            assert(tool.mcp()->0.names()[i] == name);
            lemma_listed(tool.mcp()->0.names(), i);
        }
    }
}

/// Without a deferred set no name stands for a tool, and a keyword search returns nothing.
pub proof fn law_no_deferred_set<T: ?Sized + Tool>(
    tool: ToolSearchTool<T>,
    query: Seq<char>,
    max_results: nat,
)
    requires
        tool.mcp() is None,
        tool.native() is None,
    ensures
        forall|name: Seq<char>| #[trigger] tool.resolve(name) is None,
        tool.search_hits(query, max_results).len() == 0,
{
    law_search_hits_limit(tool, query, max_results);
}

/// The white space around a query does not matter.
pub proof fn law_query_is_trimmed<T: ?Sized + Tool>(
    tool: ToolSearchTool<T>,
    query: Seq<char>,
    max_results: Option<u64>,
)
    ensures
        tool.planned(Some(text::trimmed(query)), max_results) == tool.planned(
            Some(query),
            max_results,
        ),
{
    lemma_trimmed(query);
}

/// A query that holds anything but white space has a term to search for.
pub proof fn law_query_has_a_term(query: Seq<char>)
    ensures
        text::trimmed(query).len() > 0 ==> catalog::terms_of(text::trimmed(query)).len() > 0,
{
    lemma_trimmed(query);
    lemma_words_lowered(text::trimmed(query));
}

/// Trimmed text neither starts nor ends with white space, so trimming it again changes nothing.
pub(crate) proof fn lemma_trimmed(s: Seq<char>)
    ensures
        ({
            let t = text::trimmed(s);
            &&& t.len() > 0 ==> !text::white(t.first()) && !text::white(t.last())
            &&& text::trimmed(t) == t
        }),
{
    lemma_trimmed_start(s);
    lemma_trimmed_end(text::trimmed_start(s));
}

/// Text without leading white space does not start with white space.
pub(crate) proof fn lemma_trimmed_start(s: Seq<char>)
    ensures
        text::trimmed_start(s).len() > 0 ==> !text::white(
            text::trimmed_start(s).first(),
        ),
    decreases s.len(),
{
    if s.len() > 0 && text::white(s.first()) {
        lemma_trimmed_start(s.drop_first());
    }
}

/// Text without trailing white space does not end with white space, and starts as it did.
pub(crate) proof fn lemma_trimmed_end(s: Seq<char>)
    ensures
        text::trimmed_end(s).len() > 0 ==> !text::white(
            text::trimmed_end(s).last(),
        ) && text::trimmed_end(s).first() == s.first(),
    decreases s.len(),
{
    if s.len() > 0 && text::white(s.last()) {
        lemma_trimmed_end(s.drop_last());
    }
}

/// A call without a limit is a call with the default limit, and so is one with a limit that no
/// `usize` can hold.
pub proof fn law_default_limit<T: ?Sized + Tool>(
    tool: ToolSearchTool<T>,
    query: Option<Seq<char>>,
    n: u64,
)
    ensures
        tool.planned(query, None) == tool.planned(
            query,
            Some(tool_search::DEFAULT_MAX_RESULTS as u64),
        ),
        n > usize::MAX ==> tool.planned(query, Some(n)) == tool.planned(query, None),
{
}

/// A call fails exactly where its query is missing or holds nothing but white space. It then says
/// why and has no output, and nothing is activated. A call that succeeds has no error.
pub proof fn law_only_a_missing_query_fails<T: ?Sized + Tool>(
    tool: ToolSearchTool<T>,
    live: Map<Seq<char>, Arc<T>>,
    query: Option<Seq<char>>,
    max_results: Option<u64>,
)
    ensures
        ({
            let plan = tool.planned(query, max_results);
            let answer = tool.answer(live, plan);
            let asked = query is Some && text::trimmed(query->0).len() > 0;
            &&& answer.success == asked
            &&& answer.error is None == asked
            &&& !asked ==> answer.output.len() == 0 && answer.error == Some(
                "query parameter is required"@,
            ) && tool.live_after(live, plan) == live
        }),
{
}

/// A tool that is activated stays activated, and no other tool takes its place.
pub proof fn law_activation_persists<T: ?Sized + Tool>(
    tool: ToolSearchTool<T>,
    live: Map<Seq<char>, Arc<T>>,
    plan: PlanView,
    name: Seq<char>,
)
    requires
        live.contains_key(name),
    ensures
        tool.live_after(live, plan).contains_key(name),
        tool.live_after(live, plan)[name] == live[name],
{
}

/// A call activates nothing but the deferred tools that it names, each under its own name.
pub proof fn law_only_named_tools_are_activated<T: ?Sized + Tool>(
    tool: ToolSearchTool<T>,
    live: Map<Seq<char>, Arc<T>>,
    plan: PlanView,
    name: Seq<char>,
)
    requires
        !live.contains_key(name),
        tool.live_after(live, plan).contains_key(name),
    ensures
        match plan {
            PlanView::Reply(_) => false,
            PlanView::Select(names) => name.len() > 0 && names.contains(name),
            PlanView::Activate(names) => names.contains(name),
        },
        tool.resolve(name) == Some(tool.live_after(live, plan)[name]),
{
    if let PlanView::Select(names) = plan {
        lemma_requested::<T>(names, name);
    }
}

/// The requested names of a list are those that are not empty.
pub(crate) proof fn lemma_requested<T: ?Sized + Tool>(names: Seq<Seq<char>>, name: Seq<char>)
    ensures
        ToolSearchTool::<T>::requested(names).contains(name) <==> names.contains(name) && name.len()
            > 0,
{
    let filled = |name: Seq<char>| name.len() > 0;
    broadcast use vstd::seq_lib::group_filter_ensures;

    if ToolSearchTool::<T>::requested(names).contains(name) {
        let k = ToolSearchTool::<T>::requested(names).index_of(name);
        assert(filled(names.filter(filled)[k]));
        names.lemma_filter_contains_rev(filled, name);
    }
    if names.contains(name) && name.len() > 0 {
        let k = names.index_of(name);
        assert(filled(names[k]));
        assert(names.filter(filled).contains(names[k]));
    }
}

/// The names that are reported as not found.
pub(crate) proof fn lemma_missing<T: ?Sized + Tool>(
    tool: ToolSearchTool<T>,
    live: Map<Seq<char>, Arc<T>>,
    names: Seq<Seq<char>>,
    name: Seq<char>,
)
    ensures
        tool.missing(live, names).contains(name) <==> names.contains(name) && tool.resolve(
            name,
        ) is None && !live.contains_key(name),
{
    let unknown = |name: Seq<char>| tool.resolve(name) is None && !live.contains_key(name);
    broadcast use vstd::seq_lib::group_filter_ensures;

    if tool.missing(live, names).contains(name) {
        let k = tool.missing(live, names).index_of(name);
        assert(unknown(names.filter(unknown)[k]));
        names.lemma_filter_contains_rev(unknown, name);
    }
    if names.contains(name) && unknown(name) {
        let k = names.index_of(name);
        assert(names.filter(unknown).contains(names[k]));
    }
}

/// Of a selection, every requested name is accounted for: after the call a tool is activated
/// under it, or it is reported as not found, and never both. It is reported exactly where it
/// stands for no deferred tool and no tool was activated under it before.
pub proof fn law_selection_accounts_for_every_name<T: ?Sized + Tool>(
    tool: ToolSearchTool<T>,
    live: Map<Seq<char>, Arc<T>>,
    names: Seq<Seq<char>>,
    name: Seq<char>,
)
    requires
        names.contains(name),
        name.len() > 0,
    ensures
        ({
            let reported = tool.missing(live, ToolSearchTool::<T>::requested(names)).contains(name);
            &&& reported <==> tool.resolve(name) is None && !live.contains_key(name)
            &&& reported <==> !tool.live_after(live, PlanView::Select(names)).contains_key(name)
        }),
{
    let requested = ToolSearchTool::<T>::requested(names);
    lemma_requested::<T>(names, name);
    lemma_missing(tool, live, requested, name);
}

/// A keyword search activates every tool that it returns.
pub proof fn law_search_activates_its_hits<T: ?Sized + Tool>(
    tool: ToolSearchTool<T>,
    live: Map<Seq<char>, Arc<T>>,
    query: Option<Seq<char>>,
    max_results: Option<u64>,
    name: Seq<char>,
)
    requires
        tool.planned(query, max_results) is Activate,
        tool.planned(query, max_results)->Activate_0.contains(name),
    ensures
        tool.live_after(live, tool.planned(query, max_results)).contains_key(name),
        tool.live_after(live, tool.planned(query, max_results))[name] == if live.contains_key(
            name,
        ) {
            live[name]
        } else {
            tool.resolve(name)->0
        },
{
    law_search_hits_are_deferred(
        tool,
        text::trimmed(query->0),
        tool_search::limit(max_results),
    );
}

/// Activating the tools of one list and then those of another is activating both lists at once.
pub(crate) proof fn lemma_activate_both<T: ?Sized + Tool>(
    tool: ToolSearchTool<T>,
    live: Map<Seq<char>, Arc<T>>,
    first: Seq<Seq<char>>,
    second: Seq<Seq<char>>,
)
    ensures
        tool.activated(tool.activated(live, first), second) == tool.activated(live, first + second),
{
    broadcast use vstd::seq_lib::group_seq_properties;

    assert(tool.activated(tool.activated(live, first), second) =~= tool.activated(
        live,
        first + second,
    ));
}

/// The blocks of two lists of names are those of the one and then those of the other.
pub(crate) proof fn lemma_blocks_of_both<T: ?Sized + Tool>(
    tool: ToolSearchTool<T>,
    first: Seq<Seq<char>>,
    second: Seq<Seq<char>>,
)
    ensures
        tool.blocks(first + second) == tool.blocks(first) + tool.blocks(second),
    decreases second.len(),
{
    if second.len() == 0 {
        assert(first + second =~= first);
        assert(tool.blocks(first) + tool.blocks(second) =~= tool.blocks(first));
    } else {
        lemma_blocks_of_both(tool, first, second.drop_last());
        assert((first + second).drop_last() =~= first + second.drop_last());
        assert(tool.blocks(first + second) =~= tool.blocks(first) + tool.blocks(second));
    }
}

/// Selections add up. Two of them, one after the other, leave the tools activated that a single
/// one with the names of both would. The single one shows the blocks of the first and then those
/// of the second, and it reports the names that the first does not find and then those that the
/// second does not find.
pub proof fn law_selections_add_up<T: ?Sized + Tool>(
    tool: ToolSearchTool<T>,
    live: Map<Seq<char>, Arc<T>>,
    first: Seq<Seq<char>>,
    second: Seq<Seq<char>>,
)
    ensures
        ({
            let after = tool.live_after(live, PlanView::Select(first));
            let a = ToolSearchTool::<T>::requested(first);
            let b = ToolSearchTool::<T>::requested(second);
            let both = ToolSearchTool::<T>::requested(first + second);
            &&& tool.live_after(after, PlanView::Select(second)) == tool.live_after(
                live,
                PlanView::Select(first + second),
            )
            &&& tool.blocks(both) == tool.blocks(a) + tool.blocks(b)
            &&& tool.missing(live, both) == tool.missing(live, a) + tool.missing(after, b)
        }),
{
    let filled = |name: Seq<char>| name.len() > 0;
    let unknown = |name: Seq<char>| tool.resolve(name) is None && !live.contains_key(name);
    let a = ToolSearchTool::<T>::requested(first);
    let b = ToolSearchTool::<T>::requested(second);
    Seq::filter_distributes_over_add(first, second, filled);
    Seq::filter_distributes_over_add(a, b, unknown);
    lemma_activate_both(tool, live, a, b);
    lemma_blocks_of_both(tool, a, b);
    lemma_missing_stays(tool, live, a, b);
}

/// Activating a name twice changes nothing the second time: no tool is activated, the activated
/// tools stay as they are, each under its name, and the block that is written is the same, for it
/// does not depend on what is activated.
pub proof fn law_reactivation_changes_nothing<T: ?Sized + Tool>(
    tool: ToolSearchTool<T>,
    live: Map<Seq<char>, Arc<T>>,
    name: Seq<char>,
)
    ensures
        ({
            let after = tool.activated(live, seq![name]);
            &&& !tool.is_fresh(after, name)
            &&& tool.activated(after, seq![name]) == after
            &&& tool.blocks(seq![name, name]) == tool.blocks(seq![name]) + tool.blocks(seq![name])
        }),
{
    let after = tool.activated(live, seq![name]);
    assert(seq![name].contains(name)) by {
        assert(seq![name][0] == name);
    }
    assert(tool.activated(after, seq![name]) =~= after);
    lemma_blocks_of_both(tool, seq![name], seq![name]);
    assert(seq![name] + seq![name] =~= seq![name, name]);
}

/// A call that is made again changes nothing: the same tools stay activated, none is there twice,
/// and the answer is the same.
pub proof fn law_repeated_call_changes_nothing<T: ?Sized + Tool>(
    tool: ToolSearchTool<T>,
    live: Map<Seq<char>, Arc<T>>,
    plan: PlanView,
)
    ensures
        tool.live_after(tool.live_after(live, plan), plan) == tool.live_after(live, plan),
        tool.answer(tool.live_after(live, plan), plan) == tool.answer(live, plan),
{
    let after = tool.live_after(live, plan);
    assert(tool.live_after(after, plan) =~= after);
    if let PlanView::Select(names) = plan {
        let requested = ToolSearchTool::<T>::requested(names);
        assert(tool.missing(after, requested) == tool.missing(live, requested)) by {
            lemma_missing_stays(tool, live, requested, requested);
        }
    }
}

/// Activating tools does not change which names are missing.
pub(crate) proof fn lemma_missing_stays<T: ?Sized + Tool>(
    tool: ToolSearchTool<T>,
    live: Map<Seq<char>, Arc<T>>,
    activated: Seq<Seq<char>>,
    names: Seq<Seq<char>>,
)
    ensures
        tool.missing(tool.activated(live, activated), names) == tool.missing(live, names),
    decreases names.len(),
{
    reveal(Seq::filter);
    if names.len() > 0 {
        lemma_missing_stays(tool, live, activated, names.drop_last());
    }
}

/// Selection and keyword search show tools in the same form: a selection of names that all stand
/// for deferred tools gives the answer, and activates the tools, that a search with these hits
/// does.
pub proof fn law_selection_and_search_agree<T: ?Sized + Tool>(
    tool: ToolSearchTool<T>,
    live: Map<Seq<char>, Arc<T>>,
    names: Seq<Seq<char>>,
)
    requires
        forall|i: int|
            0 <= i < names.len() ==> (#[trigger] names[i]).len() > 0 && tool.resolve(
                names[i],
            ) is Some,
    ensures
        tool.answer(live, PlanView::Select(names)) == tool.answer(live, PlanView::Activate(names)),
        tool.live_after(live, PlanView::Select(names)) == tool.live_after(
            live,
            PlanView::Activate(names),
        ),
{
    lemma_all_requested(tool, live, names);
}

/// Selecting by name what a keyword search returned gives the output of the search again. Nothing
/// is reported as not found, and the activated tools stay as they are. A tool without a name
/// cannot be selected.
pub proof fn law_selecting_what_a_search_returned<T: ?Sized + Tool>(
    tool: ToolSearchTool<T>,
    live: Map<Seq<char>, Arc<T>>,
    query: Option<Seq<char>>,
    max_results: Option<u64>,
)
    requires
        tool.planned(query, max_results) is Activate,
        forall|i: int|
            0 <= i < tool.planned(query, max_results)->Activate_0.len() ==> (
            #[trigger] tool.planned(query, max_results)->Activate_0[i]).len() > 0,
    ensures
        ({
            let search = tool.planned(query, max_results);
            let select = PlanView::Select(search->Activate_0);
            let after = tool.live_after(live, search);
            &&& tool.answer(after, select) == tool.answer(live, search)
            &&& tool.live_after(after, select) == after
            &&& tool.missing(after, ToolSearchTool::<T>::requested(search->Activate_0)).len() == 0
        }),
{
    let search = tool.planned(query, max_results);
    let names = search->Activate_0;
    let after = tool.live_after(live, search);
    law_search_hits_are_deferred(
        tool,
        text::trimmed(query->0),
        tool_search::limit(max_results),
    );
    assert forall|i: int| 0 <= i < names.len() implies (#[trigger] names[i]).len() > 0
        && tool.resolve(names[i]) is Some by {
        assert(names.contains(names[i]));
    }
    law_selection_and_search_agree(tool, after, names);
    law_repeated_call_changes_nothing(tool, live, search);
    lemma_all_requested(tool, after, names);
}

/// Where all names of a list stand for deferred tools, all are requested and none is missing.
pub(crate) proof fn lemma_all_requested<T: ?Sized + Tool>(
    tool: ToolSearchTool<T>,
    live: Map<Seq<char>, Arc<T>>,
    names: Seq<Seq<char>>,
)
    requires
        forall|i: int|
            0 <= i < names.len() ==> (#[trigger] names[i]).len() > 0 && tool.resolve(
                names[i],
            ) is Some,
    ensures
        ToolSearchTool::<T>::requested(names) == names,
        tool.missing(live, names).len() == 0,
    decreases names.len(),
{
    reveal(Seq::filter);
    if names.len() > 0 {
        let before = names.drop_last();
        assert forall|i: int| 0 <= i < before.len() implies (#[trigger] before[i]).len() > 0
            && tool.resolve(before[i]) is Some by {
            assert(before[i] == names[i]);
        }
        lemma_all_requested(tool, live, before);
        assert(names.last() == names[names.len() - 1]);
        assert(before.push(names.last()) =~= names);
    } else {
        assert(ToolSearchTool::<T>::requested(names) =~= names);
    }
}

/// A list of names is cut at every comma and nowhere else: no name holds a comma, there is at
/// least one, and put together again with commas between them they give back the list.
pub proof fn law_list_is_cut_at_commas(list: Seq<char>)
    ensures
        text::pieces(list, ',').len() > 0,
        forall|i: int|
            0 <= i < text::pieces(list, ',').len() ==> !(
            #[trigger] text::pieces(list, ',')[i]).contains(','),
        text::joined(text::pieces(list, ','), seq![',']) == list,
    decreases list.len(),
{
    let all = text::pieces(list, ',');
    let comma = seq![','];
    if list.len() == 0 {
        assert(text::joined(all, comma) =~= list);
    } else {
        let c = list.last();
        let before = text::pieces(list.drop_last(), ',');
        law_list_is_cut_at_commas(list.drop_last());
        if c == ',' {
            assert(all.drop_last() =~= before);
            assert(text::joined(all, comma) =~= list);
        } else {
            let last = before.last().push(c);
            assert(!last.contains(',')) by {
                assert forall|k: int| 0 <= k < last.len() implies last[k] != ',' by {
                    if k < before.last().len() {
                        assert(before.last().contains(last[k]));
                    }
                }
            }
            assert(all.drop_last() =~= before.drop_last());
            assert(all.last() == last);
            assert(text::joined(all, comma) =~= text::joined(before, comma).push(c));
            assert(list.drop_last().push(c) =~= list);
        }
    }
}

} // verus!
