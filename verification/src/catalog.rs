//! Lookup and keyword search over a catalog of named and described tools.

use crate::text::{self, contains, lowered_chars, lowered_words};
use vstd::prelude::*;

verus! {

/// What keyword search sees of a tool.
pub struct Entry {
    pub name: Seq<char>,
    pub description: Seq<char>,
}

/// A tool stub as lookup and search see it.
pub trait Stub {
    /// The stub's name and description.
    spec fn entry(&self) -> Entry;

    /// The stub's name.
    fn stub_name(&self) -> (r: &String)
        ensures
            r@ == self.entry().name,
    ;

    /// The stub's description.
    fn stub_description(&self) -> (r: &String)
        ensures
            r@ == self.entry().description,
    ;
}

/// What keyword search sees of a list of stubs.
pub open spec fn entries<S: Stub>(stubs: Seq<S>) -> Seq<Entry> {
    stubs.map_values(|stub: S| stub.entry())
}

/// The names in a catalog, in order.
pub open spec fn names_in(catalog: Seq<Entry>) -> Seq<Seq<char>> {
    catalog.map_values(|entry: Entry| entry.name)
}

/// The first stub with a given name.
pub open spec fn named<S: Stub>(stubs: Seq<S>, name: Seq<char>) -> Option<S> {
    match first_named(names_in(entries(stubs)), name) {
        Some(i) => Some(stubs[i]),
        None => None,
    }
}

/// The first position of a name in a list of names.
pub open spec fn first_named(names: Seq<Seq<char>>, name: Seq<char>) -> Option<int>
    decreases names.len(),
{
    if names.len() == 0 {
        None
    } else {
        match first_named(names.drop_last(), name) {
            Some(i) => Some(i),
            None => if names.last() == name {
                Some(names.len() - 1)
            } else {
                None
            },
        }
    }
}

/// A name is found where it stands first, and it is not found only where it stands nowhere.
pub proof fn lemma_first_named(names: Seq<Seq<char>>, name: Seq<char>)
    ensures
        match first_named(names, name) {
            Some(i) => 0 <= i < names.len() && names[i] == name && forall|j: int|
                0 <= j < i ==> names[j] != name,
            None => !names.contains(name),
        },
    decreases names.len(),
{
    if names.len() > 0 {
        let before = names.drop_last();
        lemma_first_named(before, name);
        assert(forall|j: int| 0 <= j < before.len() ==> before[j] == #[trigger] names[j]);
    }
}

/// The text that the terms of a query are looked for in.
pub open spec fn haystack(entry: Entry) -> Seq<char> {
    text::lowered(entry.name).push(' ') + text::lowered(entry.description)
}

/// The terms of a query: its words, in small letters.
pub open spec fn terms_of(query: Seq<char>) -> Seq<Seq<char>> {
    text::words(query).map_values(|word: Seq<char>| text::lowered(word))
}

/// How many of the terms occur in an entry.
pub open spec fn hits(terms: Seq<Seq<char>>, entry: Entry) -> nat {
    terms.filter(|term: Seq<char>| text::occurs(term, haystack(entry))).len()
}

/// How many of the terms occur in each entry of a catalog.
pub open spec fn scores(terms: Seq<Seq<char>>, catalog: Seq<Entry>) -> Seq<nat> {
    catalog.map_values(|entry: Entry| hits(terms, entry))
}

/// The positions with a given score, in ascending order.
pub open spec fn with_score(scores: Seq<nat>, score: nat) -> Seq<int>
    decreases scores.len(),
{
    if scores.len() == 0 {
        Seq::empty()
    } else {
        let before = with_score(scores.drop_last(), score);
        if scores.last() == score {
            before.push(scores.len() - 1)
        } else {
            before
        }
    }
}

/// The positions with a score from 1 to `top`: higher scores first, and in ascending order where
/// the scores are equal.
pub open spec fn best_first(scores: Seq<nat>, top: nat) -> Seq<int>
    decreases top,
{
    if top == 0 {
        Seq::empty()
    } else {
        with_score(scores, top) + best_first(scores, (top - 1) as nat)
    }
}

/// Two lists taken in turns, starting with the first, and then what is left of the longer one.
pub open spec fn interleaved<A>(first: Seq<A>, second: Seq<A>) -> Seq<A> {
    let paired = if first.len() < second.len() {
        first.len()
    } else {
        second.len()
    };
    Seq::new(
        first.len() + second.len(),
        |k: int|
            if k < 2 * paired {
                if k % 2 == 0 {
                    first[k / 2]
                } else {
                    second[k / 2]
                }
            } else if first.len() > paired {
                first[k - paired]
            } else {
                second[k - paired]
            },
    )
}

/// Positions in one of two catalogs: in the first where `second` is false, else in the second.
pub open spec fn side(second: bool, list: Seq<int>) -> Seq<(bool, int)> {
    list.map_values(|i: int| (second, i))
}

/// The positions in two catalogs with a given score, those of both catalogs in turns.
pub open spec fn with_score_in_both(first: Seq<nat>, second: Seq<nat>, score: nat) -> Seq<
    (bool, int),
> {
    interleaved(side(false, with_score(first, score)), side(true, with_score(second, score)))
}

/// The positions in two catalogs with a score from 1 to `top`: higher scores first, whichever
/// catalog they come from, and the catalogs in turns where the scores are equal.
pub open spec fn best_of_both(first: Seq<nat>, second: Seq<nat>, top: nat) -> Seq<(bool, int)>
    decreases top,
{
    if top == 0 {
        Seq::empty()
    } else {
        with_score_in_both(first, second, top) + best_of_both(first, second, (top - 1) as nat)
    }
}

/// The first `n` items of a list, or all of them where there are fewer.
pub open spec fn first_of<A>(list: Seq<A>, n: nat) -> Seq<A> {
    if n < list.len() {
        list.take(n as int)
    } else {
        list
    }
}

/// The positions in a catalog that a query finds, best match first. A query without terms finds
/// every entry, in the order of the catalog.
pub open spec fn found(catalog: Seq<Entry>, query: Seq<char>, max_results: nat) -> Seq<int> {
    let terms = terms_of(query);
    first_of(
        if terms.len() == 0 {
            Seq::new(catalog.len(), |i: int| i)
        } else {
            best_first(scores(terms, catalog), terms.len())
        },
        max_results,
    )
}

/// The positions in two catalogs that a query with terms finds, best match first.
pub open spec fn found_in_both(
    first: Seq<Entry>,
    second: Seq<Entry>,
    query: Seq<char>,
    max_results: nat,
) -> Seq<(bool, int)> {
    let terms = terms_of(query);
    first_of(
        best_of_both(scores(terms, first), scores(terms, second), terms.len()),
        max_results,
    )
}

/// Whether there is an entry at a position in two catalogs.
pub open spec fn is_place<A>(first: Seq<A>, second: Seq<A>, at: (bool, int)) -> bool {
    0 <= at.1 < if at.0 {
        second.len()
    } else {
        first.len()
    }
}

/// What stands at a position in two catalogs.
pub open spec fn item_at<A>(first: Seq<A>, second: Seq<A>, at: (bool, int)) -> A {
    if at.0 {
        second[at.1]
    } else {
        first[at.1]
    }
}

/// The names that a query with terms finds in two catalogs, best match first.
pub open spec fn names_in_both(
    first: Seq<Entry>,
    second: Seq<Entry>,
    query: Seq<char>,
    max_results: nat,
) -> Seq<Seq<char>> {
    found_in_both(first, second, query, max_results).map_values(
        |at: (bool, int)| item_at(first, second, at).name,
    )
}

/// Positions as mathematical integers.
pub open spec fn positions(list: Seq<usize>) -> Seq<int> {
    list.map_values(|i: usize| i as int)
}

/// Positions in two catalogs, with mathematical integers.
pub open spec fn places(list: Seq<(bool, usize)>) -> Seq<(bool, int)> {
    list.map_values(|at: (bool, usize)| (at.0, at.1 as int))
}

/// Counts as natural numbers.
pub open spec fn naturals(counts: Seq<usize>) -> Seq<nat> {
    counts.map_values(|n: usize| n as nat)
}

/// Looks up a stub by its exact name.
pub(crate) fn find<'a, S: Stub>(stubs: &'a Vec<S>, name: &str) -> (r: Option<&'a S>)
    ensures
        match named(stubs@, name@) {
            Some(stub) => r is Some && *r->0 == stub,
            None => r is None,
        },
{
    let wanted = name.to_string();
    let ghost names = names_in(entries(stubs@));
    for i in 0..stubs.len()
        invariant
            wanted@ == name@,
            names == names_in(entries(stubs@)),
            first_named(names.take(i as int), name@) is None,
    {
        assert(names.take(i + 1).drop_last() == names.take(i as int));
        if *stubs[i].stub_name() == wanted {
            proof {
                lemma_first_named(names, name@);
                lemma_first_named(names.take(i as int), name@);
                assert(names[i as int] == name@);
                let at = first_named(names, name@)->0;
                assert(at < i ==> names.take(i as int)[at] == name@);
            }
            return Some(&stubs[i]);
        }
    }
    assert(names.take(stubs@.len() as int) == names);
    None
}

/// Counts the terms that occur in one entry.
pub(crate) fn count_hits(terms: &Vec<Vec<char>>, name: &str, description: &str) -> (r: usize)
    ensures
        r == hits(text::texts(terms@), Entry { name: name@, description: description@ }),
        r <= terms@.len(),
{
    let mut hay = lowered_chars(name);
    hay.push(' ');
    let mut tail = lowered_chars(description);
    hay.append(&mut tail);
    let ghost entry = Entry { name: name@, description: description@ };
    let ghost all = text::texts(terms@);
    let ghost matching = |term: Seq<char>| text::occurs(term, haystack(entry));
    let mut r: usize = 0;
    reveal(Seq::filter);
    for i in 0..terms.len()
        invariant
            hay@ == haystack(entry),
            all == text::texts(terms@),
            matching == (|term: Seq<char>| text::occurs(term, haystack(entry))),
            r == all.take(i as int).filter(matching).len(),
            r <= i,
    {
        reveal(Seq::filter);
        assert(all.take(i + 1).drop_last() == all.take(i as int));
        assert(all.take(i + 1).last() == terms@[i as int]@);
        if contains(&hay, &terms[i]) {
            r += 1;
        }
    }
    assert(all.take(terms@.len() as int) == all);
    r
}

/// Counts the terms that occur in each stub of a list.
pub(crate) fn count_all<S: Stub>(terms: &Vec<Vec<char>>, stubs: &Vec<S>) -> (r: Vec<usize>)
    ensures
        naturals(r@) == scores(text::texts(terms@), entries(stubs@)),
{
    let ghost all = scores(text::texts(terms@), entries(stubs@));
    let mut r: Vec<usize> = Vec::new();
    for i in 0..stubs.len()
        invariant
            all == scores(text::texts(terms@), entries(stubs@)),
            naturals(r@) == all.take(i as int),
    {
        let stub = &stubs[i];
        let n = count_hits(terms, stub.stub_name().as_str(), stub.stub_description().as_str());
        let ghost before = r@;
        r.push(n);
        assert(naturals(r@) == naturals(before).push(n as nat));
        assert(entries(stubs@)[i as int] == stub.entry());
    }
    r
}

/// The positions with a given score, in ascending order.
pub(crate) fn positions_with(counts: &Vec<usize>, score: usize) -> (r: Vec<usize>)
    ensures
        positions(r@) == with_score(naturals(counts@), score as nat),
{
    let ghost all = naturals(counts@);
    let mut r: Vec<usize> = Vec::new();
    for i in 0..counts.len()
        invariant
            all == naturals(counts@),
            positions(r@) == with_score(all.take(i as int), score as nat),
    {
        assert(all.take(i + 1).drop_last() == all.take(i as int));
        if counts[i] == score {
            let ghost before = r@;
            r.push(i);
            assert(positions(r@) == positions(before).push(i as int));
        }
    }
    assert(all.take(counts@.len() as int) == all);
    r
}

/// Orders the positions with a score above zero: higher scores first, and in ascending order
/// where the scores are equal.
pub(crate) fn rank(counts: &Vec<usize>, top: usize) -> (r: Vec<usize>)
    ensures
        positions(r@) == best_first(naturals(counts@), top as nat),
{
    let ghost all = naturals(counts@);
    let mut r: Vec<usize> = Vec::new();
    let mut score: usize = top;
    assert(positions(r@) + best_first(all, top as nat) == best_first(all, top as nat));
    while score > 0
        invariant
            all == naturals(counts@),
            positions(r@) + best_first(all, score as nat) == best_first(all, top as nat),
        decreases score,
    {
        let ghost before = r@;
        let ghost rest = best_first(all, (score - 1) as nat);
        let mut here = positions_with(counts, score);
        let ghost level = here@;
        r.append(&mut here);
        assert(positions(r@) == positions(before) + positions(level));
        assert(positions(before) + (positions(level) + rest) == positions(before) + positions(level)
            + rest);
        score -= 1;
    }
    assert(positions(r@) + best_first(all, 0) == positions(r@));
    r
}

/// Takes the positions in two catalogs in turns.
pub(crate) fn in_turns(first: &Vec<usize>, second: &Vec<usize>) -> (r: Vec<(bool, usize)>)
    ensures
        places(r@) == interleaved(side(false, positions(first@)), side(true, positions(second@))),
{
    let ghost all = interleaved(side(false, positions(first@)), side(true, positions(second@)));
    let mut r: Vec<(bool, usize)> = Vec::new();
    let mut i: usize = 0;
    let mut j: usize = 0;
    while i < first.len() || j < second.len()
        invariant
            all == interleaved(side(false, positions(first@)), side(true, positions(second@))),
            i <= first@.len(),
            j <= second@.len(),
            i == j || (i < j && i == first@.len()) || (j < i && j == second@.len()),
            places(r@) == all.take(i + j),
        decreases first@.len() + second@.len() - i - j,
    {
        if i < first.len() {
            let ghost before = r@;
            r.push((false, first[i]));
            i += 1;
            assert(places(r@) == places(before).push((false, first@[i - 1] as int)));
            assert(all.take(i + j) == all.take(i + j - 1).push(all[i + j - 1]));
        }
        if j < second.len() {
            let ghost before = r@;
            r.push((true, second[j]));
            j += 1;
            assert(places(r@) == places(before).push((true, second@[j - 1] as int)));
            assert(all.take(i + j) == all.take(i + j - 1).push(all[i + j - 1]));
        }
    }
    assert(all.take(i + j) == all);
    r
}

/// Orders the positions in two catalogs with a score above zero: higher scores first, and the
/// catalogs in turns where the scores are equal.
pub(crate) fn rank_both(first: &Vec<usize>, second: &Vec<usize>, top: usize) -> (r: Vec<
    (bool, usize),
>)
    ensures
        places(r@) == best_of_both(naturals(first@), naturals(second@), top as nat),
{
    let ghost a = naturals(first@);
    let ghost b = naturals(second@);
    let mut r: Vec<(bool, usize)> = Vec::new();
    let mut score: usize = top;
    assert(places(r@) + best_of_both(a, b, top as nat) == best_of_both(a, b, top as nat));
    while score > 0
        invariant
            a == naturals(first@),
            b == naturals(second@),
            places(r@) + best_of_both(a, b, score as nat) == best_of_both(a, b, top as nat),
        decreases score,
    {
        let ghost before = r@;
        let ghost rest = best_of_both(a, b, (score - 1) as nat);
        let from_first = positions_with(first, score);
        let from_second = positions_with(second, score);
        let mut here = in_turns(&from_first, &from_second);
        let ghost level = here@;
        r.append(&mut here);
        assert(places(r@) == places(before) + places(level));
        assert(places(before) + (places(level) + rest) == places(before) + places(level) + rest);
        score -= 1;
    }
    assert(places(r@) + best_of_both(a, b, 0) == places(r@));
    r
}

/// Searches a list of stubs.
pub(crate) fn search<'a, S: Stub>(stubs: &'a Vec<S>, query: &str, max_results: usize) -> (r: Vec<
    &'a S,
>)
    ensures
        r@ == found(entries(stubs@), query@, max_results as nat).map_values(|i: int| &stubs@[i]),
{
    let terms = lowered_words(query);
    let mut order: Vec<usize> = Vec::new();
    if terms.len() == 0 {
        for i in 0..stubs.len()
            invariant
                positions(order@) == Seq::new(i as nat, |k: int| k),
        {
            let ghost before = order@;
            order.push(i);
            assert(positions(order@) == positions(before).push(i as int));
        }
    } else {
        let counts = count_all(&terms, stubs);
        order = rank(&counts, terms.len());
    }
    let ghost whole = positions(order@);
    if max_results < order.len() {
        order.truncate(max_results);
        assert(positions(order@) == whole.take(max_results as int));
    }
    let ghost at = found(entries(stubs@), query@, max_results as nat);
    proof {
        lemma_found_in_catalog(entries(stubs@), query@, max_results as nat);
    }
    let mut r: Vec<&S> = Vec::new();
    for k in 0..order.len()
        invariant
            positions(order@) == at,
            forall|i: int| 0 <= i < at.len() ==> 0 <= #[trigger] at[i] < stubs@.len(),
            r@ == at.take(k as int).map_values(|i: int| &stubs@[i]),
    {
        assert(at[k as int] == order@[k as int]);
        r.push(&stubs[order[k]]);
        assert(at.take(k + 1) == at.take(k as int).push(at[k as int]));
    }
    assert(at.take(order@.len() as int) == at);
    r
}

/// Searches two lists of stubs together and returns the names of what is found.
pub(crate) fn search_both<A: Stub, B: Stub>(
    first: &Vec<A>,
    second: &Vec<B>,
    query: &str,
    max_results: usize,
) -> (r: Vec<String>)
    ensures
        text::strings(r@) == names_in_both(
            entries(first@),
            entries(second@),
            query@,
            max_results as nat,
        ),
{
    let ghost a = entries(first@);
    let ghost b = entries(second@);
    let terms = lowered_words(query);
    let first_counts = count_all(&terms, first);
    let second_counts = count_all(&terms, second);
    let order = rank_both(&first_counts, &second_counts, terms.len());
    let ghost whole = best_of_both(
        scores(terms_of(query@), a),
        scores(terms_of(query@), b),
        terms_of(query@).len(),
    );
    proof {
        lemma_best_of_both(
            scores(terms_of(query@), a),
            scores(terms_of(query@), b),
            terms_of(query@).len(),
        );
    }
    let count: usize = if max_results < order.len() {
        max_results
    } else {
        order.len()
    };
    let mut r: Vec<String> = Vec::new();
    for k in 0..count
        invariant
            count <= order@.len(),
            a == entries(first@),
            b == entries(second@),
            places(order@) == whole,
            forall|i: int| 0 <= i < whole.len() ==> is_place(a, b, #[trigger] whole[i]),
            text::strings(r@) == whole.take(k as int).map_values(
                |at: (bool, int)| item_at(a, b, at).name,
            ),
    {
        let at = order[k];
        assert(whole[k as int] == (at.0, at.1 as int));
        let name = if at.0 {
            second[at.1].stub_name().clone()
        } else {
            first[at.1].stub_name().clone()
        };
        let ghost before = r@;
        r.push(name);
        assert(text::strings(r@) == text::strings(before).push(name@));
        assert(whole.take(k + 1) == whole.take(k as int).push(whole[k as int]));
        assert(item_at(a, b, whole[k as int]).name == name@);
    }
    assert(first_of(whole, max_results as nat) == whole.take(count as int));
    r
}

/// The positions with a given score stand in ascending order, they have that score, and none of
/// them is missing.
pub proof fn lemma_with_score(scores: Seq<nat>, score: nat)
    ensures
        forall|a: int|
            0 <= a < with_score(scores, score).len() ==> 0 <= #[trigger] with_score(scores, score)[a]
                < scores.len() && scores[with_score(scores, score)[a]] == score,
        forall|a: int, b: int|
            0 <= a < b < with_score(scores, score).len() ==> with_score(scores, score)[a]
                < with_score(scores, score)[b],
        forall|i: int|
            0 <= i < scores.len() && scores[i] == score ==> with_score(scores, score).contains(i),
    decreases scores.len(),
{
    if scores.len() > 0 {
        let before = with_score(scores.drop_last(), score);
        let all = with_score(scores, score);
        lemma_with_score(scores.drop_last(), score);
        assert forall|i: int| 0 <= i < scores.len() && scores[i] == score implies all.contains(
            i,
        ) by {
            if i < scores.len() - 1 {
                assert(scores.drop_last()[i] == score);
                let a = before.index_of(i);
                assert(all[a] == i);
            } else {
                assert(all.last() == i);
            }
        }
    }
}

/// The ranking is the stable descending order of the positions with a score from 1 to `top`:
/// it has them all, and no others; of two of them the one with the higher score comes first, and
/// with equal scores the one that stands first.
pub proof fn lemma_best_first(scores: Seq<nat>, top: nat)
    ensures
        forall|a: int|
            0 <= a < best_first(scores, top).len() ==> 0 <= #[trigger] best_first(scores, top)[a]
                < scores.len() && 0 < scores[best_first(scores, top)[a]] <= top,
        forall|a: int, b: int|
            0 <= a < b < best_first(scores, top).len() ==> {
                let i = #[trigger] best_first(scores, top)[a];
                let j = #[trigger] best_first(scores, top)[b];
                scores[i] > scores[j] || scores[i] == scores[j] && i < j
            },
        forall|i: int|
            0 <= i < scores.len() && 0 < scores[i] <= top ==> best_first(scores, top).contains(i),
    decreases top,
{
    if top > 0 {
        let here = with_score(scores, top);
        let rest = best_first(scores, (top - 1) as nat);
        let all = best_first(scores, top);
        lemma_with_score(scores, top);
        lemma_best_first(scores, (top - 1) as nat);
        assert forall|a: int| 0 <= a < all.len() implies 0 <= #[trigger] all[a] < scores.len() && 0
            < scores[all[a]] <= top by {
            if a < here.len() {
                assert(all[a] == here[a]);
            } else {
                assert(all[a] == rest[a - here.len()]);
            }
        }
        assert forall|a: int, b: int| 0 <= a < b < all.len() implies {
            let i = #[trigger] all[a];
            let j = #[trigger] all[b];
            scores[i] > scores[j] || scores[i] == scores[j] && i < j
        } by {
            if b < here.len() {
                assert(all[a] == here[a] && all[b] == here[b]);
            } else {
                assert(all[b] == rest[b - here.len()]);
                if a < here.len() {
                    assert(all[a] == here[a]);
                } else {
                    assert(all[a] == rest[a - here.len()]);
                }
            }
        }
        assert forall|i: int| 0 <= i < scores.len() && 0 < scores[i] <= top implies all.contains(
            i,
        ) by {
            if scores[i] == top {
                let a = here.index_of(i);
                assert(all[a] == i);
            } else {
                assert(rest.contains(i));
                let a = rest.index_of(i);
                assert(all[here.len() + a] == i);
            }
        }
    }
}

/// A search finds positions of the catalog, at most as many as were asked for.
pub proof fn lemma_found_in_catalog(catalog: Seq<Entry>, query: Seq<char>, max_results: nat)
    ensures
        found(catalog, query, max_results).len() <= max_results,
        forall|a: int|
            0 <= a < found(catalog, query, max_results).len() ==> 0 <= #[trigger] found(
                catalog,
                query,
                max_results,
            )[a] < catalog.len(),
{
    let terms = terms_of(query);
    lemma_best_first(scores(terms, catalog), terms.len());
}

/// The positions with one score in two catalogs: they have that score, none of them is missing,
/// and those of one catalog stand in ascending order.
pub proof fn lemma_with_score_in_both(first: Seq<nat>, second: Seq<nat>, score: nat)
    ensures
        ({
            let all = with_score_in_both(first, second, score);
            &&& forall|a: int|
                0 <= a < all.len() ==> is_place(first, second, #[trigger] all[a]) && item_at(
                    first,
                    second,
                    all[a],
                ) == score
            &&& forall|a: int, b: int|
                0 <= a < b < all.len() && (#[trigger] all[a]).0 == (#[trigger] all[b]).0
                    ==> all[a].1 < all[b].1
            &&& forall|at: (bool, int)|
                is_place(first, second, at) && item_at(first, second, at) == score
                    ==> #[trigger] all.contains(at)
        }),
{
    let all = with_score_in_both(first, second, score);
    let a = with_score(first, score);
    let b = with_score(second, score);
    let paired = if a.len() < b.len() {
        a.len()
    } else {
        b.len()
    };
    lemma_with_score(first, score);
    lemma_with_score(second, score);
    assert forall|at: (bool, int)|
        is_place(first, second, at) && item_at(first, second, at)
            == score implies #[trigger] all.contains(at) by {
        if at.0 {
            assert(b.contains(at.1));
            let k = b.index_of(at.1);
            if k < paired {
                assert(all[2 * k + 1] == at);
            } else {
                assert(all[k + paired] == at);
            }
        } else {
            assert(a.contains(at.1));
            let k = a.index_of(at.1);
            if k < paired {
                assert(all[2 * k] == at);
            } else {
                assert(all[k + paired] == at);
            }
        }
    }
}

/// The joint ranking has the positions with a score from 1 to `top` in both catalogs, and no
/// others. Scores never rise along it, and the positions of one catalog stand in ascending order
/// where their scores are equal.
pub proof fn lemma_best_of_both(first: Seq<nat>, second: Seq<nat>, top: nat)
    ensures
        ({
            let all = best_of_both(first, second, top);
            &&& forall|a: int|
                0 <= a < all.len() ==> is_place(first, second, #[trigger] all[a]) && 0 < item_at(
                    first,
                    second,
                    all[a],
                ) <= top
            &&& forall|a: int, b: int|
                0 <= a < b < all.len() ==> {
                    let i = #[trigger] all[a];
                    let j = #[trigger] all[b];
                    &&& item_at(first, second, i) >= item_at(first, second, j)
                    &&& i.0 == j.0 && item_at(first, second, i) == item_at(first, second, j)
                        ==> i.1 < j.1
                }
            &&& forall|at: (bool, int)|
                is_place(first, second, at) && 0 < item_at(first, second, at) <= top
                    ==> #[trigger] all.contains(at)
        }),
    decreases top,
{
    if top > 0 {
        let here = with_score_in_both(first, second, top);
        let rest = best_of_both(first, second, (top - 1) as nat);
        let all = best_of_both(first, second, top);
        lemma_with_score_in_both(first, second, top);
        lemma_best_of_both(first, second, (top - 1) as nat);
        assert forall|a: int| 0 <= a < all.len() implies is_place(first, second, #[trigger] all[a])
            && 0 < item_at(first, second, all[a]) <= top by {
            if a < here.len() {
                assert(all[a] == here[a]);
            } else {
                assert(all[a] == rest[a - here.len()]);
            }
        }
        assert forall|a: int, b: int| 0 <= a < b < all.len() implies {
            let i = #[trigger] all[a];
            let j = #[trigger] all[b];
            &&& item_at(first, second, i) >= item_at(first, second, j)
            &&& i.0 == j.0 && item_at(first, second, i) == item_at(first, second, j) ==> i.1 < j.1
        } by {
            if b < here.len() {
                assert(all[a] == here[a] && all[b] == here[b]);
            } else {
                assert(all[b] == rest[b - here.len()]);
                if a < here.len() {
                    assert(all[a] == here[a]);
                } else {
                    assert(all[a] == rest[a - here.len()]);
                }
            }
        }
        assert forall|at: (bool, int)|
            is_place(first, second, at) && 0 < item_at(first, second, at)
                <= top implies #[trigger] all.contains(at) by {
            if item_at(first, second, at) == top {
                assert(here.contains(at));
                let a = here.index_of(at);
                assert(all[a] == at);
            } else {
                assert(rest.contains(at));
                let a = rest.index_of(at);
                assert(all[here.len() + a] == at);
            }
        }
    }
}

} // verus!
