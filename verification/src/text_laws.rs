//! What the operations on text come to: how the result for a text follows from the results for its
//! parts, and what it is for a text that has no parts.

use crate::catalog;
use crate::laws;
use crate::text;
use vstd::prelude::*;

verus! {

/// Whether some text holds nothing but white space.
pub open spec fn blank(s: Seq<char>) -> bool {
    forall|i: int| 0 <= i < s.len() ==> text::white(#[trigger] s[i])
}

/// Whether some text holds no white space.
pub open spec fn solid(s: Seq<char>) -> bool {
    forall|i: int| 0 <= i < s.len() ==> !text::white(#[trigger] s[i])
}

/// Whether some text neither starts nor ends with white space.
pub open spec fn bare(s: Seq<char>) -> bool {
    s.len() > 0 ==> !text::white(s[0]) && !text::white(s[s.len() - 1])
}

/// The code point of a character, with that of an ASCII capital letter raised to the small one.
pub open spec fn small_code(c: char) -> int {
    if 65 <= c as int <= 90 {
        c as int + 32
    } else {
        c as int
    }
}

/// White space is what Unicode gives the property `White_Space`, by code point.
pub proof fn law_white_space_by_code_point(c: char)
    ensures
        ({
            let n = c as int;
            text::white(c) <==> 9 <= n <= 13 || n == 32 || n == 133 || n == 160 || n == 5760 || 8192
                <= n <= 8202 || n == 8232 || n == 8233 || n == 8239 || n == 8287 || n == 12288
        }),
{
}

/// Making letters small works character by character, over the whole text, and touches nothing
/// but the 26 ASCII capital letters.
pub proof fn law_letters_made_small_one_by_one(s: Seq<char>)
    ensures
        text::lowered(s).len() == s.len(),
        forall|i: int|
            0 <= i < s.len() ==> (#[trigger] text::lowered(s)[i]) as int == small_code(s[i]),
{
}

/// A text stands in another exactly where the other is something, then it, then something.
pub proof fn law_occurrence_is_a_middle(needle: Seq<char>, hay: Seq<char>)
    ensures
        text::occurs(needle, hay) <==> exists|before: Seq<char>, after: Seq<char>|
            hay == #[trigger] (before + needle + after),
{
    if text::occurs(needle, hay) {
        let at = choose|at: int| text::occurs_at(needle, hay, at);
        let before = hay.take(at);
        let after = hay.skip(at + needle.len());
        assert(hay =~= before + hay.subrange(at, at + needle.len()) + after);
        assert(hay == before + needle + after);
    }
    if exists|before: Seq<char>, after: Seq<char>| hay == #[trigger] (before + needle + after) {
        let (before, after) = choose|before: Seq<char>, after: Seq<char>|
            hay == #[trigger] (before + needle + after);
        let at = before.len() as int;
        assert(hay.subrange(at, at + needle.len()) =~= needle);
        assert(text::occurs_at(needle, hay, at));
    }
}

/// Text without white space is one word, and no text has no words.
pub proof fn law_solid_text_is_one_word(s: Seq<char>)
    requires
        solid(s),
    ensures
        text::words(s) == if s.len() == 0 {
            Seq::<Seq<char>>::empty()
        } else {
            seq![s]
        },
    decreases s.len(),
{
    if s.len() > 0 {
        let before = s.drop_last();
        assert forall|i: int| 0 <= i < before.len() implies !text::white(#[trigger] before[i]) by {
            assert(before[i] == s[i]);
        }
        assert(!text::white(s[s.len() - 1]));
        law_solid_text_is_one_word(before);
        if before.len() == 0 {
            assert(seq![s.last()] =~= s);
            assert(text::words(s) =~= seq![s]);
        } else {
            assert(before.last() == s[s.len() - 2]);
            assert(before.push(s.last()) =~= s);
            assert(text::words(s) =~= seq![s]);
        }
    }
}

/// Around a white space character the words are those before it and then those after it.
pub proof fn law_words_end_at_white_space(before: Seq<char>, gap: char, after: Seq<char>)
    requires
        text::white(gap),
    ensures
        text::words(before.push(gap) + after) == text::words(before) + text::words(after),
    decreases after.len(),
{
    let all = before.push(gap) + after;
    if after.len() == 0 {
        assert(all =~= before.push(gap));
        assert(all.drop_last() =~= before);
        assert(text::words(all) =~= text::words(before) + text::words(after));
    } else {
        let shorter = after.drop_last();
        let c = after.last();
        law_words_end_at_white_space(before, gap, shorter);
        assert(all.drop_last() =~= before.push(gap) + shorter);
        assert(all.last() == c);
        if shorter.len() == 0 {
            assert(all.drop_last().last() == gap);
        } else {
            assert(all.drop_last().last() == shorter.last());
            laws::lemma_words(shorter);
        }
        assert(text::words(all) =~= text::words(before) + text::words(after));
    }
}

/// A query without white space is one term, in small letters, however long it is.
pub proof fn law_solid_query_is_one_term(query: Seq<char>)
    requires
        query.len() > 0,
        solid(query),
    ensures
        catalog::terms_of(query).len() == 1,
        catalog::terms_of(query)[0].len() == query.len(),
        forall|i: int|
            0 <= i < query.len() ==> (#[trigger] catalog::terms_of(query)[0][i]) as int
                == small_code(query[i]),
{
    law_solid_text_is_one_word(query);
    law_letters_made_small_one_by_one(query);
}

/// Around a white space character the terms of a query are those before it and then those after
/// it, however many there are.
pub proof fn law_terms_end_at_white_space(before: Seq<char>, gap: char, after: Seq<char>)
    requires
        text::white(gap),
    ensures
        catalog::terms_of(before.push(gap) + after) == catalog::terms_of(before)
            + catalog::terms_of(after),
{
    law_words_end_at_white_space(before, gap, after);
    assert(catalog::terms_of(before.push(gap) + after) =~= catalog::terms_of(before)
        + catalog::terms_of(after));
}

/// White space in front goes.
pub(crate) proof fn lemma_trim_front(pad: Seq<char>, s: Seq<char>)
    requires
        blank(pad),
    ensures
        text::trimmed_start(pad + s) == text::trimmed_start(s),
    decreases pad.len(),
{
    if pad.len() == 0 {
        assert(pad + s =~= s);
    } else {
        let less = pad.drop_first();
        assert forall|i: int| 0 <= i < less.len() implies text::white(#[trigger] less[i]) by {
            assert(less[i] == pad[i + 1]);
        }
        lemma_trim_front(less, s);
        assert(text::white(pad[0]));
        assert((pad + s).drop_first() =~= less + s);
    }
}

/// White space behind goes.
pub(crate) proof fn lemma_trim_back(s: Seq<char>, pad: Seq<char>)
    requires
        blank(pad),
    ensures
        text::trimmed_end(s + pad) == text::trimmed_end(s),
    decreases pad.len(),
{
    if pad.len() == 0 {
        assert(s + pad =~= s);
    } else {
        let less = pad.drop_last();
        assert forall|i: int| 0 <= i < less.len() implies text::white(#[trigger] less[i]) by {
            assert(less[i] == pad[i]);
        }
        lemma_trim_back(s, less);
        assert(text::white(pad[pad.len() - 1]));
        assert((s + pad).drop_last() =~= s + less);
    }
}

/// Trimming takes off the white space on both sides, however much there is, and nothing else.
pub proof fn law_trimming_takes_off_the_padding(front: Seq<char>, core: Seq<char>, back: Seq<char>)
    requires
        blank(front),
        blank(back),
        bare(core),
    ensures
        text::trimmed(front + core + back) == core,
{
    let all = front + core + back;
    assert(all =~= front + (core + back));
    lemma_trim_front(front, core + back);
    if core.len() == 0 {
        assert(core + back =~= back + Seq::<char>::empty());
        lemma_trim_front(back, Seq::empty());
        assert(text::trimmed(all) =~= core);
    } else {
        assert((core + back)[0] == core[0]);
        assert(text::trimmed_start(core + back) == core + back);
        lemma_trim_back(core, back);
    }
}

/// Every text is padding, what trimming leaves, and padding.
pub proof fn law_trimming_leaves_the_core(s: Seq<char>)
    ensures
        bare(text::trimmed(s)),
        exists|front: Seq<char>, back: Seq<char>|
            s == #[trigger] (front + text::trimmed(s) + back) && blank(front) && blank(back),
{
    laws::lemma_trimmed(s);
    let rest = text::trimmed_start(s);
    let core = text::trimmed(s);
    lemma_front_of(s);
    lemma_back_of(rest);
    let front = s.take(s.len() - rest.len());
    let back = rest.skip(core.len() as int);
    assert(s =~= front + core + back);
}

/// What trimming takes off in front is white space.
pub(crate) proof fn lemma_front_of(s: Seq<char>)
    ensures
        ({
            let rest = text::trimmed_start(s);
            &&& rest.len() <= s.len()
            &&& blank(s.take(s.len() - rest.len()))
            &&& rest == s.skip(s.len() - rest.len())
        }),
    decreases s.len(),
{
    let rest = text::trimmed_start(s);
    if s.len() > 0 && text::white(s.first()) {
        let less = s.drop_first();
        lemma_front_of(less);
        assert(rest =~= s.skip(s.len() - rest.len()));
        let front = s.take(s.len() - rest.len());
        assert forall|i: int| 0 <= i < front.len() implies text::white(#[trigger] front[i]) by {
            if i > 0 {
                assert(front[i] == less.take(less.len() - rest.len())[i - 1]);
            }
        }
    } else {
        assert(rest =~= s.skip(0));
    }
}

/// What trimming takes off behind is white space.
pub(crate) proof fn lemma_back_of(s: Seq<char>)
    ensures
        ({
            let rest = text::trimmed_end(s);
            &&& rest.len() <= s.len()
            &&& rest == s.take(rest.len() as int)
            &&& blank(s.skip(rest.len() as int))
        }),
    decreases s.len(),
{
    let rest = text::trimmed_end(s);
    if s.len() > 0 && text::white(s.last()) {
        let less = s.drop_last();
        lemma_back_of(less);
        assert(rest =~= s.take(rest.len() as int));
        let back = s.skip(rest.len() as int);
        assert forall|i: int| 0 <= i < back.len() implies text::white(#[trigger] back[i]) by {
            if i < back.len() - 1 {
                assert(back[i] == less.skip(rest.len() as int)[i]);
            }
        }
    } else {
        assert(rest =~= s.take(rest.len() as int));
    }
}

/// Text without the mark is one piece, whatever its length.
pub proof fn law_unmarked_text_is_one_piece(s: Seq<char>, mark: char)
    requires
        !s.contains(mark),
    ensures
        text::pieces(s, mark) == seq![s],
    decreases s.len(),
{
    if s.len() == 0 {
        assert(s =~= Seq::empty());
    } else {
        let before = s.drop_last();
        assert(!before.contains(mark)) by {
            if before.contains(mark) {
                assert(s[before.index_of(mark)] == mark);
            }
        }
        assert(s[s.len() - 1] != mark) by {
            if s[s.len() - 1] == mark {
                assert(s.contains(mark));
            }
        }
        law_unmarked_text_is_one_piece(before, mark);
        assert(before.push(s.last()) =~= s);
        assert(text::pieces(s, mark) =~= seq![s]);
    }
}

/// Around a mark the pieces are those before it and then those after it, however many there are.
pub proof fn law_pieces_end_at_marks(before: Seq<char>, mark: char, after: Seq<char>)
    ensures
        text::pieces(before.push(mark) + after, mark) == text::pieces(before, mark) + text::pieces(
            after,
            mark,
        ),
        text::pieces(after, mark).len() > 0,
    decreases after.len(),
{
    let all = before.push(mark) + after;
    if after.len() == 0 {
        assert(all =~= before.push(mark));
        assert(all.drop_last() =~= before);
        assert(text::pieces(all, mark) =~= text::pieces(before, mark) + text::pieces(after, mark));
    } else {
        law_pieces_end_at_marks(before, mark, after.drop_last());
        assert(all.drop_last() =~= before.push(mark) + after.drop_last());
        assert(all.last() == after.last());
        assert(text::pieces(all, mark) =~= text::pieces(before, mark) + text::pieces(after, mark));
    }
}

/// Escaping works character by character: a double quote gets a backslash, any other character
/// stays, and texts of any length are escaped part by part.
pub proof fn law_escaping_works_part_by_part(a: Seq<char>, b: Seq<char>, c: char)
    ensures
        text::escaped(Seq::empty()) == Seq::<char>::empty(),
        c == '"' ==> text::escaped(seq![c]) == seq!['\\', '"'],
        c != '"' ==> text::escaped(seq![c]) == seq![c],
        text::escaped(a + b) == text::escaped(a) + text::escaped(b),
    decreases b.len(),
{
    assert(seq![c].drop_last() =~= Seq::empty());
    assert(text::escaped(seq![c].drop_last()) =~= Seq::empty());
    if c == '"' {
        assert(text::escaped(seq![c]) =~= seq!['\\', '"']);
    } else {
        assert(text::escaped(seq![c]) =~= seq![c]);
    }
    if b.len() == 0 {
        assert(a + b =~= a);
        assert(text::escaped(a) + text::escaped(b) =~= text::escaped(a));
    } else {
        law_escaping_works_part_by_part(a, b.drop_last(), c);
        assert((a + b).drop_last() =~= a + b.drop_last());
        assert(text::escaped(a + b) =~= text::escaped(a) + text::escaped(b));
    }
}

/// Joining puts the mark between any two neighbours and nowhere else.
pub proof fn law_joining_works_part_by_part(
    a: Seq<Seq<char>>,
    b: Seq<Seq<char>>,
    one: Seq<char>,
    mark: Seq<char>,
)
    ensures
        text::joined(Seq::empty(), mark) == Seq::<char>::empty(),
        text::joined(seq![one], mark) == one,
        a.len() > 0 && b.len() > 0 ==> text::joined(a + b, mark) == text::joined(a, mark) + mark
            + text::joined(b, mark),
    decreases b.len(),
{
    if a.len() > 0 && b.len() > 0 {
        let shorter = b.drop_last();
        assert((a + b).drop_last() =~= a + shorter);
        assert((a + b).last() == b.last());
        if shorter.len() == 0 {
            assert(a + shorter =~= a);
            assert(text::joined(b, mark) == b[0]);
        } else {
            law_joining_works_part_by_part(a, shorter, one, mark);
            assert(text::joined(a + b, mark) =~= text::joined(a, mark) + mark + text::joined(
                b,
                mark,
            ));
        }
    }
}

/// Cutting off a prefix gives the rest exactly where the text is the prefix and then the rest.
pub proof fn law_prefix_and_rest_make_the_text(s: Seq<char>, prefix: Seq<char>, rest: Seq<char>)
    ensures
        text::after_prefix(s, prefix) == Some(rest) <==> s == prefix + rest,
        text::after_prefix(s, prefix) is None <==> !(s.len() >= prefix.len() && s.take(
            prefix.len() as int,
        ) == prefix),
{
    if text::after_prefix(s, prefix) == Some(rest) {
        assert(s =~= prefix + rest);
    }
    if s == prefix + rest {
        assert(s.subrange(0, prefix.len() as int) =~= prefix);
        assert(s.skip(prefix.len() as int) =~= rest);
    }
    assert(s.len() >= prefix.len() ==> s.take(prefix.len() as int) =~= s.subrange(
        0,
        prefix.len() as int,
    ));
}

/// A list of strings is read item by item, each in full.
pub proof fn law_strings_are_read_in_full(list: Seq<String>, chars: Seq<Vec<char>>)
    ensures
        text::strings(list).len() == list.len(),
        forall|i: int| 0 <= i < list.len() ==> #[trigger] text::strings(list)[i] == list[i]@,
        text::texts(chars).len() == chars.len(),
        forall|i: int| 0 <= i < chars.len() ==> #[trigger] text::texts(chars)[i] == chars[i]@,
{
}

} // verus!
