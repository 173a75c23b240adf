//! Operations on text, over the characters it is made of.

use vstd::prelude::*;

verus! {

/// `String::push` appends one character to the end of the string.
pub assume_specification[ String::push ](s: &mut String, c: char)
    ensures
        final(s)@ == old(s)@.push(c),
;

/// The `Debug` form of a `str`: the text in quotes, with escapes where it needs them.
pub uninterp spec fn quoted(text: Seq<char>) -> Seq<char>;

/// `<str as Debug>::fmt`, through `format!`. What it writes depends on the text alone; which
/// characters it escapes is left unsaid.
#[verifier::external_body]
pub(crate) fn quote(text: &str) -> (r: String)
    ensures
        r@ == quoted(text@),
{
    format!("{:?}", text)
}

/// The characters with the Unicode property `White_Space`.
pub open spec fn white(c: char) -> bool {
    ||| '\u{9}' <= c && c <= '\u{d}'
    ||| c == ' '
    ||| c == '\u{85}'
    ||| c == '\u{a0}'
    ||| c == '\u{1680}'
    ||| '\u{2000}' <= c && c <= '\u{200a}'
    ||| c == '\u{2028}'
    ||| c == '\u{2029}'
    ||| c == '\u{202f}'
    ||| c == '\u{205f}'
    ||| c == '\u{3000}'
}

/// Whether a character is white space.
pub(crate) fn is_white(c: char) -> (r: bool)
    ensures
        r == white(c),
{
    ('\u{9}' <= c && c <= '\u{d}') || c == ' ' || c == '\u{85}' || c == '\u{a0}' || c == '\u{1680}'
        || ('\u{2000}' <= c && c <= '\u{200a}') || c == '\u{2028}' || c == '\u{2029}' || c
        == '\u{202f}' || c == '\u{205f}' || c == '\u{3000}'
}

/// A character with an ASCII capital letter made small.
pub open spec fn lower(c: char) -> char {
    if 'A' <= c && c <= 'Z' {
        (c as int + 32) as char
    } else {
        c
    }
}

/// Text with its ASCII capital letters made small.
pub open spec fn lowered(s: Seq<char>) -> Seq<char> {
    s.map_values(|c: char| lower(c))
}

/// Makes an ASCII capital letter small.
pub(crate) fn to_lower(c: char) -> (r: char)
    ensures
        r == lower(c),
{
    if 'A' <= c && c <= 'Z' {
        ((c as u8) + 32) as char
    } else {
        c
    }
}

/// The characters of some text, with the ASCII capital letters made small.
pub(crate) fn lowered_chars(text: &str) -> (r: Vec<char>)
    ensures
        r@ == lowered(text@),
{
    let mut r: Vec<char> = Vec::new();
    for c in it: text.chars()
        invariant
            it.seq() == text@,
            r@ == lowered(text@.take(it.index() as int)),
    {
        r.push(to_lower(c));
        assert(text@.take(it.index() + 1) == text@.take(it.index() as int).push(c));
    }
    assert(text@.take(text@.len() as int) == text@);
    r
}

/// The characters of some text.
pub(crate) fn chars_of(text: &str) -> (r: Vec<char>)
    ensures
        r@ == text@,
{
    let mut r: Vec<char> = Vec::new();
    for c in it: text.chars()
        invariant
            it.seq() == text@,
            r@ == text@.take(it.index() as int),
    {
        r.push(c);
        assert(text@.take(it.index() + 1) == text@.take(it.index() as int).push(c));
    }
    r
}

/// Whether `needle` stands in `hay` from position `at` on.
pub open spec fn occurs_at(needle: Seq<char>, hay: Seq<char>, at: int) -> bool {
    0 <= at <= hay.len() - needle.len() && hay.subrange(at, at + needle.len()) == needle
}

/// Whether `needle` stands anywhere in `hay`.
pub open spec fn occurs(needle: Seq<char>, hay: Seq<char>) -> bool {
    exists|at: int| occurs_at(needle, hay, at)
}

/// Looks for `needle` in `hay`.
pub(crate) fn contains(hay: &Vec<char>, needle: &Vec<char>) -> (r: bool)
    ensures
        r == occurs(needle@, hay@),
{
    if needle.len() > hay.len() {
        return false;
    }
    let size: usize = hay.len();
    let last: usize = size - needle.len();
    let mut at: usize = 0;
    while at <= last
        invariant
            size == hay@.len(),
            last == size - needle@.len(),
            at <= last + 1,
            forall|i: int| 0 <= i < at ==> !occurs_at(needle@, hay@, i),
        decreases last + 1 - at,
    {
        let mut k: usize = 0;
        while k < needle.len() && hay[at + k] == needle[k]
            invariant
                at <= last,
                size == hay@.len(),
                last == size - needle@.len(),
                k <= needle@.len(),
                forall|j: int| 0 <= j < k ==> hay@[at + j] == needle@[j],
            decreases needle@.len() - k,
        {
            k += 1;
        }
        if k == needle.len() {
            assert(hay@.subrange(at as int, at + needle@.len()) =~= needle@);
            assert(occurs_at(needle@, hay@, at as int));
            return true;
        }
        assert(hay@.subrange(at as int, at + needle@.len())[k as int] == hay@[at + k]);
        if at == last {
            return false;
        }
        at += 1;
    }
    false
}

/// The words of some text: the longest stretches of it without white space, from left to right.
pub open spec fn words(s: Seq<char>) -> Seq<Seq<char>>
    decreases s.len(),
{
    if s.len() == 0 {
        Seq::empty()
    } else {
        let before = s.drop_last();
        let c = s.last();
        if white(c) {
            words(before)
        } else if before.len() == 0 || white(before.last()) {
            words(before).push(seq![c])
        } else {
            words(before).drop_last().push(words(before).last().push(c))
        }
    }
}

/// The texts that a list of character vectors holds.
pub open spec fn texts(list: Seq<Vec<char>>) -> Seq<Seq<char>> {
    list.map_values(|chars: Vec<char>| chars@)
}

/// The texts that a list of strings holds.
pub open spec fn strings(list: Seq<String>) -> Seq<Seq<char>> {
    list.map_values(|text: String| text@)
}

/// Splits text into its words, with the ASCII capital letters made small.
pub(crate) fn lowered_words(text: &str) -> (r: Vec<Vec<char>>)
    ensures
        texts(r@) == words(text@).map_values(|word: Seq<char>| lowered(word)),
{
    let mut r: Vec<Vec<char>> = Vec::new();
    let mut word: Vec<char> = Vec::new();
    let ghost small = |word: Seq<char>| lowered(word);
    for c in it: text.chars()
        invariant
            it.seq() == text@,
            small == (|word: Seq<char>| lowered(word)),
            word@.len() > 0 <==> it.index() > 0 && !white(text@[it.index() - 1]),
            words(text@.take(it.index() as int)).map_values(small) == if word@.len() > 0 {
                texts(r@).push(word@)
            } else {
                texts(r@)
            },
    {
        let ghost i = it.index() as int;
        let ghost before = words(text@.take(i));
        assert(text@.take(i + 1).drop_last() == text@.take(i));
        assert(i > 0 ==> text@.take(i).last() == text@[i - 1]);
        if is_white(c) {
            if word.len() > 0 {
                let ghost done = r@;
                r.push(word);
                assert(texts(r@) == texts(done).push(word@));
                word = Vec::new();
            }
        } else {
            let ghost old_word = word@;
            word.push(to_lower(c));
            proof {
                if old_word.len() > 0 {
                    assert(before.map_values(small).last() == lowered(before.last()));
                    assert(old_word == lowered(before.last()));
                    assert(lowered(before.last().push(c)) == word@);
                    assert(before.drop_last().push(before.last().push(c)).map_values(small)
                        == texts(r@).push(word@)) by {
                        assert(before.map_values(small).drop_last() == texts(r@));
                        assert(before.drop_last().map_values(small) == texts(r@));
                    }
                } else {
                    assert(lowered(seq![c]) == word@);
                    assert(before.push(seq![c]).map_values(small) == texts(r@).push(word@));
                }
            }
        }
    }
    assert(text@.take(text@.len() as int) == text@);
    if word.len() > 0 {
        let ghost done = r@;
        r.push(word);
        assert(texts(r@) == texts(done).push(word@));
    }
    r
}

/// Text without the white space that it starts with.
pub open spec fn trimmed_start(s: Seq<char>) -> Seq<char>
    decreases s.len(),
{
    if s.len() > 0 && white(s.first()) {
        trimmed_start(s.drop_first())
    } else {
        s
    }
}

/// Text without the white space that it ends with.
pub open spec fn trimmed_end(s: Seq<char>) -> Seq<char>
    decreases s.len(),
{
    if s.len() > 0 && white(s.last()) {
        trimmed_end(s.drop_last())
    } else {
        s
    }
}

/// Text without the white space around it.
pub open spec fn trimmed(s: Seq<char>) -> Seq<char> {
    trimmed_end(trimmed_start(s))
}

/// Cuts off the white space around some text.
pub(crate) fn trim<'a>(text: &'a str) -> (r: &'a str)
    ensures
        r@ == trimmed(text@),
{
    let chars = chars_of(text);
    let mut from: usize = 0;
    assert(text@.skip(0) == text@);
    while from < chars.len() && is_white(chars[from])
        invariant
            chars@ == text@,
            from <= chars@.len(),
            trimmed_start(text@) == trimmed_start(text@.skip(from as int)),
        decreases chars@.len() - from,
    {
        assert(text@.skip(from as int).drop_first() == text@.skip(from + 1));
        from += 1;
    }
    let mut to: usize = chars.len();
    assert(text@.subrange(from as int, to as int) == text@.skip(from as int));
    while from < to && is_white(chars[to - 1])
        invariant
            chars@ == text@,
            from <= to <= chars@.len(),
            trimmed(text@) == trimmed_end(text@.subrange(from as int, to as int)),
        decreases to - from,
    {
        assert(text@.subrange(from as int, to as int).drop_last() == text@.subrange(
            from as int,
            to - 1,
        ));
        to -= 1;
    }
    text.substring_char(from, to)
}

/// What stands between the occurrences of `mark`, the empty pieces included.
pub open spec fn pieces(s: Seq<char>, mark: char) -> Seq<Seq<char>>
    decreases s.len(),
{
    if s.len() == 0 {
        seq![Seq::empty()]
    } else {
        let before = pieces(s.drop_last(), mark);
        if s.last() == mark {
            before.push(Seq::empty())
        } else {
            before.drop_last().push(before.last().push(s.last()))
        }
    }
}

/// Splits text at every occurrence of `mark`.
pub(crate) fn split(text: &str, mark: char) -> (r: Vec<String>)
    ensures
        strings(r@) == pieces(text@, mark),
{
    let mut r: Vec<String> = Vec::new();
    let mut piece = String::new();
    for c in it: text.chars()
        invariant
            it.seq() == text@,
            pieces(text@.take(it.index() as int), mark) == strings(r@).push(piece@),
    {
        let ghost i = it.index() as int;
        assert(text@.take(i + 1).drop_last() == text@.take(i));
        assert(strings(r@).push(piece@).drop_last() == strings(r@));
        if c == mark {
            let ghost done = r@;
            let ghost last = piece@;
            r.push(piece);
            assert(strings(r@) == strings(done).push(last));
            piece = String::new();
        } else {
            piece.push(c);
        }
    }
    assert(text@.take(text@.len() as int) == text@);
    let ghost done = r@;
    let ghost last = piece@;
    r.push(piece);
    assert(strings(r@) == strings(done).push(last));
    r
}

/// What follows `prefix` in text that starts with it.
pub open spec fn after_prefix(s: Seq<char>, prefix: Seq<char>) -> Option<Seq<char>> {
    if prefix.is_prefix_of(s) {
        Some(s.skip(prefix.len() as int))
    } else {
        None
    }
}

/// Cuts `prefix` off the start of some text.
pub(crate) fn strip_prefix<'a>(text: &'a str, prefix: &str) -> (r: Option<&'a str>)
    ensures
        match after_prefix(text@, prefix@) {
            Some(rest) => r is Some && r->0@ == rest,
            None => r is None,
        },
{
    let chars = chars_of(text);
    let head = chars_of(prefix);
    if head.len() > chars.len() {
        return None;
    }
    let mut k: usize = 0;
    while k < head.len()
        invariant
            chars@ == text@,
            head@ == prefix@,
            head@.len() <= chars@.len(),
            k <= head@.len(),
            forall|j: int| 0 <= j < k ==> chars@[j] == head@[j],
        decreases head@.len() - k,
    {
        if chars[k] != head[k] {
            assert(text@.subrange(0, prefix@.len() as int)[k as int] == text@[k as int]);
            return None;
        }
        k += 1;
    }
    assert(text@.subrange(0, prefix@.len() as int) =~= prefix@);
    assert(text@.subrange(prefix@.len() as int, text@.len() as int) =~= text@.skip(
        prefix@.len() as int,
    ));
    Some(text.substring_char(head.len(), chars.len()))
}

/// Text with a backslash put before every double quote.
pub open spec fn escaped(s: Seq<char>) -> Seq<char>
    decreases s.len(),
{
    if s.len() == 0 {
        Seq::empty()
    } else if s.last() == '"' {
        escaped(s.drop_last()).push('\\').push('"')
    } else {
        escaped(s.drop_last()).push(s.last())
    }
}

/// Puts a backslash before every double quote of some text.
pub(crate) fn escape(text: &str) -> (r: String)
    ensures
        r@ == escaped(text@),
{
    let mut r = String::new();
    for c in it: text.chars()
        invariant
            it.seq() == text@,
            r@ == escaped(text@.take(it.index() as int)),
    {
        assert(text@.take(it.index() + 1).drop_last() == text@.take(it.index() as int));
        if c == '"' {
            r.push('\\');
            r.push('"');
        } else {
            r.push(c);
        }
    }
    assert(text@.take(text@.len() as int) == text@);
    r
}

/// The texts of a list one after the other, with `mark` between any two neighbours.
pub open spec fn joined(list: Seq<Seq<char>>, mark: Seq<char>) -> Seq<char>
    decreases list.len(),
{
    if list.len() == 0 {
        Seq::empty()
    } else if list.len() == 1 {
        list[0]
    } else {
        joined(list.drop_last(), mark) + mark + list.last()
    }
}

/// Writes the texts of a list one after the other, with `mark` between any two neighbours.
pub(crate) fn join(list: &Vec<String>, mark: &str) -> (r: String)
    ensures
        r@ == joined(strings(list@), mark@),
{
    let mut r = String::new();
    for i in 0..list.len()
        invariant
            r@ == joined(strings(list@).take(i as int), mark@),
    {
        if i > 0 {
            r.append(mark);
        }
        r.append(list[i].as_str());
        assert(strings(list@).take(i + 1).drop_last() == strings(list@).take(i as int));
        assert(i == 0 ==> r@ == list@[0]@);
    }
    assert(strings(list@).take(list@.len() as int) == strings(list@));
    r
}

} // verus!
