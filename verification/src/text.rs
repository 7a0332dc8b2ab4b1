//! Character-level text utilities: conversion between strings and character vectors,
//! comparison, search, replacement, splitting and trimming, each with its mathematical
//! meaning over `Seq<char>`.

use vstd::prelude::*;

verus! {

/// Whether `text` begins with `prefix`.
pub open spec fn has_prefix(text: Seq<char>, prefix: Seq<char>) -> bool {
    prefix.len() <= text.len() && text.subrange(0, prefix.len() as int) == prefix
}

/// Whether `pat` occurs somewhere in `text` as a contiguous run of characters.
pub open spec fn contains_run(text: Seq<char>, pat: Seq<char>) -> bool {
    exists|i: int| 0 <= i <= text.len() && #[trigger] has_prefix(text.skip(i), pat)
}

/// `text` with every occurrence of `from` replaced by `to`, scanning from the left and
/// resuming after each replaced occurrence. With an empty `from`, `to` is placed before
/// every character and at the end.
pub open spec fn replace_all(text: Seq<char>, from: Seq<char>, to: Seq<char>) -> Seq<char>
    decreases text.len(),
{
    if from.len() > 0 && has_prefix(text, from) {
        to + replace_all(text.skip(from.len() as int), from, to)
    } else if text.len() == 0 {
        if from.len() == 0 {
            to
        } else {
            text
        }
    } else if from.len() == 0 {
        to + seq![text[0]] + replace_all(text.skip(1), from, to)
    } else {
        seq![text[0]] + replace_all(text.skip(1), from, to)
    }
}

/// The pieces of `text` between occurrences of `sep`. There is always at least one piece;
/// pieces may be empty.
pub open spec fn split(text: Seq<char>, sep: char) -> Seq<Seq<char>>
    decreases text.len(),
{
    if text.len() == 0 {
        seq![Seq::<char>::empty()]
    } else {
        let before = split(text.drop_last(), sep);
        if text.last() == sep {
            before.push(Seq::<char>::empty())
        } else {
            before.drop_last().push(before.last().push(text.last()))
        }
    }
}

/// The characters with the Unicode property `White_Space`.
pub open spec fn is_whitespace(c: char) -> bool {
    let n = c as u32;
    ||| 0x09 <= n <= 0x0D
    ||| n == 0x20
    ||| n == 0x85
    ||| n == 0xA0
    ||| n == 0x1680
    ||| 0x2000 <= n <= 0x200A
    ||| n == 0x2028
    ||| n == 0x2029
    ||| n == 0x202F
    ||| n == 0x205F
    ||| n == 0x3000
}

/// `text` without its leading whitespace.
pub open spec fn trim_start(text: Seq<char>) -> Seq<char>
    decreases text.len(),
{
    if text.len() > 0 && is_whitespace(text[0]) {
        trim_start(text.skip(1))
    } else {
        text
    }
}

/// `text` without its trailing whitespace.
pub open spec fn trim_end(text: Seq<char>) -> Seq<char>
    decreases text.len(),
{
    if text.len() > 0 && is_whitespace(text.last()) {
        trim_end(text.drop_last())
    } else {
        text
    }
}

/// `text` without leading and trailing whitespace.
pub open spec fn trim(text: Seq<char>) -> Seq<char> {
    trim_end(trim_start(text))
}

/// `text` without its line feeds and tabs.
pub open spec fn without_breaks(text: Seq<char>) -> Seq<char>
    decreases text.len(),
{
    if text.len() == 0 {
        text
    } else if text.last() == '\n' || text.last() == '\t' {
        without_breaks(text.drop_last())
    } else {
        without_breaks(text.drop_last()).push(text.last())
    }
}

/// The views of a vector of character vectors.
pub open spec fn pieces_view(pieces: Seq<Vec<char>>) -> Seq<Seq<char>> {
    pieces.map_values(|p: Vec<char>| p@)
}

/// The views of a vector of strings.
pub open spec fn strings_view(items: Seq<String>) -> Seq<Seq<char>> {
    items.map_values(|s: String| s@)
}

/// The characters of `s`, in order.
pub fn chars_of(s: &str) -> (res: Vec<char>)
    ensures
        res@ == s@,
{
    let mut out: Vec<char> = Vec::new();
    for c in it: s.chars()
        invariant
            out@ == it.seq().take(it.index() as int),
            it.seq() == s@,
    {
        out.push(c);
    }
    out
}

/// Appends one character to a string with `String::push`, which puts the character at
/// the end and leaves the rest as it was.
#[verifier::external_body]
fn push_char(s: &mut String, c: char)
    ensures
        final(s)@ == old(s)@.push(c),
{
    s.push(c);
}

/// The string that holds the characters of `chars`, in order.
pub fn string_of(chars: &Vec<char>) -> (res: String)
    ensures
        res@ == chars@,
{
    let mut out = String::new();
    let mut i: usize = 0;
    while i < chars.len()
        invariant
            i <= chars.len(),
            out@ == chars@.take(i as int),
        decreases chars.len() - i,
    {
        push_char(&mut out, chars[i]);
        i += 1;
    }
    out
}

/// Whether two strings hold the same characters.
pub fn equals(a: &str, b: &str) -> (res: bool)
    ensures
        res == (a@ == b@),
{
    let x = chars_of(a);
    let y = chars_of(b);
    if x.len() != y.len() {
        return false;
    }
    let mut i: usize = 0;
    while i < x.len()
        invariant
            x@ == a@,
            y@ == b@,
            x.len() == y.len(),
            i <= x.len(),
            forall|j: int| 0 <= j < i ==> x@[j] == y@[j],
        decreases x.len() - i,
    {
        if x[i] != y[i] {
            return false;
        }
        i += 1;
    }
    assert(x@ =~= y@);
    true
}

/// The concatenation of two strings.
pub fn joined(a: &str, b: &str) -> (res: String)
    ensures
        res@ == a@ + b@,
{
    let mut out = chars_of(a);
    let mut tail = chars_of(b);
    out.append(&mut tail);
    string_of(&out)
}

/// Tests whether the characters of `text` from `at` onwards begin with `pat`. Beyond the
/// end of `text` nothing begins.
pub fn matches_at(text: &Vec<char>, at: usize, pat: &Vec<char>) -> (res: bool)
    ensures
        res == (at <= text@.len() && has_prefix(text@.skip(at as int), pat@)),
{
    if at > text.len() || pat.len() > text.len() - at {
        return false;
    }
    let ghost tail = text@.skip(at as int);
    let mut i: usize = 0;
    while i < pat.len()
        invariant
            at <= text.len(),
            pat.len() <= text.len() - at,
            i <= pat.len(),
            tail == text@.skip(at as int),
            forall|j: int| 0 <= j < i ==> text@[at + j] == pat@[j],
        decreases pat.len() - i,
    {
        if text[at + i] != pat[i] {
            assert(tail.subrange(0, pat@.len() as int)[i as int] == text@[at + i]);
            return false;
        }
        i += 1;
    }
    assert(tail.subrange(0, pat@.len() as int) =~= pat@);
    true
}

/// Whether the last character of `text` is `c`.
pub fn ends_with_char(text: &str, c: char) -> (res: bool)
    ensures
        res == (text@.len() > 0 && text@.last() == c),
{
    let t = chars_of(text);
    t.len() > 0 && t[t.len() - 1] == c
}

/// Whether `pat` occurs in `text`.
pub fn contains(text: &str, pat: &str) -> (res: bool)
    ensures
        res == contains_run(text@, pat@),
{
    let t = chars_of(text);
    let p = chars_of(pat);
    let mut i: usize = 0;
    while i < t.len()
        invariant
            i <= t.len(),
            t@ == text@,
            p@ == pat@,
            forall|j: int| 0 <= j < i ==> !#[trigger] has_prefix(t@.skip(j), p@),
        decreases t.len() - i,
    {
        if matches_at(&t, i, &p) {
            return true;
        }
        i += 1;
    }
    matches_at(&t, i, &p)
}

/// `text` with every occurrence of `from` replaced by `to`, on character vectors.
pub fn replace_chars(text: &Vec<char>, from: &Vec<char>, to: &Vec<char>) -> (res: Vec<char>)
    ensures
        res@ == replace_all(text@, from@, to@),
{
    let mut out: Vec<char> = Vec::new();
    let mut i: usize = 0;
    assert(text@.skip(0) =~= text@);
    assert(out@ + replace_all(text@, from@, to@) =~= replace_all(text@, from@, to@));
    while i < text.len()
        invariant
            i <= text.len(),
            out@ + replace_all(text@.skip(i as int), from@, to@) == replace_all(
                text@,
                from@,
                to@,
            ),
        decreases text.len() - i,
    {
        let ghost rest = text@.skip(i as int);
        let ghost before = out@;
        if from.len() > 0 && matches_at(text, i, from) {
            append_chars(&mut out, to);
            proof {
                assert(rest.skip(from@.len() as int) =~= text@.skip(i + from@.len()));
                assert(out@ + replace_all(text@.skip(i + from@.len()), from@, to@) =~= before
                    + replace_all(rest, from@, to@));
            }
            i += from.len();
        } else {
            if from.len() == 0 {
                append_chars(&mut out, to);
            }
            out.push(text[i]);
            proof {
                assert(rest.skip(1) =~= text@.skip(i + 1));
                assert(rest[0] == text@[i as int]);
                assert(out@ + replace_all(text@.skip(i + 1), from@, to@) =~= before + replace_all(
                    rest,
                    from@,
                    to@,
                ));
            }
            i += 1;
        }
    }
    let ghost before = out@;
    if from.len() == 0 {
        append_chars(&mut out, to);
    }
    proof {
        assert(text@.skip(i as int) =~= Seq::<char>::empty());
        assert(out@ =~= before + replace_all(text@.skip(i as int), from@, to@));
    }
    out
}

/// Appends a copy of `extra` to `out`.
pub fn append_chars(out: &mut Vec<char>, extra: &Vec<char>)
    ensures
        final(out)@ == old(out)@ + extra@,
{
    let mut i: usize = 0;
    while i < extra.len()
        invariant
            i <= extra.len(),
            out@ == old(out)@ + extra@.take(i as int),
        decreases extra.len() - i,
    {
        out.push(extra[i]);
        proof {
            assert(extra@.take(i + 1) =~= extra@.take(i as int).push(extra@[i as int]));
        }
        i += 1;
    }
    proof {
        assert(extra@.take(i as int) =~= extra@);
    }
}

/// `text` with every occurrence of `from` replaced by `to`.
pub fn replace(text: &str, from: &str, to: &str) -> (res: String)
    ensures
        res@ == replace_all(text@, from@, to@),
{
    let out = replace_chars(&chars_of(text), &chars_of(from), &chars_of(to));
    string_of(&out)
}

/// Whether two character vectors hold the same characters.
pub fn same_chars(a: &Vec<char>, b: &Vec<char>) -> (res: bool)
    ensures
        res == (a@ == b@),
{
    if a.len() != b.len() {
        return false;
    }
    assert(a@.skip(0) =~= a@);
    let res = matches_at(a, 0, b);
    assert(a@.subrange(0, b@.len() as int) =~= a@);
    res
}

/// The pieces of `text` between occurrences of `sep`.
pub fn split_chars(text: &Vec<char>, sep: char) -> (res: Vec<Vec<char>>)
    ensures
        pieces_view(res@) == split(text@, sep),
        res@.len() >= 1,
{
    let mut done: Vec<Vec<char>> = Vec::new();
    let mut current: Vec<char> = Vec::new();
    let mut i: usize = 0;
    assert(pieces_view(done@).push(current@) =~= split(text@.take(0), sep));
    while i < text.len()
        invariant
            i <= text.len(),
            pieces_view(done@).push(current@) == split(text@.take(i as int), sep),
        decreases text.len() - i,
    {
        let c = text[i];
        let ghost before = pieces_view(done@).push(current@);
        proof {
            assert(text@.take(i + 1).drop_last() =~= text@.take(i as int));
            assert(text@.take(i + 1).last() == c);
        }
        if c == sep {
            let ghost old_done = done@;
            done.push(current);
            current = Vec::new();
            assert(pieces_view(done@).push(current@) =~= before.push(Seq::<char>::empty()));
        } else {
            current.push(c);
            assert(pieces_view(done@).push(current@) =~= before.drop_last().push(
                before.last().push(c),
            ));
        }
        i += 1;
    }
    let ghost before = pieces_view(done@).push(current@);
    done.push(current);
    proof {
        assert(text@.take(i as int) =~= text@);
        assert(pieces_view(done@) =~= before);
    }
    done
}

/// The piece of `text` after the last occurrence of `sep`, or all of `text` where `sep`
/// does not occur.
pub fn last_piece(text: &Vec<char>, sep: char) -> (res: Vec<char>)
    ensures
        res@ == split(text@, sep).last(),
{
    let mut pieces = split_chars(text, sep);
    let ghost all = pieces@;
    let last = pieces.pop();
    match last {
        Some(piece) => {
            assert(pieces_view(all).last() == all.last()@);
            piece
        },
        None => Vec::new(),
    }
}

/// Whether `c` is a whitespace character.
pub fn is_whitespace_char(c: char) -> (res: bool)
    ensures
        res == is_whitespace(c),
{
    let n = c as u32;
    (0x09 <= n && n <= 0x0D) || n == 0x20 || n == 0x85 || n == 0xA0 || n == 0x1680 || (0x2000 <= n
        && n <= 0x200A) || n == 0x2028 || n == 0x2029 || n == 0x202F || n == 0x205F || n == 0x3000
}

/// `text` without its line feeds and tabs.
pub fn strip_breaks(text: &Vec<char>) -> (res: Vec<char>)
    ensures
        res@ == without_breaks(text@),
{
    let mut out: Vec<char> = Vec::new();
    let mut i: usize = 0;
    assert(text@.take(0) =~= Seq::<char>::empty());
    while i < text.len()
        invariant
            i <= text.len(),
            out@ == without_breaks(text@.take(i as int)),
        decreases text.len() - i,
    {
        let c = text[i];
        proof {
            assert(text@.take(i + 1).drop_last() =~= text@.take(i as int));
            assert(text@.take(i + 1).last() == c);
        }
        if c != '\n' && c != '\t' {
            out.push(c);
        }
        i += 1;
    }
    assert(text@.take(i as int) =~= text@);
    out
}

/// Where the first `k` characters of `text` are whitespace and the next is not,
/// `trim_start` drops exactly those `k`.
pub proof fn lemma_trim_start(text: Seq<char>, k: int)
    requires
        0 <= k <= text.len(),
        forall|j: int| 0 <= j < k ==> is_whitespace(#[trigger] text[j]),
        k == text.len() || !is_whitespace(text[k]),
    ensures
        trim_start(text) == text.skip(k),
    decreases k,
{
    if k == 0 {
        assert(text.skip(0) =~= text);
    } else {
        let rest = text.skip(1);
        assert forall|j: int| 0 <= j < k - 1 implies is_whitespace(#[trigger] rest[j]) by {
            assert(rest[j] == text[j + 1]);
        }
        lemma_trim_start(rest, k - 1);
        assert(rest.skip(k - 1) =~= text.skip(k));
    }
}

/// Where all characters of `text` from `k` on are whitespace and the one before is not,
/// `trim_end` keeps exactly the first `k`.
pub proof fn lemma_trim_end(text: Seq<char>, k: int)
    requires
        0 <= k <= text.len(),
        forall|j: int| k <= j < text.len() ==> is_whitespace(#[trigger] text[j]),
        k == 0 || !is_whitespace(text[k - 1]),
    ensures
        trim_end(text) == text.take(k),
    decreases text.len() - k,
{
    if k == text.len() {
        assert(text.take(k) =~= text);
    } else {
        let rest = text.drop_last();
        lemma_trim_end(rest, k);
        assert(rest.take(k) =~= text.take(k));
    }
}

/// `text` without leading and trailing whitespace.
pub fn trim_chars(text: &Vec<char>) -> (res: Vec<char>)
    ensures
        res@ == trim(text@),
{
    let mut start: usize = 0;
    while start < text.len() && is_whitespace_char(text[start])
        invariant
            start <= text.len(),
            forall|j: int| 0 <= j < start ==> is_whitespace(#[trigger] text@[j]),
        decreases text.len() - start,
    {
        start += 1;
    }
    let mut end: usize = text.len();
    while end > start && is_whitespace_char(text[end - 1])
        invariant
            start <= end <= text.len(),
            forall|j: int| end <= j < text.len() ==> is_whitespace(#[trigger] text@[j]),
        decreases end,
    {
        end -= 1;
    }
    let mut out: Vec<char> = Vec::new();
    let mut i: usize = start;
    while i < end
        invariant
            start <= i <= end <= text.len(),
            out@ == text@.subrange(start as int, i as int),
        decreases end - i,
    {
        out.push(text[i]);
        i += 1;
    }
    proof {
        let tail = text@.skip(start as int);
        lemma_trim_start(text@, start as int);
        assert forall|j: int| end - start <= j < tail.len() implies is_whitespace(
            #[trigger] tail[j],
        ) by {
            assert(tail[j] == text@[j + start]);
        }
        if end > start {
            assert(tail[end - start - 1] == text@[end - 1]);
        }
        lemma_trim_end(tail, end - start);
        assert(tail.take(end - start) =~= text@.subrange(start as int, end as int));
    }
    out
}

/// Replacing what does not occur changes nothing.
pub proof fn law_replace_absent(text: Seq<char>, from: Seq<char>, to: Seq<char>)
    requires
        from.len() > 0,
        !contains_run(text, from),
    ensures
        replace_all(text, from, to) == text,
    decreases text.len(),
{
    assert(text.skip(0) =~= text);
    assert(!has_prefix(text.skip(0), from));
    if text.len() > 0 {
        let rest = text.skip(1);
        assert forall|i: int| 0 <= i <= rest.len() implies !#[trigger] has_prefix(
            rest.skip(i),
            from,
        ) by {
            assert(rest.skip(i) =~= text.skip(i + 1));
            assert(!has_prefix(text.skip(i + 1), from));
        }
        law_replace_absent(rest, from, to);
        assert(seq![text[0]] + rest =~= text);
    }
}

/// The first occurrence of `from` gives way to `to`: what stands before it stays, and
/// what follows it is treated in the same way.
pub proof fn law_replace_first(
    before: Seq<char>,
    after: Seq<char>,
    from: Seq<char>,
    to: Seq<char>,
)
    requires
        from.len() > 0,
        forall|i: int|
            0 <= i < before.len() ==> !#[trigger] has_prefix((before + from + after).skip(i), from),
    ensures
        replace_all(before + from + after, from, to) == before + to + replace_all(after, from, to),
    decreases before.len(),
{
    let text = before + from + after;
    if before.len() == 0 {
        assert(text.subrange(0, from.len() as int) =~= from);
        assert(text.skip(from.len() as int) =~= after);
        assert(before + to + replace_all(after, from, to) =~= to + replace_all(after, from, to));
    } else {
        assert(text.skip(0) =~= text);
        assert(!has_prefix(text.skip(0), from));
        let rest = before.skip(1);
        assert(text.skip(1) =~= rest + from + after);
        assert forall|i: int| 0 <= i < rest.len() implies !#[trigger] has_prefix(
            (rest + from + after).skip(i),
            from,
        ) by {
            assert((rest + from + after).skip(i) =~= text.skip(i + 1));
            assert(!has_prefix(text.skip(i + 1), from));
        }
        law_replace_first(rest, after, from, to);
        assert(seq![text[0]] + (rest + to + replace_all(after, from, to)) =~= before + to
            + replace_all(after, from, to));
    }
}

} // verus!
