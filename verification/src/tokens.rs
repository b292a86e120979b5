//! The pieces of a command line: words between white space, and fields
//! between single separator characters.

use vstd::prelude::*;

verus! {

/// Whether `c` is white space: the characters with the Unicode property
/// `White_Space`.
pub open spec fn white_space(c: char) -> bool {
    let u = c as u32;
    ||| 0x09 <= u <= 0x0D
    ||| u == 0x20
    ||| u == 0x85
    ||| u == 0xA0
    ||| u == 0x1680
    ||| 0x2000 <= u <= 0x200A
    ||| u == 0x2028
    ||| u == 0x2029
    ||| u == 0x202F
    ||| u == 0x205F
    ||| u == 0x3000
}

/// The length of the longest beginning of `s` that holds nothing for which
/// `stop` is true.
pub open spec fn run_len<A>(s: Seq<A>, stop: spec_fn(A) -> bool) -> nat
    decreases s.len(),
{
    if s.len() == 0 || stop(s[0]) {
        0
    } else {
        1 + run_len(s.drop_first(), stop)
    }
}

/// The test for being the character `sep`.
pub open spec fn is_char(sep: char) -> spec_fn(char) -> bool {
    |c: char| c == sep
}

/// The test for being white space.
pub open spec fn is_space() -> spec_fn(char) -> bool {
    |c: char| white_space(c)
}

/// The fields of `s` between occurrences of `sep`. There is one more field
/// than there are separators, so two adjacent separators hold an empty
/// field between them, and the empty text has one empty field.
pub open spec fn split(s: Seq<char>, sep: char) -> Seq<Seq<char>>
    decreases s.len(),
{
    let n = run_len(s, is_char(sep));
    if n >= s.len() {
        seq![s]
    } else {
        seq![s.take(n as int)] + split(s.skip(n as int + 1), sep)
    }
}

/// The words of `s`: its longest runs of characters that are not white
/// space, in order. No word is empty.
pub open spec fn words(s: Seq<char>) -> Seq<Seq<char>>
    decreases s.len(),
{
    if s.len() == 0 {
        seq![]
    } else if white_space(s[0]) {
        words(s.drop_first())
    } else {
        let n = run_len(s, is_space());
        if n >= s.len() {
            seq![s]
        } else {
            seq![s.take(n as int)] + words(s.skip(n as int))
        }
    }
}

/// The texts of `parts` in a row, with `sep` between each two.
pub open spec fn join(parts: Seq<Seq<char>>, sep: Seq<char>) -> Seq<char>
    decreases parts.len(),
{
    if parts.len() == 0 {
        Seq::empty()
    } else if parts.len() == 1 {
        parts[0]
    } else {
        join(parts.drop_last(), sep) + sep + parts.last()
    }
}

/// A run ends at the first place that stops it, or at the end.
pub proof fn lemma_run_len<A>(s: Seq<A>, stop: spec_fn(A) -> bool)
    ensures
        run_len(s, stop) <= s.len(),
        forall|i: int| 0 <= i < run_len(s, stop) ==> !stop(s[i]),
        run_len(s, stop) < s.len() ==> stop(s[run_len(s, stop) as int]),
    decreases s.len(),
{
    if s.len() == 0 || stop(s[0]) {
    } else {
        let t = s.drop_first();
        lemma_run_len(t, stop);
        assert forall|i: int| 0 <= i < run_len(s, stop) implies !stop(s[i]) by {
            if i > 0 {
                assert(s[i] == t[i - 1]);
            }
        }
    }
}

/// The place where a run ends determines its length.
pub proof fn lemma_run_len_is<A>(s: Seq<A>, stop: spec_fn(A) -> bool, k: int)
    requires
        0 <= k <= s.len(),
        forall|i: int| 0 <= i < k ==> !stop(s[i]),
        k < s.len() ==> stop(s[k]),
    ensures
        run_len(s, stop) == k,
{
    lemma_run_len(s, stop);
    let r = run_len(s, stop) as int;
    if r < k {
        assert(stop(s[r]));
    } else if k < r {
        assert(!stop(s[k]));
    }
}

/// Every text has at least one field.
pub proof fn lemma_split_len(s: Seq<char>, sep: char)
    ensures
        split(s, sep).len() >= 1,
{
}

/// Whether `c` is white space.
pub fn is_white_space(c: char) -> (r: bool)
    ensures
        r == white_space(c),
{
    let u: u32 = c as u32;
    (0x09 <= u && u <= 0x0D) || u == 0x20 || u == 0x85 || u == 0xA0 || u == 0x1680 || (0x2000 <= u
        && u <= 0x200A) || u == 0x2028 || u == 0x2029 || u == 0x202F || u == 0x205F || u == 0x3000
}

/// Cuts `text` into its fields between occurrences of `sep`.
pub fn split_on(text: &str, sep: char) -> (r: Vec<String>)
    ensures
        r.deep_view() == split(text@, sep),
{
    let len = text.unicode_len();
    let ghost stop = is_char(sep);
    let mut fields: Vec<String> = Vec::new();
    let mut start: usize = 0;
    let mut at: usize = 0;
    assert(text@.skip(0) =~= text@);
    assert(fields.deep_view() + split(text@, sep) =~= split(text@, sep));
    for c in it: text.chars()
        invariant
            it.seq() == text@,
            len == text@.len(),
            at == it.index(),
            start <= at,
            stop == is_char(sep),
            forall|i: int| start <= i < at ==> text@[i] != sep,
            split(text@, sep) == fields.deep_view() + split(text@.skip(start as int), sep),
    {
        if c == sep {
            let field = text.substring_char(start, at).to_owned();
            proof {
                let rest = text@.skip(start as int);
                lemma_run_len_is(rest, stop, at - start);
                assert(rest.take(at - start) =~= text@.subrange(start as int, at as int));
                assert(rest.skip(at - start + 1) =~= text@.skip(at + 1));
                assert(split(rest, sep) == seq![rest.take(at - start)] + split(
                    text@.skip(at + 1),
                    sep,
                ));
                assert(fields.deep_view().push(field@) + split(text@.skip(at + 1), sep)
                    =~= fields.deep_view() + split(rest, sep));
            }
            let ghost before = fields.deep_view();
            fields.push(field);
            assert(fields.deep_view() =~= before.push(field@));
            start = at + 1;
        }
        at += 1;
    }
    let field = text.substring_char(start, len).to_owned();
    proof {
        let rest = text@.skip(start as int);
        lemma_run_len_is(rest, stop, len - start);
        assert(rest =~= text@.subrange(start as int, len as int));
        assert(split(rest, sep) == seq![rest]);
        assert(fields.deep_view().push(field@) =~= fields.deep_view() + split(rest, sep));
    }
    let ghost before = fields.deep_view();
    fields.push(field);
    assert(fields.deep_view() =~= before.push(field@));
    fields
}

/// Cuts `text` into its words.
pub fn split_words(text: &str) -> (r: Vec<String>)
    ensures
        r.deep_view() == words(text@),
{
    let len = text.unicode_len();
    let ghost stop = is_space();
    let mut found: Vec<String> = Vec::new();
    // Where the word being read began, if one is being read.
    let mut start: Option<usize> = None;
    let mut at: usize = 0;
    assert(text@.skip(0) =~= text@);
    assert(found.deep_view() + words(text@) =~= words(text@));
    for c in it: text.chars()
        invariant
            it.seq() == text@,
            len == text@.len(),
            at == it.index(),
            stop == is_space(),
            match start {
                Some(from) => {
                    &&& from < at
                    &&& forall|i: int| from <= i < at ==> !white_space(text@[i])
                    &&& words(text@) == found.deep_view() + words(text@.skip(from as int))
                },
                None => words(text@) == found.deep_view() + words(text@.skip(at as int)),
            },
    {
        let space = is_white_space(c);
        match start {
            Some(from) => {
                if space {
                    let word = text.substring_char(from, at).to_owned();
                    proof {
                        let rest = text@.skip(from as int);
                        lemma_run_len_is(rest, stop, at - from);
                        let tail = text@.skip(at as int);
                        assert(rest.take(at - from) =~= text@.subrange(from as int, at as int));
                        assert(rest.skip(at - from) =~= tail);
                        assert(tail.drop_first() =~= text@.skip(at + 1));
                        assert(!white_space(rest[0]));
                        assert(words(rest) == seq![rest.take(at - from)] + words(tail));
                        assert(white_space(tail[0]));
                        assert(words(tail) == words(text@.skip(at + 1)));
                        assert(found.deep_view().push(word@) + words(text@.skip(at + 1))
                            =~= found.deep_view() + words(rest));
                    }
                    let ghost before = found.deep_view();
                    found.push(word);
                    assert(found.deep_view() =~= before.push(word@));
                    start = None;
                }
            },
            None => {
                if space {
                    proof {
                        let tail = text@.skip(at as int);
                        assert(tail.drop_first() =~= text@.skip(at + 1));
                        assert(white_space(tail[0]));
                        assert(words(tail) == words(text@.skip(at + 1)));
                    }
                } else {
                    start = Some(at);
                }
            },
        }
        at += 1;
    }
    match start {
        Some(from) => {
            let word = text.substring_char(from, len).to_owned();
            proof {
                let rest = text@.skip(from as int);
                lemma_run_len_is(rest, stop, len - from);
                assert(rest =~= text@.subrange(from as int, len as int));
                assert(!white_space(rest[0]));
                assert(words(rest) == seq![rest]);
                assert(found.deep_view().push(word@) =~= found.deep_view() + words(rest));
            }
            let ghost before = found.deep_view();
            found.push(word);
            assert(found.deep_view() =~= before.push(word@));
        },
        None => {
            assert(text@.skip(len as int).len() == 0);
            assert(found.deep_view() + words(text@.skip(len as int)) =~= found.deep_view());
        },
    }
    found
}

/// Writes the strings of `parts` in a row, with `sep` between each two.
pub fn join_with(parts: &Vec<String>, sep: &str) -> (r: String)
    ensures
        r@ == join(parts.deep_view(), sep@),
{
    let ghost texts = parts.deep_view();
    let mut out = String::new();
    let mut i: usize = 0;
    while i < parts.len()
        invariant
            i <= parts.len(),
            texts == parts.deep_view(),
            out@ == join(texts.take(i as int), sep@),
        decreases parts.len() - i,
    {
        proof {
            assert(texts.take(i + 1).drop_last() =~= texts.take(i as int));
            assert(texts.take(i + 1).last() == parts@[i as int]@);
            if i == 0 {
                assert(texts.take(0).len() == 0);
                assert(Seq::<char>::empty() + parts@[0]@ =~= parts@[0]@);
            }
        }
        if i > 0 {
            out.append(sep);
        }
        out.append(parts[i].as_str());
        i += 1;
    }
    assert(texts.take(parts.len() as int) =~= texts);
    out
}

} // verus!
