//! Character-level helpers on strings, shared by the classifiers and escapers.

use vstd::prelude::*;

verus! {

/// Relies on `String::push`: appends one character at the end of the string.
#[verifier::external_body]
pub(crate) fn push_char(s: &mut String, c: char)
    ensures
        final(s)@ == old(s)@.push(c),
{
    s.push(c)
}

/// The words of `ws` joined by single spaces, in order.
pub open spec fn join_words(ws: Seq<Seq<char>>) -> Seq<char>
    decreases ws.len(),
{
    if ws.len() == 0 {
        seq![]
    } else if ws.len() == 1 {
        ws[0]
    } else {
        join_words(ws.drop_last()) + seq![' '] + ws.last()
    }
}

/// Joining a word in front of others puts one space between it and the rest.
pub proof fn lemma_join_words_front(w: Seq<char>, ws: Seq<Seq<char>>)
    requires
        ws.len() > 0,
    ensures
        join_words(seq![w] + ws) == w + seq![' '] + join_words(ws),
    decreases ws.len(),
{
    let all = seq![w] + ws;
    if ws.len() == 1 {
        assert(all.drop_last() =~= seq![w]);
        assert(join_words(seq![w]) == w);
    } else {
        assert(all.drop_last() =~= seq![w] + ws.drop_last());
        lemma_join_words_front(w, ws.drop_last());
        assert(join_words(all) =~= w + seq![' '] + join_words(ws));
    }
}

/// The character views of a sequence of strings.
pub open spec fn views(v: Seq<String>) -> Seq<Seq<char>> {
    v.map_values(|s: String| s@)
}

/// `t` with every forward slash turned into a backslash.
pub open spec fn to_backslashes(t: Seq<char>) -> Seq<char> {
    t.map_values(|c: char| if c == '/' { '\\' } else { c })
}

/// The characters of `s`, in order.
pub fn chars_of(s: &str) -> (r: Vec<char>)
    ensures
        r@ == s@,
{
    let mut v: Vec<char> = Vec::new();
    for ch in it: s.chars()
        invariant
            it.seq() == s@,
            v@ == s@.subrange(0, it.index() as int),
    {
        v.push(ch);
        assert(v@ =~= s@.subrange(0, it.index() + 1));
    }
    assert(v@ =~= s@);
    v
}

/// A string holding the characters of `v`, in order.
pub fn string_of(v: &Vec<char>) -> (r: String)
    ensures
        r@ == v@,
{
    let mut s = String::new();
    for i in 0..v.len()
        invariant
            s@ == v@.subrange(0, i as int),
    {
        push_char(&mut s, v[i]);
        assert(s@ =~= v@.subrange(0, i + 1));
    }
    assert(s@ =~= v@);
    s
}

/// Appends all of `t` at the end of `s`.
pub fn push_all(s: &mut String, t: &str)
    ensures
        final(s)@ == old(s)@ + t@,
{
    let ghost start = s@;
    for ch in it: t.chars()
        invariant
            it.seq() == t@,
            s@ == start + t@.subrange(0, it.index() as int),
    {
        push_char(s, ch);
        assert(s@ =~= start + t@.subrange(0, it.index() + 1));
    }
    assert(s@ =~= start + t@);
}

/// `t` with every forward slash turned into a backslash.
pub fn slashes_to_backslashes(t: &str) -> (r: String)
    ensures
        r@ == to_backslashes(t@),
{
    let mut s = String::new();
    for ch in it: t.chars()
        invariant
            it.seq() == t@,
            s@ == to_backslashes(t@.subrange(0, it.index() as int)),
    {
        push_char(&mut s, if ch == '/' { '\\' } else { ch });
        assert(s@ =~= to_backslashes(t@.subrange(0, it.index() + 1)));
    }
    assert(t@.subrange(0, t@.len() as int) =~= t@);
    s
}

/// The strings of `words` joined by single spaces.
pub fn join_with_spaces(words: &Vec<String>) -> (r: String)
    ensures
        r@ == join_words(views(words@)),
{
    let mut s = String::new();
    for i in 0..words.len()
        invariant
            s@ == join_words(views(words@.subrange(0, i as int))),
    {
        let ghost before = views(words@.subrange(0, i as int));
        let ghost after = views(words@.subrange(0, i + 1));
        assert(after.drop_last() =~= before);
        if i > 0 {
            push_char(&mut s, ' ');
        }
        push_all(&mut s, words[i].as_str());
        proof {
            if i == 0 {
                assert(s@ =~= after[0]);
            } else {
                assert(s@ =~= join_words(before) + seq![' '] + after.last());
            }
        }
    }
    assert(words@.subrange(0, words.len() as int) =~= words@);
    s
}

} // verus!
