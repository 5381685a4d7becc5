//! Wrapping a token in quote characters, and reading such a token back.

use vstd::prelude::*;
use crate::text::push_char;

verus! {

/// What one character of a token becomes inside quotes `q`: the quote
/// character itself is preceded by the escape character `e`.
pub open spec fn escaped_char(c: char, q: char, e: char) -> Seq<char> {
    if c == q {
        seq![e, q]
    } else {
        seq![c]
    }
}

/// The inside of a quoted token: each character of `t` as `escaped_char` has it.
pub open spec fn escape_quotes(t: Seq<char>, q: char, e: char) -> Seq<char>
    decreases t.len(),
{
    if t.len() == 0 {
        seq![]
    } else {
        escaped_char(t[0], q, e) + escape_quotes(t.skip(1), q, e)
    }
}

/// `t` between two quote characters `q`, its own quote characters escaped by `e`.
pub open spec fn quoted_with(t: Seq<char>, q: char, e: char) -> Seq<char> {
    seq![q] + escape_quotes(t, q, e) + seq![q]
}

/// Whether `t` already starts and ends with the quote character `q`.
pub open spec fn is_wrapped_in(t: Seq<char>, q: char) -> bool {
    t.len() > 0 && t[0] == q && t.last() == q
}

/// How a shell reads the inside of a quoted token back: the pair `e q`
/// stands for one `q`; every other character stands for itself.
pub open spec fn unescape_quotes(s: Seq<char>, q: char, e: char) -> Seq<char>
    decreases s.len(),
{
    if s.len() == 0 {
        seq![]
    } else if s.len() >= 2 && s[0] == e && s[1] == q {
        seq![q] + unescape_quotes(s.skip(2), q, e)
    } else {
        seq![s[0]] + unescape_quotes(s.skip(1), q, e)
    }
}

/// How a shell reads one word: a word wrapped in `q` stands for its unescaped
/// inside; any other word stands for itself.
pub open spec fn read_word(w: Seq<char>, q: char, e: char) -> Seq<char> {
    if w.len() >= 2 && w[0] == q && w.last() == q {
        unescape_quotes(w.subrange(1, w.len() - 1), q, e)
    } else {
        w
    }
}

pub proof fn lemma_escape_quotes_push(t: Seq<char>, c: char, q: char, e: char)
    ensures
        escape_quotes(t.push(c), q, e) == escape_quotes(t, q, e) + escaped_char(c, q, e),
    decreases t.len(),
{
    if t.len() == 0 {
        let u = t.push(c);
        assert(u.skip(1) =~= Seq::<char>::empty());
        assert(escape_quotes(u.skip(1), q, e) =~= Seq::<char>::empty());
        assert(u[0] == c);
        assert(escape_quotes(u, q, e) =~= escaped_char(c, q, e));
    } else {
        assert(t.push(c).skip(1) =~= t.skip(1).push(c));
        lemma_escape_quotes_push(t.skip(1), c, q, e);
        assert(escape_quotes(t.push(c), q, e) =~= escape_quotes(t, q, e) + escaped_char(c, q, e));
    }
}

/// Reading back the inside of a quoted token gives the token. Where the escape
/// character differs from the quote character, this asks that it never stand
/// right before a quote character in `t`, nor at its end.
pub proof fn lemma_unescape_escape(t: Seq<char>, q: char, e: char)
    requires
        e != q ==> forall|i: int| 0 <= i < t.len() - 1 && #[trigger] t[i] == e ==> t[i + 1] != q,
        e != q ==> t.len() == 0 || t.last() != e,
    ensures
        unescape_quotes(escape_quotes(t, q, e), q, e) == t,
    decreases t.len(),
{
    if t.len() > 0 {
        let rest = t.skip(1);
        if e != q {
            assert forall|i: int| 0 <= i < rest.len() - 1 && #[trigger] rest[i] == e implies rest[i + 1] != q by {
                assert(t[i + 1] == rest[i]);
            }
        }
        lemma_unescape_escape(rest, q, e);
        let s = escape_quotes(t, q, e);
        let tail = escape_quotes(rest, q, e);
        if t[0] == q {
            assert(s =~= seq![e, q] + tail);
            assert(s.skip(2) =~= tail);
            assert(unescape_quotes(s, q, e) =~= seq![q] + rest);
        } else {
            assert(s =~= seq![t[0]] + tail);
            assert(s.skip(1) =~= tail);
            if t[0] == e && s.len() >= 2 && e != q {
                // The next character is not a quote, so the pair rule does not apply.
                assert(rest.len() > 0);
                assert(t[1] != q);
                assert(tail =~= escaped_char(rest[0], q, e) + escape_quotes(rest.skip(1), q, e));
                assert(s[1] == rest[0]);
            }
            assert(unescape_quotes(s, q, e) =~= seq![t[0]] + rest);
        }
        assert(seq![t[0]] + rest =~= t);
    }
}

/// `t` between two quote characters `q`, its own quote characters escaped by `e`.
pub fn quote_with(t: &Vec<char>, q: char, e: char) -> (r: String)
    ensures
        r@ == quoted_with(t@, q, e),
{
    let mut s = String::new();
    push_char(&mut s, q);
    for i in 0..t.len()
        invariant
            s@ == seq![q] + escape_quotes(t@.subrange(0, i as int), q, e),
    {
        proof {
            assert(t@.subrange(0, i + 1) =~= t@.subrange(0, i as int).push(t@[i as int]));
            lemma_escape_quotes_push(t@.subrange(0, i as int), t@[i as int], q, e);
        }
        if t[i] == q {
            push_char(&mut s, e);
            push_char(&mut s, q);
        } else {
            push_char(&mut s, t[i]);
        }
        assert(s@ =~= seq![q] + escape_quotes(t@.subrange(0, i + 1), q, e));
    }
    assert(t@.subrange(0, t.len() as int) =~= t@);
    push_char(&mut s, q);
    s
}

} // verus!
