//! Quoting for PowerShell, and the invocation that runs a command through it.

use vstd::prelude::*;
use crate::quoting::{is_wrapped_in, lemma_unescape_escape, quote_with, quoted_with, read_word, escape_quotes};
use crate::text::{lemma_join_words_front, chars_of, join_with_spaces, join_words, push_all, slashes_to_backslashes, to_backslashes, views};

verus! {

/// The characters that PowerShell gives a meaning of its own: blanks, quotes,
/// variable and subexpression markers, statement and pipeline separators,
/// redirections, and brackets.
pub open spec fn ps_special(c: char) -> bool {
    c == ' ' || c == '\t' || c == '\'' || c == '"' || c == '$' || c == '`' || c == ';'
        || c == '|' || c == '&' || c == '<' || c == '>' || c == '(' || c == ')' || c == '['
        || c == ']' || c == '{' || c == '}'
}

/// Whether `t` holds a character that PowerShell gives a meaning of its own.
pub open spec fn ps_needs_quoting(t: Seq<char>) -> bool {
    exists|i: int| 0 <= i < t.len() && ps_special(#[trigger] t[i])
}

/// `t` as a PowerShell literal: between single quotes, which stop all
/// expansion, each inner single quote doubled.
pub open spec fn ps_literal(t: Seq<char>) -> Seq<char> {
    quoted_with(t, '\'', '\'')
}

/// A token as PowerShell is to read it: one that holds a character of
/// `ps_special` becomes a literal, unless it already starts and ends with a
/// single quote. Any other token stands as it is.
pub open spec fn ps_escaped(t: Seq<char>) -> Seq<char> {
    if ps_needs_quoting(t) && !is_wrapped_in(t, '\'') {
        ps_literal(t)
    } else {
        t
    }
}

fn is_ps_special(c: char) -> (r: bool)
    ensures
        r == ps_special(c),
{
    c == ' ' || c == '\t' || c == '\'' || c == '"' || c == '$' || c == '`' || c == ';'
        || c == '|' || c == '&' || c == '<' || c == '>' || c == '(' || c == ')' || c == '['
        || c == ']' || c == '{' || c == '}'
}

/// Quotes an argument for PowerShell.
pub fn escape_argument_powershell(arg: &str) -> (r: String)
    ensures
        r@ == ps_escaped(arg@),
{
    let v = chars_of(arg);
    let mut needs = false;
    for i in 0..v.len()
        invariant
            v@ == arg@,
            needs == exists|j: int| 0 <= j < i && ps_special(#[trigger] v@[j]),
    {
        if is_ps_special(v[i]) {
            needs = true;
        }
    }
    let n = v.len();
    if needs && !(n > 0 && v[0] == '\'' && v[n - 1] == '\'') {
        quote_with(&v, '\'', '\'')
    } else {
        arg.to_owned()
    }
}

/// Quotes the command itself for PowerShell, by the same rule as an argument.
pub fn escape_command_powershell(command: &str) -> (r: String)
    ensures
        r@ == ps_escaped(command@),
{
    escape_argument_powershell(command)
}

/// Quoting twice changes nothing more than quoting once, and a token that
/// already starts and ends with a single quote is left as it is.
pub proof fn lemma_ps_escape_idempotent(t: Seq<char>)
    ensures
        ps_escaped(ps_escaped(t)) == ps_escaped(t),
        is_wrapped_in(t, '\'') ==> ps_escaped(t) == t,
{
    if is_wrapped_in(t, '\'') {
        assert(ps_special(t[0]));
    }
    if ps_needs_quoting(t) && !is_wrapped_in(t, '\'') {
        let r = ps_literal(t);
        assert(r[0] == '\'');
        assert(ps_special(r[0]));
        assert(r.last() == '\'');
    }
}

/// PowerShell reads a literal back as the token it was made from, whatever
/// characters the token holds.
pub proof fn lemma_ps_literal_round_trip(t: Seq<char>)
    ensures
        read_word(ps_literal(t), '\'', '\'') == t,
{
    let r = ps_literal(t);
    assert(r.subrange(1, r.len() - 1) =~= escape_quotes(t, '\'', '\''));
    lemma_unescape_escape(t, '\'', '\'');
}

/// A token that needs quoting and does not already start and end with a single
/// quote is read back by PowerShell as it was.
pub proof fn lemma_ps_escape_round_trip(t: Seq<char>)
    requires
        ps_needs_quoting(t),
        !is_wrapped_in(t, '\''),
    ensures
        read_word(ps_escaped(t), '\'', '\'') == t,
{
    lemma_ps_literal_round_trip(t);
}

/// The call that PowerShell runs: the call operator `&`, then the command, its
/// slashes turned into backslashes, and each argument, each as a literal, all
/// joined by single spaces. Every operand is a literal, since in argument mode
/// PowerShell also acts on characters outside `ps_special` (`@` splats a
/// variable, for one).
pub open spec fn ps_call(command: Seq<char>, args: Seq<Seq<char>>) -> Seq<char> {
    "& "@ + join_words(seq![ps_literal(to_backslashes(command))] + args.map_values(|a: Seq<char>| ps_literal(a)))
}

/// The arguments to PowerShell: hidden window, no banner, no profile, no
/// prompts, then the call to run.
pub open spec fn ps_invocation_args(command: Seq<char>, args: Seq<Seq<char>>) -> Seq<Seq<char>> {
    seq![
        "-WindowStyle"@,
        "Hidden"@,
        "-NoLogo"@,
        "-NoProfile"@,
        "-NonInteractive"@,
        "-Command"@,
        ps_call(command, args),
    ]
}

/// How PowerShell reads a literal from `s`, the text after its opening quote:
/// the inside, up to the closing quote, a doubled quote standing for one; and
/// the text after the closing quote.
pub open spec fn read_literal(s: Seq<char>) -> (Seq<char>, Seq<char>)
    decreases s.len(),
{
    if s.len() == 0 {
        (seq![], seq![])
    } else if s[0] == '\'' {
        if s.len() >= 2 && s[1] == '\'' {
            let (c, r) = read_literal(s.skip(2));
            (seq!['\''] + c, r)
        } else {
            (seq![], s.skip(1))
        }
    } else {
        let (c, r) = read_literal(s.skip(1));
        (seq![s[0]] + c, r)
    }
}

/// How PowerShell reads a run of literals separated by single spaces: the
/// string that each of them stands for, in order.
pub open spec fn read_literals(s: Seq<char>) -> Seq<Seq<char>>
    decreases s.len(),
{
    if s.len() == 0 || s[0] != '\'' {
        seq![]
    } else {
        let (c, r) = read_literal(s.skip(1));
        if r.len() > 0 && r[0] == ' ' && r.len() <= s.len() {
            seq![c] + read_literals(r.skip(1))
        } else {
            seq![c]
        }
    }
}

proof fn lemma_read_literal(t: Seq<char>, rest: Seq<char>)
    requires
        rest.len() == 0 || rest[0] != '\'',
    ensures
        read_literal(escape_quotes(t, '\'', '\'') + seq!['\''] + rest) == (t, rest),
    decreases t.len(),
{
    let s = escape_quotes(t, '\'', '\'') + seq!['\''] + rest;
    if t.len() == 0 {
        assert(s =~= seq!['\''] + rest);
        assert(s.skip(1) =~= rest);
    } else {
        let tail = escape_quotes(t.skip(1), '\'', '\'') + seq!['\''] + rest;
        lemma_read_literal(t.skip(1), rest);
        if t[0] == '\'' {
            assert(s =~= seq!['\'', '\''] + tail);
            assert(s.skip(2) =~= tail);
        } else {
            assert(s =~= seq![t[0]] + tail);
            assert(s.skip(1) =~= tail);
        }
        assert(seq![t[0]] + t.skip(1) =~= t);
    }
}

/// PowerShell reads a run of literals joined by single spaces back as the
/// strings they were made from, in order.
pub proof fn lemma_read_literals(ws: Seq<Seq<char>>)
    requires
        ws.len() > 0,
    ensures
        read_literals(join_words(ws.map_values(|w: Seq<char>| ps_literal(w)))) == ws,
    decreases ws.len(),
{
    let lits = ws.map_values(|w: Seq<char>| ps_literal(w));
    let s = join_words(lits);
    let w0 = ws[0];
    if ws.len() == 1 {
        assert(s == lits[0]);
        assert(s.skip(1) =~= escape_quotes(w0, '\'', '\'') + seq!['\''] + Seq::<char>::empty());
        lemma_read_literal(w0, Seq::<char>::empty());
        assert(read_literals(s) =~= ws);
    } else {
        let more = ws.skip(1).map_values(|w: Seq<char>| ps_literal(w));
        assert(lits =~= seq![lits[0]] + more);
        lemma_join_words_front(lits[0], more);
        let rest = seq![' '] + join_words(more);
        assert(s.skip(1) =~= escape_quotes(w0, '\'', '\'') + seq!['\''] + rest);
        lemma_read_literal(w0, rest);
        assert(rest.skip(1) =~= join_words(more));
        lemma_read_literals(ws.skip(1));
        assert(seq![w0] + ws.skip(1) =~= ws);
    }
}

/// PowerShell, reading the call after its `& `, gets the command (its slashes
/// turned into backslashes) and then every argument, each exactly as given.
pub proof fn lemma_ps_call_round_trip(command: Seq<char>, args: Seq<Seq<char>>)
    ensures
        read_literals(ps_call(command, args).skip("& "@.len() as int)) == seq![to_backslashes(command)]
            + args,
{
    let ws = seq![to_backslashes(command)] + args;
    assert(ws.map_values(|w: Seq<char>| ps_literal(w)) =~= seq![ps_literal(to_backslashes(command))]
        + args.map_values(|a: Seq<char>| ps_literal(a)));
    lemma_read_literals(ws);
    assert(ps_call(command, args).skip("& "@.len() as int) =~= join_words(
        ws.map_values(|w: Seq<char>| ps_literal(w)),
    ));
}

/// Runs `command` with `args` through the PowerShell executable `interpreter`.
pub fn process_with_powershell(interpreter: &str, command: &str, args: &Vec<String>) -> (r: (String, Vec<String>))
    ensures
        r.0@ == interpreter@,
        views(r.1@) == ps_invocation_args(command@, views(args@)),
{
    let normalized = chars_of(slashes_to_backslashes(command).as_str());
    let mut words: Vec<String> = Vec::new();
    words.push(quote_with(&normalized, '\'', '\''));
    let ghost head = seq![ps_literal(to_backslashes(command@))];
    for i in 0..args.len()
        invariant
            views(words@) == head + views(args@.subrange(0, i as int)).map_values(
                |a: Seq<char>| ps_literal(a),
            ),
    {
        let arg = chars_of(args[i].as_str());
        let ghost before = words@;
        words.push(quote_with(&arg, '\'', '\''));
        assert(views(words@) =~= views(before).push(ps_literal(args@[i as int]@)));
        assert(views(args@.subrange(0, i + 1)) =~= views(args@.subrange(0, i as int)).push(args@[i as int]@));
        assert(views(words@) =~= head + views(args@.subrange(0, i + 1)).map_values(
            |a: Seq<char>| ps_literal(a),
        ));
    }
    assert(args@.subrange(0, args.len() as int) =~= args@);
    let mut call = "& ".to_owned();
    push_all(&mut call, join_with_spaces(&words).as_str());
    let out = vec![
        "-WindowStyle".to_owned(),
        "Hidden".to_owned(),
        "-NoLogo".to_owned(),
        "-NoProfile".to_owned(),
        "-NonInteractive".to_owned(),
        "-Command".to_owned(),
        call,
    ];
    assert(views(out@) =~= ps_invocation_args(command@, views(args@)));
    (interpreter.to_owned(), out)
}

} // verus!
