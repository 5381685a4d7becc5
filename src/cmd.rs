//! Quoting for `cmd.exe`, and the invocation that runs a command through it.
//!
//! The policy is plain double-quote wrapping: a token with a blank or a double
//! quote is quoted, and nothing is escaped with carets. Under it a command shim
//! needs no second round of escaping, so the quoting does not depend on the
//! command's kind.

use vstd::prelude::*;
use crate::quoting::{escaped_char, is_wrapped_in, lemma_unescape_escape, quote_with, quoted_with, read_word, escape_quotes};
use crate::text::{lemma_join_words_front, chars_of, join_with_spaces, join_words, slashes_to_backslashes, to_backslashes, views};

verus! {

/// The characters that make a token need double quotes under `cmd.exe`.
pub open spec fn cmd_special(c: char) -> bool {
    c == ' ' || c == '\t' || c == '"'
}

/// Whether `t` holds a space, a tab or a double quote.
pub open spec fn cmd_needs_quoting(t: Seq<char>) -> bool {
    exists|i: int| 0 <= i < t.len() && cmd_special(#[trigger] t[i])
}

/// A token as it stands on a `cmd.exe` command line: one that holds a space,
/// a tab or a double quote is wrapped in double quotes, each inner double quote
/// preceded by a backslash, unless it already starts and ends with a double
/// quote. Any other token stands as it is.
pub open spec fn cmd_escaped(t: Seq<char>) -> Seq<char> {
    if cmd_needs_quoting(t) && !is_wrapped_in(t, '"') {
        quoted_with(t, '"', '\\')
    } else {
        t
    }
}

/// Quotes an argument for a `cmd.exe` command line.
pub fn escape_argument_cmd(arg: &str) -> (r: String)
    ensures
        r@ == cmd_escaped(arg@),
{
    let v = chars_of(arg);
    let mut needs = false;
    for i in 0..v.len()
        invariant
            v@ == arg@,
            needs == exists|j: int| 0 <= j < i && cmd_special(#[trigger] v@[j]),
    {
        if v[i] == ' ' || v[i] == '\t' || v[i] == '"' {
            needs = true;
        }
    }
    let n = v.len();
    if needs && !(n > 0 && v[0] == '"' && v[n - 1] == '"') {
        quote_with(&v, '"', '\\')
    } else {
        arg.to_owned()
    }
}

/// Quotes the command itself for a `cmd.exe` command line, by the same rule as
/// an argument.
pub fn escape_command(command: &str) -> (r: String)
    ensures
        r@ == cmd_escaped(command@),
{
    escape_argument_cmd(command)
}

/// Quoting twice changes nothing more than quoting once, and a token that
/// already starts and ends with a double quote is left as it is.
pub proof fn lemma_cmd_escape_idempotent(t: Seq<char>)
    ensures
        cmd_escaped(cmd_escaped(t)) == cmd_escaped(t),
        is_wrapped_in(t, '"') ==> cmd_escaped(t) == t,
{
    if is_wrapped_in(t, '"') {
        assert(cmd_special(t[0]));
    }
    if cmd_needs_quoting(t) && !is_wrapped_in(t, '"') {
        let r = quoted_with(t, '"', '\\');
        assert(r[0] == '"');
        assert(cmd_special(r[0]));
        assert(r.last() == '"');
    }
}

/// Whether the C runtime can read `t` back once quoted: `t` does not already
/// start and end with a double quote (such a token is passed on as it is), has
/// no backslash right before a double quote and, if it is quoted, does not end
/// in a backslash. On the other tokens the runtime would read a run of
/// backslashes before a quote by its own rule.
pub open spec fn cmd_readable(t: Seq<char>) -> bool {
    &&& !is_wrapped_in(t, '"')
    &&& forall|i: int| 0 <= i < t.len() - 1 && #[trigger] t[i] == '\\' ==> t[i + 1] != '"'
    &&& cmd_needs_quoting(t) ==> t.len() == 0 || t.last() != '\\'
}

/// The C runtime, reading an argument of the command line back, gives the
/// token as it was before quoting. `cmd.exe` itself still acts on `&`, `|`,
/// `<`, `>` and `^` outside quotes and on `%` anywhere, which this policy
/// leaves as they are.
pub proof fn lemma_cmd_round_trip(t: Seq<char>)
    requires
        cmd_readable(t),
    ensures
        read_word(cmd_escaped(t), '"', '\\') == t,
{
    if cmd_needs_quoting(t) {
        let r = quoted_with(t, '"', '\\');
        assert(r.subrange(1, r.len() - 1) =~= escape_quotes(t, '"', '\\'));
        lemma_unescape_escape(t, '"', '\\');
    } else if t.len() >= 2 && t[0] == '"' {
        assert(cmd_special(t[0]));
    }
}

/// How the C runtime reads a quoted argument from `s`, the text after its
/// opening quote: the inside, up to the closing quote, `\"` standing for a
/// quote; and the text after the closing quote.
pub open spec fn read_quoted(s: Seq<char>) -> (Seq<char>, Seq<char>)
    decreases s.len(),
{
    if s.len() == 0 {
        (seq![], seq![])
    } else if s.len() >= 2 && s[0] == '\\' && s[1] == '"' {
        let (c, r) = read_quoted(s.skip(2));
        (seq!['"'] + c, r)
    } else if s[0] == '"' {
        (seq![], s.skip(1))
    } else {
        let (c, r) = read_quoted(s.skip(1));
        (seq![s[0]] + c, r)
    }
}

/// How the C runtime reads an unquoted argument from `s`: up to the next space.
pub open spec fn read_bare(s: Seq<char>) -> (Seq<char>, Seq<char>)
    decreases s.len(),
{
    if s.len() == 0 || s[0] == ' ' {
        (seq![], s)
    } else {
        let (c, r) = read_bare(s.skip(1));
        (seq![s[0]] + c, r)
    }
}

/// How the C runtime reads arguments separated by single spaces, each quoted
/// or bare: the string that each of them stands for, in order.
pub open spec fn read_args(s: Seq<char>) -> Seq<Seq<char>>
    decreases s.len(),
{
    if s.len() == 0 {
        seq![]
    } else {
        let (w, r) = if s[0] == '"' {
            read_quoted(s.skip(1))
        } else {
            read_bare(s)
        };
        if r.len() > 0 && r[0] == ' ' && r.len() <= s.len() {
            seq![w] + read_args(r.skip(1))
        } else {
            seq![w]
        }
    }
}

proof fn lemma_read_quoted(t: Seq<char>, rest: Seq<char>)
    requires
        forall|i: int| 0 <= i < t.len() - 1 && #[trigger] t[i] == '\\' ==> t[i + 1] != '"',
        t.len() == 0 || t.last() != '\\',
    ensures
        read_quoted(escape_quotes(t, '"', '\\') + seq!['"'] + rest) == (t, rest),
    decreases t.len(),
{
    let s = escape_quotes(t, '"', '\\') + seq!['"'] + rest;
    if t.len() == 0 {
        assert(s =~= seq!['"'] + rest);
        assert(s.skip(1) =~= rest);
    } else {
        let u = t.skip(1);
        assert forall|i: int| 0 <= i < u.len() - 1 && #[trigger] u[i] == '\\' implies u[i + 1] != '"' by {
            assert(t[i + 1] == u[i]);
        }
        let tail = escape_quotes(u, '"', '\\') + seq!['"'] + rest;
        lemma_read_quoted(u, rest);
        if t[0] == '"' {
            assert(s =~= seq!['\\', '"'] + tail);
            assert(s.skip(2) =~= tail);
        } else {
            assert(s =~= seq![t[0]] + tail);
            assert(s.skip(1) =~= tail);
            if t[0] == '\\' {
                assert(u.len() > 0);
                assert(escape_quotes(u, '"', '\\') =~= escaped_char(u[0], '"', '\\') + escape_quotes(
                    u.skip(1),
                    '"',
                    '\\',
                ));
                assert(s[1] == u[0]);
            }
        }
        assert(seq![t[0]] + u =~= t);
    }
}

proof fn lemma_read_bare(t: Seq<char>, rest: Seq<char>)
    requires
        forall|i: int| 0 <= i < t.len() ==> #[trigger] t[i] != ' ',
        rest.len() == 0 || rest[0] == ' ',
    ensures
        read_bare(t + rest) == (t, rest),
    decreases t.len(),
{
    let s = t + rest;
    if t.len() == 0 {
        assert(s =~= rest);
    } else {
        lemma_read_bare(t.skip(1), rest);
        assert(s.skip(1) =~= t.skip(1) + rest);
        assert(seq![t[0]] + t.skip(1) =~= t);
    }
}

/// Reading one quoted token back from the front of a line.
proof fn lemma_read_token(t: Seq<char>, rest: Seq<char>)
    requires
        t.len() > 0,
        cmd_readable(t),
        rest.len() == 0 || rest[0] == ' ',
    ensures
        ({
            let s = cmd_escaped(t) + rest;
            let (w, r) = if s[0] == '"' {
                read_quoted(s.skip(1))
            } else {
                read_bare(s)
            };
            w == t && r == rest
        }),
{
    let s = cmd_escaped(t) + rest;
    if cmd_needs_quoting(t) {
        assert(s.skip(1) =~= escape_quotes(t, '"', '\\') + seq!['"'] + rest);
        lemma_read_quoted(t, rest);
    } else {
        assert forall|i: int| 0 <= i < t.len() implies #[trigger] t[i] != ' ' by {
            if t[i] == ' ' {
                assert(cmd_special(t[i]));
            }
        }
        if t[0] == '"' {
            assert(cmd_special(t[0]));
        }
        lemma_read_bare(t, rest);
    }
}

/// The C runtime reads tokens quoted and joined by single spaces back as the
/// tokens themselves, in order, where each is non-empty and `cmd_readable`.
pub proof fn lemma_read_args(ws: Seq<Seq<char>>)
    requires
        ws.len() > 0,
        forall|i: int| 0 <= i < ws.len() ==> #[trigger] ws[i].len() > 0 && cmd_readable(ws[i]),
    ensures
        read_args(join_words(ws.map_values(|w: Seq<char>| cmd_escaped(w)))) == ws,
    decreases ws.len(),
{
    let toks = ws.map_values(|w: Seq<char>| cmd_escaped(w));
    let s = join_words(toks);
    let w0 = ws[0];
    assert(w0.len() > 0 && cmd_readable(w0));
    if ws.len() == 1 {
        assert(s == toks[0]);
        assert(s =~= cmd_escaped(w0) + Seq::<char>::empty());
        lemma_read_token(w0, Seq::<char>::empty());
        assert(read_args(s) =~= ws);
    } else {
        let more = ws.skip(1).map_values(|w: Seq<char>| cmd_escaped(w));
        assert(toks =~= seq![toks[0]] + more);
        lemma_join_words_front(toks[0], more);
        let rest = seq![' '] + join_words(more);
        assert(s =~= cmd_escaped(w0) + rest);
        lemma_read_token(w0, rest);
        assert(rest.skip(1) =~= join_words(more));
        assert forall|i: int| 0 <= i < ws.skip(1).len() implies #[trigger] ws.skip(1)[i].len() > 0
            && cmd_readable(ws.skip(1)[i]) by {
            assert(ws.skip(1)[i] == ws[i + 1]);
        }
        lemma_read_args(ws.skip(1));
        assert(seq![w0] + ws.skip(1) =~= ws);
    }
}

/// The command line that `cmd.exe` runs: the command, its slashes turned into
/// backslashes, then each argument, each quoted by `cmd_escaped`, all joined by
/// single spaces.
pub open spec fn cmd_line(command: Seq<char>, args: Seq<Seq<char>>) -> Seq<char> {
    join_words(seq![cmd_escaped(to_backslashes(command))] + args.map_values(|a: Seq<char>| cmd_escaped(a)))
}

/// The interpreter named by `COMSPEC`, or `cmd.exe` where it is not set.
pub open spec fn comspec_or_default(comspec: Option<String>) -> Seq<char> {
    match comspec {
        Some(c) => c@,
        None => "cmd.exe"@,
    }
}

/// The arguments to `cmd.exe`: no AutoRun scripts (`/d`), the rest of the line
/// kept as it is (`/s`), run it and exit (`/c`), then the command line.
pub open spec fn cmd_invocation_args(command: Seq<char>, args: Seq<Seq<char>>) -> Seq<Seq<char>> {
    seq!["/d"@, "/s"@, "/c"@, cmd_line(command, args)]
}

/// Runs `command` with `args` through `cmd.exe`: the interpreter that
/// `comspec` names (or `cmd.exe`), and its arguments.
pub fn process_with_cmd(command: &str, args: &Vec<String>, comspec: Option<String>) -> (r: (String, Vec<String>))
    ensures
        r.0@ == comspec_or_default(comspec),
        views(r.1@) == cmd_invocation_args(command@, views(args@)),
{
    let normalized = slashes_to_backslashes(command);
    let mut words: Vec<String> = Vec::new();
    words.push(escape_command(normalized.as_str()));
    let ghost head = seq![cmd_escaped(to_backslashes(command@))];
    for i in 0..args.len()
        invariant
            views(words@) == head + views(args@.subrange(0, i as int)).map_values(
                |a: Seq<char>| cmd_escaped(a),
            ),
    {
        let ghost before = words@;
        words.push(escape_argument_cmd(args[i].as_str()));
        assert(views(words@) =~= views(before).push(cmd_escaped(args@[i as int]@)));
        assert(views(args@.subrange(0, i + 1)) =~= views(args@.subrange(0, i as int)).push(args@[i as int]@));
        assert(views(words@) =~= head + views(args@.subrange(0, i + 1)).map_values(
            |a: Seq<char>| cmd_escaped(a),
        ));
    }
    assert(args@.subrange(0, args.len() as int) =~= args@);
    let line = join_with_spaces(&words);
    let interpreter = match comspec {
        Some(c) => c,
        None => "cmd.exe".to_owned(),
    };
    let out = vec!["/d".to_owned(), "/s".to_owned(), "/c".to_owned(), line];
    assert(views(out@) =~= cmd_invocation_args(command@, views(args@)));
    (interpreter, out)
}

/// The C runtime, reading the command line that `cmd.exe` runs, gets the
/// command (its slashes turned into backslashes) and then every argument, each
/// exactly as given, where each of them is non-empty and `cmd_readable`.
pub proof fn lemma_cmd_line_round_trip(command: Seq<char>, args: Seq<Seq<char>>)
    requires
        to_backslashes(command).len() > 0,
        cmd_readable(to_backslashes(command)),
        forall|i: int| 0 <= i < args.len() ==> #[trigger] args[i].len() > 0 && cmd_readable(args[i]),
    ensures
        read_args(cmd_line(command, args)) == seq![to_backslashes(command)] + args,
{
    let ws = seq![to_backslashes(command)] + args;
    assert forall|i: int| 0 <= i < ws.len() implies #[trigger] ws[i].len() > 0 && cmd_readable(ws[i]) by {
        if i > 0 {
            assert(ws[i] == args[i - 1]);
        }
    }
    assert(ws.map_values(|w: Seq<char>| cmd_escaped(w)) =~= seq![cmd_escaped(to_backslashes(command))]
        + args.map_values(|a: Seq<char>| cmd_escaped(a)));
    lemma_read_args(ws);
}

} // verus!
