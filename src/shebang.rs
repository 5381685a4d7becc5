//! The interpreter directive on a script's first line (`#!...`), and the
//! rewrite that runs the script through that interpreter.

use vstd::prelude::*;
use crate::text::{chars_of, push_char, views};

verus! {

/// Whether `c` is white space in Unicode's sense (the `White_Space` property).
pub open spec fn is_white(c: char) -> bool {
    let n = c as u32;
    ||| 0x9 <= n <= 0xd
    ||| n == 0x20
    ||| n == 0x85
    ||| n == 0xa0
    ||| n == 0x1680
    ||| 0x2000 <= n <= 0x200a
    ||| n == 0x2028
    ||| n == 0x2029
    ||| n == 0x202f
    ||| n == 0x205f
    ||| n == 0x3000
}

/// `s` without its leading white space.
pub open spec fn trim_start(s: Seq<char>) -> Seq<char>
    decreases s.len(),
{
    if s.len() > 0 && is_white(s[0]) {
        trim_start(s.skip(1))
    } else {
        s
    }
}

/// `s` without its trailing white space.
pub open spec fn trim_end(s: Seq<char>) -> Seq<char>
    decreases s.len(),
{
    if s.len() > 0 && is_white(s.last()) {
        trim_end(s.drop_last())
    } else {
        s
    }
}

/// `s` without white space at either end.
pub open spec fn trim(s: Seq<char>) -> Seq<char> {
    trim_end(trim_start(s))
}

/// The characters of `s` up to its first white space.
pub open spec fn leading_word(s: Seq<char>) -> Seq<char>
    decreases s.len(),
{
    if s.len() == 0 || is_white(s[0]) {
        seq![]
    } else {
        seq![s[0]] + leading_word(s.skip(1))
    }
}

/// The first of the words of `s` that white space separates, if it has one.
pub open spec fn first_token(s: Seq<char>) -> Option<Seq<char>> {
    let w = leading_word(trim_start(s));
    if w.len() == 0 {
        None
    } else {
        Some(w)
    }
}

/// `/usr/bin/env ` with its trailing space: the portable way to name an
/// interpreter that is looked up on the search path.
pub open spec fn env_prefix() -> Seq<char> {
    seq!['/', 'u', 's', 'r', '/', 'b', 'i', 'n', '/', 'e', 'n', 'v', ' ']
}

/// The interpreter that a script's first line names: the line starts with
/// `#!`; of the rest, trimmed, the first word, or the word after
/// `/usr/bin/env ` where the rest starts with that. A line that does not start
/// with `#!`, or names no word, names none.
pub open spec fn shebang_interpreter(line: Seq<char>) -> Option<Seq<char>> {
    if line.len() >= 2 && line[0] == '#' && line[1] == '!' {
        let d = trim(line.skip(2));
        if d.len() >= env_prefix().len() && d.subrange(0, env_prefix().len() as int) == env_prefix() {
            first_token(d.skip(env_prefix().len() as int))
        } else {
            first_token(d)
        }
    } else {
        None
    }
}

/// The interpreter named by a script's first line, where one could be read.
pub open spec fn interpreter_for(first_line: Option<String>) -> Option<Seq<char>> {
    match first_line {
        Some(l) => shebang_interpreter(l@),
        None => None,
    }
}

fn is_white_char(c: char) -> (r: bool)
    ensures
        r == is_white(c),
{
    let n = c as u32;
    (0x9 <= n && n <= 0xd) || n == 0x20 || n == 0x85 || n == 0xa0 || n == 0x1680 || (0x2000
        <= n && n <= 0x200a) || n == 0x2028 || n == 0x2029 || n == 0x202f || n == 0x205f || n
        == 0x3000
}

/// Where `v[a..b]` starts once its leading white space is skipped.
fn skip_white(v: &Vec<char>, a: usize, b: usize) -> (k: usize)
    requires
        a <= b <= v.len(),
    ensures
        a <= k <= b,
        trim_start(v@.subrange(a as int, b as int)) == v@.subrange(k as int, b as int),
{
    let mut k = a;
    while k < b && is_white_char(v[k])
        invariant
            a <= k <= b <= v.len(),
            trim_start(v@.subrange(a as int, b as int)) == trim_start(v@.subrange(k as int, b as int)),
        decreases b - k,
    {
        assert(v@.subrange(k as int, b as int).skip(1) =~= v@.subrange(k + 1, b as int));
        k = k + 1;
    }
    k
}

/// Where `v[a..b]` ends once its trailing white space is dropped.
fn drop_white_end(v: &Vec<char>, a: usize, b: usize) -> (h: usize)
    requires
        a <= b <= v.len(),
    ensures
        a <= h <= b,
        trim_end(v@.subrange(a as int, b as int)) == v@.subrange(a as int, h as int),
{
    let mut h = b;
    while h > a && is_white_char(v[h - 1])
        invariant
            a <= h <= b <= v.len(),
            trim_end(v@.subrange(a as int, b as int)) == trim_end(v@.subrange(a as int, h as int)),
        decreases h - a,
    {
        assert(v@.subrange(a as int, h as int).drop_last() =~= v@.subrange(a as int, h - 1));
        h = h - 1;
    }
    h
}

/// The first word of `v[a..b]` that white space separates, if it has one.
fn token_in(v: &Vec<char>, a: usize, b: usize) -> (r: Option<String>)
    requires
        a <= b <= v.len(),
    ensures
        match first_token(v@.subrange(a as int, b as int)) {
            Some(w) => r is Some && r->0@ == w,
            None => r is None,
        },
{
    let k = skip_white(v, a, b);
    let mut word = String::new();
    let mut j = k;
    while j < b && !is_white_char(v[j])
        invariant
            k <= j <= b <= v.len(),
            word@ == v@.subrange(k as int, j as int),
            leading_word(v@.subrange(k as int, b as int)) == word@ + leading_word(
                v@.subrange(j as int, b as int),
            ),
        decreases b - j,
    {
        let ghost rest = v@.subrange(j as int, b as int);
        assert(rest.skip(1) =~= v@.subrange(j + 1, b as int));
        assert(leading_word(rest) == seq![v@[j as int]] + leading_word(rest.skip(1)));
        push_char(&mut word, v[j]);
        assert(word@ + leading_word(v@.subrange(j + 1, b as int)) =~= v@.subrange(k as int, j as int)
            + leading_word(rest));
        j = j + 1;
    }
    assert(leading_word(v@.subrange(j as int, b as int)) =~= Seq::<char>::empty());
    assert(word@ + Seq::<char>::empty() =~= word@);
    if j == k {
        None
    } else {
        Some(word)
    }
}

/// The interpreter that a script's first line names, if it names one.
pub fn read_interpreter(line: &str) -> (r: Option<String>)
    ensures
        match shebang_interpreter(line@) {
            Some(i) => r is Some && r->0@ == i,
            None => r is None,
        },
{
    let v = chars_of(line);
    let n = v.len();
    if n < 2 || v[0] != '#' || v[1] != '!' {
        return None;
    }
    let lo = skip_white(&v, 2, n);
    assert(v@.subrange(2, n as int) =~= line@.skip(2));
    let hi = drop_white_end(&v, lo, n);
    let ghost d = trim(line@.skip(2));
    assert(d == v@.subrange(lo as int, hi as int));
    let env = vec!['/', 'u', 's', 'r', '/', 'b', 'i', 'n', '/', 'e', 'n', 'v', ' '];
    assert(env@ == env_prefix());
    let mut is_env = hi - lo >= env.len();
    let mut k: usize = 0;
    while is_env && k < env.len()
        invariant
            lo <= hi <= n == v.len(),
            env@ == env_prefix(),
            k <= env.len(),
            is_env ==> hi - lo >= env.len(),
            is_env ==> forall|j: int| 0 <= j < k ==> v@[lo + j] == #[trigger] env@[j],
            !is_env ==> !(d.len() >= env_prefix().len() && d.subrange(0, env_prefix().len() as int)
                == env_prefix()),
            d == v@.subrange(lo as int, hi as int),
        decreases env.len() - k + if is_env { 1int } else { 0int },
    {
        if v[lo + k] != env[k] {
            assert(d.subrange(0, env_prefix().len() as int)[k as int] == v@[lo + k]);
            is_env = false;
        } else {
            k = k + 1;
        }
    }
    if is_env {
        assert(d.subrange(0, env_prefix().len() as int) =~= env_prefix());
        assert(d.skip(env_prefix().len() as int) =~= v@.subrange(lo + env.len(), hi as int));
        token_in(&v, lo + env.len(), hi)
    } else {
        token_in(&v, lo, hi)
    }
}

/// Runs a script through the interpreter that its first line names: where
/// `first_line` names one, the command becomes the interpreter and the script
/// becomes the first argument; otherwise both stay as they are.
pub fn detect_shebang(command: &str, first_line: &Option<String>, args: &mut Vec<String>) -> (r: String)
    ensures
        match interpreter_for(*first_line) {
            Some(i) => r@ == i && views(final(args)@) == seq![command@] + views(old(args)@),
            None => r@ == command@ && final(args)@ == old(args)@,
        },
{
    let found = match first_line {
        Some(line) => read_interpreter(line.as_str()),
        None => None,
    };
    match found {
        Some(interpreter) => {
            args.insert(0, command.to_owned());
            assert(views(args@) =~= seq![command@] + views(old(args)@));
            interpreter
        },
        None => command.to_owned(),
    }
}

} // verus!
