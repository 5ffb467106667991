//! Removing `//` line comments and `/* */` block comments from JSONC text,
//! leaving string literals untouched.
use vstd::prelude::*;
use vstd::string::*;

use crate::text::{chars_of, push_char};

verus! {

/// Where the scanner stands between two characters of JSONC text.
pub enum Lex {
    /// Ordinary JSON text.
    Code,
    /// Inside a string literal.
    Str,
    /// Inside a string literal, right after a backslash.
    StrEsc,
    /// Inside a `//` comment.
    Line,
    /// Inside a `/* */` comment.
    Block,
}

/// One step of the scanner on the nonempty text `s`: the characters it keeps,
/// how many characters it consumes (one or two) and the state it moves to.
pub open spec fn step(st: Lex, s: Seq<char>) -> (Seq<char>, int, Lex)
    recommends
        s.len() > 0,
{
    let c = s[0];
    match st {
        Lex::Code => {
            if c == '"' {
                (seq![c], 1, Lex::Str)
            } else if c == '/' && s.len() > 1 && s[1] == '/' {
                (Seq::empty(), 2, Lex::Line)
            } else if c == '/' && s.len() > 1 && s[1] == '*' {
                (Seq::empty(), 2, Lex::Block)
            } else {
                (seq![c], 1, Lex::Code)
            }
        },
        Lex::Str => {
            if c == '\\' {
                (seq![c], 1, Lex::StrEsc)
            } else if c == '"' {
                (seq![c], 1, Lex::Code)
            } else {
                (seq![c], 1, Lex::Str)
            }
        },
        Lex::StrEsc => (seq![c], 1, Lex::Str),
        Lex::Line => {
            if c == '\n' {
                (seq![c], 1, Lex::Code)
            } else {
                (Seq::empty(), 1, Lex::Line)
            }
        },
        Lex::Block => {
            if c == '*' && s.len() > 1 && s[1] == '/' {
                (Seq::empty(), 2, Lex::Code)
            } else {
                (Seq::empty(), 1, Lex::Block)
            }
        },
    }
}

/// Scans all of `s` from state `st`: the characters kept and the final state.
pub open spec fn scan(st: Lex, s: Seq<char>) -> (Seq<char>, Lex)
    decreases s.len(),
{
    if s.len() == 0 {
        (Seq::empty(), st)
    } else {
        let (kept, k, next) = step(st, s);
        let rest = scan(next, s.skip(k));
        (kept + rest.0, rest.1)
    }
}

/// JSONC text with its comments removed, or `None` where a string literal
/// or a block comment is still open at the end of the text.
pub open spec fn stripped(s: Seq<char>) -> Option<Seq<char>> {
    let (out, last) = scan(Lex::Code, s);
    match last {
        Lex::Str | Lex::StrEsc | Lex::Block => None,
        _ => Some(out),
    }
}

/// Removes the comments of JSONC text `raw`; `None` where a string literal
/// or a block comment is not closed.
pub fn strip_jsonc(raw: &str) -> (res: Option<String>)
    ensures
        res matches Some(out) ==> stripped(raw@) == Some(out@),
        res is None <==> stripped(raw@) is None,
{
    let cs = chars_of(raw);
    let n = cs.len();
    let mut out = String::new();
    let mut st = Lex::Code;
    let mut i: usize = 0;
    assert(cs@.skip(0) =~= cs@);
    while i < n
        invariant
            cs@ == raw@,
            n == cs@.len(),
            i <= n,
            scan(Lex::Code, cs@) == (out@ + scan(st, cs@.skip(i as int)).0, scan(st, cs@.skip(i as int)).1),
        decreases n - i,
    {
        let ghost rest = cs@.skip(i as int);
        let c = cs[i];
        let two = i + 1 < n;
        let next_slash = two && cs[i + 1] == '/';
        let next_star = two && cs[i + 1] == '*';
        let ghost kept: Seq<char>;
        let k: usize;
        let next: Lex;
        match st {
            Lex::Code => {
                if c == '"' {
                    push_char(&mut out, c);
                    proof { kept = seq![c]; }
                    k = 1;
                    next = Lex::Str;
                } else if c == '/' && next_slash {
                    proof { kept = Seq::empty(); }
                    k = 2;
                    next = Lex::Line;
                } else if c == '/' && next_star {
                    proof { kept = Seq::empty(); }
                    k = 2;
                    next = Lex::Block;
                } else {
                    push_char(&mut out, c);
                    proof { kept = seq![c]; }
                    k = 1;
                    next = Lex::Code;
                }
            },
            Lex::Str => {
                push_char(&mut out, c);
                proof { kept = seq![c]; }
                k = 1;
                next = if c == '\\' {
                    Lex::StrEsc
                } else if c == '"' {
                    Lex::Code
                } else {
                    Lex::Str
                };
            },
            Lex::StrEsc => {
                push_char(&mut out, c);
                proof { kept = seq![c]; }
                k = 1;
                next = Lex::Str;
            },
            Lex::Line => {
                if c == '\n' {
                    push_char(&mut out, c);
                    proof { kept = seq![c]; }
                    k = 1;
                    next = Lex::Code;
                } else {
                    proof { kept = Seq::empty(); }
                    k = 1;
                    next = Lex::Line;
                }
            },
            Lex::Block => {
                if c == '*' && next_slash {
                    proof { kept = Seq::empty(); }
                    k = 2;
                    next = Lex::Code;
                } else {
                    proof { kept = Seq::empty(); }
                    k = 1;
                    next = Lex::Block;
                }
            },
        }
        proof {
            assert(rest.len() > 0);
            assert(step(st, rest) == (kept, k as int, next));
            assert(rest.skip(k as int) =~= cs@.skip(i + k));
        }
        st = next;
        i = i + k;
    }
    proof {
        assert(cs@.skip(i as int) =~= Seq::<char>::empty());
    }
    match st {
        Lex::Str | Lex::StrEsc | Lex::Block => None,
        _ => Some(out),
    }
}


/// The message with which text that cannot be stripped is refused.
pub open spec fn invalid_jsonc_message() -> Seq<char> {
    seq!['J', 'S', 'O', 'N', 'C', ' ', 'i', 'n', 'v', 'a', 'l', 'i', 'd']
}

/// The JSON text of a configuration file: its text without comments, or
/// "JSONC invalid" where a string or a block comment is left open.
pub fn config_json_text(raw: &str) -> (res: Result<String, String>)
    ensures
        res matches Ok(out) ==> stripped(raw@) == Some(out@),
        res matches Err(e) ==> stripped(raw@) is None && e@ == invalid_jsonc_message(),
        res is Err <==> stripped(raw@) is None,
{
    match strip_jsonc(raw) {
        Some(out) => Ok(out),
        None => {
            let e = String::from_str("JSONC invalid");
            proof {
                reveal_strlit("JSONC invalid");
                assert(e@ =~= invalid_jsonc_message());
            }
            Err(e)
        },
    }
}

/// Same as [`strip_jsonc`]: removes the comments of JSONC text `raw`.
pub fn strip(raw: &str) -> (res: Option<String>)
    ensures
        res matches Some(out) ==> stripped(raw@) == Some(out@),
        res is None <==> stripped(raw@) is None,
{
    strip_jsonc(raw)
}

/// The state from which kept text is scanned again: comment states become `Code`.
pub open spec fn rescan_state(st: Lex) -> Lex {
    match st {
        Lex::Line | Lex::Block => Lex::Code,
        _ => st,
    }
}

proof fn lemma_code_keeps_first(s: Seq<char>)
    requires
        s.len() > 0,
        s[0] != '/',
    ensures
        scan(Lex::Code, s).0.len() > 0,
        scan(Lex::Code, s).0[0] == s[0],
{
    let (kept, k, next) = step(Lex::Code, s);
    assert(kept == seq![s[0]]);
}

proof fn lemma_rescan(st: Lex, s: Seq<char>)
    ensures
        scan(rescan_state(st), scan(st, s).0) == (scan(st, s).0, rescan_state(scan(st, s).1)),
    decreases s.len(),
{
    if s.len() > 0 {
        let (kept, k, next) = step(st, s);
        let rest = scan(next, s.skip(k));
        lemma_rescan(next, s.skip(k));
        let o = scan(st, s).0;
        assert(o == kept + rest.0);
        if kept.len() == 1 {
            let c = kept[0];
            assert(o.len() > 0);
            assert(o[0] == c);
            assert(o.skip(1) =~= rest.0);
            if st == Lex::Code && c == '/' {
                // A kept slash is never followed by `/` or `*`.
                assert(s.len() == 1 || (s[1] != '/' && s[1] != '*'));
                if s.len() > 1 {
                    lemma_code_keeps_first(s.skip(1));
                    assert(s.skip(1)[0] == s[1]);
                } else {
                    assert(s.skip(1).len() == 0);
                }
            }
            assert(step(rescan_state(st), o) == (kept, 1int, rescan_state(next)));
        } else {
            assert(kept.len() == 0);
            assert(o =~= rest.0);
            assert(rescan_state(next) == rescan_state(st));
        }
    }
}

/// Stripping is idempotent: text that comes out of stripping holds no comment
/// and no open string, so stripping it again gives it back unchanged.
pub proof fn law_strip_idempotent(s: Seq<char>)
    requires
        stripped(s) is Some,
    ensures
        stripped(stripped(s).unwrap()) == stripped(s),
{
    lemma_rescan(Lex::Code, s);
}

proof fn lemma_plain_scan(s: Seq<char>)
    requires
        forall|i: int| 0 <= i < s.len() ==> s[i] != '/' && s[i] != '"',
    ensures
        scan(Lex::Code, s) == (s, Lex::Code),
    decreases s.len(),
{
    if s.len() > 0 {
        let t = s.skip(1);
        assert forall|i: int| 0 <= i < t.len() implies t[i] != '/' && t[i] != '"' by {
            assert(t[i] == s[i + 1]);
        }
        lemma_plain_scan(t);
        assert(seq![s[0]] + t =~= s);
    }
}

/// Text with no slash and no double quote has nothing to strip: it comes back unchanged.
pub proof fn law_strip_plain_text(s: Seq<char>)
    requires
        forall|i: int| 0 <= i < s.len() ==> s[i] != '/' && s[i] != '"',
    ensures
        stripped(s) == Some(s),
{
    lemma_plain_scan(s);
}

proof fn lemma_scan_shorter(st: Lex, s: Seq<char>)
    ensures
        scan(st, s).0.len() <= s.len(),
    decreases s.len(),
{
    if s.len() > 0 {
        let (kept, k, next) = step(st, s);
        lemma_scan_shorter(next, s.skip(k));
    }
}

/// Stripping never lengthens the text.
pub proof fn law_strip_shortens(s: Seq<char>)
    requires
        stripped(s) is Some,
    ensures
        stripped(s).unwrap().len() <= s.len(),
{
    lemma_scan_shorter(Lex::Code, s);
}

/// `t` holds no `*/`.
pub open spec fn no_comment_end(t: Seq<char>) -> bool {
    forall|i: int| 0 <= i < t.len() - 1 ==> !(#[trigger] t[i] == '*' && t[i + 1] == '/')
}

proof fn lemma_block_runs_to_end(t: Seq<char>, u: Seq<char>)
    requires
        no_comment_end(t),
    ensures
        scan(Lex::Block, t + seq!['*', '/'] + u) == scan(Lex::Code, u),
    decreases t.len(),
{
    let s = t + seq!['*', '/'] + u;
    if t.len() == 0 {
        assert(s[0] == '*' && s[1] == '/');
        assert(s.skip(2) =~= u);
    } else {
        assert(s[0] == t[0]);
        if t.len() > 1 {
            assert(s[1] == t[1]);
            assert(!(t[0] == '*' && t[1] == '/'));
        } else {
            assert(s[1] == '*');
        }
        let t1 = t.drop_first();
        assert forall|i: int| 0 <= i < t1.len() - 1 implies !(#[trigger] t1[i] == '*' && t1[i + 1] == '/') by {
            assert(t1[i] == t[i + 1] && t1[i + 1] == t[i + 2]);
        }
        assert(s.skip(1) =~= t1 + seq!['*', '/'] + u);
        lemma_block_runs_to_end(t1, u);
    }
}

/// A block comment runs to its first `*/`, whatever it holds (slashes,
/// stars, quotes, line breaks): text that starts with a block comment strips
/// as the text after the comment does.
pub proof fn law_block_comment_runs_to_its_end(t: Seq<char>, u: Seq<char>)
    requires
        no_comment_end(t),
    ensures
        stripped(seq!['/', '*'] + t + seq!['*', '/'] + u) == stripped(u),
{
    let s = seq!['/', '*'] + t + seq!['*', '/'] + u;
    assert(s[0] == '/' && s[1] == '*');
    assert(s.skip(2) =~= t + seq!['*', '/'] + u);
    lemma_block_runs_to_end(t, u);
}

proof fn lemma_line_runs_to_newline(t: Seq<char>, u: Seq<char>)
    requires
        forall|i: int| 0 <= i < t.len() ==> t[i] != '\n',
    ensures
        scan(Lex::Line, t + seq!['\n'] + u) == (seq!['\n'] + scan(Lex::Code, u).0, scan(Lex::Code, u).1),
    decreases t.len(),
{
    let s = t + seq!['\n'] + u;
    if t.len() == 0 {
        assert(s[0] == '\n');
        assert(s.skip(1) =~= u);
    } else {
        assert(s[0] == t[0]);
        let t1 = t.drop_first();
        assert forall|i: int| 0 <= i < t1.len() implies t1[i] != '\n' by {
            assert(t1[i] == t[i + 1]);
        }
        assert(s.skip(1) =~= t1 + seq!['\n'] + u);
        lemma_line_runs_to_newline(t1, u);
    }
}

/// A line comment runs to the end of its line and keeps the line break:
/// text that starts with one strips as a line break and the next line do.
pub proof fn law_line_comment_runs_to_newline(t: Seq<char>, u: Seq<char>)
    requires
        forall|i: int| 0 <= i < t.len() ==> t[i] != '\n',
        stripped(u) is Some,
    ensures
        stripped(seq!['/', '/'] + t + seq!['\n'] + u) == Some(seq!['\n'] + stripped(u).unwrap()),
{
    let s = seq!['/', '/'] + t + seq!['\n'] + u;
    assert(s[0] == '/' && s[1] == '/');
    assert(s.skip(2) =~= t + seq!['\n'] + u);
    lemma_line_runs_to_newline(t, u);
}

proof fn lemma_string_kept(t: Seq<char>, u: Seq<char>)
    requires
        forall|i: int| 0 <= i < t.len() ==> t[i] != '"' && t[i] != '\\',
    ensures
        scan(Lex::Str, t + seq!['"'] + u) == (t + seq!['"'] + scan(Lex::Code, u).0, scan(Lex::Code, u).1),
    decreases t.len(),
{
    let s = t + seq!['"'] + u;
    if t.len() == 0 {
        assert(s[0] == '"');
        assert(s.skip(1) =~= u);
        assert(t + seq!['"'] + scan(Lex::Code, u).0 =~= seq!['"'] + scan(Lex::Code, u).0);
    } else {
        assert(s[0] == t[0]);
        let t1 = t.drop_first();
        assert forall|i: int| 0 <= i < t1.len() implies t1[i] != '"' && t1[i] != '\\' by {
            assert(t1[i] == t[i + 1]);
        }
        assert(s.skip(1) =~= t1 + seq!['"'] + u);
        lemma_string_kept(t1, u);
        assert(seq![t[0]] + (t1 + seq!['"'] + scan(Lex::Code, u).0) =~= t + seq!['"'] + scan(Lex::Code, u).0);
    }
}

/// A string literal is kept as it is, comment markers in it included: text
/// that starts with one strips as that literal followed by the rest stripped.
pub proof fn law_string_literal_kept(t: Seq<char>, u: Seq<char>)
    requires
        forall|i: int| 0 <= i < t.len() ==> t[i] != '"' && t[i] != '\\',
        stripped(u) is Some,
    ensures
        stripped(seq!['"'] + t + seq!['"'] + u) == Some(seq!['"'] + t + seq!['"'] + stripped(u).unwrap()),
{
    let s = seq!['"'] + t + seq!['"'] + u;
    assert(s[0] == '"');
    assert(s.skip(1) =~= t + seq!['"'] + u);
    lemma_string_kept(t, u);
    assert(seq!['"'] + (t + seq!['"'] + scan(Lex::Code, u).0) =~= seq!['"'] + t + seq!['"'] + scan(Lex::Code, u).0);
}

} // verus!
