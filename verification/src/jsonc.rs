//! JSON with comments, the format of editor configuration files.

use crate::json::{json_of, parse_value, parsed};
use crate::text::{chars_of, string_of};
use serde_json::Value;
use vstd::prelude::*;

verus! {

/// What a character of a configuration file is part of.
#[derive(Clone, Copy)]
pub enum Mode {
    Code,
    Quoted,
    Escaped,
    LineComment,
    BlockComment,
}

/// What is left of a text that is read from `mode` on, without its comments.
/// A line comment ends before its line feed; a block comment leaves a space.
pub open spec fn stripped(s: Seq<char>, mode: Mode) -> Seq<char>
    decreases s.len(),
{
    if s.len() == 0 {
        seq![]
    } else {
        let c = s[0];
        match mode {
            Mode::Code => if c == '/' && s.len() > 1 && s[1] == '/' {
                stripped(s.skip(2), Mode::LineComment)
            } else if c == '/' && s.len() > 1 && s[1] == '*' {
                seq![' '] + stripped(s.skip(2), Mode::BlockComment)
            } else if c == '"' {
                seq![c] + stripped(s.skip(1), Mode::Quoted)
            } else {
                seq![c] + stripped(s.skip(1), Mode::Code)
            },
            Mode::Quoted => if c == '\\' {
                seq![c] + stripped(s.skip(1), Mode::Escaped)
            } else if c == '"' {
                seq![c] + stripped(s.skip(1), Mode::Code)
            } else {
                seq![c] + stripped(s.skip(1), Mode::Quoted)
            },
            Mode::Escaped => seq![c] + stripped(s.skip(1), Mode::Quoted),
            Mode::LineComment => if c == '\n' {
                seq![c] + stripped(s.skip(1), Mode::Code)
            } else {
                stripped(s.skip(1), Mode::LineComment)
            },
            Mode::BlockComment => if c == '*' && s.len() > 1 && s[1] == '/' {
                stripped(s.skip(2), Mode::Code)
            } else {
                stripped(s.skip(1), Mode::BlockComment)
            },
        }
    }
}

/// A text without its comments.
pub open spec fn without_comments(s: Seq<char>) -> Seq<char> {
    stripped(s, Mode::Code)
}

/// The text without its comments. What stands between quotes is kept as it is.
pub fn strip_comments(text: &str) -> (r: String)
    ensures
        r@ == without_comments(text@),
{
    let cs = chars_of(text);
    let mut out: Vec<char> = Vec::new();
    let mut mode = Mode::Code;
    let mut i: usize = 0;
    assert(text@.skip(0) =~= text@);
    assert(out@ + stripped(text@, mode) =~= stripped(text@, mode));
    while i < cs.len()
        invariant
            i <= cs@.len(),
            cs@ == text@,
            out@ + stripped(text@.skip(i as int), mode) == without_comments(text@),
        decreases cs@.len() - i,
    {
        let c = cs[i];
        let ghost rest = text@.skip(i as int);
        let ghost was = out@;
        let paired = i + 1 < cs.len();
        assert(rest.skip(1) =~= text@.skip(i + 1));
        assert(paired ==> rest.skip(2) =~= text@.skip(i + 2));
        let mut keep: Option<char> = None;
        let mut step: usize = 1;
        match mode {
            Mode::Code => {
                if c == '/' && paired && cs[i + 1] == '/' {
                    mode = Mode::LineComment;
                    step = 2;
                } else if c == '/' && paired && cs[i + 1] == '*' {
                    keep = Some(' ');
                    mode = Mode::BlockComment;
                    step = 2;
                } else {
                    keep = Some(c);
                    if c == '"' {
                        mode = Mode::Quoted;
                    }
                }
            },
            Mode::Quoted => {
                keep = Some(c);
                if c == '\\' {
                    mode = Mode::Escaped;
                } else if c == '"' {
                    mode = Mode::Code;
                }
            },
            Mode::Escaped => {
                keep = Some(c);
                mode = Mode::Quoted;
            },
            Mode::LineComment => {
                if c == '\n' {
                    keep = Some(c);
                    mode = Mode::Code;
                }
            },
            Mode::BlockComment => {
                if c == '*' && paired && cs[i + 1] == '/' {
                    mode = Mode::Code;
                    step = 2;
                }
            },
        }
        if let Some(k) = keep {
            out.push(k);
            assert(out@ + stripped(text@.skip(i + step), mode) =~= was + (seq![k] + stripped(
                text@.skip(i + step),
                mode,
            )));
        }
        i = i + step;
    }
    assert(out@ + stripped(text@.skip(i as int), mode) =~= out@);
    let r = string_of(&out, 0, out.len());
    assert(out@.subrange(0, out@.len() as int) =~= out@);
    r
}

/// Parses JSON with comments; nothing where the text without its comments is no JSON.
pub fn parse_jsonc(text: &str) -> (r: Option<Value>)
    ensures
        match r {
            Some(v) => parsed(without_comments(text@)) == Some(json_of(v)),
            None => parsed(without_comments(text@)) is None,
        },
{
    parse_value(strip_comments(text).as_str())
}

/// A text without a slash has no comments, and stripping leaves it as it is.
pub proof fn text_without_slash_is_kept(s: Seq<char>)
    requires
        !s.contains('/'),
    ensures
        without_comments(s) == s,
{
    lemma_kept(s, Mode::Code);
}

proof fn lemma_kept(s: Seq<char>, mode: Mode)
    requires
        !s.contains('/'),
        mode is Code || mode is Quoted || mode is Escaped,
    ensures
        stripped(s, mode) == s,
    decreases s.len(),
{
    if s.len() > 0 {
        assert(s.contains(s[0]));
        let rest = s.skip(1);
        assert forall|c: char| rest.contains(c) implies s.contains(c) by {
            let i = rest.index_of(c);
            assert(s[i + 1] == c);
        }
        lemma_kept(rest, Mode::Code);
        lemma_kept(rest, Mode::Quoted);
        lemma_kept(rest, Mode::Escaped);
        assert(seq![s[0]] + rest =~= s);
    }
}

} // verus!
