//! What stripping comments keeps and what it takes away.

use crate::jsonc::{Mode, stripped, without_comments};
use vstd::prelude::*;

verus! {

/// What may stand between the quotes of a JSON string: any characters but a quote
/// and a backslash, and pairs of a backslash and any character behind it.
pub open spec fn is_string_body(b: Seq<char>) -> bool
    decreases b.len(),
{
    if b.len() == 0 {
        true
    } else if b[0] == '\\' {
        b.len() >= 2 && is_string_body(b.skip(2))
    } else {
        b[0] != '"' && is_string_body(b.skip(1))
    }
}

/// A JSON string with its quotes.
pub open spec fn quoted(b: Seq<char>) -> Seq<char> {
    seq!['"'] + b + seq!['"']
}

proof fn lemma_body(b: Seq<char>, rest: Seq<char>)
    requires
        is_string_body(b),
    ensures
        stripped(b + seq!['"'] + rest, Mode::Quoted) == b + seq!['"'] + stripped(rest, Mode::Code),
    decreases b.len(),
{
    let s = b + seq!['"'] + rest;
    let t = b + seq!['"'] + stripped(rest, Mode::Code);
    if b.len() == 0 {
        assert(s.skip(1) =~= rest);
        assert(seq!['"'] + stripped(rest, Mode::Code) =~= t);
    } else if b[0] == '\\' {
        let more = b.skip(2);
        lemma_body(more, rest);
        assert(s.skip(1).skip(1) =~= more + seq!['"'] + rest);
        assert(s.skip(1)[0] == b[1]);
        assert(stripped(s.skip(1), Mode::Escaped) == seq![b[1]] + stripped(
            s.skip(1).skip(1),
            Mode::Quoted,
        ));
        assert(seq![b[0]] + (seq![b[1]] + (more + seq!['"'] + stripped(rest, Mode::Code))) =~= t);
    } else {
        let more = b.skip(1);
        lemma_body(more, rest);
        assert(s.skip(1) =~= more + seq!['"'] + rest);
        assert(seq![b[0]] + (more + seq!['"'] + stripped(rest, Mode::Code)) =~= t);
    }
}

/// A string is kept as it is, whatever stands between its quotes, and what comes
/// behind it is read as if the string were not there.
pub proof fn a_string_is_kept(b: Seq<char>, rest: Seq<char>)
    requires
        is_string_body(b),
    ensures
        without_comments(quoted(b) + rest) == quoted(b) + without_comments(rest),
{
    let s = quoted(b) + rest;
    lemma_body(b, rest);
    assert(s.skip(1) =~= b + seq!['"'] + rest);
    assert(seq!['"'] + (b + seq!['"'] + stripped(rest, Mode::Code)) =~= quoted(b)
        + without_comments(rest));
}

proof fn lemma_open_body(b: Seq<char>)
    requires
        is_string_body(b),
    ensures
        stripped(b, Mode::Quoted) == b,
        stripped(b.push('\\'), Mode::Quoted) == b.push('\\'),
    decreases b.len(),
{
    let cut = b.push('\\');
    if b.len() == 0 {
        assert(cut =~= seq!['\\']);
        assert(cut.skip(1) =~= Seq::<char>::empty());
        assert(stripped(cut.skip(1), Mode::Escaped) =~= Seq::<char>::empty());
        assert(stripped(cut, Mode::Quoted) =~= cut);
    } else if b[0] == '\\' {
        let more = b.skip(2);
        lemma_open_body(more);
        assert(b.skip(1).skip(1) =~= more);
        assert(cut.skip(1).skip(1) =~= more.push('\\'));
        assert(stripped(b.skip(1), Mode::Escaped) == seq![b[1]] + stripped(
            b.skip(1).skip(1),
            Mode::Quoted,
        ));
        assert(stripped(cut.skip(1), Mode::Escaped) == seq![b[1]] + stripped(
            cut.skip(1).skip(1),
            Mode::Quoted,
        ));
        assert(seq![b[0]] + (seq![b[1]] + more) =~= b);
        assert(seq![b[0]] + (seq![b[1]] + more.push('\\')) =~= cut);
    } else {
        let more = b.skip(1);
        lemma_open_body(more);
        assert(cut.skip(1) =~= more.push('\\'));
        assert(seq![b[0]] + more =~= b);
        assert(seq![b[0]] + more.push('\\') =~= cut);
    }
}

/// A string that is never closed is kept up to the end.
pub proof fn an_open_string_is_kept(b: Seq<char>)
    requires
        is_string_body(b),
    ensures
        without_comments(seq!['"'] + b) == seq!['"'] + b,
        without_comments(seq!['"'] + b.push('\\')) == seq!['"'] + b.push('\\'),
{
    lemma_open_body(b);
    assert((seq!['"'] + b).skip(1) =~= b);
    assert((seq!['"'] + b.push('\\')).skip(1) =~= b.push('\\'));
}

/// The text starts with a comment.
pub open spec fn opens_comment(s: Seq<char>) -> bool {
    s.len() >= 2 && s[0] == '/' && (s[1] == '/' || s[1] == '*')
}

/// Outside of strings and comments, a character is kept that opens neither.
pub proof fn a_character_is_kept(c: char, rest: Seq<char>)
    requires
        c != '"',
        !opens_comment(seq![c] + rest),
    ensures
        without_comments(seq![c] + rest) == seq![c] + without_comments(rest),
        without_comments(Seq::empty()) == Seq::<char>::empty(),
{
    let s = seq![c] + rest;
    assert(s.skip(1) =~= rest);
    assert(rest.len() > 0 ==> s[1] == rest[0]);
}

proof fn lemma_line(body: Seq<char>, rest: Seq<char>)
    requires
        !body.contains('\n'),
    ensures
        stripped(body + seq!['\n'] + rest, Mode::LineComment) == seq!['\n'] + stripped(
            rest,
            Mode::Code,
        ),
        stripped(body, Mode::LineComment) == Seq::<char>::empty(),
    decreases body.len(),
{
    let s = body + seq!['\n'] + rest;
    if body.len() == 0 {
        assert(s.skip(1) =~= rest);
    } else {
        let more = body.skip(1);
        assert(body.contains(body[0]));
        assert forall|c: char| more.contains(c) implies body.contains(c) by {
            let i = more.index_of(c);
            assert(body[i + 1] == c);
        }
        lemma_line(more, rest);
        assert(s.skip(1) =~= more + seq!['\n'] + rest);
    }
}

/// A line comment goes, up to its line feed, which stays; one on the last line
/// goes up to the end.
pub proof fn a_line_comment_goes(body: Seq<char>, rest: Seq<char>)
    requires
        !body.contains('\n'),
    ensures
        without_comments(seq!['/', '/'] + body + seq!['\n'] + rest) == seq!['\n']
            + without_comments(rest),
        without_comments(seq!['/', '/'] + body) == Seq::<char>::empty(),
{
    lemma_line(body, rest);
    let s = seq!['/', '/'] + body + seq!['\n'] + rest;
    assert(s.skip(2) =~= body + seq!['\n'] + rest);
    assert((seq!['/', '/'] + body).skip(2) =~= body);
}

/// Nothing in the text closes a block comment.
pub open spec fn closes_nothing(body: Seq<char>) -> bool {
    forall|i: int| 0 <= i < body.len() - 1 && body[i] == '*' ==> #[trigger] body[i + 1] != '/'
}

proof fn lemma_block(body: Seq<char>, rest: Seq<char>)
    requires
        closes_nothing(body),
    ensures
        stripped(body + seq!['*', '/'] + rest, Mode::BlockComment) == stripped(rest, Mode::Code),
        stripped(body, Mode::BlockComment) == Seq::<char>::empty(),
    decreases body.len(),
{
    let s = body + seq!['*', '/'] + rest;
    if body.len() == 0 {
        assert(s.skip(2) =~= rest);
    } else {
        let more = body.skip(1);
        assert forall|i: int| 0 <= i < more.len() - 1 && more[i] == '*' implies #[trigger] more[i
            + 1] != '/' by {
            assert(body[i + 1] == more[i]);
            assert(body[(i + 1) + 1] == more[i + 1]);
        }
        lemma_block(more, rest);
        assert(s.skip(1) =~= more + seq!['*', '/'] + rest);
        assert(body.len() > 1 ==> s[1] == body[0int + 1]);
        assert(body.len() == 1 ==> s[1] == '*');
    }
}

/// A block comment leaves a space, up to the first `*/` behind its start; one that
/// is never closed goes up to the end.
pub proof fn a_block_comment_goes(body: Seq<char>, rest: Seq<char>)
    requires
        closes_nothing(body),
    ensures
        without_comments(seq!['/', '*'] + body + seq!['*', '/'] + rest) == seq![' ']
            + without_comments(rest),
        without_comments(seq!['/', '*'] + body) == seq![' '],
{
    lemma_block(body, rest);
    let s = seq!['/', '*'] + body + seq!['*', '/'] + rest;
    assert(s.skip(2) =~= body + seq!['*', '/'] + rest);
    assert((seq!['/', '*'] + body).skip(2) =~= body);
    assert(without_comments(seq!['/', '*'] + body) =~= seq![' ']);
}

/// No comment stands in the text outside of its strings: it is a row of strings
/// and of characters that open neither a string nor a comment.
pub open spec fn is_comment_free(s: Seq<char>) -> bool
    decreases s.len(),
{
    if s.len() == 0 {
        true
    } else if s[0] == '"' {
        exists|n: int|
            1 <= n < s.len() && (#[trigger] s[n]) == '"' && is_string_body(s.subrange(1, n))
                && is_comment_free(s.skip(n + 1))
    } else {
        !opens_comment(s) && is_comment_free(s.skip(1))
    }
}

/// A text without comments outside of its strings stays as it is. So does every
/// text that is JSON as it stands.
pub proof fn a_text_without_comments_is_kept(s: Seq<char>)
    requires
        is_comment_free(s),
    ensures
        without_comments(s) == s,
    decreases s.len(),
{
    if s.len() == 0 {
    } else if s[0] == '"' {
        let n = choose|n: int|
            1 <= n < s.len() && (#[trigger] s[n]) == '"' && is_string_body(s.subrange(1, n))
                && is_comment_free(s.skip(n + 1));
        let b = s.subrange(1, n);
        let rest = s.skip(n + 1);
        a_text_without_comments_is_kept(rest);
        a_string_is_kept(b, rest);
        assert(s =~= quoted(b) + rest);
    } else {
        let rest = s.skip(1);
        assert(s =~= seq![s[0]] + rest);
        a_text_without_comments_is_kept(rest);
        a_character_is_kept(s[0], rest);
    }
}

} // verus!
