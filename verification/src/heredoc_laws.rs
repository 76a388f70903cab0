//! What a here-document is, part by part, and that nothing of a command is lost.

use crate::heredoc::{
    Redirect, closes, closing_line, code_ends_at_the_first_closing_line, is_tag, is_tag_char,
    language_of, opening_of, redirect_of, script_in, script_of, unquoted, without_tabs,
};
use crate::text::{
    find_char, is_blank, joined, lemma_find_char, lemma_trim_blank, lines, trim, words,
};
use crate::text_laws::{lines_are_all_of_the_text, lines_end_at_line_feeds};
use vstd::prelude::*;

verus! {

/// So many tabs.
pub open spec fn tabs(n: nat) -> Seq<char> {
    Seq::new(n, |i: int| '\t')
}

/// The closing line is the tag alone. Tabs may stand before it where the document
/// was opened so.
pub proof fn the_tag_alone_closes(tag: Seq<char>, n: nat, ignores_tabs: bool)
    requires
        is_tag(tag),
    ensures
        closes(tabs(n) + tag, (Redirect { tag, ignores_tabs })) <==> n == 0 || ignores_tabs,
{
    assert(is_tag_char(tag[0]));
    lemma_without_tabs(tag, n);
    if n == 0 {
        assert(tabs(n) + tag =~= tag);
    } else {
        assert((tabs(n) + tag).len() != tag.len());
    }
}

proof fn lemma_without_tabs(tag: Seq<char>, n: nat)
    requires
        tag.len() > 0,
        tag[0] != '\t',
    ensures
        without_tabs(tabs(n) + tag) == tag,
    decreases n,
{
    if n == 0 {
        assert(tabs(n) + tag =~= tag);
    } else {
        assert((tabs(n) + tag).skip(1) =~= tabs((n - 1) as nat) + tag);
        lemma_without_tabs(tag, (n - 1) as nat);
    }
}

/// A line that closes a document is its tag behind tabs, and nothing else.
pub proof fn nothing_else_closes(line: Seq<char>, r: Redirect)
    requires
        closes(line, r),
    ensures
        exists|n: nat| line == #[trigger] tabs(n) + r.tag && (n == 0 || r.ignores_tabs),
{
    if line == r.tag {
        assert(tabs(0) + r.tag =~= line);
    } else {
        let n = lemma_tabs_before(line);
        assert(line == tabs(n) + r.tag);
    }
}

proof fn lemma_tabs_before(line: Seq<char>) -> (n: nat)
    ensures
        line == tabs(n) + without_tabs(line),
    decreases line.len(),
{
    if line.len() > 0 && line[0] == '\t' {
        let m = lemma_tabs_before(line.skip(1));
        assert(line =~= seq!['\t'] + line.skip(1));
        assert(tabs(m + 1) =~= seq!['\t'] + tabs(m));
        assert(line =~= tabs(m + 1) + without_tabs(line));
        m + 1
    } else {
        assert(tabs(0) + line =~= line);
        0
    }
}

/// The document ends at the first line that closes it. The lines before that one
/// are the code, all of them in order; the lines behind it are the rest of the
/// command, all of them in order, up to the white space around them; and there is
/// no rest exactly where they are white space alone.
pub proof fn the_closing_line_parts_code_from_rest(
    code: Seq<Seq<char>>,
    closing: Seq<char>,
    rest: Seq<Seq<char>>,
    language: Seq<char>,
    r: Redirect,
)
    requires
        forall|i: int| 0 <= i < code.len() ==> !closes(#[trigger] code[i], r),
        closes(closing, r),
    ensures
        script_in(code + seq![closing] + rest, language, r) matches Some(s) && {
            &&& s.language == language
            &&& s.code == joined(code, "\n"@)
            &&& s.rest == (if is_blank(joined(rest, "\n"@)) {
                None
            } else {
                Some(trim(joined(rest, "\n"@)))
            })
        },
{
    let ls = code + seq![closing] + rest;
    let n = code.len() as int;
    code_ends_at_the_first_closing_line(ls, r);
    let end = closing_line(ls, r);
    assert(ls[n] == closing);
    if end < n {
        assert(closes(ls[end], r));
        assert(ls[end] == code[end]);
    }
    if end > n {
        assert(!closes(ls[n], r));
    }
    assert(ls.take(n) =~= code);
    assert(ls.skip(n + 1) =~= rest);
    lemma_trim_blank(joined(rest, "\n"@));
}

/// Lines as they stand in a text, each with its line feed.
pub open spec fn written(ls: Seq<Seq<char>>) -> Seq<char>
    decreases ls.len(),
{
    if ls.len() == 0 {
        seq![]
    } else {
        ls[0] + seq!['\n'] + written(ls.skip(1))
    }
}

/// A line of its own: no line feed in it and no carriage return at its end.
pub open spec fn is_line(l: Seq<char>) -> bool {
    !l.contains('\n') && (l.len() > 0 ==> l.last() != '\r')
}

proof fn lemma_written(ls: Seq<Seq<char>>, rest: Seq<char>)
    requires
        forall|i: int| 0 <= i < ls.len() ==> is_line(#[trigger] ls[i]),
    ensures
        lines(written(ls) + rest) == ls + lines(rest),
    decreases ls.len(),
{
    if ls.len() == 0 {
        assert(written(ls) + rest =~= rest);
        assert(ls + lines(rest) =~= lines(rest));
    } else {
        let more = ls.skip(1);
        assert(is_line(ls[0]));
        assert forall|i: int| 0 <= i < more.len() implies is_line(#[trigger] more[i]) by {
            assert(is_line(ls[i + 1]));
        }
        lemma_written(more, rest);
        assert(written(ls) + rest =~= ls[0] + seq!['\n'] + (written(more) + rest));
        lines_end_at_line_feeds(ls[0], written(more) + rest);
        assert(seq![ls[0]] + (more + lines(rest)) =~= ls + lines(rest));
    }
}

/// A command that is a first line which opens a document, lines of code, a closing
/// line and further text is taken apart into just these: the code line by line,
/// and all of the further text but for the white space around it.
pub proof fn a_here_document_is_taken_apart(
    first: Seq<char>,
    language: Seq<char>,
    r: Redirect,
    code: Seq<Seq<char>>,
    closing: Seq<char>,
    rest: Seq<char>,
)
    requires
        !first.contains('\n'),
        opening_of(first) == Some((language, r)),
        forall|i: int|
            0 <= i < code.len() ==> is_line(#[trigger] code[i]) && !closes(code[i], r),
        is_line(closing),
        closes(closing, r),
        !rest.contains('\r'),
    ensures
        script_of(first + seq!['\n'] + written(code) + closing + seq!['\n'] + rest) matches Some(s) && {
            &&& s.language == language
            &&& s.code == joined(code, "\n"@)
            &&& s.rest == (if is_blank(rest) {
                None
            } else {
                Some(trim(rest))
            })
        },
{
    let body = written(code) + (closing + seq!['\n'] + rest);
    let command = first + seq!['\n'] + written(code) + closing + seq!['\n'] + rest;
    assert(command =~= first + seq!['\n'] + body);
    lemma_first_line(first, body);
    lemma_written(code, closing + seq!['\n'] + rest);
    lines_end_at_line_feeds(closing, rest);
    assert(lines(body) =~= code + seq![closing] + lines(rest));
    the_closing_line_parts_code_from_rest(code, closing, lines(rest), language, r);
    reveal_strlit("\n");
    assert("\n"@ =~= seq!['\n']);
    lines_are_all_of_the_text(rest);
    lemma_trim_blank(rest);
    lemma_trim_blank(joined(lines(rest), "\n"@));
}

proof fn lemma_first_line(first: Seq<char>, body: Seq<char>)
    requires
        !first.contains('\n'),
    ensures
        ({
            let command = first + seq!['\n'] + body;
            let at = find_char(command, '\n');
            &&& at == first.len()
            &&& command.take(at) == first
            &&& command.skip(at + 1) == body
        }),
{
    let command = first + seq!['\n'] + body;
    lemma_find_char(command, '\n');
    let at = find_char(command, '\n');
    let n = first.len() as int;
    assert(command[n] == '\n');
    if at < n {
        assert(first.contains(first[at]));
    }
    if at > n {
        assert(command[n] != '\n');
    }
    assert(command.take(n) =~= first);
    assert(command.skip(n + 1) =~= body);
}

/// A command of one line is no script, and neither is one whose first line opens
/// no document.
pub proof fn a_script_needs_an_opening(first: Seq<char>, body: Seq<char>)
    requires
        !first.contains('\n'),
    ensures
        script_of(first) is None,
        opening_of(first) is None ==> script_of(first + seq!['\n'] + body) is None,
{
    lemma_first_line(first, body);
    lemma_find_char(first, '\n');
    if find_char(first, '\n') < first.len() {
        assert(first.contains(first[find_char(first, '\n')]));
    }
}

/// The interpreter runs the language.
pub open spec fn runs(interpreter: Seq<char>, language: Seq<char>) -> bool {
    ||| interpreter == "python3"@ && language == "python"@
    ||| interpreter == "python"@ && language == "python"@
    ||| interpreter == "ruby"@ && language == "ruby"@
}

/// The ways to write a tag: bare, or between two quotes of one kind.
pub open spec fn is_written_tag(w: Seq<char>, tag: Seq<char>) -> bool {
    ||| w == tag
    ||| w == seq!['\''] + tag + seq!['\'']
    ||| w == seq!['"'] + tag + seq!['"']
}

/// The ways to open a document with a tag: the sign and the tag in one word, or in
/// two words.
pub open spec fn is_redirect(ws: Seq<Seq<char>>, w: Seq<char>, ignores_tabs: bool) -> bool {
    let sign = if ignores_tabs {
        seq!['<', '<', '-']
    } else {
        seq!['<', '<']
    };
    ws == seq![sign + w] || ws == seq![sign, w]
}

proof fn lemma_unquoted(w: Seq<char>, tag: Seq<char>)
    requires
        is_tag(tag),
        is_written_tag(w, tag),
    ensures
        unquoted(w) == tag,
        w.len() > 0,
        w[0] != '-',
        w[0] != '<',
{
    assert(is_tag_char(tag[0]));
    if w != tag {
        assert(w.subrange(1, w.len() - 1) =~= tag);
    }
}

proof fn lemma_redirect(ws: Seq<Seq<char>>, w: Seq<char>, ignores_tabs: bool)
    requires
        w.len() > 0,
        w[0] != '-',
        is_redirect(ws, w, ignores_tabs),
    ensures
        redirect_of(ws) == Some((Redirect { tag: w, ignores_tabs })),
        ws.len() > 0,
        ws[0].len() > 1,
        ws[0][0] == '<',
{
    let sign = if ignores_tabs {
        seq!['<', '<', '-']
    } else {
        seq!['<', '<']
    };
    let one = seq![sign + w];
    let two = seq![sign, w];
    if ws == one {
        assert((sign + w).skip(sign.len() as int) =~= w);
        assert(ignores_tabs ==> (sign + w)[2] == '-');
        assert(!ignores_tabs ==> (sign + w)[2] == w[0]);
    } else {
        assert(sign.skip(sign.len() as int) =~= Seq::<char>::empty());
    }
}

/// A first line opens a document where its words are an interpreter, a `-` or
/// not, and the sign with the tag, in whatever way the tag is written.
pub proof fn an_interpreter_and_a_tag_open_a_document(
    line: Seq<char>,
    interpreter: Seq<char>,
    language: Seq<char>,
    reads_stdin: bool,
    redirect: Seq<Seq<char>>,
    w: Seq<char>,
    tag: Seq<char>,
    ignores_tabs: bool,
)
    requires
        runs(interpreter, language),
        is_tag(tag),
        is_written_tag(w, tag),
        is_redirect(redirect, w, ignores_tabs),
        words(line) == seq![interpreter] + (if reads_stdin {
            seq!["-"@]
        } else {
            Seq::empty()
        }) + redirect,
    ensures
        opening_of(line) == Some((language, Redirect { tag, ignores_tabs })),
{
    let ws = words(line);
    lemma_unquoted(w, tag);
    lemma_redirect(redirect, w, ignores_tabs);
    lemma_languages();
    reveal_strlit("-");
    assert("-"@.len() == 1);
    if reads_stdin {
        assert(ws[1] == "-"@);
        assert(ws.skip(2) =~= redirect);
    } else {
        assert(ws[1] == redirect[0]);
        assert(ws.skip(1) =~= redirect);
    }
}

proof fn lemma_languages()
    ensures
        language_of("python3"@) == Some("python"@),
        language_of("python"@) == Some("python"@),
        language_of("ruby"@) == Some("ruby"@),
{
    reveal_strlit("python3");
    reveal_strlit("python");
    reveal_strlit("ruby");
    assert("python3"@.len() == 7);
    assert("python"@.len() == 6);
    assert("ruby"@.len() == 4);
}

/// Nothing else does: of a line that opens a document, the first word is an
/// interpreter of the language, the last is the sign with the tag or the tag, and
/// between them stand at most a `-` and the sign. So no other command stands
/// before the document or behind it.
pub proof fn nothing_else_opens_a_document(line: Seq<char>)
    ensures
        opening_of(line) matches Some((language, r)) ==> {
            let ws = words(line);
            &&& ws.len() >= 2
            &&& runs(ws[0], language)
            &&& is_tag(r.tag)
            &&& exists|redirect: Seq<Seq<char>>, w: Seq<char>| #[trigger]
                is_redirect(redirect, w, r.ignores_tabs) && is_written_tag(w, r.tag) && (ws == seq![
                    ws[0],
                ] + redirect || ws == seq![ws[0], "-"@] + redirect)
        },
{
    if let Some((language, r)) = opening_of(line) {
        let ws = words(line);
        let rest = if ws.len() > 1 && ws[1] == "-"@ {
            ws.skip(2)
        } else {
            ws.skip(1)
        };
        let raw = redirect_of(rest)->0;
        let sign = if raw.ignores_tabs {
            seq!['<', '<', '-']
        } else {
            seq!['<', '<']
        };
        if rest.len() == 1 {
            assert(rest[0] =~= sign + raw.tag);
            assert(rest =~= seq![sign + raw.tag]);
        } else {
            assert(rest[0] =~= sign);
            assert(rest =~= seq![sign, raw.tag]);
        }
        assert(is_redirect(rest, raw.tag, raw.ignores_tabs));
        let w = raw.tag;
        if unquoted(w) != w {
            assert(w =~= seq![w[0]] + unquoted(w) + seq![w[0]]);
        }
        assert(is_written_tag(w, r.tag));
        if ws.len() > 1 && ws[1] == "-"@ {
            assert(ws =~= seq![ws[0], "-"@] + rest);
        } else {
            assert(ws =~= seq![ws[0]] + rest);
        }
        assert(rest.len() > 0);
        assert(runs(ws[0], language));
        assert(is_tag(r.tag));
        assert(is_redirect(rest, w, r.ignores_tabs));
    }
}

} // verus!
