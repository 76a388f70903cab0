//! Commands that feed a script to an interpreter by a here-document.

use crate::text::{
    chars_of, find_char, find_from, join_texts, joined, lines, opt_text, same_text, split_lines,
    split_words, string_of, texts, trim, trim_text, words,
};
use vstd::prelude::*;

verus! {

/// The language that an interpreter runs.
pub open spec fn language_of(interpreter: Seq<char>) -> Option<Seq<char>> {
    if interpreter == "python3"@ || interpreter == "python"@ {
        Some("python"@)
    } else if interpreter == "ruby"@ {
        Some("ruby"@)
    } else {
        None
    }
}

/// The redirection that opens a here-document: the tag as it is written, and
/// whether tabs before the closing tag are ignored.
pub struct Redirect {
    pub tag: Seq<char>,
    pub ignores_tabs: bool,
}

/// The redirection that the words are, with nothing before or behind it:
/// `<<TAG`, `<<-TAG`, or the tag as a word of its own.
pub open spec fn redirect_of(ws: Seq<Seq<char>>) -> Option<Redirect> {
    if ws.len() == 0 || ws[0].len() < 2 || ws[0][0] != '<' || ws[0][1] != '<' {
        None
    } else {
        let ignores_tabs = ws[0].len() > 2 && ws[0][2] == '-';
        let tag = ws[0].skip(
            if ignores_tabs {
                3
            } else {
                2
            },
        );
        if tag.len() > 0 && ws.len() == 1 {
            Some(Redirect { tag, ignores_tabs })
        } else if tag.len() == 0 && ws.len() == 2 {
            Some(Redirect { tag: ws[1], ignores_tabs })
        } else {
            None
        }
    }
}

/// A tag without the quotes around it.
pub open spec fn unquoted(tag: Seq<char>) -> Seq<char> {
    if tag.len() >= 2 && (tag[0] == '\'' || tag[0] == '"') && tag.last() == tag[0] {
        tag.subrange(1, tag.len() - 1)
    } else {
        tag
    }
}

/// A character of a tag.
pub open spec fn is_tag_char(c: char) -> bool {
    'a' <= c <= 'z' || 'A' <= c <= 'Z' || '0' <= c <= '9' || c == '_'
}

/// A tag: one or more letters, digits and underscores.
pub open spec fn is_tag(tag: Seq<char>) -> bool {
    tag.len() > 0 && forall|i: int| 0 <= i < tag.len() ==> is_tag_char(#[trigger] tag[i])
}

/// The language and the redirection of a command's first line: an interpreter,
/// perhaps a `-`, and the redirection, and nothing else.
pub open spec fn opening_of(line: Seq<char>) -> Option<(Seq<char>, Redirect)> {
    let ws = words(line);
    if ws.len() == 0 {
        None
    } else {
        let rest = if ws.len() > 1 && ws[1] == "-"@ {
            ws.skip(2)
        } else {
            ws.skip(1)
        };
        match (language_of(ws[0]), redirect_of(rest)) {
            (Some(language), Some(r)) => if is_tag(unquoted(r.tag)) {
                Some((language, Redirect { tag: unquoted(r.tag), ..r }))
            } else {
                None
            },
            _ => None,
        }
    }
}

/// A line without the tabs before it.
pub open spec fn without_tabs(line: Seq<char>) -> Seq<char>
    decreases line.len(),
{
    if line.len() > 0 && line[0] == '\t' {
        without_tabs(line.skip(1))
    } else {
        line
    }
}

/// The line closes the here-document.
pub open spec fn closes(line: Seq<char>, r: Redirect) -> bool {
    line == r.tag || (r.ignores_tabs && without_tabs(line) == r.tag)
}

/// The index of the first line that closes the here-document, or the number of lines.
pub open spec fn closing_line(ls: Seq<Seq<char>>, r: Redirect) -> int
    decreases ls.len(),
{
    if ls.len() == 0 || closes(ls[0], r) {
        0
    } else {
        1 + closing_line(ls.skip(1), r)
    }
}

/// A script: its language, its code, and the command that follows it.
pub struct Script {
    pub language: Seq<char>,
    pub code: Seq<char>,
    pub rest: Option<Seq<char>>,
}

/// The script in the lines behind the first one, where they close it.
pub open spec fn script_in(ls: Seq<Seq<char>>, language: Seq<char>, r: Redirect) -> Option<Script> {
    let end = closing_line(ls, r);
    if end == ls.len() {
        None
    } else {
        let rest = trim(joined(ls.skip(end + 1), "\n"@));
        Some(
            Script {
                language,
                code: joined(ls.take(end), "\n"@),
                rest: if rest.len() > 0 {
                    Some(rest)
                } else {
                    None
                },
            },
        )
    }
}

/// The script that a command feeds to an interpreter, where it does just that.
pub open spec fn script_of(command: Seq<char>) -> Option<Script> {
    let at = find_char(command, '\n');
    if at == command.len() {
        None
    } else {
        match opening_of(command.take(at)) {
            Some((language, r)) => script_in(lines(command.skip(at + 1)), language, r),
            None => None,
        }
    }
}

fn language_for(interpreter: &str) -> (r: Option<&'static str>)
    ensures
        match r {
            Some(l) => language_of(interpreter@) == Some(l@),
            None => language_of(interpreter@) is None,
        },
{
    if same_text(interpreter, "python3") || same_text(interpreter, "python") {
        Some("python")
    } else if same_text(interpreter, "ruby") {
        Some("ruby")
    } else {
        None
    }
}

/// The redirection that the words from `from` on are.
fn read_redirect(ws: &Vec<String>, from: usize) -> (r: Option<(String, bool)>)
    requires
        from <= ws@.len(),
    ensures
        match r {
            Some((tag, tabs)) => redirect_of(texts(ws@).skip(from as int)) == Some(
                Redirect { tag: tag@, ignores_tabs: tabs },
            ),
            None => redirect_of(texts(ws@).skip(from as int)) is None,
        },
{
    let ghost rest = texts(ws@).skip(from as int);
    let n: usize = ws.len() - from;
    assert(rest.len() == n);
    if n == 0 {
        return None;
    }
    assert(rest[0] == ws@[from as int]@);
    let cs = chars_of(ws[from].as_str());
    if cs.len() < 2 || cs[0] != '<' || cs[1] != '<' {
        return None;
    }
    let tabs = cs.len() > 2 && cs[2] == '-';
    let at: usize = if tabs {
        3
    } else {
        2
    };
    let tag = string_of(&cs, at, cs.len());
    assert(tag@ =~= rest[0].skip(at as int));
    if at < cs.len() {
        if n == 1 {
            Some((tag, tabs))
        } else {
            None
        }
    } else if n == 2 {
        assert(rest[1] == ws@[from + 1]@);
        Some((ws[from + 1].clone(), tabs))
    } else {
        None
    }
}

/// The tag without the quotes around it, where what is left is a tag.
fn read_tag(tag: &str) -> (r: Option<String>)
    ensures
        match r {
            Some(t) => t@ == unquoted(tag@) && is_tag(t@),
            None => !is_tag(unquoted(tag@)),
        },
{
    let cs = chars_of(tag);
    let n = cs.len();
    let quoted = n >= 2 && (cs[0] == '\'' || cs[0] == '"') && cs[n - 1] == cs[0];
    let from: usize = if quoted {
        1
    } else {
        0
    };
    let to: usize = if quoted {
        n - 1
    } else {
        n
    };
    let t = string_of(&cs, from, to);
    assert(t@ =~= unquoted(tag@));
    if from == to {
        return None;
    }
    let mut i: usize = from;
    while i < to
        invariant
            from <= i <= to <= cs@.len(),
            t@ == cs@.subrange(from as int, to as int),
            t@ == unquoted(tag@),
            forall|j: int| 0 <= j < i - from ==> is_tag_char(#[trigger] t@[j]),
        decreases to - i,
    {
        let c = cs[i];
        if !(('a' <= c && c <= 'z') || ('A' <= c && c <= 'Z') || ('0' <= c && c <= '9') || c
            == '_') {
            assert(!is_tag_char(t@[i - from]));
            return None;
        }
        i += 1;
    }
    Some(t)
}

/// The language and the redirection of a command's first line.
fn read_opening(line: &str) -> (r: Option<(&'static str, String, bool)>)
    ensures
        match r {
            Some((language, tag, tabs)) => opening_of(line@) == Some(
                (language@, Redirect { tag: tag@, ignores_tabs: tabs }),
            ),
            None => opening_of(line@) is None,
        },
{
    let ws = split_words(line);
    assert(texts(ws@).len() == ws@.len());
    if ws.len() == 0 {
        return None;
    }
    assert(words(line@)[0] == ws@[0]@);
    assert(ws@.len() > 1 ==> words(line@)[1] == ws@[1]@);
    let from: usize = if ws.len() > 1 && same_text(ws[1].as_str(), "-") {
        2
    } else {
        1
    };
    match (language_for(ws[0].as_str()), read_redirect(&ws, from)) {
        (Some(language), Some((raw, tabs))) => match read_tag(raw.as_str()) {
            Some(tag) => Some((language, tag, tabs)),
            None => None,
        },
        _ => None,
    }
}

/// Whether a line closes the here-document.
fn closes_script(line: &str, tag: &str, tabs: bool) -> (r: bool)
    ensures
        r == closes(line@, (Redirect { tag: tag@, ignores_tabs: tabs })),
{
    if same_text(line, tag) {
        return true;
    }
    if !tabs {
        return false;
    }
    let cs = chars_of(line);
    let mut i: usize = 0;
    assert(line@.skip(0) =~= line@);
    while i < cs.len() && cs[i] == '\t'
        invariant
            i <= cs@.len(),
            cs@ == line@,
            without_tabs(line@) == without_tabs(line@.skip(i as int)),
        decreases cs@.len() - i,
    {
        assert(line@.skip(i as int).skip(1) =~= line@.skip(i + 1));
        i += 1;
    }
    let bare = string_of(&cs, i, cs.len());
    assert(bare@ =~= line@.skip(i as int));
    same_text(bare.as_str(), tag)
}

/// The strings from `from` up to, not including, `to`, on lines of their own.
fn join_range(ls: &Vec<String>, from: usize, to: usize) -> (r: String)
    requires
        from <= to <= ls@.len(),
    ensures
        r@ == joined(texts(ls@).subrange(from as int, to as int), "\n"@),
{
    let mut out: Vec<String> = Vec::new();
    let mut i: usize = from;
    assert(texts(out@) =~= texts(ls@).subrange(from as int, from as int));
    while i < to
        invariant
            from <= i <= to <= ls@.len(),
            texts(out@) == texts(ls@).subrange(from as int, i as int),
        decreases to - i,
    {
        let ghost before = texts(out@);
        out.push(ls[i].clone());
        assert(texts(out@) =~= before.push(ls@[i as int]@));
        assert(texts(ls@).subrange(from as int, i + 1) =~= before.push(ls@[i as int]@));
        i += 1;
    }
    join_texts(&out, "\n")
}

/// The index of the first line that closes the here-document, or the number of lines.
fn find_closing(ls: &Vec<String>, tag: &str, tabs: bool) -> (r: usize)
    ensures
        r == closing_line(texts(ls@), (Redirect { tag: tag@, ignores_tabs: tabs })),
        r <= ls@.len(),
{
    let ghost model = texts(ls@);
    let ghost redirect = Redirect { tag: tag@, ignores_tabs: tabs };
    let mut end: usize = 0;
    assert(model.skip(0) =~= model);
    while end < ls.len()
        invariant
            end <= ls@.len(),
            model == texts(ls@),
            redirect == (Redirect { tag: tag@, ignores_tabs: tabs }),
            closing_line(model, redirect) == end + closing_line(model.skip(end as int), redirect),
        decreases ls@.len() - end,
    {
        assert(model.skip(end as int)[0] == ls@[end as int]@);
        if closes_script(ls[end].as_str(), tag, tabs) {
            return end;
        }
        assert(model.skip(end as int).skip(1) =~= model.skip(end + 1));
        end += 1;
    }
    end
}

/// Tells a command that does nothing but feed a script to an interpreter, by a
/// here-document: the language, the code, and the command that follows it.
pub fn detect_heredoc_reroute(command: &str) -> (r: Option<(String, String, Option<String>)>)
    ensures
        match r {
            Some((language, code, rest)) => script_of(command@) == Some(
                Script { language: language@, code: code@, rest: opt_text(rest) },
            ),
            None => script_of(command@) is None,
        },
{
    let cs = chars_of(command);
    let at = find_from(&cs, 0, '\n');
    assert(command@.skip(0) =~= command@);
    if at == cs.len() {
        return None;
    }
    let first = string_of(&cs, 0, at);
    let body = string_of(&cs, at + 1, cs.len());
    assert(first@ =~= command@.take(at as int));
    assert(body@ =~= command@.skip(at + 1));
    match read_opening(first.as_str()) {
        None => None,
        Some((language, tag, tabs)) => read_script(body.as_str(), language, tag.as_str(), tabs),
    }
}

/// The script in the text behind the first line, where it is closed there.
fn read_script(body: &str, language: &'static str, tag: &str, tabs: bool) -> (r: Option<
    (String, String, Option<String>),
>)
    ensures
        match r {
            Some((l, code, rest)) => script_in(
                lines(body@),
                language@,
                Redirect { tag: tag@, ignores_tabs: tabs },
            ) == Some(Script { language: l@, code: code@, rest: opt_text(rest) }),
            None => script_in(
                lines(body@),
                language@,
                Redirect { tag: tag@, ignores_tabs: tabs },
            ) is None,
        },
{
    let ls = split_lines(body);
    let ghost model = lines(body@);
    assert(texts(ls@).len() == ls@.len());
    let end = find_closing(&ls, tag, tabs);
    if end == ls.len() {
        return None;
    }
    let code = join_range(&ls, 0, end);
    let rest = trim_text(join_range(&ls, end + 1, ls.len()).as_str());
    assert(model.subrange(0, end as int) =~= model.take(end as int));
    assert(model.subrange(end + 1, model.len() as int) =~= model.skip(end + 1));
    let rest = if rest.as_str().is_empty() {
        None
    } else {
        Some(rest)
    };
    Some((language.to_owned(), code, rest))
}

/// A here-document ends at the first line that closes it: no line of the code
/// does, and the line behind the code does.
pub proof fn code_ends_at_the_first_closing_line(ls: Seq<Seq<char>>, r: Redirect)
    ensures
        0 <= closing_line(ls, r) <= ls.len(),
        forall|i: int| 0 <= i < closing_line(ls, r) ==> !closes(#[trigger] ls[i], r),
        closing_line(ls, r) < ls.len() ==> closes(ls[closing_line(ls, r)], r),
    decreases ls.len(),
{
    if ls.len() > 0 && !closes(ls[0], r) {
        code_ends_at_the_first_closing_line(ls.skip(1), r);
        assert forall|i: int| 0 <= i < closing_line(ls, r) implies !closes(#[trigger] ls[i], r) by {
            if i > 0 {
                assert(ls.skip(1)[i - 1] == ls[i]);
            }
        }
    }
}

/// A document that is never closed is no script.
pub proof fn an_open_document_is_no_script(
    ls: Seq<Seq<char>>,
    language: Seq<char>,
    r: Redirect,
)
    ensures
        script_in(ls, language, r) is None <==> forall|i: int|
            0 <= i < ls.len() ==> !closes(#[trigger] ls[i], r),
{
    code_ends_at_the_first_closing_line(ls, r);
}

} // verus!
