//! How the parts of a text relate to the whole.

use crate::text::{
    chomp, find_char, is_blank, is_white, joined, lemma_find_char, lines, occurs, occurs_at, split,
    trim, trim_end, trim_start, word_len, words,
};
use vstd::prelude::*;

verus! {

// ---------------------------------------------------------------------------
// White space
// ---------------------------------------------------------------------------

/// White space before a text and behind it goes, and what stands between stays,
/// where that starts and ends with something else.
pub proof fn trimming_takes_the_white_space_around(
    before: Seq<char>,
    core: Seq<char>,
    behind: Seq<char>,
)
    requires
        is_blank(before),
        is_blank(behind),
        core.len() > 0,
        !is_white(core[0]),
        !is_white(core.last()),
    ensures
        trim(before + core + behind) == core,
{
    lemma_trim_start_skips(before, core + behind);
    assert(before + core + behind =~= before + (core + behind));
    lemma_trim_end_skips(core, behind);
}

/// A text of white space alone goes.
pub proof fn trimming_takes_a_blank_text(s: Seq<char>)
    requires
        is_blank(s),
    ensures
        trim(s) == Seq::<char>::empty(),
{
    lemma_trim_start_blank(s);
}

proof fn lemma_trim_start_blank(s: Seq<char>)
    requires
        is_blank(s),
    ensures
        trim_start(s) == Seq::<char>::empty(),
    decreases s.len(),
{
    if s.len() > 0 {
        assert(is_white(s[0]));
        assert forall|i: int| 0 <= i < s.skip(1).len() implies is_white(#[trigger] s.skip(1)[i]) by {
            assert(is_white(s[i + 1]));
        }
        lemma_trim_start_blank(s.skip(1));
    }
}

proof fn lemma_trim_start_skips(before: Seq<char>, rest: Seq<char>)
    requires
        is_blank(before),
        rest.len() > 0,
        !is_white(rest[0]),
    ensures
        trim_start(before + rest) == rest,
    decreases before.len(),
{
    if before.len() == 0 {
        assert(before + rest =~= rest);
    } else {
        let more = before.skip(1);
        assert(is_white(before[0]));
        assert forall|i: int| 0 <= i < more.len() implies is_white(#[trigger] more[i]) by {
            assert(is_white(before[i + 1]));
        }
        assert((before + rest).skip(1) =~= more + rest);
        lemma_trim_start_skips(more, rest);
    }
}

proof fn lemma_trim_end_skips(rest: Seq<char>, behind: Seq<char>)
    requires
        is_blank(behind),
        rest.len() > 0,
        !is_white(rest.last()),
    ensures
        trim_end(rest + behind) == rest,
    decreases behind.len(),
{
    if behind.len() == 0 {
        assert(rest + behind =~= rest);
    } else {
        let more = behind.drop_last();
        assert(is_white(behind[behind.len() - 1]));
        assert forall|i: int| 0 <= i < more.len() implies is_white(#[trigger] more[i]) by {
            assert(is_white(behind[i]));
        }
        assert((rest + behind).drop_last() =~= rest + more);
        lemma_trim_end_skips(rest, more);
    }
}

/// One more white space at the end makes no difference to the trimmed text.
pub proof fn trailing_white_space_makes_no_difference(s: Seq<char>, c: char)
    requires
        is_white(c),
    ensures
        trim(s.push(c)) == trim(s),
    decreases s.len(),
{
    if s.len() == 0 {
        assert(is_blank(s.push(c)));
        trimming_takes_a_blank_text(s.push(c));
        trimming_takes_a_blank_text(s);
    } else if is_white(s[0]) {
        assert(s.push(c).skip(1) =~= s.skip(1).push(c));
        trailing_white_space_makes_no_difference(s.skip(1), c);
    } else {
        assert(s.push(c).drop_last() =~= s);
    }
}

// ---------------------------------------------------------------------------
// Joining
// ---------------------------------------------------------------------------

/// Joining puts the separator between each two parts: one part is itself, and a
/// further one comes behind the separator.
pub proof fn joining_puts_the_separator_between(
    parts: Seq<Seq<char>>,
    next: Seq<char>,
    sep: Seq<char>,
)
    ensures
        joined(Seq::empty(), sep) == Seq::<char>::empty(),
        joined(seq![next], sep) == next,
        parts.len() > 0 ==> joined(parts.push(next), sep) == joined(parts, sep) + sep + next,
{
    let all = parts.push(next);
    assert(all.take(all.len() - 1) =~= parts);
}

/// The same from the front.
pub proof fn joining_from_the_front(first: Seq<char>, parts: Seq<Seq<char>>, sep: Seq<char>)
    requires
        parts.len() > 0,
    ensures
        joined(seq![first] + parts, sep) == first + sep + joined(parts, sep),
    decreases parts.len(),
{
    let all = seq![first] + parts;
    if parts.len() == 1 {
        assert(all.take(1) =~= seq![first]);
        assert(joined(all.take(1), sep) == first);
        assert(all[1] == parts[0]);
        assert(joined(parts, sep) == parts[0]);
    } else {
        let front = parts.drop_last();
        joining_from_the_front(first, front, sep);
        assert(all.take(all.len() - 1) =~= seq![first] + front);
        assert(parts.take(parts.len() - 1) =~= front);
        assert(first + sep + (joined(front, sep) + sep + parts.last()) =~= first + sep + joined(
            front,
            sep,
        ) + sep + parts.last());
    }
}

// ---------------------------------------------------------------------------
// Splitting
// ---------------------------------------------------------------------------

proof fn lemma_find_there(s: Seq<char>, c: char, k: int)
    requires
        0 <= k < s.len(),
        s[k] == c,
        forall|j: int| 0 <= j < k ==> s[j] != c,
    ensures
        find_char(s, c) == k,
{
    lemma_find_char(s, c);
    let f = find_char(s, c);
    if f < k {
        assert(s[f] != c);
    }
    if f > k {
        assert(s[k] != c);
    }
}

/// A text without the separator is one piece, and a piece before a separator is
/// split off as it is.
pub proof fn splitting_cuts_at_the_separator(piece: Seq<char>, rest: Seq<char>, c: char)
    requires
        !piece.contains(c),
    ensures
        split(piece, c) == seq![piece],
        split(piece + seq![c] + rest, c) == seq![piece] + split(rest, c),
{
    lemma_find_char(piece, c);
    if find_char(piece, c) < piece.len() {
        assert(piece.contains(piece[find_char(piece, c)]));
    }
    let s = piece + seq![c] + rest;
    let n = piece.len() as int;
    assert forall|j: int| 0 <= j < n implies s[j] != c by {
        assert(piece.contains(piece[j]));
    }
    lemma_find_there(s, c, n);
    assert(s.take(n) =~= piece);
    assert(s.skip(n + 1) =~= rest);
}

/// Two texts with a separator between them split into the pieces of both.
pub proof fn splitting_distributes(a: Seq<char>, b: Seq<char>, c: char)
    ensures
        split(a + seq![c] + b, c) == split(a, c) + split(b, c),
    decreases a.len(),
{
    lemma_find_char(a, c);
    let n = find_char(a, c);
    if n == a.len() {
        assert(!a.contains(c));
        splitting_cuts_at_the_separator(a, b, c);
    } else {
        let piece = a.take(n);
        let more = a.skip(n + 1);
        assert(!piece.contains(c)) by {
            if piece.contains(c) {
                let i = piece.index_of(c);
                assert(a[i] != c);
            }
        }
        assert(a =~= piece + seq![c] + more);
        assert(a + seq![c] + b =~= piece + seq![c] + (more + seq![c] + b));
        splitting_cuts_at_the_separator(piece, more, c);
        splitting_cuts_at_the_separator(piece, more + seq![c] + b, c);
        splitting_distributes(more, b, c);
        assert(seq![piece] + (split(more, c) + split(b, c)) =~= seq![piece] + split(more, c) + split(
            b,
            c,
        ));
    }
}

/// A line before a line feed is the first of the lines, without the carriage
/// return at its end; a text without a line feed is one line; the empty text has
/// none.
pub proof fn lines_end_at_line_feeds(line: Seq<char>, rest: Seq<char>)
    requires
        !line.contains('\n'),
    ensures
        lines(line + seq!['\n'] + rest) == seq![chomp(line)] + lines(rest),
        line.len() > 0 ==> lines(line) == seq![line],
        lines(Seq::empty()) == Seq::<Seq<char>>::empty(),
        line.len() > 0 && line.last() == '\r' ==> chomp(line) == line.drop_last(),
        line.len() == 0 || line.last() != '\r' ==> chomp(line) == line,
{
    lemma_find_char(line, '\n');
    if find_char(line, '\n') < line.len() {
        assert(line.contains(line[find_char(line, '\n')]));
    }
    let s = line + seq!['\n'] + rest;
    let n = line.len() as int;
    assert forall|j: int| 0 <= j < n implies s[j] != '\n' by {
        assert(line.contains(line[j]));
    }
    lemma_find_there(s, '\n', n);
    assert(s.take(n) =~= line);
    assert(s.skip(n + 1) =~= rest);
}

/// Nothing of a text without carriage returns is lost by taking it apart into
/// lines: put together again, they are the text, or the text without the line
/// feed at its end.
pub proof fn lines_are_all_of_the_text(s: Seq<char>)
    requires
        !s.contains('\r'),
    ensures
        ({
            let whole = joined(lines(s), seq!['\n']);
            whole == s || whole.push('\n') == s
        }),
        trim(joined(lines(s), seq!['\n'])) == trim(s),
    decreases s.len(),
{
    let sep = seq!['\n'];
    let whole = joined(lines(s), sep);
    lemma_find_char(s, '\n');
    let n = find_char(s, '\n');
    if s.len() == 0 {
        assert(whole =~= s);
    } else if n == s.len() {
        assert(whole == s);
    } else {
        let line = s.take(n);
        let rest = s.skip(n + 1);
        assert(s =~= line + sep + rest);
        assert(!line.contains('\n')) by {
            if line.contains('\n') {
                let i = line.index_of('\n');
                assert(s[i] != '\n');
            }
        }
        assert(!rest.contains('\r')) by {
            if rest.contains('\r') {
                let i = rest.index_of('\r');
                assert(s[n + 1 + i] == '\r');
            }
        }
        assert(line.len() > 0 ==> line.last() != '\r') by {
            if line.len() > 0 {
                assert(s.contains(s[n - 1]));
            }
        }
        lines_end_at_line_feeds(line, rest);
        if rest.len() == 0 {
            assert(lines(s) =~= seq![line]);
            assert(whole == line);
            assert(whole.push('\n') =~= s);
        } else {
            lines_are_all_of_the_text(rest);
            lemma_some_line(rest);
            joining_from_the_front(line, lines(rest), sep);
            let tail = joined(lines(rest), sep);
            if tail == rest {
                assert(whole =~= s);
            } else {
                assert(whole.push('\n') =~= line + sep + tail.push('\n'));
                assert(whole.push('\n') =~= s);
            }
        }
    }
    if whole != s {
        trailing_white_space_makes_no_difference(whole, '\n');
    }
}

proof fn lemma_some_line(s: Seq<char>)
    requires
        s.len() > 0,
    ensures
        lines(s).len() > 0,
{
    lemma_find_char(s, '\n');
}

/// Two texts with a line feed between them have the lines of both, where the first
/// does not itself end with the end of a line.
pub proof fn lines_of_two_texts(a: Seq<char>, b: Seq<char>)
    requires
        a.len() > 0,
        a.last() != '\n',
        a.last() != '\r',
    ensures
        lines(a + seq!['\n'] + b) == lines(a) + lines(b),
    decreases a.len(),
{
    lemma_find_char(a, '\n');
    let n = find_char(a, '\n');
    if n == a.len() {
        assert(!a.contains('\n'));
        lines_end_at_line_feeds(a, b);
    } else {
        let line = a.take(n);
        let more = a.skip(n + 1);
        assert(!line.contains('\n')) by {
            if line.contains('\n') {
                let i = line.index_of('\n');
                assert(a[i] != '\n');
            }
        }
        assert(n < a.len() - 1);
        assert(more.last() == a.last());
        assert(a =~= line + seq!['\n'] + more);
        assert(a + seq!['\n'] + b =~= line + seq!['\n'] + (more + seq!['\n'] + b));
        lines_end_at_line_feeds(line, more);
        lines_end_at_line_feeds(line, more + seq!['\n'] + b);
        lines_of_two_texts(more, b);
        assert(seq![chomp(line)] + (lines(more) + lines(b)) =~= seq![chomp(line)] + lines(more)
            + lines(b));
    }
}

/// White space before a word means nothing, and a word ends at the next white
/// space: it is the first of the words, and the rest is read on its own.
pub proof fn words_end_at_white_space(word: Seq<char>, c: char, rest: Seq<char>)
    requires
        word.len() > 0,
        forall|i: int| 0 <= i < word.len() ==> !is_white(#[trigger] word[i]),
        is_white(c),
    ensures
        words(word + seq![c] + rest) == seq![word] + words(rest),
        words(word) == seq![word],
        words(seq![c] + rest) == words(rest),
        words(Seq::empty()) == Seq::<Seq<char>>::empty(),
{
    let s = word + seq![c] + rest;
    let n = word.len() as int;
    assert(!is_white(word[0]));
    lemma_word_ends(word, seq![c] + rest);
    assert(s =~= word + (seq![c] + rest));
    assert(word_len(s) == n);
    assert(s[0] == word[0]);
    assert(s.take(n) =~= word);
    assert(s.skip(n) =~= seq![c] + rest);
    assert((seq![c] + rest).skip(1) =~= rest);
    assert(words(seq![c] + rest) == words(rest));
    assert(words(s) == seq![s.take(n)] + words(s.skip(n)));
    lemma_word_ends(word, Seq::empty());
    assert(word + Seq::<char>::empty() =~= word);
    assert(word.take(n) =~= word);
    assert(word.skip(n) =~= Seq::<char>::empty());
    assert(words(Seq::empty()) =~= Seq::<Seq<char>>::empty());
    assert(words(word) == seq![word.take(n)] + words(word.skip(n)));
    assert(words(word) =~= seq![word]);
}

proof fn lemma_word_ends(word: Seq<char>, rest: Seq<char>)
    requires
        forall|i: int| 0 <= i < word.len() ==> !is_white(#[trigger] word[i]),
        rest.len() == 0 || is_white(rest[0]),
    ensures
        word_len(word + rest) == word.len(),
    decreases word.len(),
{
    let s = word + rest;
    if word.len() == 0 {
        assert(s =~= rest);
    } else {
        assert(!is_white(word[0]));
        assert forall|i: int| 0 <= i < word.skip(1).len() implies !is_white(
            #[trigger] word.skip(1)[i],
        ) by {
            assert(!is_white(word[i + 1]));
        }
        assert(s.skip(1) =~= word.skip(1) + rest);
        lemma_word_ends(word.skip(1), rest);
    }
}

// ---------------------------------------------------------------------------
// Searching
// ---------------------------------------------------------------------------

/// A pattern stands in a text exactly where the text is something, the pattern,
/// and something else.
pub proof fn a_pattern_stands_between(before: Seq<char>, p: Seq<char>, behind: Seq<char>, s: Seq<char>)
    ensures
        occurs(before + p + behind, p),
        occurs(s, p) ==> exists|b: Seq<char>, e: Seq<char>| s == #[trigger] (b + p + e),
{
    let all = before + p + behind;
    let n = before.len() as int;
    assert(all.subrange(n, n + p.len()) =~= p);
    assert(occurs_at(all, p, n));
    if occurs(s, p) {
        let i = choose|i: int| occurs_at(s, p, i);
        let b = s.take(i);
        let e = s.skip(i + p.len());
        assert(s =~= b + p + e);
    }
}

} // verus!
