//! What a range picks, part by part and line by line.

use crate::ranges::{
    after_lines, dash_range, numbered, numbers_read_back, opened, padded, range_lines,
    selected, window_lines, window_of,
};
use crate::text::{
    decimal, find_char, is_blank, is_digit, is_number, is_white, lemma_find_char, lines, number,
    split, trim, value_of,
};
use crate::text_laws::{
    splitting_cuts_at_the_separator, splitting_distributes, trimming_takes_the_white_space_around,
};
use vstd::prelude::*;

verus! {

/// A line with its number: spaces up to a width of four, the number, a bar and
/// the line as it is.
pub proof fn a_number_is_set_right_in_four_places(n: nat, line: Seq<char>)
    ensures
        numbered(n as int, line) == Seq::new(
            (if decimal(n).len() < 4 {
                4 - decimal(n).len()
            } else {
                0
            }) as nat,
            |i: int| ' ',
        ) + decimal(n) + "| "@ + line,
{
    lemma_padded(decimal(n), 4);
}

proof fn lemma_padded(s: Seq<char>, width: nat)
    ensures
        padded(s, width) == Seq::new(
            (if s.len() < width {
                width - s.len()
            } else {
                0
            }) as nat,
            |i: int| ' ',
        ) + s,
    decreases width,
{
    if s.len() >= width {
        assert(Seq::new(0, |i: int| ' ') + s =~= s);
    } else {
        lemma_padded(s, (width - 1) as nat);
        let n = (width - s.len()) as nat;
        let fewer = Seq::new((n - 1) as nat, |i: int| ' ');
        let all = Seq::new(n, |i: int| ' ');
        assert(seq![' '] + (fewer + s) =~= all + s);
    }
}

/// Two ranges with a comma between them pick what each picks, one after the other.
pub proof fn a_comma_picks_both(content: Seq<char>, a: Seq<char>, b: Seq<char>)
    ensures
        range_lines(content, a + seq![','] + b) == range_lines(content, a) + range_lines(content, b),
{
    splitting_distributes(a, b, ',');
    lemma_selected(lines(content), split(a, ','), split(b, ','));
}

proof fn lemma_selected(all: Seq<Seq<char>>, a: Seq<Seq<char>>, b: Seq<Seq<char>>)
    ensures
        selected(all, a + b) == selected(all, a) + selected(all, b),
    decreases b.len(),
{
    if b.len() == 0 {
        assert(a + b =~= a);
        assert(selected(all, a) + selected(all, b) =~= selected(all, a));
    } else {
        let front = b.drop_last();
        assert((a + b).drop_last() =~= a + front);
        lemma_selected(all, a, front);
        let last = window_lines(all, window_of(b.last(), all.len()));
        assert(selected(all, a) + selected(all, front) + last =~= selected(all, a) + (selected(
            all,
            front,
        ) + last));
    }
}

/// A range of one part picks the lines of its window, each with its number.
proof fn lemma_one_part(content: Seq<char>, part: Seq<char>)
    requires
        !part.contains(','),
    ensures
        range_lines(content, part) == window_lines(
            lines(content),
            window_of(part, lines(content).len()),
        ),
{
    splitting_cuts_at_the_separator(part, Seq::empty(), ',');
    let all = lines(content);
    let parts = seq![part];
    assert(parts.drop_last() =~= Seq::<Seq<char>>::empty());
    assert(selected(all, parts.drop_last()) =~= Seq::<Seq<char>>::empty());
    assert(selected(all, parts) =~= window_lines(all, window_of(part, all.len())));
}

proof fn lemma_solid(s: Seq<char>)
    requires
        is_number(s),
    ensures
        trim(s) == s,
        !s.contains(','),
        !s.contains('-'),
        find_char(s, '-') == s.len(),
{
    assert(is_digit(s[0]) && is_digit(s[s.len() - 1]));
    assert forall|i: int| 0 <= i < s.len() implies s[i] != ',' && s[i] != '-' by {
        assert(is_digit(s[i]));
    }
    let nothing = Seq::<char>::empty();
    trimming_takes_the_white_space_around(nothing, s, nothing);
    assert(nothing + s + nothing =~= s);
    lemma_find_char(s, '-');
}

/// A single number picks the line with that number, and nothing where there is no
/// such line.
pub proof fn a_number_picks_its_line(content: Seq<char>, n: nat)
    requires
        n <= usize::MAX,
    ensures
        1 <= n <= lines(content).len() ==> range_lines(content, decimal(n)) == seq![
            numbered(n as int, lines(content)[n - 1]),
        ],
        !(1 <= n <= lines(content).len()) ==> range_lines(content, decimal(n)) == Seq::<
            Seq<char>,
        >::empty(),
{
    numbers_read_back(n);
    lemma_solid(decimal(n));
    lemma_one_part(content, decimal(n));
    let all = lines(content);
    let w = window_of(decimal(n), all.len());
    if 1 <= n <= all.len() {
        assert(window_lines(all, w) =~= seq![numbered(n as int, all[n - 1])]);
    } else {
        assert(window_lines(all, w) =~= Seq::<Seq<char>>::empty());
    }
}

/// Two numbers with a dash between them pick the lines from the first number to
/// the second, as far as the text has them: line 0 is read as line 1, and what
/// lies behind the last line is left out.
pub proof fn a_span_picks_what_there_is(content: Seq<char>, a: nat, b: nat)
    requires
        a <= usize::MAX,
        b <= usize::MAX,
    ensures
        ({
            let all = lines(content);
            let from = if a < 1 {
                1int
            } else {
                a as int
            };
            let to = if b < all.len() {
                b as int
            } else {
                all.len() as int
            };
            range_lines(content, decimal(a) + seq!['-'] + decimal(b)) == Seq::new(
                (if from <= to {
                    to - from + 1
                } else {
                    0
                }) as nat,
                |i: int| numbered(from + i, all[from + i - 1]),
            )
        }),
{
    let all = lines(content);
    let da = decimal(a);
    let db = decimal(b);
    let part = da + seq!['-'] + db;
    numbers_read_back(a);
    numbers_read_back(b);
    lemma_solid(da);
    lemma_solid(db);
    let k = da.len() as int;
    assert forall|i: int| 0 <= i < part.len() implies part[i] != ',' && (i < k ==> part[i] != '-') by {
        if i < k {
            assert(is_digit(da[i]));
        } else if i > k {
            assert(part[i] == db[i - k - 1]);
            assert(is_digit(db[i - k - 1]));
        }
    }
    lemma_find_char(part, '-');
    let f = find_char(part, '-');
    assert(part[k] == '-');
    assert(f == k) by {
        if f > k {
            assert(part[k] != '-');
        }
    }
    assert(part[0] == da[0] && is_digit(da[0]));
    assert(part[part.len() - 1] == db[db.len() - 1] && is_digit(db[db.len() - 1]));
    let nothing = Seq::<char>::empty();
    trimming_takes_the_white_space_around(nothing, part, nothing);
    assert(nothing + part + nothing =~= part);
    assert(part.take(k) =~= da);
    assert(part.skip(k + 1) =~= db);
    lemma_one_part(content, part);
    let from = if a < 1 {
        1int
    } else {
        a as int
    };
    let to = if b < all.len() {
        b as int
    } else {
        all.len() as int
    };
    assert(window_lines(all, window_of(part, all.len())) =~= Seq::new(
        (if from <= to {
            to - from + 1
        } else {
            0
        }) as nat,
        |i: int| numbered(from + i, all[from + i - 1]),
    ));
}

/// White space around a part means nothing.
pub proof fn white_space_around_a_part_means_nothing(
    before: Seq<char>,
    part: Seq<char>,
    behind: Seq<char>,
    total: nat,
)
    requires
        is_blank(before),
        is_blank(behind),
        part.len() > 0,
        !is_white(part[0]),
        !is_white(part.last()),
    ensures
        window_of(before + part + behind, total) == window_of(part, total),
{
    trimming_takes_the_white_space_around(before, part, behind);
    let nothing = Seq::<char>::empty();
    trimming_takes_the_white_space_around(nothing, part, nothing);
    assert(nothing + part + nothing =~= part);
}

/// Whatever a part asks for, it picks lines that the text has, and in order.
pub proof fn a_part_picks_lines_of_the_text(part: Seq<char>, total: nat)
    ensures
        ({
            let w = window_of(part, total);
            w.first > w.last || 1 <= w.first <= w.last <= total
        }),
{
}

/// A reader has kept the lines of its window and no others: from the first one,
/// which is line 1 at least, to the last one that it was opened for or has seen.
pub proof fn a_reader_keeps_its_window(ls: Seq<Seq<char>>, start: usize, end: usize)
    ensures
        ({
            let r = after_lines(opened(start, end), ls);
            let from = if start < 1 {
                1int
            } else {
                start as int
            };
            let to = if end < ls.len() {
                end as int
            } else {
                ls.len() as int
            };
            &&& r.seen == ls.len()
            &&& r.start == from
            &&& r.end == end
            &&& r.kept.len() == if from <= to {
                to - from + 1
            } else {
                0
            }
            &&& forall|i: int| 0 <= i < r.kept.len() ==> (#[trigger] r.kept[i]) == ls[from - 1 + i]
        }),
    decreases ls.len(),
{
    if ls.len() > 0 {
        a_reader_keeps_its_window(ls.drop_last(), start, end);
    }
}

/// The form `N-M` is two rows of digits with a dash between them, and the numbers
/// are those that the digits stand for. Nothing else is read.
pub proof fn only_the_dash_form_is_read(range: Seq<char>)
    ensures
        dash_range(range) matches Some((a, b)) ==> exists|x: Seq<char>, y: Seq<char>|
            range == #[trigger] (x + seq!['-'] + y) && is_number(x) && is_number(y) && value_of(x)
                == a && value_of(y) == b,
        !range.contains('-') ==> dash_range(range) is None,
{
    lemma_find_char(range, '-');
    let k = find_char(range, '-');
    if k < range.len() {
        assert(range.contains(range[k]));
        let x = range.take(k);
        let y = range.skip(k + 1);
        assert(range =~= x + seq!['-'] + y);
    }
}

/// Digits are read by their places: a further digit makes ten times the number
/// before it, and its own value more; and leading zeros mean nothing.
pub proof fn digits_count_by_their_places(s: Seq<char>, d: char)
    requires
        is_digit(d),
    ensures
        value_of(s.push(d)) == 10 * value_of(s) + (d as int - '0' as int),
        value_of(seq!['0'] + s) == value_of(s),
        number(Seq::empty()) is None,
    decreases s.len(),
{
    assert(s.push(d).drop_last() =~= s);
    if s.len() > 0 {
        let front = s.drop_last();
        digits_count_by_their_places(front, d);
        assert((seq!['0'] + s).drop_last() =~= seq!['0'] + front);
    } else {
        assert((seq!['0'] + s).drop_last() =~= s);
    }
}

} // verus!
