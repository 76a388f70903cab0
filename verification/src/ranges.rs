//! Windows on the lines of a text.

use crate::text::{
    chars_of, decimal, decimal_text, find_char, find_from, is_digit, is_number, is_white, join_texts,
    joined, lemma_find_char, lines, number, parse_number, split, split_lines, split_text, string_of,
    texts, trim, trim_text, value_of,
};
use vstd::prelude::*;

verus! {

/// A window on the lines of a text: the first and the last line, counted from
/// one. It is empty where the last comes before the first.
pub struct Window {
    pub first: int,
    pub last: int,
}

/// The window without lines.
pub open spec fn no_window() -> Window {
    Window { first: 1, last: 0 }
}

/// The window that one part of a range asks for, on a text with `total` lines:
/// `-N` asks for the last `N`, `N-M` for the lines from `N` to `M`, and `N` for
/// that line. Lines that the text does not have are left out.
pub open spec fn window_of(part: Seq<char>, total: nat) -> Window {
    let p = trim(part);
    let dash = find_char(p, '-');
    if dash == p.len() {
        match number(p) {
            Some(n) => if 1 <= n <= total {
                Window { first: n as int, last: n as int }
            } else {
                no_window()
            },
            None => no_window(),
        }
    } else if dash == 0 {
        match number(p.skip(1)) {
            Some(n) => Window {
                first: if n >= total {
                    1
                } else {
                    total - n + 1
                },
                last: if n == 0 {
                    0
                } else {
                    total as int
                },
            },
            None => no_window(),
        }
    } else {
        match (number(trim(p.take(dash))), number(trim(p.skip(dash + 1)))) {
            (Some(a), Some(b)) => Window {
                first: if a < 1 {
                    1
                } else {
                    a as int
                },
                last: if b < total {
                    b as int
                } else {
                    total as int
                },
            },
            _ => no_window(),
        }
    }
}

/// A text with spaces before it, up to the given width.
pub open spec fn padded(s: Seq<char>, width: nat) -> Seq<char>
    decreases width,
{
    if s.len() >= width {
        s
    } else {
        seq![' '] + padded(s, (width - 1) as nat)
    }
}

/// A line with its number.
pub open spec fn numbered(n: int, line: Seq<char>) -> Seq<char> {
    padded(decimal(n as nat), 4) + "| "@ + line
}

/// The numbered lines of a window.
pub open spec fn window_lines(all: Seq<Seq<char>>, w: Window) -> Seq<Seq<char>> {
    Seq::new(
        if w.first <= w.last {
            (w.last - w.first + 1) as nat
        } else {
            0
        },
        |i: int| numbered(w.first + i, all[w.first + i - 1]),
    )
}

/// The numbered lines that the parts ask for, part by part.
pub open spec fn selected(all: Seq<Seq<char>>, parts: Seq<Seq<char>>) -> Seq<Seq<char>>
    decreases parts.len(),
{
    if parts.len() == 0 {
        seq![]
    } else {
        selected(all, parts.drop_last()) + window_lines(all, window_of(parts.last(), all.len()))
    }
}

/// The numbered lines of a text that a range asks for. The parts of the range
/// are separated by commas.
pub open spec fn range_lines(content: Seq<char>, range: Seq<char>) -> Seq<Seq<char>> {
    selected(lines(content), split(range, ','))
}

/// Where a window stands within the lines of a text.
fn resolve_window(part: &str, total: usize) -> (r: Option<(usize, usize)>)
    ensures
        match r {
            Some((first, last)) => 1 <= first <= last <= total && window_of(part@, total as nat)
                == (Window { first: first as int, last: last as int }),
            None => ({
                let w = window_of(part@, total as nat);
                w.first > w.last
            }),
        },
{
    let p = trim_text(part);
    let cs = chars_of(p.as_str());
    let dash = find_from(&cs, 0, '-');
    assert(p@.skip(0) =~= p@);
    if dash == cs.len() {
        match parse_number(p.as_str()) {
            Some(n) => if 1 <= n && n <= total {
                Some((n, n))
            } else {
                None
            },
            None => None,
        }
    } else if dash == 0 {
        let rest = string_of(&cs, 1, cs.len());
        assert(rest@ =~= p@.skip(1));
        match parse_number(rest.as_str()) {
            Some(n) => if n == 0 || total == 0 {
                None
            } else if n >= total {
                Some((1, total))
            } else {
                Some((total - n + 1, total))
            },
            None => None,
        }
    } else {
        let from = string_of(&cs, 0, dash);
        let to = string_of(&cs, dash + 1, cs.len());
        assert(from@ =~= p@.take(dash as int));
        assert(to@ =~= p@.skip(dash + 1));
        match (
            parse_number(trim_text(from.as_str()).as_str()),
            parse_number(trim_text(to.as_str()).as_str()),
        ) {
            (Some(a), Some(b)) => {
                let first: usize = if a < 1 {
                    1
                } else {
                    a
                };
                let last: usize = if b < total {
                    b
                } else {
                    total
                };
                if first <= last {
                    Some((first, last))
                } else {
                    None
                }
            },
            _ => None,
        }
    }
}

/// The string with spaces before it, up to the given width.
fn pad(s: String, width: usize) -> (r: String)
    ensures
        r@ == padded(s@, width as nat),
    decreases width,
{
    let n = chars_of(s.as_str()).len();
    if n >= width {
        s
    } else {
        let rest = pad(s, width - 1);
        let r = " ".to_owned().concat(rest.as_str());
        proof {
            reveal_strlit(" ");
            assert(" "@ =~= seq![' ']);
        }
        r
    }
}

/// Picks the lines that a range asks for, each with its number. The range is a
/// list of parts with commas between them: `N-M`, `N`, or `-N` for the last `N`.
pub fn extract_line_range(content: &str, range: &str) -> (r: String)
    ensures
        r@ == joined(range_lines(content@, range@), "\n"@),
{
    let all = split_lines(content);
    let parts = split_text(range, ',');
    let mut out: Vec<String> = Vec::new();
    let mut k: usize = 0;
    assert(texts(out@) =~= seq![]);
    while k < parts.len()
        invariant
            k <= parts@.len(),
            texts(out@) == selected(texts(all@), texts(parts@).take(k as int)),
        decreases parts@.len() - k,
    {
        let ghost before = texts(out@);
        let ghost w = window_of(parts@[k as int]@, all@.len());
        proof {
            let next = texts(parts@).take(k + 1);
            assert(next.drop_last() =~= texts(parts@).take(k as int));
            assert(next.last() == parts@[k as int]@);
        }
        match resolve_window(parts[k].as_str(), all.len()) {
            None => {
                assert(before + window_lines(texts(all@), w) =~= before);
            },
            Some((first, last)) => {
                let mut i: usize = first - 1;
                let ghost picked = window_lines(texts(all@), w);
                assert(before + picked.take(0) =~= before);
                while i < last
                    invariant
                        1 <= first <= i + 1,
                        i <= last <= all@.len(),
                        w == (Window { first: first as int, last: last as int }),
                        picked == window_lines(texts(all@), w),
                        texts(out@) == before + picked.take(i + 1 - first),
                    decreases last - i,
                {
                    let ghost so_far = texts(out@);
                    let ghost at = i + 1 - first;
                    let line = pad(decimal_text((i + 1) as u64), 4).concat("| ").concat(
                        all[i].as_str(),
                    );
                    proof {
                        assert(picked[at] == numbered(i + 1, all@[i as int]@));
                        assert(picked.take(at + 1) =~= picked.take(at).push(picked[at]));
                    }
                    out.push(line);
                    assert(texts(out@) =~= so_far.push(line@));
                    i += 1;
                }
                assert(picked.take(last + 1 - first) =~= picked);
            },
        }
        k += 1;
    }
    assert(texts(parts@).take(k as int) =~= texts(parts@));
    join_texts(&out, "\n")
}

/// The two numbers of a range with a dash in it. A single number would mean a
/// window up to the end, which the number of lines alone can tell.
pub open spec fn dash_range(range: Seq<char>) -> Option<(nat, nat)> {
    let dash = find_char(range, '-');
    if dash < range.len() {
        match (number(range.take(dash)), number(range.skip(dash + 1))) {
            (Some(a), Some(b)) => Some((a, b)),
            _ => None,
        }
    } else {
        None
    }
}

/// Parses `N-M`, the only form that can be read without the number of lines.
pub fn parse_disk_anchor_range(range: &str) -> (r: Option<(usize, usize)>)
    ensures
        match r {
            Some((a, b)) => dash_range(range@) == Some((a as nat, b as nat)),
            None => dash_range(range@) is None,
        },
{
    let cs = chars_of(range);
    let dash = find_from(&cs, 0, '-');
    assert(range@.skip(0) =~= range@);
    if dash == cs.len() {
        return None;
    }
    let from = string_of(&cs, 0, dash);
    let to = string_of(&cs, dash + 1, cs.len());
    assert(from@ =~= range@.take(dash as int));
    assert(to@ =~= range@.skip(dash + 1));
    match (parse_number(from.as_str()), parse_number(to.as_str())) {
        (Some(a), Some(b)) => Some((a, b)),
        _ => None,
    }
}

/// Some lines of a text, and how many it has.
#[derive(Debug)]
pub struct LineWindow {
    pub total_lines: usize,
    pub start: usize,
    pub end: usize,
    pub body: String,
}

/// The lines from `start` to `end`, counted from one.
pub open spec fn span(all: Seq<Seq<char>>, start: int, end: int) -> Seq<Seq<char>> {
    if 1 <= start <= end <= all.len() {
        all.subrange(start - 1, end)
    } else {
        seq![]
    }
}

/// What a reader of lines has taken in: the window that it was opened for, how
/// many lines it has seen, and those of them that lie in the window.
pub struct Reading {
    pub start: int,
    pub end: int,
    pub seen: nat,
    pub kept: Seq<Seq<char>>,
}

/// A reader that has seen no line yet.
pub open spec fn opened(start: usize, end: usize) -> Reading {
    Reading {
        start: if start < 1 {
            1
        } else {
            start as int
        },
        end: end as int,
        seen: 0,
        kept: seq![],
    }
}

/// The reader once it has seen one more line. The line is kept where it lies in
/// the window.
pub open spec fn after_line(r: Reading, line: Seq<char>) -> Reading {
    Reading {
        seen: r.seen + 1,
        kept: if r.start <= r.seen + 1 <= r.end {
            r.kept.push(line)
        } else {
            r.kept
        },
        ..r
    }
}

/// The reader once it has seen these lines as well.
pub open spec fn after_lines(r: Reading, ls: Seq<Seq<char>>) -> Reading
    decreases ls.len(),
{
    if ls.len() == 0 {
        r
    } else {
        after_line(after_lines(r, ls.drop_last()), ls.last())
    }
}

/// Reads a window on lines that come one by one, and holds no other line.
#[derive(Debug)]
pub struct WindowReader {
    pub start: usize,
    pub end: usize,
    pub seen: usize,
    pub kept: Vec<String>,
}

impl View for WindowReader {
    type V = Reading;

    open spec fn view(&self) -> Reading {
        Reading {
            start: self.start as int,
            end: self.end as int,
            seen: self.seen as nat,
            kept: texts(self.kept@),
        }
    }
}

impl WindowReader {
    /// A reader for the lines from `start` to `end`, counted from one.
    pub fn new(start: usize, end: usize) -> (r: WindowReader)
        ensures
            r@ == opened(start, end),
    {
        let first: usize = if start < 1 {
            1
        } else {
            start
        };
        let r = WindowReader { start: first, end, seen: 0, kept: Vec::new() };
        assert(r@.kept =~= seq![]);
        r
    }

    /// Takes in the next line.
    pub fn feed(&mut self, line: &str)
        requires
            old(self).seen < usize::MAX,
        ensures
            final(self)@ == after_line(old(self)@, line@),
    {
        self.seen = self.seen + 1;
        if self.start <= self.seen && self.seen <= self.end {
            self.kept.push(line.to_owned());
        }
        assert(self@.kept =~= after_line(old(self)@, line@).kept);
    }

    /// The window on the lines that were seen.
    pub fn finish(&self) -> (r: LineWindow)
        ensures
            r.total_lines == self@.seen,
            r.start == self@.start,
            r.end == if self@.end < self@.seen {
                self@.end
            } else {
                self@.seen as int
            },
            r.body@ == joined(self@.kept, "\n"@),
    {
        LineWindow {
            total_lines: self.seen,
            start: self.start,
            end: if self.end < self.seen {
                self.end
            } else {
                self.seen
            },
            body: join_texts(&self.kept, "\n"),
        }
    }
}

/// The lines of a text from `start` to `end`, counted from one, as far as the
/// text has them.
pub fn line_window(content: &str, start: usize, end: usize) -> (r: LineWindow)
    ensures
        r.total_lines == lines(content@).len(),
        r.start == if start < 1 {
            1
        } else {
            start as int
        },
        r.end == if end < lines(content@).len() {
            end as int
        } else {
            lines(content@).len() as int
        },
        r.body@ == joined(span(lines(content@), r.start as int, r.end as int), "\n"@),
{
    let all = split_lines(content);
    let ghost model = texts(all@);
    let mut reader = WindowReader::new(start, end);
    let mut i: usize = 0;
    while i < all.len()
        invariant
            i <= all@.len(),
            model == texts(all@),
            reader.seen == i,
            reader@ == after_lines(opened(start, end), model.take(i as int)),
        decreases all@.len() - i,
    {
        proof {
            assert(model.take(i + 1).drop_last() =~= model.take(i as int));
            assert(model.take(i + 1).last() == all@[i as int]@);
        }
        reader.feed(all[i].as_str());
        i += 1;
    }
    proof {
        assert(model.take(i as int) =~= model);
        a_reader_gives_the_window(model, start, end);
    }
    reader.finish()
}

// ---------------------------------------------------------------------------
// Laws
// ---------------------------------------------------------------------------

/// A reader that is fed lines one by one has seen them all, and has kept those of
/// the window in order and no others.
pub proof fn a_reader_gives_the_window(ls: Seq<Seq<char>>, start: usize, end: usize)
    ensures
        ({
            let r = after_lines(opened(start, end), ls);
            let last = if end < ls.len() {
                end as int
            } else {
                ls.len() as int
            };
            &&& r.seen == ls.len()
            &&& r.start == opened(start, end).start
            &&& r.end == end
            &&& r.kept == span(ls, r.start, last)
        }),
    decreases ls.len(),
{
    if ls.len() > 0 {
        let front = ls.drop_last();
        a_reader_gives_the_window(front, start, end);
        let first = opened(start, end).start;
        let n = ls.len() as int;
        if first <= n <= end {
            assert(ls.subrange(first - 1, n) =~= ls.subrange(first - 1, n - 1).push(ls.last()));
            assert(span(front, first, n - 1) =~= ls.subrange(first - 1, n - 1));
        } else if first <= end < n {
            assert(span(front, first, end as int) =~= span(ls, first, end as int));
        }
    }
}

/// A number reads back as what it was written from.
pub proof fn numbers_read_back(n: nat)
    ensures
        is_number(decimal(n)),
        value_of(decimal(n)) == n,
        n <= usize::MAX ==> number(decimal(n)) == Some(n),
    decreases n,
{
    if n < 10 {
        let d = decimal(n);
        assert(d.drop_last() =~= seq![]);
        assert(value_of(d.drop_last()) == 0);
        assert(d.last() as int == '0' as int + n);
        assert(is_digit(d[0]));
    } else {
        numbers_read_back(n / 10);
        let d = decimal(n);
        assert(d.drop_last() =~= decimal(n / 10));
        assert(d.last() as int == '0' as int + n % 10);
        assert forall|i: int| 0 <= i < d.len() implies is_digit(#[trigger] d[i]) by {
            if i < d.len() - 1 {
                assert(d[i] == decimal(n / 10)[i]);
            }
        }
    }
}

proof fn lemma_no_comma(s: Seq<char>)
    requires
        !s.contains(','),
    ensures
        split(s, ',') == seq![s],
{
    lemma_find_char(s, ',');
}

proof fn lemma_trim_solid(s: Seq<char>)
    requires
        s.len() > 0,
        !is_white(s[0]),
        !is_white(s.last()),
    ensures
        trim(s) == s,
{
}

proof fn lemma_find_at(s: Seq<char>, c: char, k: int)
    requires
        0 <= k < s.len(),
        s[k] == c,
        forall|j: int| 0 <= j < k ==> s[j] != c,
    ensures
        find_char(s, c) == k,
{
    lemma_find_char(s, c);
    let f = find_char(s, c);
    if f < k {
        assert(s[f] != c);
    }
    if f > k {
        assert(s[k] != c);
    }
}

/// A single part is the whole range.
proof fn lemma_single_part(content: Seq<char>, range: Seq<char>)
    requires
        !range.contains(','),
    ensures
        range_lines(content, range) == window_lines(
            lines(content),
            window_of(range, lines(content).len()),
        ),
{
    lemma_no_comma(range);
    let all = lines(content);
    let parts = seq![range];
    assert(parts.drop_last() =~= seq![]);
    assert(selected(all, parts.drop_last()) =~= seq![]);
    assert(selected(all, parts) =~= window_lines(all, window_of(range, all.len())));
}

/// `-N` picks the last `N` lines in order, and all of them where there are no more.
pub proof fn tail_picks_the_last_lines(content: Seq<char>, n: nat)
    requires
        n <= usize::MAX,
    ensures
        ({
            let all = lines(content);
            let count = if n < all.len() {
                n as int
            } else {
                all.len() as int
            };
            range_lines(content, seq!['-'] + decimal(n)) == Seq::new(
                count as nat,
                |i: int| numbered(all.len() - count + i + 1, all[all.len() - count + i]),
            )
        }),
{
    let all = lines(content);
    let range = seq!['-'] + decimal(n);
    numbers_read_back(n);
    let d = decimal(n);
    assert(range.skip(1) =~= d);
    assert forall|i: int| 0 <= i < range.len() implies range[i] != ',' by {
        if i > 0 {
            assert(is_digit(d[i - 1]));
        }
    }
    assert(is_digit(d.last()));
    lemma_trim_solid(range);
    lemma_find_at(range, '-', 0);
    lemma_single_part(content, range);
    let w = window_of(range, all.len());
    let count: int = if n < all.len() {
        n as int
    } else {
        all.len() as int
    };
    assert(window_lines(all, w) =~= Seq::new(
        count as nat,
        |i: int| numbered(all.len() - count + i + 1, all[all.len() - count + i]),
    ));
}

/// `N-M` picks the lines from `N` to `M` in order, and no others.
pub proof fn span_picks_its_lines(content: Seq<char>, a: nat, b: nat)
    requires
        1 <= a <= b <= lines(content).len(),
        b <= usize::MAX,
    ensures
        range_lines(content, decimal(a) + seq!['-'] + decimal(b)) == Seq::new(
            (b - a + 1) as nat,
            |i: int| numbered(a + i, lines(content)[a + i - 1]),
        ),
{
    let all = lines(content);
    let range = decimal(a) + seq!['-'] + decimal(b);
    numbers_read_back(a);
    numbers_read_back(b);
    let da = decimal(a);
    let db = decimal(b);
    let k = da.len() as int;
    assert(range.take(k) =~= da);
    assert(range.skip(k + 1) =~= db);
    assert forall|i: int| 0 <= i < range.len() implies range[i] != ',' && (i != k ==> is_digit(
        range[i],
    )) by {
        if i < k {
            assert(is_digit(da[i]));
        } else if i > k {
            assert(range[i] == db[i - k - 1]);
            assert(is_digit(db[i - k - 1]));
        }
    }
    assert(is_digit(range[0]));
    assert(is_digit(range[range.len() - 1]));
    lemma_trim_solid(range);
    lemma_find_at(range, '-', k);
    assert(is_digit(da[0]) && is_digit(da.last()));
    lemma_trim_solid(da);
    assert(is_digit(db[0]) && is_digit(db.last()));
    lemma_trim_solid(db);
    lemma_single_part(content, range);
    let w = window_of(range, all.len());
    assert(window_lines(all, w) =~= Seq::new(
        (b - a + 1) as nat,
        |i: int| numbered(a + i, all[a + i - 1]),
    ));
}

/// The form `N-M` is read as the two numbers that it was written from.
pub proof fn dash_form_reads_back(a: nat, b: nat)
    requires
        a <= usize::MAX,
        b <= usize::MAX,
    ensures
        dash_range(decimal(a) + seq!['-'] + decimal(b)) == Some((a, b)),
        dash_range(decimal(a)) is None,
{
    let range = decimal(a) + seq!['-'] + decimal(b);
    numbers_read_back(a);
    numbers_read_back(b);
    let k = decimal(a).len() as int;
    assert(range.take(k) =~= decimal(a));
    assert(range.skip(k + 1) =~= decimal(b));
    assert forall|i: int| 0 <= i < k implies range[i] != '-' by {
        assert(is_digit(decimal(a)[i]));
    }
    lemma_find_at(range, '-', k);
    lemma_find_char(decimal(a), '-');
    if find_char(decimal(a), '-') < decimal(a).len() {
        assert(is_digit(decimal(a)[find_char(decimal(a), '-')]));
    }
}

} // verus!
