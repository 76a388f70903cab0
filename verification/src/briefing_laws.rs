//! What a briefing says of a task and its files.

use crate::intent::{
    TaskType, bare, bare_end, bare_start, best_of, best_score, cue_phrases, cue_weight, cue_words,
    format_of, format_text, is_name_char, is_target, kind_has_the_highest_score, kind_of,
    phrases_found, score, targets_among, targets_of, task_name, task_order, words_found,
};
use crate::paths::{dir_of, is_portable};
use crate::task_briefing::{
    CompletenessSignal, FileModel, TaskBriefing, are_dirs, briefing_lines, briefing_text,
    completeness, dir_count, header, hint_line, hints, injected, is_briefing, is_scope, known,
    largest, largest_is_the_last_of_the_longest, portable_paths_fix_the_scope, signal_text,
};
use crate::text::{decimal, is_blank, joined, lowercase, occurs, texts, words};
use vstd::prelude::*;
use vstd::seq_lib::seq_to_set_is_finite;

verus! {

// ---------------------------------------------------------------------------
// Scope
// ---------------------------------------------------------------------------

/// Two of the directories are known and different.
pub open spec fn differ(dirs: Seq<Option<Seq<char>>>, i: int, j: int) -> bool {
    dirs[i] is Some && dirs[j] is Some && dirs[i] != dirs[j]
}

/// Some two of the directories are known and different.
pub open spec fn has_two_dirs(dirs: Seq<Option<Seq<char>>>) -> bool {
    exists|i: int, j: int|
        0 <= i < dirs.len() && 0 <= j < dirs.len() && #[trigger] differ(dirs, i, j)
}

/// These four of the directories are known, and each differs from the others.
pub open spec fn are_four_dirs(
    dirs: Seq<Option<Seq<char>>>,
    i: int,
    j: int,
    k: int,
    l: int,
) -> bool {
    &&& 0 <= i < dirs.len() && 0 <= j < dirs.len() && 0 <= k < dirs.len() && 0 <= l < dirs.len()
    &&& differ(dirs, i, j) && differ(dirs, i, k) && differ(dirs, i, l)
    &&& differ(dirs, j, k) && differ(dirs, j, l) && differ(dirs, k, l)
}

/// Some four of the directories are known and differ from each other.
pub open spec fn has_four_dirs(dirs: Seq<Option<Seq<char>>>) -> bool {
    exists|i: int, j: int, k: int, l: int| #[trigger] are_four_dirs(dirs, i, j, k, l)
}

proof fn lemma_known(dirs: Seq<Option<Seq<char>>>, d: Seq<char>)
    ensures
        known(dirs).to_set().contains(d) <==> dirs.contains(Some(d)),
        known(dirs).to_set().finite(),
    decreases dirs.len(),
{
    let s = known(dirs);
    seq_to_set_is_finite(s);
    if dirs.len() > 0 {
        let front = dirs.drop_last();
        lemma_known(front, d);
        if s.contains(d) {
            let i = s.index_of(d);
            if i < known(front).len() {
                assert(known(front)[i] == d);
                let k = front.index_of(Some(d));
                assert(dirs[k] == Some(d));
            } else {
                assert(dirs[dirs.len() - 1] == Some(d));
            }
        }
        if dirs.contains(Some(d)) {
            let k = dirs.index_of(Some(d));
            if k < front.len() {
                assert(front[k] == Some(d));
                let i = known(front).index_of(d);
                assert(s[i] == d);
            } else {
                assert(s[s.len() - 1] == d);
            }
        }
    }
}

/// The signal tells how many different directories there are, by the directories
/// alone: it is cross-module exactly where some four of them differ from each
/// other, whatever the number of targets; with fewer, it is a single file exactly
/// where no two of them differ and there is one target at most.
pub proof fn the_signal_counts_the_directories(targets: nat, dirs: Seq<Option<Seq<char>>>)
    ensures
        completeness(targets, dirs) is Unknown <==> dirs.len() == 0,
        completeness(targets, dirs) is CrossModule <==> has_four_dirs(dirs),
        completeness(targets, dirs) is SingleFile <==> dirs.len() > 0 && targets <= 1
            && !has_two_dirs(dirs),
        completeness(targets, dirs) is MultiFile <==> dirs.len() > 0 && !has_four_dirs(dirs) && (
        targets >= 2 || has_two_dirs(dirs)),
{
    let all = known(dirs).to_set();
    seq_to_set_is_finite(known(dirs));
    assert forall|d: Seq<char>| all.contains(d) <==> #[trigger] dirs.contains(Some(d)) by {
        lemma_known(dirs, d);
    }
    if has_two_dirs(dirs) {
        let (i, j) = choose|i: int, j: int|
            0 <= i < dirs.len() && 0 <= j < dirs.len() && #[trigger] differ(dirs, i, j);
        assert(dirs.contains(Some(dirs[i]->0)) && dirs.contains(Some(dirs[j]->0)));
        let less = all.remove(dirs[i]->0);
        assert(less.contains(dirs[j]->0));
        assert(less.len() > 0) by {
            if less.len() == 0 {
                assert(less =~= Set::empty());
            }
        }
    }
    if dir_count(dirs) >= 2 {
        let a = all.choose();
        let b = all.remove(a).choose();
        let i = dirs.index_of(Some(a));
        let j = dirs.index_of(Some(b));
        assert(dirs.contains(Some(a)) && dirs.contains(Some(b)));
        assert(differ(dirs, i, j));
    }
    if has_four_dirs(dirs) {
        let (i, j, k, l) = choose|i: int, j: int, k: int, l: int| #[trigger]
            are_four_dirs(dirs, i, j, k, l);
        assert(dirs.contains(Some(dirs[i]->0)) && dirs.contains(Some(dirs[j]->0)));
        assert(dirs.contains(Some(dirs[k]->0)) && dirs.contains(Some(dirs[l]->0)));
        let one = all.remove(dirs[i]->0);
        let two = one.remove(dirs[j]->0);
        let three = two.remove(dirs[k]->0);
        assert(three.contains(dirs[l]->0));
        assert(three.len() > 0) by {
            if three.len() == 0 {
                assert(three =~= Set::empty());
            }
        }
        assert(all.len() >= 4);
        assert(differ(dirs, i, j));
    }
    if dir_count(dirs) >= 4 {
        let a = all.choose();
        let one = all.remove(a);
        let b = one.choose();
        let two = one.remove(b);
        let c = two.choose();
        let three = two.remove(c);
        let d = three.choose();
        assert(dirs.contains(Some(a)) && dirs.contains(Some(b)));
        assert(dirs.contains(Some(c)) && dirs.contains(Some(d)));
        let i = dirs.index_of(Some(a));
        let j = dirs.index_of(Some(b));
        let k = dirs.index_of(Some(c));
        let l = dirs.index_of(Some(d));
        assert(are_four_dirs(dirs, i, j, k, l));
    }
}

/// The same of files with paths that every platform reads alike: more than three
/// different directories are cross-module for every task, and fewer never are.
pub proof fn the_scope_counts_the_directories(
    s: CompletenessSignal,
    targets: nat,
    files: Seq<FileModel>,
)
    requires
        is_scope(s, targets, files),
        forall|i: int| 0 <= i < files.len() ==> is_portable((#[trigger] files[i]).path),
    ensures
        ({
            let dirs = files.map_values(|f: FileModel| dir_of(f.path));
            &&& s is Unknown <==> files.len() == 0
            &&& s is CrossModule <==> has_four_dirs(dirs)
            &&& s is SingleFile <==> files.len() > 0 && targets <= 1 && !has_two_dirs(dirs)
        }),
{
    let dirs = files.map_values(|f: FileModel| dir_of(f.path));
    portable_paths_fix_the_scope(s, targets, files);
    the_signal_counts_the_directories(targets, dirs);
}

/// A further target never makes a task reach less far, and never more than from
/// one file to several.
pub proof fn targets_tell_one_file_from_several(dirs: Seq<Option<Seq<char>>>, few: nat, many: nat)
    requires
        few <= many,
    ensures
        completeness(few, dirs) is CrossModule <==> completeness(many, dirs) is CrossModule,
        completeness(many, dirs) is SingleFile ==> completeness(few, dirs) is SingleFile,
        completeness(few, dirs) is MultiFile ==> completeness(many, dirs) is MultiFile,
        many <= 1 ==> completeness(few, dirs) == completeness(many, dirs),
{
    the_signal_counts_the_directories(few, dirs);
    the_signal_counts_the_directories(many, dirs);
}

// ---------------------------------------------------------------------------
// Hints
// ---------------------------------------------------------------------------

/// A task to write something names where: every target, in order, with commas
/// between them. Files have no part in it.
pub proof fn writing_hints_name_the_targets(
    targets: Seq<Seq<char>>,
    next: Seq<char>,
    files: Seq<FileModel>,
)
    ensures
        ({
            let h = hints(TaskType::Generate, targets, files);
            let more = hints(TaskType::Generate, targets.push(next), files);
            &&& h.len() == if targets.len() == 0 {
                1int
            } else {
                2
            }
            &&& h[0] == "Pattern: match existing code style in context"@
            &&& more.len() == 2 && more[0] == h[0]
            &&& targets.len() == 0 ==> more[1] == "Insert near: "@ + next
            &&& targets.len() > 0 ==> more[1] == h[1] + ", "@ + next
        }),
{
    let all = targets.push(next);
    assert(all.take(all.len() - 1) =~= targets);
    let more = hints(TaskType::Generate, all, files);
    if targets.len() > 0 {
        assert("Insert near: "@ + (joined(targets, ", "@) + ", "@ + next) =~= "Insert near: "@
            + joined(targets, ", "@) + ", "@ + next);
    }
}

/// A task to mend something names the longest file and its length; of several
/// that are equally long, the last.
pub proof fn mending_hints_name_the_longest_file(
    targets: Seq<Seq<char>>,
    files: Seq<FileModel>,
    i: int,
)
    requires
        0 <= i < files.len(),
        forall|j: int| 0 <= j < i ==> (#[trigger] files[j]).lines <= files[i].lines,
        forall|j: int| i < j < files.len() ==> (#[trigger] files[j]).lines < files[i].lines,
    ensures
        hints(TaskType::FixBug, targets, files) == seq![
            "Focus: identify root cause, minimal fix"@,
            "Primary file: "@ + files[i].path + " ("@ + decimal(files[i].lines) + "L)"@,
        ],
        hints(TaskType::FixBug, targets, Seq::empty()) == seq![
            "Focus: identify root cause, minimal fix"@,
        ],
{
    largest_is_the_last_of_the_longest(files, i);
    let k = largest(files);
    if k != i {
        assert(files[k].lines <= files[i].lines);
    }
    assert(hints(TaskType::FixBug, targets, files) =~= seq![
        "Focus: identify root cause, minimal fix"@,
        "Primary file: "@ + files[i].path + " ("@ + decimal(files[i].lines) + "L)"@,
    ]);
}

/// A task to restructure something counts the files.
pub proof fn restructuring_hints_count_the_files(targets: Seq<Seq<char>>, files: Seq<FileModel>)
    ensures
        hints(TaskType::Refactor, targets, files) == seq![
            "Preserve: all public APIs and behavior"@,
            "Files in scope: "@ + decimal(files.len()),
        ],
{
}

/// The other kinds of work have one fixed hint or none, whatever the task names
/// and whatever the files are.
pub proof fn other_hints_are_fixed(
    t: TaskType,
    targets: Seq<Seq<char>>,
    files: Seq<FileModel>,
    other_targets: Seq<Seq<char>>,
    other_files: Seq<FileModel>,
)
    requires
        !(t is Generate),
        !(t is FixBug),
        !(t is Refactor),
    ensures
        hints(t, targets, files) == hints(t, other_targets, other_files),
        hints(t, targets, files).len() == if t is Explore || t is Test || t is Debug {
            1int
        } else {
            0
        },
{
}

// ---------------------------------------------------------------------------
// Text
// ---------------------------------------------------------------------------

/// A briefing without hints is its header; the output hint is one line more.
pub proof fn a_briefing_starts_with_its_header(b: TaskBriefing)
    requires
        b.context_hints@.len() == 0,
    ensures
        briefing_text(b, false) == "[TASK:"@ + task_name(b.classification.task_type) + " "@
            + signal_text(b.completeness_signal) + "]"@,
        briefing_text(b, true) == briefing_text(b, false) + "\n"@ + b.output_instruction@,
{
    let quiet = briefing_lines(b, false);
    let all = briefing_lines(b, true);
    assert(quiet.len() == 1);
    assert(all.len() == 2);
    assert(all.take(1) =~= quiet);
}

/// A further hint is one line more at the end, behind a bullet.
pub proof fn a_hint_is_one_line_more(
    b: TaskBriefing,
    more: TaskBriefing,
    hint: Seq<char>,
    include_output_hint: bool,
)
    requires
        more.classification == b.classification,
        more.completeness_signal == b.completeness_signal,
        more.output_instruction == b.output_instruction,
        texts(more.context_hints@) == texts(b.context_hints@).push(hint),
    ensures
        briefing_text(more, include_output_hint) == briefing_text(b, include_output_hint) + "\n"@ + (
        "• "@ + hint),
{
    let short = briefing_lines(b, include_output_hint);
    let long = briefing_lines(more, include_output_hint);
    assert(texts(more.context_hints@).len() == texts(b.context_hints@).len() + 1);
    assert(long.take(long.len() - 1) =~= short);
    assert(long[long.len() - 1] == "• "@ + hint);
}

/// Every instruction on the form of an answer is marked as one.
pub proof fn every_output_instruction_is_marked(t: TaskType)
    ensures
        "OUTPUT-HINT: "@.is_prefix_of(format_text(format_of(t))),
{
    reveal_strlit("OUTPUT-HINT: ");
    reveal_strlit(
        "OUTPUT-HINT: Prefer code blocks. Minimize prose unless the user asks for explanation.",
    );
    reveal_strlit("OUTPUT-HINT: Prefer showing only changed lines as +/- diffs.");
    reveal_strlit("OUTPUT-HINT: Brief summary, then code or data if relevant.");
    reveal_strlit("OUTPUT-HINT: Show the chain from cause to effect with code references.");
    reveal_strlit("OUTPUT-HINT: Numbered action list, one step at a time.");
    let p = "OUTPUT-HINT: "@;
    let s = format_text(format_of(t));
    assert(p.len() == 13);
    assert(s.len() > 13);
    assert(p =~= s.subrange(0, 13));
}

/// A briefing goes by the task and the files and nothing else: two briefings on
/// the same task and the same files read the same, where the paths are read alike
/// on every platform.
pub proof fn the_same_task_gives_the_same_briefing(
    a: TaskBriefing,
    b: TaskBriefing,
    task: Seq<char>,
    files: Seq<FileModel>,
    include_output_hint: bool,
)
    requires
        is_briefing(a, task, files),
        is_briefing(b, task, files),
        forall|i: int| 0 <= i < files.len() ==> is_portable((#[trigger] files[i]).path),
    ensures
        briefing_text(a, include_output_hint) == briefing_text(b, include_output_hint),
        a.classification.task_type == kind_of(task),
        texts(a.context_hints@) == hints(kind_of(task), targets_of(task), files),
        a.output_instruction@ == format_text(format_of(kind_of(task))),
        is_scope(a.completeness_signal, targets_of(task).len(), files),
{
    portable_paths_fix_the_scope(a.completeness_signal, targets_of(task).len(), files);
    portable_paths_fix_the_scope(b.completeness_signal, targets_of(task).len(), files);
    assert(briefing_lines(a, include_output_hint) =~= briefing_lines(b, include_output_hint));
}

/// What is put behind the instructions is an empty line and the briefing on the
/// task without files, with its output hint; nothing for a task of white space.
pub proof fn injection_appends_the_briefing(base: Seq<char>, task: Seq<char>, b: TaskBriefing)
    requires
        is_briefing(b, task, Seq::empty()),
    ensures
        is_blank(task) ==> injected(base, task) == base,
        !is_blank(task) ==> injected(base, task) == base + "\n\n"@ + briefing_text(b, true),
{
    let dirs = choose|dirs: Seq<Option<Seq<char>>>| #[trigger]
        are_dirs(dirs, Seq::empty()) && b.completeness_signal == completeness(
            targets_of(task).len(),
            dirs,
        );
    assert(dirs.len() == 0);
    assert(b.completeness_signal is Unknown);
    let t = kind_of(task);
    assert(briefing_lines(b, true) =~= seq![
        header(t, CompletenessSignal::Unknown),
        format_text(format_of(t)),
    ] + hints(t, targets_of(task), seq![]).map_values(|h: Seq<char>| hint_line(h)));
}

// ---------------------------------------------------------------------------
// Kinds and targets
// ---------------------------------------------------------------------------

/// The case of letters does not matter for the kind of work.
pub proof fn case_does_not_matter(task: Seq<char>, same: Seq<char>)
    requires
        lowercase(task) == lowercase(same),
    ensures
        kind_of(task) == kind_of(same),
{
}

proof fn lemma_no_words_found(cues: Seq<Seq<char>>, among: Seq<Seq<char>>)
    requires
        forall|i: int| 0 <= i < cues.len() ==> !among.contains(#[trigger] cues[i]),
    ensures
        words_found(cues, among) == 0,
    decreases cues.len(),
{
    if cues.len() > 0 {
        assert(!among.contains(cues[cues.len() - 1]));
        assert forall|i: int| 0 <= i < cues.drop_last().len() implies !among.contains(
            #[trigger] cues.drop_last()[i],
        ) by {
            assert(!among.contains(cues[i]));
        }
        lemma_no_words_found(cues.drop_last(), among);
    }
}

proof fn lemma_no_phrases_found(cues: Seq<Seq<char>>, text: Seq<char>)
    requires
        forall|i: int| 0 <= i < cues.len() ==> !occurs(text, #[trigger] cues[i]),
    ensures
        phrases_found(cues, text) == 0,
    decreases cues.len(),
{
    if cues.len() > 0 {
        assert(!occurs(text, cues[cues.len() - 1]));
        assert forall|i: int| 0 <= i < cues.drop_last().len() implies !occurs(
            text,
            #[trigger] cues.drop_last()[i],
        ) by {
            assert(!occurs(text, cues[i]));
        }
        lemma_no_phrases_found(cues.drop_last(), text);
    }
}

proof fn lemma_told_kind_scores(n: nat, lower: Seq<char>)
    requires
        n <= 9,
    ensures
        best_of(n, lower) is Explore || score(best_of(n, lower), lower) > 0,
    decreases n,
{
    if n > 0 {
        lemma_told_kind_scores((n - 1) as nat, lower);
        assert(score(task_order()[n - 1], lower) > best_score((n - 1) as nat, lower) ==> score(
            task_order()[n - 1],
            lower,
        ) > 0);
    }
}

/// Every word of a task that names something is among the targets, without the
/// punctuation around it, and every target is such a word.
pub proof fn targets_are_the_words_that_name(ws: Seq<Seq<char>>, w: Seq<char>)
    ensures
        targets_among(ws).contains(w) <==> is_target(w) && exists|i: int|
            0 <= i < ws.len() && bare(#[trigger] ws[i]) == w,
    decreases ws.len(),
{
    if ws.len() > 0 {
        let front = ws.drop_last();
        targets_are_the_words_that_name(front, w);
        let before = targets_among(front);
        let last = bare(ws.last());
        let all = targets_among(ws);
        if all.contains(w) {
            let k = all.index_of(w);
            if k < before.len() {
                assert(before[k] == w);
                let i = choose|i: int| 0 <= i < front.len() && bare(#[trigger] front[i]) == w;
                assert(bare(ws[i]) == w);
            } else {
                assert(bare(ws[ws.len() - 1]) == w);
            }
        }
        if is_target(w) && exists|i: int| 0 <= i < ws.len() && bare(#[trigger] ws[i]) == w {
            let i = choose|i: int| 0 <= i < ws.len() && bare(#[trigger] ws[i]) == w;
            if i < front.len() {
                assert(bare(front[i]) == w);
                let k = before.index_of(w);
                assert(all[k] == w);
            } else if !before.contains(w) {
                assert(all[all.len() - 1] == w);
            } else {
                let k = before.index_of(w);
                assert(all[k] == w);
            }
        }
    }
}

/// A task speaks for a kind of work: one of its words or phrases is a cue for it.
pub open spec fn speaks_for(lower: Seq<char>, t: TaskType) -> bool {
    ||| exists|i: int|
        0 <= i < cue_words(t).len() && words(lower).contains(#[trigger] cue_words(t)[i])
    ||| exists|i: int| 0 <= i < cue_phrases(t).len() && occurs(lower, #[trigger] cue_phrases(t)[i])
}

proof fn lemma_words_found(cues: Seq<Seq<char>>, among: Seq<Seq<char>>, i: int)
    requires
        0 <= i < cues.len(),
        among.contains(cues[i]),
    ensures
        words_found(cues, among) > 0,
    decreases cues.len(),
{
    if i < cues.len() - 1 {
        lemma_words_found(cues.drop_last(), among, i);
    }
}

proof fn lemma_phrases_found(cues: Seq<Seq<char>>, text: Seq<char>, i: int)
    requires
        0 <= i < cues.len(),
        occurs(text, cues[i]),
    ensures
        phrases_found(cues, text) > 0,
    decreases cues.len(),
{
    if i < cues.len() - 1 {
        lemma_phrases_found(cues.drop_last(), text, i);
    }
}

proof fn lemma_score(t: TaskType, lower: Seq<char>)
    ensures
        score(t, lower) > 0 <==> speaks_for(lower, t),
{
    let ws = words(lower);
    if exists|i: int| 0 <= i < cue_words(t).len() && ws.contains(#[trigger] cue_words(t)[i]) {
        let i = choose|i: int| 0 <= i < cue_words(t).len() && ws.contains(#[trigger] cue_words(t)[i]);
        lemma_words_found(cue_words(t), ws, i);
    } else {
        lemma_no_words_found(cue_words(t), ws);
    }
    if exists|i: int| 0 <= i < cue_phrases(t).len() && occurs(lower, #[trigger] cue_phrases(t)[i]) {
        let i = choose|i: int|
            0 <= i < cue_phrases(t).len() && occurs(lower, #[trigger] cue_phrases(t)[i]);
        lemma_phrases_found(cue_phrases(t), lower, i);
    } else {
        lemma_no_phrases_found(cue_phrases(t), lower);
    }
    let found = words_found(cue_words(t), ws) + 2 * phrases_found(cue_phrases(t), lower);
    let counted = if found < 2 {
        found
    } else {
        2nat
    };
    assert(score(t, lower) == cue_weight(t) * counted);
    assert(cue_weight(t) * counted > 0 <==> counted > 0) by (nonlinear_arith)
        requires
            cue_weight(t) >= 80,
            counted >= 0,
    ;
}

/// A kind of work that a task does not speak for is not told, unless it is the wish
/// to understand.
pub proof fn a_kind_is_told_by_its_cues(task: Seq<char>)
    ensures
        kind_of(task) is Explore || speaks_for(lowercase(task), kind_of(task)),
{
    lemma_told_kind_scores(9, lowercase(task));
    lemma_score(kind_of(task), lowercase(task));
}

/// Where a task speaks for one kind of work alone, that kind is told; where it
/// speaks for none, the wish to understand is.
pub proof fn the_kind_that_a_task_speaks_for_is_told(task: Seq<char>, t: TaskType)
    requires
        forall|other: TaskType| other != t ==> !#[trigger] speaks_for(lowercase(task), other),
    ensures
        speaks_for(lowercase(task), t) ==> kind_of(task) == t,
        !speaks_for(lowercase(task), t) ==> kind_of(task) is Explore,
{
    let lower = lowercase(task);
    lemma_score(t, lower);
    lemma_score(kind_of(task), lower);
    kind_has_the_highest_score(task, t);
}

/// Punctuation around a word is no part of what it names, and a name starts and
/// ends with a letter, a digit or an underscore.
pub proof fn punctuation_around_a_word_means_nothing(
    before: Seq<char>,
    core: Seq<char>,
    behind: Seq<char>,
)
    requires
        forall|i: int| 0 <= i < before.len() ==> !is_name_char(#[trigger] before[i]),
        forall|i: int| 0 <= i < behind.len() ==> !is_name_char(#[trigger] behind[i]),
        core.len() > 0,
        is_name_char(core[0]),
        is_name_char(core.last()),
    ensures
        bare(before + core + behind) == core,
        is_target(core) <==> core.len() > 3 && (core.contains('.') || core.contains('_')),
{
    lemma_bare_start(before, core + behind);
    assert(before + core + behind =~= before + (core + behind));
    lemma_bare_end(core, behind);
}

proof fn lemma_bare_start(before: Seq<char>, rest: Seq<char>)
    requires
        forall|i: int| 0 <= i < before.len() ==> !is_name_char(#[trigger] before[i]),
        rest.len() > 0,
        is_name_char(rest[0]),
    ensures
        bare_start(before + rest) == rest,
    decreases before.len(),
{
    if before.len() == 0 {
        assert(before + rest =~= rest);
    } else {
        let more = before.skip(1);
        assert(!is_name_char(before[0]));
        assert forall|i: int| 0 <= i < more.len() implies !is_name_char(#[trigger] more[i]) by {
            assert(!is_name_char(before[i + 1]));
        }
        assert((before + rest).skip(1) =~= more + rest);
        lemma_bare_start(more, rest);
    }
}

proof fn lemma_bare_end(rest: Seq<char>, behind: Seq<char>)
    requires
        forall|i: int| 0 <= i < behind.len() ==> !is_name_char(#[trigger] behind[i]),
        rest.len() > 0,
        is_name_char(rest.last()),
    ensures
        bare_end(rest + behind) == rest,
    decreases behind.len(),
{
    if behind.len() == 0 {
        assert(rest + behind =~= rest);
    } else {
        let more = behind.drop_last();
        assert(!is_name_char(behind[behind.len() - 1]));
        assert forall|i: int| 0 <= i < more.len() implies !is_name_char(#[trigger] more[i]) by {
            assert(!is_name_char(behind[i]));
        }
        assert((rest + behind).drop_last() =~= rest + more);
        lemma_bare_end(rest, more);
    }
}

} // verus!
