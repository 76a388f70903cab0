//! A briefing on a task: what kind of work it is, how far it reaches, and what
//! to look at.

use crate::intent::{
    TaskClassification, TaskType, budget_of, budget_text, classify, format_of, format_text,
    is_among, kind_of, targets_of, task_name,
};
use crate::paths::{
    a_directory_is_a_shorter_start, dir_of, is_portable, may_be_dir, parent_dir,
};
use crate::text::{
    decimal, decimal_text, is_blank, join_texts, joined, lemma_trim_blank, occurs, occurs_at, opt_text,
    texts, trim_text,
};
use vstd::prelude::*;

verus! {

/// The briefing on a task.
#[derive(Debug)]
pub struct TaskBriefing {
    pub classification: TaskClassification,
    pub completeness_signal: CompletenessSignal,
    pub output_instruction: &'static str,
    pub context_hints: Vec<String>,
    /// For direct calls of a model only. It never goes into the output of a
    /// tool, where it would override how the user's model thinks.
    pub lab_thinking_instruction: &'static str,
}

/// How far the files at hand reach.
#[derive(Debug, Clone, Copy)]
pub enum CompletenessSignal {
    SingleFile,
    MultiFile,
    CrossModule,
    Unknown,
}

/// The text of a signal.
pub open spec fn signal_text(s: CompletenessSignal) -> Seq<char> {
    match s {
        CompletenessSignal::SingleFile => "SCOPE:single-file"@,
        CompletenessSignal::MultiFile => "SCOPE:multi-file"@,
        CompletenessSignal::CrossModule => "SCOPE:cross-module"@,
        CompletenessSignal::Unknown => "SCOPE:unknown"@,
    }
}

impl CompletenessSignal {
    /// The text of the signal.
    pub fn as_str(&self) -> (r: &'static str)
        ensures
            r@ == signal_text(*self),
    {
        match self {
            CompletenessSignal::SingleFile => "SCOPE:single-file",
            CompletenessSignal::MultiFile => "SCOPE:multi-file",
            CompletenessSignal::CrossModule => "SCOPE:cross-module",
            CompletenessSignal::Unknown => "SCOPE:unknown",
        }
    }
}

/// A file at hand: its path and how many lines it has.
pub struct FileModel {
    pub path: Seq<char>,
    pub lines: nat,
}

/// What a list of files holds.
pub open spec fn files_of(v: Seq<(String, usize)>) -> Seq<FileModel> {
    v.map_values(|f: (String, usize)| FileModel { path: f.0@, lines: f.1 as nat })
}

/// What a list of optional strings holds.
pub open spec fn opt_texts(v: Seq<Option<String>>) -> Seq<Option<Seq<char>>> {
    v.map_values(|o: Option<String>| opt_text(o))
}

/// The directories that are known, in order.
pub open spec fn known(dirs: Seq<Option<Seq<char>>>) -> Seq<Seq<char>>
    decreases dirs.len(),
{
    if dirs.len() == 0 {
        seq![]
    } else {
        match dirs.last() {
            Some(d) => known(dirs.drop_last()).push(d),
            None => known(dirs.drop_last()),
        }
    }
}

/// How many different directories there are.
pub open spec fn dir_count(dirs: Seq<Option<Seq<char>>>) -> nat {
    known(dirs).to_set().len()
}

/// How far files reach that lie in these directories, file by file, for a task
/// that names so many targets.
pub open spec fn completeness(targets: nat, dirs: Seq<Option<Seq<char>>>) -> CompletenessSignal {
    if dirs.len() == 0 {
        CompletenessSignal::Unknown
    } else if targets <= 1 && dir_count(dirs) <= 1 {
        CompletenessSignal::SingleFile
    } else if dir_count(dirs) <= 3 {
        CompletenessSignal::MultiFile
    } else {
        CompletenessSignal::CrossModule
    }
}

/// These can be the directories of the files, file by file. There is one such
/// list where platforms read the paths alike.
pub open spec fn are_dirs(dirs: Seq<Option<Seq<char>>>, files: Seq<FileModel>) -> bool {
    &&& dirs.len() == files.len()
    &&& forall|i: int|
        0 <= i < files.len() ==> may_be_dir(dirs[i], (#[trigger] files[i]).path)
}

/// The signal says how far the files reach.
pub open spec fn is_scope(s: CompletenessSignal, targets: nat, files: Seq<FileModel>) -> bool {
    exists|dirs: Seq<Option<Seq<char>>>| #[trigger]
        are_dirs(dirs, files) && s == completeness(targets, dirs)
}

/// The index of the file with the most lines; of several, the last one.
pub open spec fn largest(files: Seq<FileModel>) -> int
    decreases files.len(),
{
    if files.len() <= 1 {
        0
    } else {
        let before = largest(files.drop_last());
        if files.last().lines >= files[before].lines {
            files.len() - 1
        } else {
            before
        }
    }
}

/// The hints on a task of a kind.
pub open spec fn hints(t: TaskType, targets: Seq<Seq<char>>, files: Seq<FileModel>) -> Seq<
    Seq<char>,
> {
    match t {
        TaskType::Generate => {
            let first = seq!["Pattern: match existing code style in context"@];
            if targets.len() > 0 {
                first.push("Insert near: "@ + joined(targets, ", "@))
            } else {
                first
            }
        },
        TaskType::FixBug => {
            let first = seq!["Focus: identify root cause, minimal fix"@];
            if files.len() > 0 {
                let f = files[largest(files)];
                first.push("Primary file: "@ + f.path + " ("@ + decimal(f.lines) + "L)"@)
            } else {
                first
            }
        },
        TaskType::Refactor => seq![
            "Preserve: all public APIs and behavior"@,
            "Files in scope: "@ + decimal(files.len()),
        ],
        TaskType::Explore => seq!["Depth: signatures + key logic, skip boilerplate"@],
        TaskType::Test => seq!["Pattern: follow existing test patterns in codebase"@],
        TaskType::Debug => seq!["Trace: follow data flow through call chain"@],
        _ => seq![],
    }
}

/// The first line of a briefing.
pub open spec fn header(t: TaskType, s: CompletenessSignal) -> Seq<char> {
    "[TASK:"@ + task_name(t) + " "@ + signal_text(s) + "]"@
}

/// A hint as a line of a briefing.
pub open spec fn hint_line(hint: Seq<char>) -> Seq<char> {
    "• "@ + hint
}

/// The lines of a briefing.
pub open spec fn briefing_lines(b: TaskBriefing, include_output_hint: bool) -> Seq<Seq<char>> {
    let first = seq![header(b.classification.task_type, b.completeness_signal)];
    let shaped = if include_output_hint {
        first.push(b.output_instruction@)
    } else {
        first
    };
    shaped + texts(b.context_hints@).map_values(|h: Seq<char>| hint_line(h))
}

/// The text of a briefing.
pub open spec fn briefing_text(b: TaskBriefing, include_output_hint: bool) -> Seq<char> {
    joined(briefing_lines(b, include_output_hint), "\n"@)
}

/// The briefing says this of the task and the files.
pub open spec fn is_briefing(b: TaskBriefing, task: Seq<char>, files: Seq<FileModel>) -> bool {
    let t = kind_of(task);
    &&& b.classification.task_type == t
    &&& texts(b.classification.targets@) == targets_of(task)
    &&& is_scope(b.completeness_signal, targets_of(task).len(), files)
    &&& b.output_instruction@ == format_text(format_of(t))
    &&& texts(b.context_hints@) == hints(t, targets_of(task), files)
    &&& b.lab_thinking_instruction@ == budget_text(budget_of(t))
}

/// The instructions with the briefing on the task behind them. A task without
/// words adds nothing.
pub open spec fn injected(base: Seq<char>, task: Seq<char>) -> Seq<char> {
    if is_blank(task) {
        base
    } else {
        let t = kind_of(task);
        let lines = seq![header(t, CompletenessSignal::Unknown), format_text(format_of(t))] + hints(
            t,
            targets_of(task),
            seq![],
        ).map_values(|h: Seq<char>| hint_line(h));
        base + "\n\n"@ + joined(lines, "\n"@)
    }
}

/// Builds the briefing on a task, given the files at hand.
pub fn build_briefing(task: &str, file_context: &[(String, usize)]) -> (r: TaskBriefing)
    ensures
        is_briefing(r, task@, files_of(file_context@)),
{
    let classification = classify(task);
    let completeness_signal = estimate_completeness(&classification, file_context);
    let context_hints = build_context_hints(&classification, file_context);
    let output_instruction = classification.task_type.output_format().instruction();
    let lab_thinking_instruction = classification.task_type.thinking_budget().instruction();
    TaskBriefing {
        classification,
        completeness_signal,
        output_instruction,
        context_hints,
        lab_thinking_instruction,
    }
}

/// The directories of the files, file by file.
fn find_dirs(file_context: &[(String, usize)]) -> (r: Vec<Option<String>>)
    ensures
        are_dirs(opt_texts(r@), files_of(file_context@)),
{
    let ghost files = files_of(file_context@);
    let mut dirs: Vec<Option<String>> = Vec::new();
    let mut i: usize = 0;
    while i < file_context.len()
        invariant
            i == dirs@.len(),
            i <= file_context@.len(),
            files == files_of(file_context@),
            forall|j: int|
                0 <= j < i ==> may_be_dir(opt_text(dirs@[j]), (#[trigger] files[j]).path),
        decreases file_context@.len() - i,
    {
        let dir = parent_dir(file_context[i].0.as_str());
        assert(files[i as int].path == file_context@[i as int].0@);
        dirs.push(dir);
        i += 1;
    }
    dirs
}

/// Estimates how far files reach that lie in these directories, file by file.
pub fn completeness_of_dirs(targets: usize, dirs: &Vec<Option<String>>) -> (r: CompletenessSignal)
    ensures
        r == completeness(targets as nat, opt_texts(dirs@)),
{
    if dirs.len() == 0 {
        return CompletenessSignal::Unknown;
    }
    let ghost model = opt_texts(dirs@);
    let mut unique: Vec<String> = Vec::new();
    let mut i: usize = 0;
    assert(known(model.take(0)).to_set() =~= texts(unique@).to_set());
    while i < dirs.len()
        invariant
            i <= dirs@.len(),
            model == opt_texts(dirs@),
            texts(unique@).no_duplicates(),
            texts(unique@).to_set() == known(model.take(i as int)).to_set(),
        decreases dirs@.len() - i,
    {
        let ghost seen = known(model.take(i as int));
        proof {
            assert(model.take(i + 1).drop_last() =~= model.take(i as int));
            assert(model.take(i + 1).last() == opt_text(dirs@[i as int]));
        }
        if let Some(d) = &dirs[i] {
            let ghost before = texts(unique@);
            proof {
                lemma_push_to_set(seen, d@);
                lemma_push_to_set(before, d@);
            }
            if !is_among(&unique, d.as_str()) {
                unique.push(d.clone());
                assert(texts(unique@) =~= before.push(d@));
            } else {
                assert(before.to_set().contains(d@));
                assert(before.to_set().insert(d@) =~= before.to_set());
            }
        }
        i += 1;
    }
    proof {
        assert(model.take(i as int) =~= model);
        texts(unique@).unique_seq_to_set();
    }
    if targets <= 1 && unique.len() <= 1 {
        CompletenessSignal::SingleFile
    } else if unique.len() <= 3 {
        CompletenessSignal::MultiFile
    } else {
        CompletenessSignal::CrossModule
    }
}

/// Estimates how far the files reach.
pub fn estimate_completeness(
    classification: &TaskClassification,
    file_context: &[(String, usize)],
) -> (r: CompletenessSignal)
    ensures
        is_scope(r, classification.targets@.len(), files_of(file_context@)),
{
    let dirs = find_dirs(file_context);
    completeness_of_dirs(classification.targets.len(), &dirs)
}

proof fn lemma_push_to_set<A>(s: Seq<A>, x: A)
    ensures
        s.push(x).to_set() == s.to_set().insert(x),
{
    assert(s.push(x)[s.len() as int] == x);
    assert forall|y: A| s.to_set().insert(x).contains(y) implies s.push(x).to_set().contains(y) by {
        if y != x {
            let i = s.index_of(y);
            assert(s.push(x)[i] == y);
        }
    }
    assert(s.push(x).to_set() =~= s.to_set().insert(x));
}

/// The index of the file with the most lines; of several, the last one.
fn find_largest(file_context: &[(String, usize)]) -> (r: usize)
    requires
        file_context@.len() > 0,
    ensures
        r == largest(files_of(file_context@)),
        r < file_context@.len(),
{
    let ghost files = files_of(file_context@);
    let mut best: usize = 0;
    let mut i: usize = 1;
    while i < file_context.len()
        invariant
            1 <= i <= file_context@.len(),
            best < i,
            files == files_of(file_context@),
            best == largest(files.take(i as int)),
        decreases file_context@.len() - i,
    {
        proof {
            let next = files.take(i + 1);
            assert(next.drop_last() =~= files.take(i as int));
            assert(next.last() == files[i as int]);
            assert(next[best as int] == files[best as int]);
        }
        if file_context[i].1 >= file_context[best].1 {
            best = i;
        }
        i += 1;
    }
    assert(files.take(i as int) =~= files);
    best
}

/// Builds the hints on a task.
pub fn build_context_hints(
    classification: &TaskClassification,
    file_context: &[(String, usize)],
) -> (r: Vec<String>)
    ensures
        texts(r@) == hints(
            classification.task_type,
            texts(classification.targets@),
            files_of(file_context@),
        ),
{
    let mut out: Vec<String> = Vec::new();
    match classification.task_type {
        TaskType::Generate => {
            out.push("Pattern: match existing code style in context".to_owned());
            if classification.targets.len() > 0 {
                out.push(
                    "Insert near: ".to_owned().concat(
                        join_texts(&classification.targets, ", ").as_str(),
                    ),
                );
            }
        },
        TaskType::FixBug => {
            out.push("Focus: identify root cause, minimal fix".to_owned());
            if file_context.len() > 0 {
                let i = find_largest(file_context);
                out.push(
                    "Primary file: ".to_owned().concat(file_context[i].0.as_str()).concat(
                        " (",
                    ).concat(decimal_text(file_context[i].1 as u64).as_str()).concat("L)"),
                );
            }
        },
        TaskType::Refactor => {
            out.push("Preserve: all public APIs and behavior".to_owned());
            out.push(
                "Files in scope: ".to_owned().concat(
                    decimal_text(file_context.len() as u64).as_str(),
                ),
            );
        },
        TaskType::Explore => {
            out.push("Depth: signatures + key logic, skip boilerplate".to_owned());
        },
        TaskType::Test => {
            out.push("Pattern: follow existing test patterns in codebase".to_owned());
        },
        TaskType::Debug => {
            out.push("Trace: follow data flow through call chain".to_owned());
        },
        _ => {},
    }
    assert(texts(out@) =~= hints(
        classification.task_type,
        texts(classification.targets@),
        files_of(file_context@),
    ));
    out
}

/// The text of a briefing.
pub fn format_briefing(briefing: &TaskBriefing) -> (r: String)
    ensures
        r@ == briefing_text(*briefing, true),
{
    format_briefing_with(briefing, true)
}

/// The text of a briefing, with or without the line that says what form the
/// answer should take. That line shapes behaviour, so where nudges are off it
/// is left out.
pub fn format_briefing_with(briefing: &TaskBriefing, include_output_hint: bool) -> (r: String)
    ensures
        r@ == briefing_text(*briefing, include_output_hint),
{
    let mut parts: Vec<String> = Vec::new();
    parts.push(
        "[TASK:".to_owned().concat(briefing.classification.task_type.as_str()).concat(" ").concat(
            briefing.completeness_signal.as_str(),
        ).concat("]"),
    );
    if include_output_hint {
        parts.push(briefing.output_instruction.to_owned());
    }
    let ghost lines = briefing_lines(*briefing, include_output_hint);
    let ghost lead: int = parts@.len() as int;
    assert(texts(parts@) =~= lines.take(lead));
    let mut i: usize = 0;
    while i < briefing.context_hints.len()
        invariant
            i <= briefing.context_hints@.len(),
            lines == briefing_lines(*briefing, include_output_hint),
            lead == if include_output_hint {
                2int
            } else {
                1int
            },
            texts(parts@) == lines.take(lead + i),
        decreases briefing.context_hints@.len() - i,
    {
        let ghost before = texts(parts@);
        parts.push("• ".to_owned().concat(briefing.context_hints[i].as_str()));
        proof {
            assert(lines[lead + i] == hint_line(briefing.context_hints@[i as int]@));
            assert(texts(parts@) =~= before.push(lines[lead + i]));
            assert(lines.take(lead + i + 1) =~= lines.take(lead + i).push(lines[lead + i]));
        }
        i += 1;
    }
    assert(lines.take(lead + i) =~= lines);
    join_texts(&parts, "\n")
}

/// Puts the briefing on a task behind the instructions.
pub fn inject_into_instructions(base_instructions: &str, task: &str) -> (r: String)
    ensures
        r@ == injected(base_instructions@, task@),
{
    proof {
        lemma_trim_blank(task@);
    }
    if trim_text(task).as_str().is_empty() {
        return base_instructions.to_owned();
    }
    let file_context: Vec<(String, usize)> = Vec::new();
    let briefing = build_briefing(task, file_context.as_slice());
    let block = format_briefing(&briefing);
    proof {
        let t = kind_of(task@);
        assert(files_of(file_context@) =~= seq![]);
        assert(briefing_lines(briefing, true) =~= seq![
            header(t, CompletenessSignal::Unknown),
            format_text(format_of(t)),
        ] + hints(t, targets_of(task@), seq![]).map_values(|h: Seq<char>| hint_line(h)));
    }
    base_instructions.to_owned().concat("\n\n").concat(block.as_str())
}

// ---------------------------------------------------------------------------
// Laws
// ---------------------------------------------------------------------------

/// The largest file has at least as many lines as any other, and more than any
/// that comes after it.
pub proof fn largest_is_the_last_of_the_longest(files: Seq<FileModel>, i: int)
    requires
        0 <= i < files.len(),
    ensures
        0 <= largest(files) < files.len(),
        files[i].lines <= files[largest(files)].lines,
        i > largest(files) ==> files[i].lines < files[largest(files)].lines,
    decreases files.len(),
{
    if files.len() > 1 {
        let front = files.drop_last();
        if i < front.len() {
            largest_is_the_last_of_the_longest(front, i);
        } else {
            largest_is_the_last_of_the_longest(front, 0);
        }
        assert(front[largest(front)] == files[largest(front)]);
    }
}

/// Without files nothing is known of how far a task reaches; with files something is.
pub proof fn scope_is_known_where_there_are_files(
    s: CompletenessSignal,
    targets: nat,
    files: Seq<FileModel>,
)
    requires
        is_scope(s, targets, files),
    ensures
        s is Unknown <==> files.len() == 0,
{
}

/// Where every platform reads the paths alike, there is one answer to how far
/// the files reach: the one that the paths themselves give.
pub proof fn portable_paths_fix_the_scope(
    s: CompletenessSignal,
    targets: nat,
    files: Seq<FileModel>,
)
    requires
        forall|i: int| 0 <= i < files.len() ==> is_portable((#[trigger] files[i]).path),
    ensures
        is_scope(s, targets, files) <==> s == completeness(
            targets,
            files.map_values(|f: FileModel| dir_of(f.path)),
        ),
{
    let own = files.map_values(|f: FileModel| dir_of(f.path));
    assert(are_dirs(own, files)) by {
        assert forall|i: int| 0 <= i < files.len() implies may_be_dir(
            own[i],
            (#[trigger] files[i]).path,
        ) by {
            a_directory_is_a_shorter_start(files[i].path);
        }
    }
    if is_scope(s, targets, files) {
        let dirs = choose|dirs: Seq<Option<Seq<char>>>| #[trigger]
            are_dirs(dirs, files) && s == completeness(targets, dirs);
        assert forall|i: int| 0 <= i < files.len() implies dirs[i] == own[i] by {
            assert(is_portable(files[i].path));
        }
        assert(dirs =~= own);
    }
}

/// The same directories give the same answer, whatever the order of the files and
/// however many lie in each.
pub proof fn the_same_directories_give_the_same_scope(
    s: CompletenessSignal,
    targets: nat,
    files: Seq<FileModel>,
    others: Seq<FileModel>,
)
    requires
        files.len() > 0,
        others.len() > 0,
        forall|i: int| 0 <= i < files.len() ==> is_portable((#[trigger] files[i]).path),
        forall|i: int| 0 <= i < others.len() ==> is_portable((#[trigger] others[i]).path),
        known(files.map_values(|f: FileModel| dir_of(f.path))).to_set() == known(
            others.map_values(|f: FileModel| dir_of(f.path)),
        ).to_set(),
    ensures
        is_scope(s, targets, files) <==> is_scope(s, targets, others),
{
    portable_paths_fix_the_scope(s, targets, files);
    portable_paths_fix_the_scope(s, targets, others);
}

/// There are no more directories than files.
proof fn lemma_dir_count(dirs: Seq<Option<Seq<char>>>)
    ensures
        dir_count(dirs) <= dirs.len(),
{
    lemma_known_len(dirs);
    known(dirs).lemma_cardinality_of_set();
}

proof fn lemma_known_len(dirs: Seq<Option<Seq<char>>>)
    ensures
        known(dirs).len() <= dirs.len(),
    decreases dirs.len(),
{
    if dirs.len() > 0 {
        lemma_known_len(dirs.drop_last());
    }
}

/// Whatever the platform, one file is a single file for a task with one target
/// at most, and up to three files never reach across modules.
pub proof fn few_files_reach_no_further(
    s: CompletenessSignal,
    targets: nat,
    files: Seq<FileModel>,
)
    requires
        is_scope(s, targets, files),
    ensures
        files.len() == 1 && targets <= 1 ==> s is SingleFile,
        files.len() <= 3 ==> !(s is CrossModule),
{
    let dirs = choose|dirs: Seq<Option<Seq<char>>>| #[trigger]
        are_dirs(dirs, files) && s == completeness(targets, dirs);
    lemma_dir_count(dirs);
}

/// Leaving the output hint out drops that one line and nothing else.
pub proof fn quiet_briefing_drops_one_line(b: TaskBriefing)
    ensures
        briefing_lines(b, true) == briefing_lines(b, false).insert(1, b.output_instruction@),
{
    assert(briefing_lines(b, true) =~= briefing_lines(b, false).insert(1, b.output_instruction@));
}

/// Every hint stands in the text of the briefing, with the output hint and without it.
pub proof fn hints_survive(b: TaskBriefing, include_output_hint: bool, i: int)
    requires
        0 <= i < b.context_hints@.len(),
    ensures
        occurs(briefing_text(b, include_output_hint), b.context_hints@[i]@),
{
    let lines = briefing_lines(b, include_output_hint);
    let k = i + if include_output_hint {
        2int
    } else {
        1int
    };
    let hint = b.context_hints@[i]@;
    assert(lines[k] == hint_line(hint));
    lemma_part_occurs(lines, "\n"@, k);
    lemma_end_occurs(joined(lines, "\n"@), "• "@, hint);
}

/// Where two texts stand one behind the other, the second stands too.
proof fn lemma_end_occurs(all: Seq<char>, lead: Seq<char>, end: Seq<char>)
    requires
        occurs(all, lead + end),
    ensures
        occurs(all, end),
{
    let both = lead + end;
    let at = choose|at: int| occurs_at(all, both, at);
    let n = lead.len() as int;
    assert(all.subrange(at + n, at + n + end.len()) =~= all.subrange(at, at + both.len()).subrange(
        n,
        n + end.len(),
    ));
    assert(both.subrange(n, n + end.len()) =~= end);
    assert(occurs_at(all, end, at + n));
}

proof fn lemma_part_occurs(parts: Seq<Seq<char>>, sep: Seq<char>, k: int)
    requires
        0 <= k < parts.len(),
    ensures
        occurs(joined(parts, sep), parts[k]),
    decreases parts.len(),
{
    let all = joined(parts, sep);
    if parts.len() == 1 {
        assert(all.subrange(0, all.len() as int) =~= parts[0]);
        assert(occurs_at(all, parts[0], 0));
    } else {
        let front = parts.take(parts.len() - 1);
        let lead = joined(front, sep);
        if k == parts.len() - 1 {
            let at = (lead + sep).len() as int;
            assert(all.subrange(at, at + parts[k].len()) =~= parts[k]);
            assert(occurs_at(all, parts[k], at));
        } else {
            lemma_part_occurs(front, sep, k);
            let at = choose|at: int| occurs_at(lead, front[k], at);
            assert(all.subrange(at, at + parts[k].len()) =~= lead.subrange(
                at,
                at + parts[k].len(),
            ));
            assert(occurs_at(all, parts[k], at));
        }
    }
}

/// The instruction for direct calls of a model has no part in the text of a briefing.
pub proof fn lab_instruction_is_never_rendered(
    a: TaskBriefing,
    b: TaskBriefing,
    include_output_hint: bool,
)
    requires
        a.classification == b.classification,
        a.completeness_signal == b.completeness_signal,
        a.output_instruction == b.output_instruction,
        a.context_hints == b.context_hints,
    ensures
        briefing_text(a, include_output_hint) == briefing_text(b, include_output_hint),
{
}

/// Injecting a briefing keeps the instructions as they are, at the front.
pub proof fn injection_keeps_the_instructions(base: Seq<char>, task: Seq<char>)
    ensures
        base.is_prefix_of(injected(base, task)),
        injected(base, task) == base <==> is_blank(task),
{
    let all = injected(base, task);
    assert(all.subrange(0, base.len() as int) =~= base);
    if !is_blank(task) {
        reveal_strlit("\n\n");
        assert("\n\n"@.len() == 2);
        assert(all.len() > base.len());
    }
}

} // verus!
