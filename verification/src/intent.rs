//! What kind of work a task asks for, told from the words it is put in.

use crate::text::{
    chars_of, contains_text, lowercase, occurs, same_text, split_words, string_of, texts,
    to_lowercase, words,
};
use vstd::prelude::*;

verus! {

/// A kind of work.
#[derive(Debug, Clone, Copy, PartialEq, Eq, Structural)]
pub enum TaskType {
    Generate,
    FixBug,
    Refactor,
    Explore,
    Test,
    Debug,
    Config,
    Deploy,
    Review,
}

/// The form that an answer should take.
#[derive(Debug, Clone, Copy, PartialEq, Eq, Structural)]
pub enum OutputFormat {
    CodeOnly,
    DiffOnly,
    ExplainConcise,
    Trace,
    StepList,
}

/// How much thought a task needs before the answer.
#[derive(Debug, Clone, Copy, PartialEq, Eq, Structural)]
pub enum ThinkingBudget {
    Minimal,
    Medium,
    Trace,
    Deep,
}

/// What a task asks for and what it names.
#[derive(Debug)]
pub struct TaskClassification {
    pub task_type: TaskType,
    pub targets: Vec<String>,
}

/// The name of a kind of work.
pub open spec fn task_name(t: TaskType) -> Seq<char> {
    match t {
        TaskType::Generate => "generate"@,
        TaskType::FixBug => "fix_bug"@,
        TaskType::Refactor => "refactor"@,
        TaskType::Explore => "explore"@,
        TaskType::Test => "test"@,
        TaskType::Debug => "debug"@,
        TaskType::Config => "config"@,
        TaskType::Deploy => "deploy"@,
        TaskType::Review => "review"@,
    }
}

/// The form of the answer to a kind of work.
pub open spec fn format_of(t: TaskType) -> OutputFormat {
    match t {
        TaskType::Generate | TaskType::Test | TaskType::Config => OutputFormat::CodeOnly,
        TaskType::FixBug | TaskType::Refactor => OutputFormat::DiffOnly,
        TaskType::Explore | TaskType::Review => OutputFormat::ExplainConcise,
        TaskType::Debug => OutputFormat::Trace,
        TaskType::Deploy => OutputFormat::StepList,
    }
}

/// The thought that a kind of work needs.
pub open spec fn budget_of(t: TaskType) -> ThinkingBudget {
    match t {
        TaskType::Generate | TaskType::Test | TaskType::Config | TaskType::Deploy =>
            ThinkingBudget::Minimal,
        TaskType::Refactor => ThinkingBudget::Medium,
        TaskType::FixBug | TaskType::Debug => ThinkingBudget::Trace,
        TaskType::Explore | TaskType::Review => ThinkingBudget::Deep,
    }
}

/// The sentence that asks for a form of answer.
pub open spec fn format_text(f: OutputFormat) -> Seq<char> {
    match f {
        OutputFormat::CodeOnly =>
            "OUTPUT-HINT: Prefer code blocks. Minimize prose unless the user asks for explanation."@,
        OutputFormat::DiffOnly => "OUTPUT-HINT: Prefer showing only changed lines as +/- diffs."@,
        OutputFormat::ExplainConcise =>
            "OUTPUT-HINT: Brief summary, then code or data if relevant."@,
        OutputFormat::Trace => "OUTPUT-HINT: Show the chain from cause to effect with code references."@,
        OutputFormat::StepList => "OUTPUT-HINT: Numbered action list, one step at a time."@,
    }
}

/// The sentence that asks for an amount of thought.
pub open spec fn budget_text(b: ThinkingBudget) -> Seq<char> {
    match b {
        ThinkingBudget::Minimal => "THINKING: Skip analysis. The task is clear: generate code directly."@,
        ThinkingBudget::Medium => "THINKING: Two or three steps at most. Identify what to change, then act."@,
        ThinkingBudget::Trace => "THINKING: Short trace only. Identify the root cause, then generate the fix."@,
        ThinkingBudget::Deep => "THINKING: Analyze structure and dependencies. Summarize findings concisely."@,
    }
}

impl TaskType {
    /// The name of the kind of work.
    pub fn as_str(&self) -> (r: &'static str)
        ensures
            r@ == task_name(*self),
    {
        match self {
            TaskType::Generate => "generate",
            TaskType::FixBug => "fix_bug",
            TaskType::Refactor => "refactor",
            TaskType::Explore => "explore",
            TaskType::Test => "test",
            TaskType::Debug => "debug",
            TaskType::Config => "config",
            TaskType::Deploy => "deploy",
            TaskType::Review => "review",
        }
    }

    /// The form of the answer.
    pub fn output_format(&self) -> (r: OutputFormat)
        ensures
            r == format_of(*self),
    {
        match self {
            TaskType::Generate | TaskType::Test | TaskType::Config => OutputFormat::CodeOnly,
            TaskType::FixBug | TaskType::Refactor => OutputFormat::DiffOnly,
            TaskType::Explore | TaskType::Review => OutputFormat::ExplainConcise,
            TaskType::Debug => OutputFormat::Trace,
            TaskType::Deploy => OutputFormat::StepList,
        }
    }

    /// The thought that is needed.
    pub fn thinking_budget(&self) -> (r: ThinkingBudget)
        ensures
            r == budget_of(*self),
    {
        match self {
            TaskType::Generate | TaskType::Test | TaskType::Config | TaskType::Deploy =>
                ThinkingBudget::Minimal,
            TaskType::Refactor => ThinkingBudget::Medium,
            TaskType::FixBug | TaskType::Debug => ThinkingBudget::Trace,
            TaskType::Explore | TaskType::Review => ThinkingBudget::Deep,
        }
    }
}

impl OutputFormat {
    /// The sentence that asks for this form.
    pub fn instruction(&self) -> (r: &'static str)
        ensures
            r@ == format_text(*self),
    {
        match self {
            OutputFormat::CodeOnly =>
                "OUTPUT-HINT: Prefer code blocks. Minimize prose unless the user asks for explanation.",
            OutputFormat::DiffOnly => "OUTPUT-HINT: Prefer showing only changed lines as +/- diffs.",
            OutputFormat::ExplainConcise =>
                "OUTPUT-HINT: Brief summary, then code or data if relevant.",
            OutputFormat::Trace =>
                "OUTPUT-HINT: Show the chain from cause to effect with code references.",
            OutputFormat::StepList => "OUTPUT-HINT: Numbered action list, one step at a time.",
        }
    }
}

impl ThinkingBudget {
    /// The sentence that asks for this amount.
    pub fn instruction(&self) -> (r: &'static str)
        ensures
            r@ == budget_text(*self),
    {
        match self {
            ThinkingBudget::Minimal =>
                "THINKING: Skip analysis. The task is clear: generate code directly.",
            ThinkingBudget::Medium =>
                "THINKING: Two or three steps at most. Identify what to change, then act.",
            ThinkingBudget::Trace =>
                "THINKING: Short trace only. Identify the root cause, then generate the fix.",
            ThinkingBudget::Deep =>
                "THINKING: Analyze structure and dependencies. Summarize findings concisely.",
        }
    }
}

// ---------------------------------------------------------------------------
// The kind of work
// ---------------------------------------------------------------------------

/// The kinds of work in the order in which they are tried.
pub open spec fn task_order() -> Seq<TaskType> {
    seq![
        TaskType::Generate,
        TaskType::FixBug,
        TaskType::Refactor,
        TaskType::Explore,
        TaskType::Test,
        TaskType::Debug,
        TaskType::Config,
        TaskType::Deploy,
        TaskType::Review,
    ]
}

/// The single words that speak for a kind of work.
pub open spec fn cue_words(t: TaskType) -> Seq<Seq<char>> {
    match t {
        TaskType::Generate => seq![
            "add"@,
            "create"@,
            "implement"@,
            "build"@,
            "write"@,
            "generate"@,
            "make"@,
            "new"@,
        ],
        TaskType::FixBug => seq!["fix"@, "bug"@, "broken"@, "crash"@, "fails"@],
        TaskType::Refactor => seq![
            "refactor"@,
            "restructure"@,
            "rename"@,
            "move"@,
            "extract"@,
            "simplify"@,
            "split"@,
        ],
        TaskType::Explore => seq!["how"@, "what"@, "where"@, "explain"@, "understand"@, "describe"@],
        TaskType::Test => seq!["test"@, "tests"@, "spec"@, "coverage"@, "assert"@, "mock"@],
        TaskType::Debug => seq!["debug"@, "trace"@, "inspect"@, "log"@, "breakpoint"@],
        TaskType::Config => seq!["config"@, "configure"@, "setup"@, "install"@, "env"@, "settings"@],
        TaskType::Deploy => seq!["deploy"@, "release"@, "publish"@, "ship"@, "docker"@],
        TaskType::Review => seq!["review"@, "check"@, "audit"@, "evaluate"@, "assess"@],
    }
}

/// The phrases that speak for a kind of work, each as much as two words.
pub open spec fn cue_phrases(t: TaskType) -> Seq<Seq<char>> {
    match t {
        TaskType::Generate => seq!["new feature"@],
        TaskType::FixBug => seq!["error in"@, "not working"@, "wrong output"@],
        TaskType::Refactor => seq!["clean up"@],
        TaskType::Explore => seq!["show me"@, "why does"@],
        TaskType::Test => seq!["unit test"@, "integration test"@],
        TaskType::Debug => seq!["step through"@, "stack trace"@],
        TaskType::Config => seq![],
        TaskType::Deploy => seq![],
        TaskType::Review => seq!["look at"@],
    }
}

/// How much a word counts for a kind of work.
pub open spec fn cue_weight(t: TaskType) -> nat {
    match t {
        TaskType::FixBug => 95,
        TaskType::Generate | TaskType::Refactor | TaskType::Test | TaskType::Debug => 90,
        TaskType::Explore | TaskType::Config | TaskType::Deploy => 85,
        TaskType::Review => 80,
    }
}

/// How many of the cues are among the words.
pub open spec fn words_found(cues: Seq<Seq<char>>, among: Seq<Seq<char>>) -> nat
    decreases cues.len(),
{
    if cues.len() == 0 {
        0
    } else {
        words_found(cues.drop_last(), among) + if among.contains(cues.last()) {
            1nat
        } else {
            0nat
        }
    }
}

/// How many of the cues stand in the text.
pub open spec fn phrases_found(cues: Seq<Seq<char>>, text: Seq<char>) -> nat
    decreases cues.len(),
{
    if cues.len() == 0 {
        0
    } else {
        phrases_found(cues.drop_last(), text) + if occurs(text, cues.last()) {
            1nat
        } else {
            0nat
        }
    }
}

/// What speaks for a kind of work in a task in lower case: its cues, of which
/// more than two words' worth adds nothing.
pub open spec fn score(t: TaskType, task: Seq<char>) -> nat {
    let found = words_found(cue_words(t), words(task)) + 2 * phrases_found(cue_phrases(t), task);
    cue_weight(t) * if found < 2 {
        found
    } else {
        2nat
    }
}

/// The first of the first `n` kinds that nothing else speaks for more; the wish
/// to understand where nothing speaks for anything.
pub open spec fn best_of(n: nat, task: Seq<char>) -> TaskType
    decreases n,
{
    if n == 0 {
        TaskType::Explore
    } else {
        let before = best_of((n - 1) as nat, task);
        let t = task_order()[n - 1];
        if score(t, task) > best_score((n - 1) as nat, task) {
            t
        } else {
            before
        }
    }
}

/// The highest score of the first `n` kinds.
pub open spec fn best_score(n: nat, task: Seq<char>) -> nat
    decreases n,
{
    if n == 0 {
        0
    } else {
        let before = best_score((n - 1) as nat, task);
        let s = score(task_order()[n - 1], task);
        if s > before {
            s
        } else {
            before
        }
    }
}

/// The kind of work that a task asks for.
pub open spec fn kind_of(task: Seq<char>) -> TaskType {
    best_of(9, lowercase(task))
}

/// What a list of string slices holds, slice by slice.
pub open spec fn strs(v: Seq<&str>) -> Seq<Seq<char>> {
    v.map_values(|s: &str| s@)
}

/// The single words that speak for a kind of work.
fn words_for(t: TaskType) -> (r: Vec<&'static str>)
    ensures
        strs(r@) == cue_words(t),
{
    let r: Vec<&'static str> = match t {
        TaskType::Generate => vec!["add", "create", "implement", "build", "write", "generate", "make", "new"],
        TaskType::FixBug => vec!["fix", "bug", "broken", "crash", "fails"],
        TaskType::Refactor => vec!["refactor", "restructure", "rename", "move", "extract", "simplify", "split"],
        TaskType::Explore => vec!["how", "what", "where", "explain", "understand", "describe"],
        TaskType::Test => vec!["test", "tests", "spec", "coverage", "assert", "mock"],
        TaskType::Debug => vec!["debug", "trace", "inspect", "log", "breakpoint"],
        TaskType::Config => vec!["config", "configure", "setup", "install", "env", "settings"],
        TaskType::Deploy => vec!["deploy", "release", "publish", "ship", "docker"],
        TaskType::Review => vec!["review", "check", "audit", "evaluate", "assess"],
    };
    assert(strs(r@) =~= cue_words(t));
    r
}

/// The phrases that speak for a kind of work.
fn phrases_for(t: TaskType) -> (r: Vec<&'static str>)
    ensures
        strs(r@) == cue_phrases(t),
{
    let r: Vec<&'static str> = match t {
        TaskType::Generate => vec!["new feature"],
        TaskType::FixBug => vec!["error in", "not working", "wrong output"],
        TaskType::Refactor => vec!["clean up"],
        TaskType::Explore => vec!["show me", "why does"],
        TaskType::Test => vec!["unit test", "integration test"],
        TaskType::Debug => vec!["step through", "stack trace"],
        TaskType::Config => Vec::new(),
        TaskType::Deploy => Vec::new(),
        TaskType::Review => vec!["look at"],
    };
    assert(strs(r@) =~= cue_phrases(t));
    r
}

/// Whether a string is among the strings.
pub fn is_among(v: &Vec<String>, s: &str) -> (r: bool)
    ensures
        r == texts(v@).contains(s@),
{
    let mut i: usize = 0;
    while i < v.len()
        invariant
            i <= v@.len(),
            forall|j: int| 0 <= j < i ==> texts(v@)[j] != s@,
        decreases v@.len() - i,
    {
        assert(texts(v@)[i as int] == v@[i as int]@);
        if same_text(v[i].as_str(), s) {
            return true;
        }
        i += 1;
    }
    false
}

/// How many of the cues are among the words; at most one for each.
fn count_words(cues: &Vec<&'static str>, among: &Vec<String>) -> (r: usize)
    ensures
        r == words_found(strs(cues@), texts(among@)),
        r <= cues@.len(),
{
    let mut n: usize = 0;
    let mut i: usize = 0;
    while i < cues.len()
        invariant
            i <= cues@.len(),
            n <= i,
            n == words_found(strs(cues@).take(i as int), texts(among@)),
        decreases cues@.len() - i,
    {
        proof {
            let next = strs(cues@).take(i + 1);
            assert(next.drop_last() =~= strs(cues@).take(i as int));
            assert(next.last() == cues@[i as int]@);
        }
        if is_among(among, cues[i]) {
            n += 1;
        }
        i += 1;
    }
    assert(strs(cues@).take(i as int) =~= strs(cues@));
    n
}

/// How many of the cues stand in the text; at most one for each.
fn count_phrases(cues: &Vec<&'static str>, text: &str) -> (r: usize)
    ensures
        r == phrases_found(strs(cues@), text@),
        r <= cues@.len(),
{
    let mut n: usize = 0;
    let mut i: usize = 0;
    while i < cues.len()
        invariant
            i <= cues@.len(),
            n <= i,
            n == phrases_found(strs(cues@).take(i as int), text@),
        decreases cues@.len() - i,
    {
        proof {
            let next = strs(cues@).take(i + 1);
            assert(next.drop_last() =~= strs(cues@).take(i as int));
            assert(next.last() == cues@[i as int]@);
        }
        if contains_text(text, cues[i]) {
            n += 1;
        }
        i += 1;
    }
    assert(strs(cues@).take(i as int) =~= strs(cues@));
    n
}

/// How much a word counts for a kind of work.
fn weight_of(t: TaskType) -> (r: usize)
    ensures
        r == cue_weight(t),
{
    match t {
        TaskType::FixBug => 95,
        TaskType::Generate | TaskType::Refactor | TaskType::Test | TaskType::Debug => 90,
        TaskType::Explore | TaskType::Config | TaskType::Deploy => 85,
        TaskType::Review => 80,
    }
}

/// What speaks for a kind of work in a task in lower case.
fn score_of(t: TaskType, task: &str, task_words: &Vec<String>) -> (r: usize)
    requires
        texts(task_words@) == words(task@),
    ensures
        r == score(t, task@),
        r <= 190,
{
    let single = count_words(&words_for(t), task_words);
    let phrases = count_phrases(&phrases_for(t), task);
    let found: usize = if phrases > 0 || single >= 2 {
        2
    } else {
        single
    };
    let weight = weight_of(t);
    assert(weight * found <= 190) by (nonlinear_arith)
        requires
            weight <= 95,
            found <= 2,
    ;
    weight * found
}

/// The kind of work that a task asks for.
pub fn classify_kind(task: &str) -> (r: TaskType)
    ensures
        r == kind_of(task@),
{
    let lower = to_lowercase(task);
    let task_words = split_words(lower.as_str());
    let order: [TaskType; 9] = [
        TaskType::Generate,
        TaskType::FixBug,
        TaskType::Refactor,
        TaskType::Explore,
        TaskType::Test,
        TaskType::Debug,
        TaskType::Config,
        TaskType::Deploy,
        TaskType::Review,
    ];
    let mut best = TaskType::Explore;
    let mut highest: usize = 0;
    let mut i: usize = 0;
    assert(order@ =~= task_order());
    while i < 9
        invariant
            i <= 9,
            order@ == task_order(),
            lower@ == lowercase(task@),
            texts(task_words@) == words(lower@),
            best == best_of(i as nat, lower@),
            highest == best_score(i as nat, lower@),
        decreases 9 - i,
    {
        let s = score_of(order[i], lower.as_str(), &task_words);
        if s > highest {
            highest = s;
            best = order[i];
        }
        i += 1;
    }
    best
}

/// Nothing speaks for another kind of work more than for the one that is told.
pub proof fn kind_has_the_highest_score(task: Seq<char>, t: TaskType)
    ensures
        score(t, lowercase(task)) <= best_score(9, lowercase(task)),
        best_score(9, lowercase(task)) > 0 ==> score(kind_of(task), lowercase(task)) == best_score(
            9,
            lowercase(task),
        ),
        best_score(9, lowercase(task)) == 0 ==> kind_of(task) is Explore,
{
    reveal_with_fuel(best_of, 10);
    reveal_with_fuel(best_score, 10);
    assert(exists|i: int| 0 <= i < 9 && task_order()[i] == t) by {
        assert(task_order()[0] is Generate);
        assert(task_order()[1] is FixBug);
        assert(task_order()[2] is Refactor);
        assert(task_order()[3] is Explore);
        assert(task_order()[4] is Test);
        assert(task_order()[5] is Debug);
        assert(task_order()[6] is Config);
        assert(task_order()[7] is Deploy);
        assert(task_order()[8] is Review);
    }
}

// ---------------------------------------------------------------------------
// What a task names
// ---------------------------------------------------------------------------

/// A character that a name may start and end with.
pub open spec fn is_name_char(c: char) -> bool {
    'a' <= c <= 'z' || 'A' <= c <= 'Z' || '0' <= c <= '9' || c == '_'
}

fn name_char(c: char) -> (r: bool)
    ensures
        r == is_name_char(c),
{
    ('a' <= c && c <= 'z') || ('A' <= c && c <= 'Z') || ('0' <= c && c <= '9') || c == '_'
}

/// A word without the punctuation before it.
pub open spec fn bare_start(w: Seq<char>) -> Seq<char>
    decreases w.len(),
{
    if w.len() > 0 && !is_name_char(w[0]) {
        bare_start(w.skip(1))
    } else {
        w
    }
}

/// A word without the punctuation after it.
pub open spec fn bare_end(w: Seq<char>) -> Seq<char>
    decreases w.len(),
{
    if w.len() > 0 && !is_name_char(w.last()) {
        bare_end(w.drop_last())
    } else {
        w
    }
}

/// A word without the punctuation around it.
pub open spec fn bare(w: Seq<char>) -> Seq<char> {
    bare_end(bare_start(w))
}

/// A word that names a file or an item of code: one with a dot or an underscore in it.
pub open spec fn is_target(w: Seq<char>) -> bool {
    w.len() > 3 && (w.contains('.') || w.contains('_'))
}

/// What the words name, each once, in the order in which it comes first.
pub open spec fn targets_among(ws: Seq<Seq<char>>) -> Seq<Seq<char>>
    decreases ws.len(),
{
    if ws.len() == 0 {
        seq![]
    } else {
        let before = targets_among(ws.drop_last());
        let w = bare(ws.last());
        if is_target(w) && !before.contains(w) {
            before.push(w)
        } else {
            before
        }
    }
}

/// What a task names.
pub open spec fn targets_of(task: Seq<char>) -> Seq<Seq<char>> {
    targets_among(words(task))
}

/// The word without the punctuation around it.
fn strip_punctuation(w: &str) -> (r: String)
    ensures
        r@ == bare(w@),
{
    let cs = chars_of(w);
    let mut from: usize = 0;
    assert(w@.skip(0) =~= w@);
    while from < cs.len() && !name_char(cs[from])
        invariant
            from <= cs@.len(),
            cs@ == w@,
            bare_start(w@) == bare_start(w@.skip(from as int)),
        decreases cs@.len() - from,
    {
        assert(w@.skip(from as int).skip(1) =~= w@.skip(from + 1));
        from += 1;
    }
    let mut to: usize = cs.len();
    assert(w@.subrange(from as int, to as int) =~= w@.skip(from as int));
    while from < to && !name_char(cs[to - 1])
        invariant
            from <= to <= cs@.len(),
            cs@ == w@,
            bare(w@) == bare_end(w@.subrange(from as int, to as int)),
        decreases to - from,
    {
        assert(w@.subrange(from as int, to as int).drop_last() =~= w@.subrange(
            from as int,
            to - 1,
        ));
        to -= 1;
    }
    string_of(&cs, from, to)
}

/// Whether a word names a file or an item of code.
fn names_target(w: &str) -> (r: bool)
    ensures
        r == is_target(w@),
{
    let cs = chars_of(w);
    let mut found = false;
    let mut i: usize = 0;
    while i < cs.len()
        invariant
            i <= cs@.len(),
            cs@ == w@,
            found == exists|j: int| 0 <= j < i && (w@[j] == '.' || w@[j] == '_'),
        decreases cs@.len() - i,
    {
        if cs[i] == '.' || cs[i] == '_' {
            found = true;
        }
        i += 1;
    }
    assert(found ==> w@.contains('.') || w@.contains('_'));
    cs.len() > 3 && found
}

/// What a task names, each once, in the order in which it comes first.
pub fn extract_targets(task: &str) -> (r: Vec<String>)
    ensures
        texts(r@) == targets_of(task@),
{
    let ws = split_words(task);
    let mut r: Vec<String> = Vec::new();
    let mut i: usize = 0;
    assert(texts(r@) =~= seq![]);
    while i < ws.len()
        invariant
            i <= ws@.len(),
            texts(r@) == targets_among(texts(ws@).take(i as int)),
        decreases ws@.len() - i,
    {
        let w = strip_punctuation(ws[i].as_str());
        proof {
            let next = texts(ws@).take(i + 1);
            assert(next.drop_last() =~= texts(ws@).take(i as int));
            assert(next.last() == ws@[i as int]@);
        }
        if names_target(w.as_str()) && !is_among(&r, w.as_str()) {
            let ghost before = texts(r@);
            r.push(w);
            assert(texts(r@) =~= before.push(w@));
        }
        i += 1;
    }
    assert(texts(ws@).take(i as int) =~= texts(ws@));
    r
}

/// What a task asks for and what it names.
pub fn classify(task: &str) -> (r: TaskClassification)
    ensures
        r.task_type == kind_of(task@),
        texts(r.targets@) == targets_of(task@),
{
    TaskClassification { task_type: classify_kind(task), targets: extract_targets(task) }
}

/// No target comes twice.
pub proof fn targets_come_once(ws: Seq<Seq<char>>)
    ensures
        targets_among(ws).no_duplicates(),
        forall|i: int|
            0 <= i < targets_among(ws).len() ==> is_target(#[trigger] targets_among(ws)[i]),
    decreases ws.len(),
{
    if ws.len() > 0 {
        targets_come_once(ws.drop_last());
    }
}

} // verus!
