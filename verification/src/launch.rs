//! Launch plans: the ordered candidates for starting the bridge.

use vstd::prelude::*;
use vstd::string::*;

verus! {

/// Whether `c` has the Unicode property `White_Space`.
pub open spec fn is_space(c: char) -> bool {
    let u = c as u32;
    (0x09 <= u <= 0x0D) || u == 0x20 || u == 0x85 || u == 0xA0 || u == 0x1680 || (0x2000 <= u
        <= 0x200A) || u == 0x2028 || u == 0x2029 || u == 0x202F || u == 0x205F || u == 0x3000
}

/// Decides whether `c` is white space.
pub fn is_whitespace(c: char) -> (r: bool)
    ensures
        r == is_space(c),
{
    let u: u32 = c as u32;
    (0x09 <= u && u <= 0x0D) || u == 0x20 || u == 0x85 || u == 0xA0 || u == 0x1680 || (0x2000 <= u
        && u <= 0x200A) || u == 0x2028 || u == 0x2029 || u == 0x202F || u == 0x205F || u == 0x3000
}

/// Reading `s` from the left: the words already closed by white space, and
/// the index at which the word still open begins (`s.len()` when none is).
pub open spec fn scan(s: Seq<char>) -> (Seq<Seq<char>>, int)
    decreases s.len(),
{
    if s.len() == 0 {
        (Seq::empty(), 0)
    } else {
        let before = s.drop_last();
        let (closed, start) = scan(before);
        if is_space(s.last()) {
            if start < before.len() {
                (closed.push(before.subrange(start, before.len() as int)), s.len() as int)
            } else {
                (closed, s.len() as int)
            }
        } else {
            (closed, if start < before.len() { start } else { before.len() as int })
        }
    }
}

/// The words of `s`: its maximal runs of characters that are not white
/// space, from left to right.
pub open spec fn words(s: Seq<char>) -> Seq<Seq<char>> {
    let (closed, start) = scan(s);
    if start < s.len() {
        closed.push(s.subrange(start, s.len() as int))
    } else {
        closed
    }
}

/// The views of a sequence of strings.
pub open spec fn texts(v: Seq<String>) -> Seq<Seq<char>> {
    Seq::new(v.len(), |i: int| v[i]@)
}

/// The open word of a scan begins inside the text or at its end, and holds
/// no white space.
pub proof fn lemma_scan_bounds(s: Seq<char>)
    ensures
        0 <= scan(s).1 <= s.len(),
        forall|k: int| scan(s).1 <= k < s.len() ==> !is_space(#[trigger] s[k]),
        forall|j: int|
            0 <= j < scan(s).0.len() ==> (#[trigger] scan(s).0[j]).len() > 0 && forall|k: int|
                0 <= k < scan(s).0[j].len() ==> !is_space(#[trigger] scan(s).0[j][k]),
    decreases s.len(),
{
    if s.len() > 0 {
        let before = s.drop_last();
        lemma_scan_bounds(before);
        let (closed, start) = scan(before);
        assert forall|k: int| scan(s).1 <= k < s.len() implies !is_space(#[trigger] s[k]) by {
            if k < before.len() {
                assert(s[k] == before[k]);
            }
        }
        if is_space(s.last()) && start < before.len() {
            let w = before.subrange(start, before.len() as int);
            assert forall|k: int| 0 <= k < w.len() implies !is_space(#[trigger] w[k]) by {
                assert(w[k] == before[start + k]);
            }
        }
    }
}

/// Every word is non-empty and free of white space.
pub proof fn lemma_words_are_solid(s: Seq<char>)
    ensures
        forall|j: int|
            0 <= j < words(s).len() ==> (#[trigger] words(s)[j]).len() > 0 && forall|k: int|
                0 <= k < words(s)[j].len() ==> !is_space(#[trigger] words(s)[j][k]),
{
    lemma_scan_bounds(s);
    let (closed, start) = scan(s);
    if start < s.len() {
        let w = s.subrange(start, s.len() as int);
        assert forall|k: int| 0 <= k < w.len() implies !is_space(#[trigger] w[k]) by {
            assert(w[k] == s[start + k]);
        }
    }
}

/// A text of white space alone has no words.
pub proof fn lemma_blank_has_no_words(s: Seq<char>)
    requires
        forall|k: int| 0 <= k < s.len() ==> is_space(#[trigger] s[k]),
    ensures
        scan(s) == (Seq::<Seq<char>>::empty(), s.len() as int),
        words(s).len() == 0,
    decreases s.len(),
{
    if s.len() > 0 {
        let before = s.drop_last();
        assert forall|k: int| 0 <= k < before.len() implies is_space(#[trigger] before[k]) by {
            assert(before[k] == s[k]);
        }
        lemma_blank_has_no_words(before);
    }
}

/// A non-empty text without white space is one word: itself.
pub proof fn lemma_solid_text_is_one_word(s: Seq<char>)
    requires
        s.len() > 0,
        forall|k: int| 0 <= k < s.len() ==> !is_space(#[trigger] s[k]),
    ensures
        words(s) == seq![s],
{
    lemma_solid_scan(s);
    assert(s.subrange(0, s.len() as int) =~= s);
    assert(Seq::<Seq<char>>::empty().push(s) =~= seq![s]);
}

/// Reading a text without white space closes no word and leaves the open
/// word at the start.
proof fn lemma_solid_scan(s: Seq<char>)
    requires
        forall|k: int| 0 <= k < s.len() ==> !is_space(#[trigger] s[k]),
    ensures
        scan(s) == (Seq::<Seq<char>>::empty(), 0int),
    decreases s.len(),
{
    if s.len() > 0 {
        let before = s.drop_last();
        assert forall|k: int| 0 <= k < before.len() implies !is_space(#[trigger] before[k]) by {
            assert(before[k] == s[k]);
        }
        lemma_solid_scan(before);
        assert(s.last() == s[s.len() - 1]);
    }
}

/// Reading on behind a white space starts afresh: the words closed so far
/// are the words of what stands before it.
proof fn lemma_scan_behind_space(a: Seq<char>, c: char, b: Seq<char>)
    requires
        is_space(c),
    ensures
        scan(a.push(c) + b).0 == words(a) + scan(b).0,
        scan(a.push(c) + b).1 == a.len() + 1 + scan(b).1,
    decreases b.len(),
{
    let head = a.push(c);
    lemma_scan_bounds(a);
    if b.len() == 0 {
        assert(head + b =~= head);
        assert(head.drop_last() =~= a);
        assert(words(a) + Seq::<Seq<char>>::empty() =~= words(a));
    } else {
        let shorter = b.drop_last();
        lemma_scan_behind_space(a, c, shorter);
        lemma_scan_bounds(shorter);
        let whole = head + b;
        assert(whole.drop_last() =~= head + shorter);
        assert(whole.last() == b.last());
        let inner = scan(shorter).1;
        assert((head + shorter).subrange(head.len() + inner, (head + shorter).len() as int)
            =~= shorter.subrange(inner, shorter.len() as int));
        if is_space(b.last()) && inner < shorter.len() {
            assert(scan(whole).0 =~= words(a) + scan(b).0);
        }
    }
}

/// White space separates: the words of a text with a white space in it are
/// the words before that white space followed by the words behind it.
pub proof fn lemma_words_split_at_space(a: Seq<char>, c: char, b: Seq<char>)
    requires
        is_space(c),
    ensures
        words(a.push(c) + b) == words(a) + words(b),
{
    lemma_scan_behind_space(a, c, b);
    lemma_scan_bounds(b);
    let whole = a.push(c) + b;
    let inner = scan(b).1;
    if inner < b.len() {
        assert(whole.subrange(a.len() + 1 + inner, whole.len() as int) =~= b.subrange(
            inner,
            b.len() as int,
        ));
        assert(words(whole) =~= words(a) + words(b));
    }
}

/// Splits `line` into its words, as command lines without quoting are split.
pub fn split_words(line: &str) -> (r: Vec<String>)
    ensures
        texts(r@) == words(line@),
{
    let n: usize = line.unicode_len();
    let mut out: Vec<String> = Vec::new();
    let mut start: usize = 0;
    let mut i: usize = 0;
    assert(line@.take(0) =~= Seq::<char>::empty());
    assert(texts(out@) =~= Seq::<Seq<char>>::empty());
    while i < n
        invariant
            n == line@.len(),
            0 <= start <= i <= n,
            scan(line@.take(i as int)).0 == texts(out@),
            scan(line@.take(i as int)).1 == start,
        decreases n - i,
    {
        let c: char = line.get_char(i);
        proof {
            let cur = line@.take(i as int + 1);
            assert(cur.drop_last() =~= line@.take(i as int));
            assert(cur.last() == line@[i as int]);
            assert(line@.take(i as int).subrange(start as int, i as int) =~= line@.subrange(
                start as int,
                i as int,
            ));
        }
        if is_whitespace(c) {
            if start < i {
                let word = String::from_str(line.substring_char(start, i));
                let ghost before = out@;
                out.push(word);
                assert(texts(out@) =~= texts(before).push(word@));
            }
            start = i + 1;
        } else {
            if start >= i {
                start = i;
            }
        }
        i = i + 1;
    }
    assert(line@.take(n as int) =~= line@);
    if start < n {
        let word = String::from_str(line.substring_char(start, n));
        let ghost before = out@;
        out.push(word);
        assert(texts(out@) =~= texts(before).push(word@));
    }
    out
}

/// Which of the fixed launch strategies a plan comes from, in priority order.
#[derive(Debug, Clone, Copy, PartialEq, Eq, Structural)]
pub enum Strategy {
    /// The command line supplied by the environment.
    Override,
    /// The built entry point inside the project, run by the interpreter.
    LocalBuild,
    /// The built entry point one directory up, run by the interpreter.
    SiblingBuild,
    /// The package manager's dev task against the project's subdirectory.
    DevTaskLocal,
    /// The package manager's dev task against the directory one level up.
    DevTaskSibling,
}

/// One candidate way to start the bridge: a program and its arguments.
#[derive(Debug, Clone, PartialEq, Eq)]
pub struct LaunchPlan {
    pub strategy: Strategy,
    pub program: String,
    pub args: Vec<String>,
}

/// A launch plan as plain mathematical data.
pub struct PlanModel {
    pub strategy: Strategy,
    pub program: Seq<char>,
    pub args: Seq<Seq<char>>,
}

impl View for LaunchPlan {
    type V = PlanModel;

    open spec fn view(&self) -> PlanModel {
        PlanModel { strategy: self.strategy, program: self.program@, args: texts(self.args@) }
    }
}

/// The views of a sequence of plans.
pub open spec fn plan_models(v: Seq<LaunchPlan>) -> Seq<PlanModel> {
    Seq::new(v.len(), |i: int| v[i]@)
}

/// What the caller found in its surroundings before launching.
#[derive(Debug, Clone, PartialEq, Eq)]
pub struct SpawnEnvironment {
    /// The override command line, when the environment supplies one.
    pub override_command: Option<String>,
    /// The absolute path of the built entry point inside the project, when
    /// it exists.
    pub local_entry: Option<String>,
    /// The absolute path of the built entry point one directory up, when it
    /// exists.
    pub sibling_entry: Option<String>,
    /// Whether the platform runs the package manager through its command
    /// shell.
    pub shell_wrapped: bool,
}

/// The surroundings as plain mathematical data.
pub struct EnvironmentModel {
    pub override_command: Option<Seq<char>>,
    pub local_entry: Option<Seq<char>>,
    pub sibling_entry: Option<Seq<char>>,
    pub shell_wrapped: bool,
}

/// The view of an optional string.
pub open spec fn opt_text(s: Option<String>) -> Option<Seq<char>> {
    match s {
        Some(t) => Some(t@),
        None => None,
    }
}

impl View for SpawnEnvironment {
    type V = EnvironmentModel;

    open spec fn view(&self) -> EnvironmentModel {
        EnvironmentModel {
            override_command: opt_text(self.override_command),
            local_entry: opt_text(self.local_entry),
            sibling_entry: opt_text(self.sibling_entry),
            shell_wrapped: self.shell_wrapped,
        }
    }
}

/// The plan of the override strategy: the first word is the program, the
/// others its arguments. There is none when the command line is absent or
/// has no word.
pub open spec fn override_plan(command: Option<Seq<char>>) -> Seq<PlanModel> {
    match command {
        Some(line) if words(line).len() > 0 => seq![
            PlanModel {
                strategy: Strategy::Override,
                program: words(line)[0],
                args: words(line).skip(1),
            },
        ],
        _ => Seq::empty(),
    }
}

/// The plan that runs a built entry point by the interpreter, when the entry
/// point was found.
pub open spec fn build_plan(strategy: Strategy, entry: Option<Seq<char>>) -> Seq<PlanModel> {
    match entry {
        Some(path) => seq![PlanModel { strategy, program: "node"@, args: seq![path] }],
        None => Seq::empty(),
    }
}

/// The plan that runs the package manager's dev task against `prefix`.
pub open spec fn dev_task_plan(strategy: Strategy, shell_wrapped: bool, prefix: Seq<char>)
    -> PlanModel {
    if shell_wrapped {
        PlanModel {
            strategy,
            program: "cmd"@,
            args: seq!["/C"@, "pnpm"@, "--prefix"@, prefix, "dev"@],
        }
    } else {
        PlanModel { strategy, program: "pnpm"@, args: seq!["--prefix"@, prefix, "dev"@] }
    }
}

/// The directory of the sibling project, in the platform's spelling.
pub open spec fn sibling_prefix(shell_wrapped: bool) -> Seq<char> {
    if shell_wrapped {
        "..\\bridge"@
    } else {
        "../bridge"@
    }
}

/// All launch plans for `env`, highest priority first.
pub open spec fn candidate_models(env: EnvironmentModel) -> Seq<PlanModel> {
    override_plan(env.override_command) + build_plan(Strategy::LocalBuild, env.local_entry)
        + build_plan(Strategy::SiblingBuild, env.sibling_entry) + seq![
        dev_task_plan(Strategy::DevTaskLocal, env.shell_wrapped, "bridge"@),
        dev_task_plan(
            Strategy::DevTaskSibling,
            env.shell_wrapped,
            sibling_prefix(env.shell_wrapped),
        ),
    ]
}

/// The place of a strategy in the priority order: lower comes first.
pub open spec fn rank(strategy: Strategy) -> nat {
    match strategy {
        Strategy::Override => 0,
        Strategy::LocalBuild => 1,
        Strategy::SiblingBuild => 2,
        Strategy::DevTaskLocal => 3,
        Strategy::DevTaskSibling => 4,
    }
}

/// The launch plans stand in strict priority order, each strategy at most
/// once, and the two dev tasks are always among them.
pub proof fn lemma_candidates_in_priority_order(env: EnvironmentModel)
    ensures
        2 <= candidate_models(env).len() <= 5,
        forall|i: int, j: int|
            0 <= i < j < candidate_models(env).len() ==> rank(
                (#[trigger] candidate_models(env)[i]).strategy,
            ) < rank((#[trigger] candidate_models(env)[j]).strategy),
        candidate_models(env).last().strategy == Strategy::DevTaskSibling,
{
    let a = override_plan(env.override_command);
    let b = build_plan(Strategy::LocalBuild, env.local_entry);
    let c = build_plan(Strategy::SiblingBuild, env.sibling_entry);
    let all = candidate_models(env);
    assert(a.len() <= 1 && b.len() <= 1 && c.len() <= 1);
    assert forall|k: int| 0 <= k < all.len() implies rank((#[trigger] all[k]).strategy) == (if k
        < a.len() {
        0nat
    } else if k < a.len() + b.len() {
        1nat
    } else if k < a.len() + b.len() + c.len() {
        2nat
    } else if k == a.len() + b.len() + c.len() {
        3nat
    } else {
        4nat
    }) by {}
}

/// An override command line with at least one word gives the first plan: its
/// first word is the program and the other words are the arguments.
pub proof fn lemma_override_comes_first(env: EnvironmentModel)
    requires
        env.override_command matches Some(line) && words(line).len() > 0,
    ensures
        candidate_models(env)[0] == (PlanModel {
            strategy: Strategy::Override,
            program: words(env.override_command.unwrap())[0],
            args: words(env.override_command.unwrap()).skip(1),
        }),
{
}

/// Builds the plan for the package manager's dev task against `prefix`.
pub fn dev_task(strategy: Strategy, shell_wrapped: bool, prefix: &str) -> (r: LaunchPlan)
    ensures
        r@ == dev_task_plan(strategy, shell_wrapped, prefix@),
{
    let mut args: Vec<String> = Vec::new();
    let program = if shell_wrapped {
        args.push(String::from_str("/C"));
        args.push(String::from_str("pnpm"));
        String::from_str("cmd")
    } else {
        String::from_str("pnpm")
    };
    args.push(String::from_str("--prefix"));
    args.push(String::from_str(prefix));
    args.push(String::from_str("dev"));
    let plan = LaunchPlan { strategy, program, args };
    assert(plan@.args =~= dev_task_plan(strategy, shell_wrapped, prefix@).args);
    plan
}

/// Builds the plan that runs the entry point at `path` by the interpreter.
pub fn run_build(strategy: Strategy, path: &str) -> (r: LaunchPlan)
    ensures
        build_plan(strategy, Some(path@)) == seq![r@],
{
    let mut args: Vec<String> = Vec::new();
    args.push(String::from_str(path));
    let plan = LaunchPlan { strategy, program: String::from_str("node"), args };
    assert(plan@.args =~= seq![path@]);
    plan
}

/// Builds the plan of the override strategy from a command line, if the
/// line has a word.
pub fn parse_override(line: &str) -> (r: Option<LaunchPlan>)
    ensures
        r is Some <==> words(line@).len() > 0,
        match r {
            Some(plan) => override_plan(Some(line@)) == seq![plan@],
            None => override_plan(Some(line@)) == Seq::<PlanModel>::empty(),
        },
{
    let mut parts = split_words(line);
    if parts.len() == 0 {
        assert(texts(parts@).len() == 0);
        None
    } else {
        let ghost all = parts@;
        assert(texts(all).len() == all.len());
        let program = parts.remove(0);
        assert(texts(parts@) =~= words(line@).skip(1));
        assert(texts(all)[0] == program@);
        let plan = LaunchPlan { strategy: Strategy::Override, program, args: parts };
        Some(plan)
    }
}

/// Lists the launch plans for `env`, highest priority first.
pub fn candidates(env: &SpawnEnvironment) -> (r: Vec<LaunchPlan>)
    ensures
        plan_models(r@) == candidate_models(env@),
{
    let mut out: Vec<LaunchPlan> = Vec::new();
    assert(plan_models(out@) =~= Seq::<PlanModel>::empty());
    if let Some(line) = &env.override_command {
        if let Some(plan) = parse_override(line.as_str()) {
            out.push(plan);
        }
    }
    assert(plan_models(out@) =~= override_plan(env@.override_command));
    if let Some(path) = &env.local_entry {
        out.push(run_build(Strategy::LocalBuild, path.as_str()));
    }
    assert(plan_models(out@) =~= override_plan(env@.override_command) + build_plan(
        Strategy::LocalBuild,
        env@.local_entry,
    ));
    if let Some(path) = &env.sibling_entry {
        out.push(run_build(Strategy::SiblingBuild, path.as_str()));
    }
    assert(plan_models(out@) =~= override_plan(env@.override_command) + build_plan(
        Strategy::LocalBuild,
        env@.local_entry,
    ) + build_plan(Strategy::SiblingBuild, env@.sibling_entry));
    out.push(dev_task(Strategy::DevTaskLocal, env.shell_wrapped, "bridge"));
    let up = if env.shell_wrapped {
        "..\\bridge"
    } else {
        "../bridge"
    };
    out.push(dev_task(Strategy::DevTaskSibling, env.shell_wrapped, up));
    assert(plan_models(out@) =~= candidate_models(env@));
    out
}

} // verus!
