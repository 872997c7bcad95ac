use vstd::prelude::*;
use vstd::string::*;

use crate::error::TaskError;
use crate::model::EnvVar;
use crate::model::Task;
use crate::model::VarValue;
use crate::subst::all_scalar;
use crate::subst::spec_substitute;
use crate::subst::substitute_command;
use crate::text::chars_string;
use crate::text::find_char;
use crate::text::index_of_first;
use crate::text::split_sep;
use crate::text::split_string;
use crate::text::str_chars;
use crate::text::str_eq;

verus! {

// ---------------------------------------------------------------------------
// Environment assembly
// ---------------------------------------------------------------------------

/// The views of a list of environment pairs.
pub open spec fn env_pairs(vars: Seq<EnvVar>) -> Seq<(Seq<char>, Seq<char>)> {
    vars.map_values(|v: EnvVar| (v.name@, v.value@))
}

/// The environment a list of pairs builds up, inserted in order: for a name
/// bound more than once, the last binding wins.
pub open spec fn env_map(pairs: Seq<(Seq<char>, Seq<char>)>) -> Map<Seq<char>, Seq<char>>
    decreases pairs.len(),
{
    if pairs.len() == 0 {
        Map::empty()
    } else {
        env_map(pairs.drop_last()).insert(pairs.last().0, pairs.last().1)
    }
}

/// The last binding of a name decides its value in the environment.
pub proof fn lemma_env_map_last(pairs: Seq<(Seq<char>, Seq<char>)>, j: int)
    requires
        0 <= j < pairs.len(),
        forall|k: int| j < k < pairs.len() ==> (#[trigger] pairs[k]).0 != pairs[j].0,
    ensures
        env_map(pairs).contains_key(pairs[j].0),
        env_map(pairs)[pairs[j].0] == pairs[j].1,
    decreases pairs.len(),
{
    if j == pairs.len() - 1 {
    } else {
        assert(pairs.drop_last()[j] == pairs[j]);
        assert forall|k: int| j < k < pairs.drop_last().len() implies (#[trigger] pairs.drop_last()[
            k
        ]).0 != pairs.drop_last()[j].0 by {
            assert(pairs.drop_last()[k] == pairs[k]);
        }
        lemma_env_map_last(pairs.drop_last(), j);
    }
}

/// Dotenv pairs are read after the inline ones, so in the merged environment
/// a dotenv binding overrides an inline binding of the same name.
pub proof fn lemma_dotenv_overrides(
    inline: Seq<(Seq<char>, Seq<char>)>,
    dotenv: Seq<(Seq<char>, Seq<char>)>,
    j: int,
)
    requires
        0 <= j < dotenv.len(),
        forall|k: int| j < k < dotenv.len() ==> (#[trigger] dotenv[k]).0 != dotenv[j].0,
    ensures
        env_map(inline + dotenv).contains_key(dotenv[j].0),
        env_map(inline + dotenv)[dotenv[j].0] == dotenv[j].1,
{
    let all = inline + dotenv;
    let p = inline.len() + j;
    assert(all[p] == dotenv[j]);
    assert forall|k: int| p < k < all.len() implies (#[trigger] all[k]).0 != all[p].0 by {
        assert(all[k] == dotenv[k - inline.len()]);
    }
    lemma_env_map_last(all, p);
}

// ---------------------------------------------------------------------------
// Dotenv parsing
// ---------------------------------------------------------------------------

/// Every non-empty line carries an `=` separator.
pub open spec fn dotenv_ok(lines: Seq<Seq<char>>) -> bool {
    forall|i: int|
        0 <= i < lines.len() ==> (#[trigger] lines[i]).len() == 0 || index_of_first(lines[i], '=')
            is Some
}

/// The pairs of a dotenv file, line order kept: per non-empty line the name
/// before the first `=` and the value after it; empty lines contribute none.
pub open spec fn dotenv_pairs(lines: Seq<Seq<char>>) -> Seq<(Seq<char>, Seq<char>)>
    recommends
        dotenv_ok(lines),
    decreases lines.len(),
{
    if lines.len() == 0 {
        Seq::empty()
    } else {
        let rest = dotenv_pairs(lines.drop_last());
        let line = lines.last();
        if line.len() == 0 {
            rest
        } else {
            match index_of_first(line, '=') {
                Some(j) => rest.push((line.take(j), line.skip(j + 1))),
                None => rest,
            }
        }
    }
}

fn sub_chars(v: &Vec<char>, a: usize, b: usize) -> (r: Vec<char>)
    requires
        a <= b <= v@.len(),
    ensures
        r@ == v@.subrange(a as int, b as int),
{
    let mut r: Vec<char> = Vec::new();
    let mut i: usize = a;
    while i < b
        invariant
            a <= i <= b <= v@.len(),
            r@ == v@.subrange(a as int, i as int),
        decreases b - i,
    {
        r.push(v[i]);
        proof {
            assert(v@.subrange(a as int, i + 1 as int) =~= v@.subrange(a as int, i as int).push(
                v@[i as int],
            ));
        }
        i += 1;
    }
    r
}

/// Parses dotenv text: one `NAME=value` pair per non-empty line, the name
/// before the first `=` and the value everything after it. Empty lines are
/// ignored; a non-empty line without `=` is a fatal parse error.
pub fn parse_dotenv(contents: &str) -> (r: Result<Vec<EnvVar>, TaskError>)
    ensures
        match r {
            Ok(pairs) => dotenv_ok(split_sep(contents@, '\n')) && env_pairs(pairs@) == dotenv_pairs(
                split_sep(contents@, '\n'),
            ),
            Err(e) => e == TaskError::DotenvParseError && !dotenv_ok(split_sep(contents@, '\n')),
        },
{
    let lines = split_string(contents, '\n');
    let ghost linesdv = lines.deep_view();
    let mut out: Vec<EnvVar> = Vec::new();
    let mut i: usize = 0;
    proof {
        assert(env_pairs(out@) =~= dotenv_pairs(linesdv.take(0)));
    }
    while i < lines.len()
        invariant
            i <= lines@.len(),
            linesdv == lines.deep_view(),
            linesdv.len() == lines@.len(),
            linesdv == split_sep(contents@, '\n'),
            dotenv_ok(linesdv.take(i as int)),
            env_pairs(out@) == dotenv_pairs(linesdv.take(i as int)),
        decreases lines@.len() - i,
    {
        let chars = str_chars(lines[i].as_str());
        proof {
            assert(chars@ == linesdv[i as int]);
        }
        if chars.len() > 0 {
            match find_char(&chars, '=') {
                Some(j) => {
                    let name = chars_string(&sub_chars(&chars, 0, j));
                    let value = chars_string(&sub_chars(&chars, j + 1, chars.len()));
                    let ghost out0 = out@;
                    out.push(EnvVar { name, value });
                    proof {
                        assert(name@ =~= linesdv[i as int].take(j as int));
                        assert(value@ =~= linesdv[i as int].skip(j + 1));
                        assert(env_pairs(out@) =~= env_pairs(out0).push((name@, value@)));
                    }
                },
                None => {
                    proof {
                        assert(!(linesdv[i as int].len() == 0 || index_of_first(
                            linesdv[i as int],
                            '=',
                        ) is Some));
                    }
                    return Err(TaskError::DotenvParseError);
                },
            }
        }
        proof {
            assert(linesdv.take(i + 1 as int).drop_last() =~= linesdv.take(i as int));
            assert(linesdv.take(i + 1 as int).last() == linesdv[i as int]);
            assert forall|k: int| 0 <= k < i + 1 implies (#[trigger] linesdv.take(i + 1 as int)[k]).len()
                == 0 || index_of_first(linesdv.take(i + 1 as int)[k], '=') is Some by {
                assert(linesdv.take(i + 1 as int)[k] == linesdv[k]);
                if k < i {
                    assert(linesdv.take(i as int)[k] == linesdv[k]);
                }
            }
        }
        i += 1;
    }
    proof {
        assert(linesdv.take(linesdv.len() as int) =~= linesdv);
    }
    Ok(out)
}

// ---------------------------------------------------------------------------
// Platform gate
// ---------------------------------------------------------------------------

/// ASCII lowercase of one character.
pub open spec fn lower_char(c: char) -> char {
    if 'A' <= c && c <= 'Z' {
        ((c as u8) + 32) as char
    } else {
        c
    }
}

/// ASCII lowercase of a string.
pub open spec fn lower_str(s: Seq<char>) -> Seq<char> {
    s.map_values(|c: char| lower_char(c))
}

/// The entry names a recognized platform, compared case-insensitively.
pub open spec fn recognized_platform(p: Seq<char>) -> bool {
    lower_str(p) == "windows"@ || lower_str(p) == "macos"@ || lower_str(p) == "linux"@
}

/// Every `platforms_supported` entry is recognized.
pub open spec fn all_recognized(ps: Seq<String>) -> bool {
    forall|i: int| 0 <= i < ps.len() ==> recognized_platform((#[trigger] ps[i])@)
}

/// The host appears verbatim among the entries.
pub open spec fn platform_listed(ps: Seq<String>, host: Seq<char>) -> bool {
    exists|i: int| 0 <= i < ps.len() && (#[trigger] ps[i])@ == host
}

fn lower_char_exec(c: char) -> (r: char)
    ensures
        r == lower_char(c),
{
    if 'A' <= c && c <= 'Z' {
        ((c as u8) + 32) as char
    } else {
        c
    }
}

fn is_recognized_platform(p: &str) -> (r: bool)
    ensures
        r == recognized_platform(p@),
{
    let chars = str_chars(p);
    let mut low: Vec<char> = Vec::new();
    let mut i: usize = 0;
    while i < chars.len()
        invariant
            i <= chars@.len(),
            chars@ == p@,
            low@ == lower_str(p@.take(i as int)),
        decreases chars@.len() - i,
    {
        low.push(lower_char_exec(chars[i]));
        proof {
            assert(lower_str(p@.take(i + 1 as int)) =~= lower_str(p@.take(i as int)).push(
                lower_char(p@[i as int]),
            ));
        }
        i += 1;
    }
    proof {
        assert(p@.take(p@.len() as int) =~= p@);
        assert(lower_str(p@.take(p@.len() as int)) =~= lower_str(p@));
    }
    let lows = chars_string(&low);
    str_eq(lows.as_str(), "windows") || str_eq(lows.as_str(), "macos") || str_eq(
        lows.as_str(),
        "linux",
    )
}

/// The first error of the platform gate, if any: an unrecognized entry is an
/// invalid platform, and a list that omits the host makes the task
/// unsupported here. A task without the field runs anywhere.
pub open spec fn platform_gate(task: Task, host: Seq<char>) -> Option<TaskError> {
    match task.platforms_supported {
        Some(ps) => if !all_recognized(ps@) {
            Some(TaskError::InvalidPlatform)
        } else if !platform_listed(ps@, host) {
            Some(TaskError::UnsupportedPlatform)
        } else {
            None
        },
        None => None,
    }
}

// ---------------------------------------------------------------------------
// The execution plan
// ---------------------------------------------------------------------------

/// One command ready to spawn: a program and its argument list.
pub struct Invocation {
    pub program: String,
    pub args: Vec<String>,
}

/// Everything the unverified runner needs: the merged environment handed to
/// every child, and one invocation per command, in declared order.
pub struct TaskPlan {
    pub env: Vec<EnvVar>,
    pub invocations: Vec<Invocation>,
}

/// The invocation a command string maps to. On a Windows host every command
/// runs through `cmd /c`, its substituted text split on single spaces into
/// the shell's argument list; elsewhere the first token is the program run
/// directly and the rest are its arguments.
pub open spec fn invocation_ok(
    inv: Invocation,
    cmd: Seq<char>,
    vars: Seq<(String, VarValue)>,
    windows: bool,
) -> bool {
    let toks = split_sep(spec_substitute(cmd, vars), ' ');
    if windows {
        inv.program@ == "cmd"@ && inv.args.deep_view() == seq!["/c"@] + toks
    } else {
        inv.program@ == toks[0] && inv.args.deep_view() == toks.skip(1)
    }
}

/// The inline environment pairs a task declares.
pub open spec fn inline_pairs(task: Task) -> Seq<(Seq<char>, Seq<char>)> {
    match task.env_vars {
        Some(vs) => env_pairs(vs@),
        None => Seq::empty(),
    }
}

/// The dotenv pairs a plan merges in: none without a dotenv file.
pub open spec fn spec_dotenv_pairs(dotenv: Option<Seq<char>>) -> Seq<(Seq<char>, Seq<char>)> {
    match dotenv {
        Some(c) => dotenv_pairs(split_sep(c, '\n')),
        None => Seq::empty(),
    }
}

/// The first error preparing a task runs into, if any, gates in order:
/// platform validity, platform support, dotenv shape, variable scalarity
/// (checked only when there is a command to substitute into).
pub open spec fn spec_plan_error(
    task: Task,
    variables: Seq<(String, VarValue)>,
    dotenv: Option<Seq<char>>,
    host: Seq<char>,
) -> Option<TaskError> {
    match platform_gate(task, host) {
        Some(e) => Some(e),
        None => {
            let denv_ok = match dotenv {
                Some(c) => dotenv_ok(split_sep(c, '\n')),
                None => true,
            };
            if !denv_ok {
                Some(TaskError::DotenvParseError)
            } else if task.commands@.len() > 0 && !all_scalar(variables) {
                Some(TaskError::UnsupportedVariableType)
            } else {
                None
            }
        },
    }
}

/// A task whose platform list excludes the host is always refused before a
/// single invocation is built, so no child process can be spawned for it.
pub proof fn lemma_excluded_platform_plans_nothing(
    task: Task,
    variables: Seq<(String, VarValue)>,
    dotenv: Option<Seq<char>>,
    host: Seq<char>,
)
    requires
        task.platforms_supported is Some,
        !platform_listed((task.platforms_supported->0)@, host),
    ensures
        spec_plan_error(task, variables, dotenv, host) is Some,
{
}

/// The view of the dotenv contents handed to `plan_task`.
pub open spec fn dotenv_view(dotenv_contents: Option<&String>) -> Option<Seq<char>> {
    match dotenv_contents {
        Some(c) => Some(c@),
        None => None,
    }
}

/// Prepares a task for execution: gates the platform, merges the environment
/// (dotenv pairs after the inline ones, so they override on a name clash),
/// substitutes variables into every command and shapes each into an
/// invocation, in declared order. A task whose platform gate fails yields no
/// invocation at all.
#[verifier::loop_isolation(false)]
pub fn plan_task(
    task: &Task,
    variables: &Vec<(String, VarValue)>,
    dotenv_contents: Option<&String>,
    host: &str,
) -> (r: Result<TaskPlan, TaskError>)
    requires
        dotenv_contents is Some <==> task.dotenv_file is Some,
    ensures
        match r {
            Ok(plan) => spec_plan_error(*task, variables@, dotenv_view(dotenv_contents), host@)
                is None && env_pairs(plan.env@) == inline_pairs(*task) + spec_dotenv_pairs(
                dotenv_view(dotenv_contents),
            ) && plan.invocations@.len() == task.commands@.len() && forall|i: int|
                0 <= i < task.commands@.len() ==> invocation_ok(
                    #[trigger] plan.invocations@[i],
                    task.commands@[i]@,
                    variables@,
                    host@ == "windows"@,
                ),
            Err(e) => spec_plan_error(*task, variables@, dotenv_view(dotenv_contents), host@)
                == Some(e),
        },
{
    if task.platforms_supported.is_some() {
        let ps = task.platforms_supported.as_ref().unwrap();
        let mut k: usize = 0;
        while k < ps.len()
            invariant
                k <= ps@.len(),
                forall|j: int| 0 <= j < k ==> recognized_platform((#[trigger] ps@[j])@),
            decreases ps@.len() - k,
        {
            if !is_recognized_platform(ps[k].as_str()) {
                proof {
                    assert(!recognized_platform((ps@[k as int])@));
                    assert(!all_recognized(ps@));
                }
                return Err(TaskError::InvalidPlatform);
            }
            k += 1;
        }
        assert(all_recognized(ps@));
        let mut found = false;
        let mut k: usize = 0;
        while k < ps.len()
            invariant
                k <= ps@.len(),
                found ==> platform_listed(ps@, host@),
                !found ==> forall|j: int| 0 <= j < k ==> (#[trigger] ps@[j])@ != host@,
            decreases ps@.len() - k,
        {
            if str_eq(ps[k].as_str(), host) {
                found = true;
            }
            k += 1;
        }
        if !found {
            proof {
                assert(!platform_listed(ps@, host@));
            }
            return Err(TaskError::UnsupportedPlatform);
        }
    }
    proof {
        assert(platform_gate(*task, host@) is None);
    }
    let mut env: Vec<EnvVar> = Vec::new();
    if task.env_vars.is_some() {
        let vs = task.env_vars.as_ref().unwrap();
        let mut k: usize = 0;
        proof {
            assert(env_pairs(env@) =~= env_pairs(vs@.take(0)));
        }
        while k < vs.len()
            invariant
                k <= vs@.len(),
                env_pairs(env@) == env_pairs(vs@.take(k as int)),
            decreases vs@.len() - k,
        {
            let ghost env0 = env@;
            env.push(EnvVar { name: vs[k].name.clone(), value: vs[k].value.clone() });
            proof {
                assert(env_pairs(env@) =~= env_pairs(env0).push((vs@[k as int].name@, vs@[k as int].value@)));
                assert(env_pairs(vs@.take(k + 1 as int)) =~= env_pairs(vs@.take(k as int)).push(
                    (vs@[k as int].name@, vs@[k as int].value@),
                ));
            }
            k += 1;
        }
        proof {
            assert(vs@.take(vs@.len() as int) =~= vs@);
        }
    }
    let ghost inline0 = env_pairs(env@);
    proof {
        assert(inline0 == inline_pairs(*task));
    }
    if let Some(c) = dotenv_contents {
        match parse_dotenv(c.as_str()) {
            Ok(mut pairs) => {
                let ghost denv = env_pairs(pairs@);
                env.append(&mut pairs);
                proof {
                    assert(env_pairs(env@) =~= inline0 + denv);
                }
            },
            Err(e) => {
                return Err(e);
            },
        }
    } else {
        proof {
            assert(env_pairs(env@) =~= inline0 + spec_dotenv_pairs(dotenv_view(dotenv_contents)));
        }
    }
    let windows = str_eq(host, "windows");
    let mut invocations: Vec<Invocation> = Vec::new();
    let mut i: usize = 0;
    while i < task.commands.len()
        invariant
            i <= task.commands@.len(),
            invocations@.len() == i,
            windows == (host@ == "windows"@),
            i > 0 ==> all_scalar(variables@),
            platform_gate(*task, host@) is None,
            (match dotenv_view(dotenv_contents) {
                Some(c) => dotenv_ok(split_sep(c, '\n')),
                None => true,
            }),
            forall|k: int| 0 <= k < i ==> invocation_ok(
                #[trigger] invocations@[k],
                task.commands@[k]@,
                variables@,
                windows,
            ),
        decreases task.commands@.len() - i,
    {
        let sub = match substitute_command(&task.commands[i], variables) {
            Ok(s) => s,
            Err(e) => {
                return Err(e);
            },
        };
        let toks = split_string(sub.as_str(), ' ');
        let ghost toksdv = toks.deep_view();
        let inv: Invocation;
        if windows {
            let mut args: Vec<String> = Vec::new();
            args.push(String::from_str("/c"));
            let ghost args0 = args.deep_view();
            let mut t = toks;
            args.append(&mut t);
            proof {
                assert(args0 =~~= seq!["/c"@]);
                assert(args.deep_view() =~~= args0 + toksdv);
            }
            inv = Invocation { program: String::from_str("cmd"), args };
        } else {
            let mut t = toks;
            let program = t.remove(0);
            proof {
                assert(program@ == toksdv[0]);
                assert(t.deep_view() =~~= toksdv.skip(1));
            }
            inv = Invocation { program, args: t };
        }
        invocations.push(inv);
        i += 1;
    }
    Ok(TaskPlan { env, invocations })
}

// ---------------------------------------------------------------------------
// The fail-fast decision
// ---------------------------------------------------------------------------

/// What became of one spawned command.
pub enum SpawnOutcome {
    /// The child ran and exited with this code, if the platform reported one.
    Spawned(Option<i32>),
    /// The child could not be started at all.
    NotSpawned,
}

/// The fail-fast decision after one command: only a clean zero exit lets the
/// run continue to the next command; any other outcome aborts the whole run,
/// a non-zero (or missing, defaulted to 1) exit code as `CommandFailed` and a
/// spawn failure as `SpawnError`.
pub fn command_outcome(outcome: &SpawnOutcome) -> (r: Result<(), TaskError>)
    ensures
        match *outcome {
            SpawnOutcome::Spawned(code) => match code {
                Some(c) => if c == 0 {
                    r is Ok
                } else {
                    r == Err::<(), TaskError>(TaskError::CommandFailed(c))
                },
                None => r == Err::<(), TaskError>(TaskError::CommandFailed(1)),
            },
            SpawnOutcome::NotSpawned => r == Err::<(), TaskError>(TaskError::SpawnError),
        },
{
    match outcome {
        SpawnOutcome::Spawned(code) => match code {
            Some(c) => if *c == 0 {
                Ok(())
            } else {
                Err(TaskError::CommandFailed(*c))
            },
            None => Err(TaskError::CommandFailed(1)),
        },
        SpawnOutcome::NotSpawned => Err(TaskError::SpawnError),
    }
}

} // verus!
