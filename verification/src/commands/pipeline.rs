//! Splitting a command's words at `|` into the stages of a pipeline, and
//! planning the programs those stages run.

use vstd::prelude::*;

use crate::bindings::{found_names, ExecutablePath};
use crate::commands::find_executable;
use crate::commands::parse::{parsed_from, InvocationView, ParsedInvocation};
use crate::commands::targets::{Redirect, StderrTarget, StdoutTarget};
use crate::environment::Environment;
use crate::text::{contains_char, opt_view, text_eq, views};

verus! {

/// The groups of words between the `|` words, from left to right; a group
/// may be empty (nothing before the first `|`, between two `|`, or after
/// the last one).
pub open spec fn pipe_groups(tokens: Seq<Seq<char>>) -> Seq<Seq<Seq<char>>>
    decreases tokens.len(),
{
    if tokens.len() == 0 {
        seq![Seq::empty()]
    } else {
        let g = pipe_groups(tokens.drop_last());
        let t = tokens.last();
        if t == "|"@ {
            g.push(Seq::empty())
        } else {
            g.update(g.len() - 1, g.last().push(t))
        }
    }
}

/// Whether no group is empty.
pub open spec fn groups_nonempty(g: Seq<Seq<Seq<char>>>) -> bool {
    forall|k: int| 0 <= k < g.len() ==> (#[trigger] g[k]).len() > 0
}

/// The stages of a pipeline: the groups of words between the `|` words,
/// or `None` where a group is empty.
pub open spec fn pipeline_stages(tokens: Seq<Seq<char>>) -> Option<Seq<Seq<Seq<char>>>> {
    if groups_nonempty(pipe_groups(tokens)) {
        Some(pipe_groups(tokens))
    } else {
        None
    }
}

/// The groups joined back together with a `|` word between each two.
pub open spec fn join_groups(g: Seq<Seq<Seq<char>>>) -> Seq<Seq<char>>
    decreases g.len(),
{
    if g.len() <= 1 {
        if g.len() == 1 {
            g[0]
        } else {
            Seq::empty()
        }
    } else {
        join_groups(g.drop_last()) + seq!["|"@] + g.last()
    }
}

proof fn lemma_pipe_groups_len(tokens: Seq<Seq<char>>)
    ensures
        pipe_groups(tokens).len() >= 1,
    decreases tokens.len(),
{
    if tokens.len() > 0 {
        lemma_pipe_groups_len(tokens.drop_last());
    }
}

/// Splitting at `|` loses nothing: the groups, joined back with `|`
/// between each two, give the words back, and no group holds a `|`.
pub proof fn law_pipeline_groups_rejoin(tokens: Seq<Seq<char>>)
    ensures
        join_groups(pipe_groups(tokens)) == tokens,
        forall|k: int, j: int|
            0 <= k < pipe_groups(tokens).len() && 0 <= j < pipe_groups(tokens)[k].len()
                ==> #[trigger] pipe_groups(tokens)[k][j] != "|"@,
    decreases tokens.len(),
{
    if tokens.len() > 0 {
        let rest = tokens.drop_last();
        law_pipeline_groups_rejoin(rest);
        lemma_pipe_groups_len(rest);
        let g = pipe_groups(rest);
        let t = tokens.last();
        if t == "|"@ {
            let g2 = g.push(Seq::empty());
            assert(g2.drop_last() =~= g);
            assert(join_groups(g2) =~= join_groups(g) + seq!["|"@]);
            assert(join_groups(g) + seq!["|"@] =~= tokens);
        } else {
            let g2 = g.update(g.len() - 1, g.last().push(t));
            if g.len() == 1 {
                assert(join_groups(g2) == g2[0]);
                assert(g2[0] =~= tokens);
            } else {
                assert(g2.drop_last() =~= g.drop_last());
                assert(join_groups(g) == join_groups(g.drop_last()) + seq!["|"@] + g.last());
                assert(join_groups(g2) =~= join_groups(g) + seq![t]);
                assert(join_groups(g) + seq![t] =~= tokens);
            }
        }
    } else {
        assert(join_groups(seq![Seq::<Seq<char>>::empty()]) =~= tokens);
    }
}

proof fn lemma_pipe_groups_prefix(tokens: Seq<Seq<char>>, i: int, k: int)
    requires
        0 <= i <= tokens.len(),
        0 <= k < pipe_groups(tokens.take(i)).len() - 1,
    ensures
        k < pipe_groups(tokens).len() - 1,
        pipe_groups(tokens)[k] == pipe_groups(tokens.take(i))[k],
    decreases tokens.len() - i,
{
    if i < tokens.len() {
        let t1 = tokens.take(i + 1);
        assert(t1.drop_last() =~= tokens.take(i));
        lemma_pipe_groups_len(tokens.take(i));
        let g = pipe_groups(tokens.take(i));
        assert(pipe_groups(t1).len() >= g.len());
        assert(pipe_groups(t1)[k] == g[k]);
        lemma_pipe_groups_prefix(tokens, i + 1, k);
    } else {
        assert(tokens.take(i) =~= tokens);
    }
}

/// Split a command's words at the `|` words into the stages of a pipeline:
/// `None` where a stage would be empty.
pub fn split_pipeline(tokens: Vec<String>) -> (r: Option<Vec<Vec<String>>>)
    ensures
        match pipeline_stages(views(tokens@)) {
            Some(g) => r matches Some(segs) && segs@.len() == g.len() && forall|k: int|
                0 <= k < g.len() ==> views(#[trigger] segs@[k]@) == g[k],
            None => r is None,
        },
{
    let ghost t = views(tokens@);
    let n = tokens.len();
    let mut segments: Vec<Vec<String>> = Vec::new();
    let mut current: Vec<String> = Vec::new();
    let mut i: usize = 0;
    assert(t.take(0) =~= Seq::<Seq<char>>::empty());
    while i < n
        invariant
            n == tokens@.len(),
            t == views(tokens@),
            i <= n,
            pipe_groups(t.take(i as int)).len() == segments@.len() + 1,
            pipe_groups(t.take(i as int)).last() == views(current@),
            forall|k: int|
                0 <= k < segments@.len() ==> views(#[trigger] segments@[k]@) == pipe_groups(
                    t.take(i as int),
                )[k] && segments@[k]@.len() > 0,
        decreases n - i,
    {
        let ghost g = pipe_groups(t.take(i as int));
        assert(t.take(i + 1).drop_last() =~= t.take(i as int));
        assert(t.take(i + 1).last() == tokens@[i as int]@);
        if text_eq(tokens[i].as_str(), "|") {
            if current.len() == 0 {
                proof {
                    lemma_pipe_groups_prefix(t, i + 1, segments@.len() as int);
                    assert(pipe_groups(t.take(i + 1)) == g.push(Seq::empty()));
                    assert(pipe_groups(t)[segments@.len() as int].len() == 0);
                }
                return None;
            }
            let done = current;
            segments.push(done);
            current = Vec::new();
            proof {
                assert(pipe_groups(t.take(i + 1)) == g.push(Seq::empty()));
            }
        } else {
            current.push(tokens[i].clone());
            proof {
                assert(views(current@) =~= g.last().push(tokens@[i as int]@));
                assert(pipe_groups(t.take(i + 1)) == g.update(g.len() - 1, g.last().push(t[i as int])));
            }
        }
        i = i + 1;
    }
    assert(t.take(n as int) =~= t);
    if current.len() == 0 {
        assert(pipe_groups(t)[segments@.len() as int].len() == 0);
        return None;
    }
    let ghost last_view = views(current@);
    segments.push(current);
    assert forall|k: int| 0 <= k < pipe_groups(t).len() implies (#[trigger] pipe_groups(t)[k]).len() > 0 by {
        if k < segments@.len() - 1 {
            assert(views(segments@[k]@) == pipe_groups(t)[k]);
        } else {
            assert(pipe_groups(t)[k] == last_view);
        }
    }
    assert(groups_nonempty(pipe_groups(t)));
    Some(segments)
}

/// The program a stage of a pipeline runs: the one at a path written in
/// the command (a name that holds `/`), or the one found on `PATH`.
pub enum Program {
    Path(String),
    Found(ExecutablePath),
}

/// One stage of a pipeline: the command's name, the program, its arguments, and where its
/// output goes: `None` for the stages before the last, whose output feeds
/// the next stage; the last stage's redirections, for the last.
pub struct Stage {
    pub name: String,
    pub program: Program,
    pub args: Vec<String>,
    pub stdout: Option<StdoutTarget>,
    pub stderr: StderrTarget,
}

/// How to run a pipeline: the stages to start, in order, and the message
/// to print to standard error (with status 127) when the pipeline cannot
/// run to its end: it is invalid, or the program of the stage after the
/// last one to start was not found.
pub struct PipelinePlan {
    pub stages: Vec<Stage>,
    pub failure: Option<String>,
}

impl PipelinePlan {
    /// The status that the pipeline ends with, where `last` is the exit
    /// status of its last stage: 127 where it could not run to its end.
    pub fn status(&self, last: u8) -> (r: u8)
        ensures
            r == (if self.failure is Some {
                127
            } else {
                last
            }),
    {
        if self.failure.is_some() {
            127
        } else {
            last
        }
    }
}

/// The path written in the command, for a program named by its path.
pub open spec fn program_path(p: Program) -> Option<Seq<char>> {
    match p {
        Program::Path(s) => Some(s@),
        Program::Found(_) => None,
    }
}

/// Where a stage's output goes, where it does not feed the next stage.
pub open spec fn stage_output(o: Option<StdoutTarget>) -> Option<Redirect> {
    match o {
        Some(t) => Some(t@),
        None => None,
    }
}

/// Whether `stage` fits stage `k` of the `count` stages, read from `words`:
/// it runs the program its first word names (the path written there, or
/// one that a search of `PATH` for that name found), with the arguments
/// that the words give, and the redirections of its words for the last
/// stage.
pub open spec fn stage_fits(
    words: Seq<Seq<char>>,
    env: Map<Seq<char>, Seq<char>>,
    k: int,
    count: int,
    stage: Stage,
) -> bool {
    exists|inv: InvocationView|
        {
            &&& #[trigger] parsed_from(words, env, inv)
            &&& stage.name@ == inv.cmd_name
            &&& views(stage.args@) == inv.args
            &&& (inv.cmd_name.contains('/') ==> program_path(stage.program) == Some(inv.cmd_name))
            &&& (!inv.cmd_name.contains('/') ==> (stage.program matches Program::Found(e)
                && found_names(e, inv.cmd_name)))
            &&& (k == count - 1 ==> stage_output(stage.stdout) == Some(inv.stdout))
            &&& (k < count - 1 ==> stage.stdout is None)
            &&& (k == count - 1 ==> stage.stderr@ == inv.stderr)
            &&& (k < count - 1 ==> stage.stderr@ == Redirect::Inherit)
        }
}

/// Plan the pipeline that `tokens` (holding `|` words) make: an invalid
/// pipeline (an empty stage) starts nothing; otherwise the stages start in
/// order until one names a program that `PATH` does not have, which stops
/// the pipeline with a message.
pub fn plan_pipeline(tokens: Vec<String>, shell_name: &str, env: &Environment) -> (r: PipelinePlan)
    ensures
        match pipeline_stages(views(tokens@)) {
            None => r.stages@.len() == 0 && opt_view(r.failure) == Some(shell_name@
                + ": invalid pipeline"@),
            Some(g) => {
                &&& r.stages@.len() <= g.len()
                &&& forall|k: int|
                    0 <= k < r.stages@.len() ==> stage_fits(
                        g[k],
                        env@,
                        k,
                        g.len() as int,
                        #[trigger] r.stages@[k],
                    )
                &&& r.stages@.len() == g.len() ==> r.failure is None
                &&& r.stages@.len() < g.len() ==> {
                    let name = g[r.stages@.len() as int][0];
                    &&& !name.contains('/')
                    &&& opt_view(r.failure) == Some(shell_name@ + ": command not found: "@ + name)
                }
            },
        },
{
    let ghost tv = views(tokens@);
    let segments = match split_pipeline(tokens) {
        Some(segs) => segs,
        None => {
            let mut m = String::from_str(shell_name);
            m.append(": invalid pipeline");
            return PipelinePlan { stages: Vec::new(), failure: Some(m) };
        },
    };
    let ghost g = pipeline_stages(views(tokens@))->0;
    let count = segments.len();
    let mut stages: Vec<Stage> = Vec::new();
    let mut segments = segments;
    let mut rest: Vec<Vec<String>> = Vec::new();
    let mut k: usize = 0;
    while k < count
        invariant
            count == g.len(),
            pipeline_stages(tv) == Some(g),
            tv == views(tokens@),
            segments@.len() == count,
            k <= count,
            stages@.len() == k,
            forall|j: int| 0 <= j < count ==> views(#[trigger] segments@[j]@) == g[j],
            forall|j: int| 0 <= j < count ==> (#[trigger] g[j]).len() > 0,
            forall|j: int|
                0 <= j < k ==> stage_fits(g[j], env@, j, count as int, #[trigger] stages@[j]),
        decreases count - k,
    {
        let seg = segments[k].clone();
        assert(views(seg@) == g[k as int]);
        let inv = match ParsedInvocation::from_tokens(seg, env) {
            Some(inv) => inv,
            None => {
                assert(false);
                return PipelinePlan { stages, failure: None };
            },
        };
        let ghost iv = inv@;
        let is_last = k + 1 == count;
        let program = if contains_char(inv.cmd_name.as_str(), '/') {
            Program::Path(inv.cmd_name.clone())
        } else {
            match find_executable(inv.cmd_name.as_str()) {
                Some(e) => Program::Found(e),
                None => {
                    assert(parsed_from(g[k as int], env@, iv));
                    assert(iv.cmd_name == g[k as int][0]);
                    let mut m = String::from_str(shell_name);
                    m.append(": command not found: ");
                    m.append(inv.cmd_name.as_str());
                    return PipelinePlan { stages, failure: Some(m) };
                },
            }
        };
        let ParsedInvocation { cmd_name, args, stdout, stderr } = inv;
        let stage = if is_last {
            Stage { name: cmd_name, program, args, stdout: Some(stdout), stderr }
        } else {
            Stage { name: cmd_name, program, args, stdout: None, stderr: StderrTarget::Stderr }
        };
        assert(parsed_from(g[k as int], env@, iv));
        assert(stage_fits(g[k as int], env@, k as int, count as int, stage));
        stages.push(stage);
        k = k + 1;
    }
    PipelinePlan { stages, failure: None }
}

} // verus!
