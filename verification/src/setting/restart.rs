//! Restarting the idle daemon: what to do next, given what was found so far.

use vstd::prelude::*;

use crate::text;

verus! {

/// How often the daemon is asked for, at most, while it stops and while it starts.
pub const TRIES: u32 = 40;

/// What is to be done next. The number is how many questions are left, this one included.
#[derive(Clone, Copy, Debug, PartialEq, Eq, Structural)]
pub enum Step {
    /// Stop the daemon.
    Kill,
    /// Ask whether it still runs.
    AskGone(u32),
    /// Wait a moment for it to stop.
    RestGone(u32),
    /// Start it anew.
    Spawn,
    /// Ask whether it runs again.
    AskUp(u32),
    /// Wait a moment for it to start.
    RestUp(u32),
    /// It runs.
    Running,
    /// It did not start.
    Failed,
}

impl Step {
    /// Whether nothing is left to do.
    pub open spec fn done(self) -> bool {
        self is Running || self is Failed
    }

    /// The step after this one; `running` is the answer where this one is a question.
    pub open spec fn then_next(self, running: bool) -> Step {
        match self {
            Step::Kill => Step::AskGone(TRIES),
            Step::AskGone(left) => if running {
                Step::RestGone(left)
            } else {
                Step::Spawn
            },
            Step::RestGone(left) => if left > 1 {
                Step::AskGone((left - 1) as u32)
            } else {
                Step::Spawn
            },
            Step::Spawn => Step::AskUp(TRIES),
            Step::AskUp(left) => if running {
                Step::Running
            } else {
                Step::RestUp(left)
            },
            Step::RestUp(left) => if left > 1 {
                Step::AskUp((left - 1) as u32)
            } else {
                Step::Failed
            },
            Step::Running => Step::Running,
            Step::Failed => Step::Failed,
        }
    }

    /// How many steps are left at most.
    pub open spec fn left(self) -> nat {
        match self {
            Step::Kill => 4 * TRIES as nat + 2,
            Step::AskGone(left) => 2 * TRIES as nat + if left > 1 {
                2 * left as nat + 1
            } else {
                3
            },
            Step::RestGone(left) => 2 * TRIES as nat + if left > 1 {
                2 * left as nat
            } else {
                2
            },
            Step::Spawn => 2 * TRIES as nat + 1,
            Step::AskUp(left) => if left > 1 {
                2 * left as nat
            } else {
                2
            },
            Step::RestUp(left) => if left > 1 {
                (2 * left - 1) as nat
            } else {
                1
            },
            Step::Running => 0,
            Step::Failed => 0,
        }
    }

    /// The step after this one.
    pub fn next(self, running: bool) -> (s: Step)
        ensures
            s == self.then_next(running),
    {
        match self {
            Step::Kill => Step::AskGone(TRIES),
            Step::AskGone(left) => if running {
                Step::RestGone(left)
            } else {
                Step::Spawn
            },
            Step::RestGone(left) => if left > 1 {
                Step::AskGone(left - 1)
            } else {
                Step::Spawn
            },
            Step::Spawn => Step::AskUp(TRIES),
            Step::AskUp(left) => if running {
                Step::Running
            } else {
                Step::RestUp(left)
            },
            Step::RestUp(left) => if left > 1 {
                Step::AskUp(left - 1)
            } else {
                Step::Failed
            },
            Step::Running => Step::Running,
            Step::Failed => Step::Failed,
        }
    }

    /// The command of this step: the program and its arguments.
    pub fn command(self) -> (c: Vec<String>)
        ensures
            text::texts(c@) == match self {
                Step::Kill => seq!["pkill"@, "-x"@, "hypridle"@],
                Step::AskGone(_) => seq!["pgrep"@, "-x"@, "hypridle"@],
                Step::AskUp(_) => seq!["pgrep"@, "-x"@, "hypridle"@],
                Step::Spawn => seq!["niri"@, "msg"@, "action"@, "spawn"@, "--"@, "hypridle"@],
                _ => seq![],
            },
    {
        let mut c: Vec<String> = Vec::new();
        match self {
            Step::Kill => {
                c.push("pkill".to_string());
                c.push("-x".to_string());
                c.push("hypridle".to_string());
                assert(text::texts(c@) =~= seq!["pkill"@, "-x"@, "hypridle"@]);
            },
            Step::AskGone(_) | Step::AskUp(_) => {
                c.push("pgrep".to_string());
                c.push("-x".to_string());
                c.push("hypridle".to_string());
                assert(text::texts(c@) =~= seq!["pgrep"@, "-x"@, "hypridle"@]);
            },
            Step::Spawn => {
                c.push("niri".to_string());
                c.push("msg".to_string());
                c.push("action".to_string());
                c.push("spawn".to_string());
                c.push("--".to_string());
                c.push("hypridle".to_string());
                assert(text::texts(c@) =~= seq![
                    "niri"@,
                    "msg"@,
                    "action"@,
                    "spawn"@,
                    "--"@,
                    "hypridle"@,
                ]);
            },
            _ => {
                assert(text::texts(c@) =~= seq![]);
            },
        }
        c
    }
}

/// The step reached from another, given what each step in between found.
pub open spec fn reached(from: Step, found: Seq<bool>) -> Step
    decreases found.len(),
{
    if found.len() == 0 {
        from
    } else {
        reached(from.then_next(found[0]), found.drop_first())
    }
}

/// From wherever it stands, a restart comes to its end within the steps that are left.
pub proof fn law_restart_ends(from: Step, found: Seq<bool>)
    requires
        found.len() >= from.left(),
    ensures
        reached(from, found).done(),
    decreases found.len(),
{
    if found.len() > 0 {
        law_restart_ends(from.then_next(found[0]), found.drop_first());
    }
}

/// A restart fails if and only if all the questions after the start are answered with no.
pub proof fn law_restart_fails_only_unanswered(found: Seq<bool>)
    requires
        found.len() >= Step::Spawn.left(),
    ensures
        reached(Step::Spawn, found) is Failed <==> forall|k: int|
            0 <= k < TRIES ==> !#[trigger] found[2 * k + 1],
{
    let rest = found.drop_first();
    lemma_waiting(TRIES, rest);
    if forall|k: int| 0 <= k < TRIES ==> !#[trigger] found[2 * k + 1] {
        assert forall|k: int| 0 <= k < TRIES implies !#[trigger] rest[2 * k] by {
            assert(!found[2 * k + 1]);
        }
    }
    if forall|k: int| 0 <= k < TRIES ==> !#[trigger] rest[2 * k] {
        assert forall|k: int| 0 <= k < TRIES implies !#[trigger] found[2 * k + 1] by {
            assert(!rest[2 * k]);
        }
    }
}

/// The daemon is stopped, and started only once it is gone, or after it was asked for forty times in
/// vain: `k` is how often it was still there.
pub proof fn law_started_once_it_is_gone(found: Seq<bool>, k: int)
    requires
        0 <= k <= 40,
        found.len() == if k < 40 {
            2 * k + 2
        } else {
            81
        },
        forall|j: int| 0 <= j < k ==> #[trigger] found[2 * j + 1],
        k < 40 ==> !found[2 * k + 1],
    ensures
        reached(Step::Kill, found) is Spawn,
        forall|n: int|
            1 <= n < found.len() ==> !(#[trigger] reached(Step::Kill, found.take(n)) is Spawn)
                && !reached(Step::Kill, found.take(n)).done(),
{
    let rest = found.drop_first();
    assert(reached(Step::Kill, found) == reached(Step::AskGone(40), rest));
    assert forall|j: int| 0 <= j < k implies #[trigger] rest[2 * j] by {
        assert(found[2 * j + 1]);
    }
    lemma_stopping(40, rest, k);
    assert forall|n: int| 1 <= n < found.len() implies !(#[trigger] reached(
        Step::Kill,
        found.take(n),
    ) is Spawn) && !reached(Step::Kill, found.take(n)).done() by {
        let part = found.take(n);
        assert(part.drop_first() =~= rest.take(n - 1));
        assert(reached(Step::Kill, part) == reached(Step::AskGone(40), part.drop_first()));
        assert(!(reached(Step::AskGone(40), rest.take(n - 1)) is Spawn));
    }
}

/// While it is asked whether the daemon is gone.
proof fn lemma_stopping(left: u32, found: Seq<bool>, k: int)
    requires
        1 <= left <= 40,
        0 <= k <= left,
        found.len() == if k < left {
            2 * k + 1
        } else {
            2 * k
        },
        forall|j: int| 0 <= j < k ==> #[trigger] found[2 * j],
        k < left ==> !found[2 * k],
    ensures
        reached(Step::AskGone(left), found) is Spawn,
        forall|n: int|
            0 <= n < found.len() ==> !(#[trigger] reached(Step::AskGone(left), found.take(n)) is Spawn)
                && !reached(Step::AskGone(left), found.take(n)).done(),
    decreases left,
{
    let ask = Step::AskGone(left);
    if k == 0 {
        assert(!found[2 * 0int]);
        assert(found.drop_first() =~= Seq::<bool>::empty());
        assert(reached(ask, found) == reached(Step::Spawn, found.drop_first()));
        assert(found.take(0) =~= Seq::<bool>::empty());
    } else {
        assert(found[2 * 0int]);
        let rest = found.drop_first().drop_first();
        let then = if left > 1 {
            Step::AskGone((left - 1) as u32)
        } else {
            Step::Spawn
        };
        assert(reached(ask, found) == reached(Step::RestGone(left), found.drop_first()));
        assert(reached(Step::RestGone(left), found.drop_first()) == reached(then, rest));
        if left > 1 {
            assert forall|j: int| 0 <= j < k - 1 implies #[trigger] rest[2 * j] by {
                assert(found[2 * (j + 1)]);
            }
            if k < left {
                assert(rest[2 * (k - 1)] == found[2 * k]);
            }
            lemma_stopping((left - 1) as u32, rest, k - 1);
        } else {
            assert(rest =~= Seq::<bool>::empty());
        }
        assert forall|n: int| 0 <= n < found.len() implies !(#[trigger] reached(
            ask,
            found.take(n),
        ) is Spawn) && !reached(ask, found.take(n)).done() by {
            let part = found.take(n);
            if n == 0 {
                assert(part =~= Seq::<bool>::empty());
            } else if n == 1 {
                assert(part.drop_first() =~= Seq::<bool>::empty());
                assert(reached(ask, part) == reached(Step::RestGone(left), part.drop_first()));
            } else {
                assert(part.drop_first().drop_first() =~= rest.take(n - 2));
                assert(reached(ask, part) == reached(Step::RestGone(left), part.drop_first()));
                assert(reached(Step::RestGone(left), part.drop_first()) == reached(
                    then,
                    part.drop_first().drop_first(),
                ));
                assert(left > 1);
                assert(!(reached(then, rest.take(n - 2)) is Spawn));
            }
        }
    }
}

/// Once it is started, the daemon is asked for up to forty times, and the restart is done with the
/// first answer that it runs: `k` is how often it did not yet.
pub proof fn law_done_once_it_runs(found: Seq<bool>, k: int)
    requires
        0 <= k < 40,
        found.len() == 2 * k + 2,
        forall|j: int| 0 <= j < k ==> !#[trigger] found[2 * j + 1],
        found[2 * k + 1],
    ensures
        reached(Step::Spawn, found) is Running,
{
    let rest = found.drop_first();
    assert(reached(Step::Spawn, found) == reached(Step::AskUp(40), rest));
    assert forall|j: int| 0 <= j < k implies !#[trigger] rest[2 * j] by {
        assert(!found[2 * j + 1]);
    }
    lemma_starting(40, rest, k);
}

/// While it is asked whether the daemon runs.
proof fn lemma_starting(left: u32, found: Seq<bool>, k: int)
    requires
        0 <= k < left,
        found.len() == 2 * k + 1,
        forall|j: int| 0 <= j < k ==> !#[trigger] found[2 * j],
        found[2 * k],
    ensures
        reached(Step::AskUp(left), found) is Running,
    decreases left,
{
    let next = Step::AskUp(left).then_next(found[0]);
    assert(reached(Step::AskUp(left), found) == reached(next, found.drop_first()));
    if k == 0 {
        assert(found[2 * 0int]);
        assert(found.drop_first() =~= Seq::<bool>::empty());
    } else {
        assert(!found[2 * 0int]);
        let rest = found.drop_first().drop_first();
        assert(reached(next, found.drop_first()) == reached(next.then_next(found[1]), rest));
        assert forall|j: int| 0 <= j < k - 1 implies !#[trigger] rest[2 * j] by {
            assert(!found[2 * (j + 1)]);
        }
        assert(rest[2 * (k - 1)] == found[2 * k]);
        lemma_starting((left - 1) as u32, rest, k - 1);
    }
}

/// Forty answers that it does not run are a failure, and what is done stays done.
pub proof fn law_forty_times_in_vain(found: Seq<bool>)
    requires
        found.len() == 81,
        forall|j: int| 0 <= j < 40 ==> !#[trigger] found[2 * j + 1],
    ensures
        reached(Step::Spawn, found) is Failed,
        Step::Failed.then_next(true) is Failed,
        Step::Failed.then_next(false) is Failed,
        Step::Running.then_next(true) is Running,
        Step::Running.then_next(false) is Running,
        Step::Failed.done() && Step::Running.done() && !Step::Spawn.done() && !Step::Kill.done(),
{
    law_restart_fails_only_unanswered(found);
}

/// Waiting for the daemon fails if and only if every question that is left is answered with no.
proof fn lemma_waiting(left: u32, found: Seq<bool>)
    requires
        left >= 1,
        found.len() >= 2 * left,
    ensures
        reached(Step::AskUp(left), found) is Failed <==> forall|k: int|
            0 <= k < left ==> !#[trigger] found[2 * k],
    decreases left,
{
    let next = Step::AskUp(left).then_next(found[0]);
    assert(reached(Step::AskUp(left), found) == reached(next, found.drop_first()));
    if found[0] {
        lemma_stays(found.drop_first());
        assert(found[2 * 0int]);
    } else {
        let rest = found.drop_first().drop_first();
        assert(reached(next, found.drop_first()) == reached(next.then_next(found[1]), rest));
        if left > 1 {
            lemma_waiting((left - 1) as u32, rest);
            if forall|k: int| 0 <= k < left ==> !#[trigger] found[2 * k] {
                assert forall|k: int| 0 <= k < left - 1 implies !#[trigger] rest[2 * k] by {
                    assert(!found[2 * (k + 1)]);
                }
            }
            if forall|k: int| 0 <= k < left - 1 ==> !#[trigger] rest[2 * k] {
                assert forall|k: int| 0 <= k < left implies !#[trigger] found[2 * k] by {
                    if k > 0 {
                        assert(!rest[2 * (k - 1)]);
                    }
                }
            }
        } else {
            lemma_stays(rest);
            assert forall|k: int| 0 <= k < left implies !#[trigger] found[2 * k] by {
                assert(k == 0);
            }
        }
    }
}

/// What is done stays done.
proof fn lemma_stays(found: Seq<bool>)
    ensures
        reached(Step::Running, found) is Running,
        reached(Step::Failed, found) is Failed,
    decreases found.len(),
{
    if found.len() > 0 {
        lemma_stays(found.drop_first());
    }
}

} // verus!
