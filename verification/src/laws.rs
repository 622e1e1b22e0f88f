//! The engine's behavioral laws, stated over whole runs of the slot
//! state machine and proved once for all inputs.

use vstd::prelude::*;
use vstd::seq_lib::*;

use crate::controller::{
    command_of, idle_command, lemma_slot_step_preserves_wf, motor_stepped, slot_step, slot_wf,
    ActiveView, MotorController, SlotView,
};
use crate::job::MotorJob;
use crate::motor::{DriveCommand, MotorContainer};

verus! {

/// The run of one motor slot over a whole sequence of ticks: the final
/// slot, and every command issued along the way in order.
pub open spec fn slot_run(s: SlotView, deltas: Seq<int>) -> (SlotView, Seq<DriveCommand>)
    decreases deltas.len(),
{
    if deltas.len() == 0 {
        (s, Seq::<DriveCommand>::empty())
    } else {
        let first = slot_step(s, deltas[0]);
        let rest = slot_run(first.0, deltas.drop_first());
        (rest.0, first.1 + rest.1)
    }
}

/// The total time of a sequence of tick deltas.
pub open spec fn delta_sum(deltas: Seq<int>) -> int
    decreases deltas.len(),
{
    if deltas.len() == 0 {
        0
    } else {
        deltas[0] + delta_sum(deltas.drop_first())
    }
}

/// What a queue's jobs ask for on the wire, in queue order.
pub open spec fn job_commands(q: Seq<MotorJob>) -> Seq<DriveCommand> {
    q.map_values(|job: MotorJob| command_of(job))
}

/// The dispatch commands among a run's output: everything but the idle
/// (power 0) pulses.
pub open spec fn dispatch_commands(cmds: Seq<DriveCommand>) -> Seq<DriveCommand> {
    cmds.filter(|c: DriveCommand| c.power > 0)
}

/// A motor with an empty queue and no active job, ticked any number of
/// times, never issues a drive command and never leaves its idle state.
pub proof fn lemma_idle_motor_silent(s: SlotView, deltas: Seq<int>)
    requires
        s.queue.len() == 0,
        s.active is None,
    ensures
        slot_run(s, deltas).0 == s,
        slot_run(s, deltas).1 == Seq::<DriveCommand>::empty(),
    decreases deltas.len(),
{
    if deltas.len() > 0 {
        lemma_idle_motor_silent(s, deltas.drop_first());
        assert(slot_run(s, deltas).1 =~= Seq::<DriveCommand>::empty());
    }
}

/// On the tick where an active job completes: with an empty queue the
/// motor issues exactly one idle (power 0) command; with a non-empty
/// queue no idle pulse at all — exactly the next job's command, whose
/// power is at least 1, comes instead, in that same tick.
pub proof fn lemma_completion_commands(s: SlotView, a: ActiveView, m: int, delta: int)
    requires
        slot_wf(s, m),
        s.active == Some(a),
        a.elapsed + delta >= a.total,
    ensures
        s.queue.len() == 0 ==> slot_step(s, delta).1 == seq![idle_command()],
        s.queue.len() > 0 ==> slot_step(s, delta).1 == seq![command_of(s.queue[0])]
            && s.queue[0].power >= 1,
{
}

/// With every delta at least 1, the total is at least the tick count.
proof fn lemma_delta_sum_min(deltas: Seq<int>)
    requires
        forall|k: int| 0 <= k < deltas.len() ==> #[trigger] deltas[k] >= 1,
    ensures
        delta_sum(deltas) >= deltas.len(),
    decreases deltas.len(),
{
    if deltas.len() > 0 {
        assert forall|k: int| 0 <= k < deltas.drop_first().len() implies #[trigger] deltas
            .drop_first()[k] >= 1 by {
            assert(deltas.drop_first()[k] == deltas[k + 1]);
        }
        lemma_delta_sum_min(deltas.drop_first());
    }
}

/// A job of duration `a.total`, ticked with positive deltas whose sum
/// brings its elapsed time to exactly that duration, stays active
/// through every strict prefix of the ticks — issuing nothing and
/// accruing exactly the prefix's total — and leaves the active state
/// precisely on the final tick, the one where cumulative elapsed time
/// first reaches the duration.
pub proof fn lemma_exact_duration_completion(s: SlotView, a: ActiveView, deltas: Seq<int>)
    requires
        s.active == Some(a),
        deltas.len() > 0,
        forall|k: int| 0 <= k < deltas.len() ==> #[trigger] deltas[k] >= 1,
        a.elapsed + delta_sum(deltas) == a.total,
    ensures
        forall|j: int|
            0 <= j < deltas.len() ==> #[trigger] slot_run(s, deltas.take(j)).1 == Seq::<
                DriveCommand,
            >::empty(),
        forall|j: int|
            0 <= j < deltas.len() ==> #[trigger] slot_run(s, deltas.take(j)).0 == (SlotView {
                queue: s.queue,
                active: Some(
                    ActiveView { elapsed: a.elapsed + delta_sum(deltas.take(j)), total: a.total },
                ),
            }),
        slot_run(s, deltas) == slot_step(
            SlotView {
                queue: s.queue,
                active: Some(ActiveView { elapsed: a.total - deltas.last(), total: a.total }),
            },
            deltas.last(),
        ),
    decreases deltas.len(),
{
    let d0 = deltas[0];
    let rest = deltas.drop_first();
    assert forall|k: int| 0 <= k < rest.len() implies #[trigger] rest[k] >= 1 by {
        assert(rest[k] == deltas[k + 1]);
    }
    assert(deltas.take(0) =~= Seq::<int>::empty());
    if deltas.len() == 1 {
        assert(slot_run(s, deltas.take(0)).0 =~= SlotView {
            queue: s.queue,
            active: Some(
                ActiveView { elapsed: a.elapsed + delta_sum(deltas.take(0)), total: a.total },
            ),
        });
        assert(rest.len() == 0);
        assert(delta_sum(rest) == 0);
        assert(slot_run(slot_step(s, d0).0, rest).1 == Seq::<DriveCommand>::empty());
        assert(slot_run(slot_step(s, d0).0, rest).0 == slot_step(s, d0).0);
        assert(a.elapsed == a.total - d0);
        assert(SlotView {
            queue: s.queue,
            active: Some(ActiveView { elapsed: a.total - deltas.last(), total: a.total }),
        } =~= s);
        assert(slot_run(s, deltas).1 =~= slot_step(s, d0).1);
        assert(slot_run(s, deltas).0 == slot_step(s, d0).0);
    } else {
        lemma_delta_sum_min(rest);
        assert(a.elapsed + d0 < a.total);
        let s1 = SlotView {
            queue: s.queue,
            active: Some(ActiveView { elapsed: a.elapsed + d0, total: a.total }),
        };
        let a1 = ActiveView { elapsed: a.elapsed + d0, total: a.total };
        assert(slot_step(s, d0).0 =~= s1);
        assert(slot_step(s, d0).1 == Seq::<DriveCommand>::empty());
        lemma_exact_duration_completion(s1, a1, rest);
        // every strict prefix: still the same job, nothing issued
        assert forall|j: int|
            0 <= j < deltas.len() implies #[trigger] slot_run(s, deltas.take(j)).1 == Seq::<
            DriveCommand,
        >::empty() && slot_run(s, deltas.take(j)).0 == (SlotView {
            queue: s.queue,
            active: Some(
                ActiveView { elapsed: a.elapsed + delta_sum(deltas.take(j)), total: a.total },
            ),
        }) by {
            if j == 0 {
                assert(slot_run(s, deltas.take(0)).0 =~= SlotView {
                    queue: s.queue,
                    active: Some(
                        ActiveView {
                            elapsed: a.elapsed + delta_sum(deltas.take(0)),
                            total: a.total,
                        },
                    ),
                });
            } else {
                let p = deltas.take(j);
                assert(p[0] == d0);
                assert(p.drop_first() =~= rest.take(j - 1));
                assert(slot_step(s, p[0]).0 =~= s1);
                assert(slot_run(s, p).0 == slot_run(s1, rest.take(j - 1)).0);
                assert(slot_run(s, p).1 =~= slot_run(s1, rest.take(j - 1)).1);
                assert(slot_run(s1, rest.take(j - 1)).0 == (SlotView {
                    queue: s1.queue,
                    active: Some(
                        ActiveView {
                            elapsed: a1.elapsed + delta_sum(rest.take(j - 1)),
                            total: a1.total,
                        },
                    ),
                }));
                assert(delta_sum(p) == d0 + delta_sum(rest.take(j - 1)));
            }
        }
        // the whole run ends with the completing final tick
        assert(rest.last() == deltas.last());
        assert(slot_run(s, deltas).0 == slot_run(s1, rest).0);
        assert(slot_run(s, deltas).1 =~= slot_run(s1, rest).1);
        let penult = SlotView {
            queue: s.queue,
            active: Some(ActiveView { elapsed: a.total - deltas.last(), total: a.total }),
        };
        assert(slot_run(s1, rest) == slot_step(penult, deltas.last()));
    }
}

/// Jobs queued for one motor are dispatched strictly in submission
/// order, one at a time: over any sequence of ticks, the dispatch
/// (non-idle) commands issued are exactly the commands of a prefix of
/// the pending queue — no job's command before its predecessor has run
/// its course — and the jobs still pending afterwards are the
/// corresponding suffix, in order. The returned value is the number of
/// jobs the run dispatched.
pub proof fn lemma_fifo_dispatch(s: SlotView, m: int, deltas: Seq<int>) -> (k: int)
    requires
        slot_wf(s, m),
        forall|j: int| 0 <= j < deltas.len() ==> #[trigger] deltas[j] >= 1,
    ensures
        0 <= k <= s.queue.len(),
        dispatch_commands(slot_run(s, deltas).1) == job_commands(s.queue.take(k)),
        slot_run(s, deltas).0.queue == s.queue.skip(k),
    decreases deltas.len(),
{
    let pred = |c: DriveCommand| c.power > 0;
    if deltas.len() == 0 {
        assert(Seq::<DriveCommand>::empty().filter(pred) =~= Seq::<DriveCommand>::empty()) by {
            reveal(Seq::filter);
        }
        assert(s.queue.take(0) =~= Seq::<MotorJob>::empty());
        assert(job_commands(s.queue.take(0)) =~= Seq::<DriveCommand>::empty());
        assert(s.queue.skip(0) =~= s.queue);
        0
    } else {
        let d0 = deltas[0];
        let step1 = slot_step(s, d0);
        let s1 = step1.0;
        let c1 = step1.1;
        let rest = slot_run(s1, deltas.drop_first());
        assert forall|j: int| 0 <= j < deltas.drop_first().len() implies #[trigger] deltas
            .drop_first()[j] >= 1 by {
            assert(deltas.drop_first()[j] == deltas[j + 1]);
        }
        lemma_slot_step_preserves_wf(s, m, d0);
        let k1 = lemma_fifo_dispatch(s1, m, deltas.drop_first());
        Seq::<DriveCommand>::filter_distributes_over_add(c1, rest.1, pred);
        if s1.queue == s.queue {
            // this tick dispatched nothing: at most an idle pulse went out
            assert(c1.filter(pred) =~= Seq::<DriveCommand>::empty()) by {
                reveal_with_fuel(Seq::<_>::filter, 3);
            }
            assert(dispatch_commands(slot_run(s, deltas).1) =~= job_commands(s.queue.take(k1)));
            k1
        } else {
            // this tick dispatched the front job
            assert(s1.queue == s.queue.drop_first());
            assert(c1 == seq![command_of(s.queue[0])]);
            assert(s.queue[0].power >= 1);
            assert(c1.filter(pred) =~= c1) by {
                reveal_with_fuel(Seq::<_>::filter, 3);
            }
            let k = k1 + 1;
            assert(s1.queue.take(k1) =~= s.queue.take(k).drop_first());
            assert(job_commands(s.queue.take(k)) =~= c1 + job_commands(s1.queue.take(k1))) by {
                assert forall|j: int| 0 <= j < s.queue.take(k).len() implies job_commands(
                    s.queue.take(k),
                )[j] == (c1 + job_commands(s1.queue.take(k1)))[j] by {
                    if j > 0 {
                        assert(s.queue.take(k)[j] == s1.queue.take(k1)[j - 1]);
                    }
                }
            }
            assert(dispatch_commands(slot_run(s, deltas).1) =~= job_commands(s.queue.take(k)));
            assert(s1.queue.skip(k1) =~= s.queue.skip(k));
            k
        }
    }
}

/// Motors are isolated from one another: a tick's outcome for motor `i`
/// is a function of that motor's own slot and port history alone —
/// whatever jobs the other motors hold, queued or active, motor `i`'s
/// new slot and its issued commands come out the same. Together with
/// `add_job`, which touches no slot but the submitted job's target,
/// jobs submitted to different motors never block or reorder each
/// other.
pub proof fn lemma_motor_isolation<C: MotorContainer>(
    pre1: MotorController<C>,
    post1: MotorController<C>,
    pre2: MotorController<C>,
    post2: MotorController<C>,
    i: int,
    delta: int,
)
    requires
        motor_stepped(pre1, post1, i, delta),
        motor_stepped(pre2, post2, i, delta),
        pre1.slot(i) == pre2.slot(i),
        pre1.issued(i) == pre2.issued(i),
    ensures
        post1.slot(i) == post2.slot(i),
        post1.issued(i) == post2.issued(i),
{
}

} // verus!
