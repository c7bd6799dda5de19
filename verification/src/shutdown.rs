//! Stopping all machines at once.

use crate::cli;
use crate::plan;
use crate::plan::{Effect, Order, Output, Reply, Stage, StageView, Task, Want};
use crate::sandbox::lima;
use crate::text::{compose, edge, split};
use vstd::prelude::*;

verus! {

/// Whether a machine is stopped when all are: every one of this program but that of the
/// configuration.
pub open spec fn is_stopped(id: Seq<char>) -> bool {
    edge::begins(id, "tnk-"@) && id != "tnk-config"@
}

/// The names among some that are those of machines to stop.
pub open spec fn stopped_among(names: Seq<Seq<char>>) -> Seq<Seq<char>>
    decreases names.len(),
{
    if names.len() == 0 {
        Seq::empty()
    } else {
        let before = stopped_among(names.drop_last());
        if is_stopped(names.last()) {
            before.push(names.last())
        } else {
            before
        }
    }
}

/// The machines to stop, from the list of all names; none if the list could not be had.
pub open spec fn found(output: Option<Seq<char>>) -> Seq<Seq<char>> {
    match output {
        Some(s) => stopped_among(split::all_trimmed(split::lines_of(s))),
        None => Seq::empty(),
    }
}

/// The machines to stop, from the list of all names; none if the list could not be had.
pub fn discover_lima_sandboxes(output: Option<String>) -> (r: Vec<String>)
    ensures
        compose::texts(r@) == found(compose::opt_text(output)),
{
    let text = match output {
        Some(s) => s,
        None => return compose::no_texts(),
    };
    let lines = split::lines(text.as_str());
    let names = split::trim_all(&lines);
    let ghost all = compose::texts(names@);
    let mut v = compose::no_texts();
    let mut i: usize = 0;
    while i < names.len()
        invariant
            i <= names@.len(),
            all == compose::texts(names@),
            compose::texts(v@) == stopped_among(all.take(i as int)),
        decreases names@.len() - i,
    {
        assert(all.take(i + 1).drop_last() =~= all.take(i as int));
        assert(all.take(i + 1).last() == names@[i as int]@);
        if edge::starts_with(names[i].as_str(), "tnk-") && !compose::same(
            names[i].as_str(),
            "tnk-config",
        ) {
            compose::push_text(&mut v, names[i].as_str());
        }
        i += 1;
    }
    assert(all.take(i as int) =~= all);
    v
}

/// The stages that stop a machine: first gently, within the time that is granted, then by force.
pub open spec fn stop_block(name: Seq<char>, grace_secs: u64) -> Seq<StageView> {
    seq![
        lima::running_probe(name).when_not_good(plan::informing("already stopped "@ + name, 3)),
        plan::stage_of(
            plan::running("limactl"@, seq!["stop"@, name], grace_secs, Output::Captured),
        ).when_good(plan::informing("stopped "@ + name, 2)).when_not_good(
            plan::warning(
                "graceful stop for '"@ + name + "' did not succeed, escalating to force"@,
                0,
            ),
        ),
        plan::stage_of(Task::Pause(5000)).when_not_good(Effect::Go(0)),
        plan::stage_of(
            plan::running("limactl"@, seq!["stop"@, "--force"@, name], 20, Output::Captured),
        ).when_good(plan::informing("stopped "@ + name, 0)).when_not_good(
            plan::warning("failed to stop "@ + name, 0),
        ),
    ]
}

/// The stages that stop a machine.
pub fn stop_lima(name: &str, grace_secs: u64) -> (r: Vec<Stage<String, Vec<String>>>)
    ensures
        plan::stages(r@) == stop_block(name@, grace_secs),
{
    let already = compose::concat("already stopped ", name);
    let stopped = compose::concat("stopped ", name);
    let harder = compose::concat3(
        "graceful stop for '",
        name,
        "' did not succeed, escalating to force",
    );
    let failed = compose::concat("failed to stop ", name);
    let gentle = compose::list2("stop", name);
    let force = compose::list3("stop", "--force", name);
    let mut v = plan::no_stages();
    plan::push_stage(&mut v, lima::ask_running(name).otherwise(plan::informs(already.as_str(), 3)));
    plan::push_stage(
        &mut v,
        plan::stage(plan::run_task("limactl", gentle, grace_secs, Output::Captured)).on_good(
            plan::informs(stopped.as_str(), 2),
        ).otherwise(plan::warns(harder.as_str(), 0)),
    );
    plan::push_stage(&mut v, plan::stage(Task::Pause(5000)).otherwise(Effect::Go(0)));
    plan::push_stage(
        &mut v,
        plan::stage(plan::run_task("limactl", force, 20, Output::Captured)).on_good(
            plan::informs(stopped.as_str(), 0),
        ).otherwise(plan::warns(failed.as_str(), 0)),
    );
    v
}

/// The stages that stop some machines, one after the other.
pub open spec fn stop_blocks(names: Seq<Seq<char>>, grace_secs: u64) -> Seq<StageView>
    decreases names.len(),
{
    if names.len() == 0 {
        Seq::empty()
    } else {
        stop_blocks(names.drop_last(), grace_secs) + stop_block(names.last(), grace_secs)
    }
}

/// The plan that stops some machines and tells when all is done.
pub open spec fn shutdown_plan(names: Seq<Seq<char>>, grace_secs: u64) -> Seq<StageView> {
    stop_blocks(names, grace_secs).push(
        plan::stage_of(Task::Nothing).when_good(
            plan::informing("shutdown complete"@, 0),
        ).when_not_good(Effect::Go(0)),
    )
}

/// How many seconds a machine has to stop when none are given.
pub open spec fn grace(timeout_secs: Option<u64>) -> u64 {
    match timeout_secs {
        Some(n) => n,
        None => 60,
    }
}

/// Stops the machines that were found.
pub fn run(timeout_secs: Option<u64>, dry_run: bool, names: &Vec<String>) -> (r: Order)
    ensures
        if dry_run {
            plan::is_skip(r, cli::skipping("shutdown actions"@))
        } else {
            plan::is_carry(r, shutdown_plan(compose::texts(names@), grace(timeout_secs)))
        },
{
    if dry_run {
        return Order::Skip(cli::skip_note("shutdown actions"));
    }
    let grace_secs: u64 = match timeout_secs {
        Some(n) => n,
        None => 60,
    };
    let ghost all = compose::texts(names@);
    let mut v = plan::no_stages();
    let mut i: usize = 0;
    while i < names.len()
        invariant
            i <= names@.len(),
            all == compose::texts(names@),
            plan::stages(v@) == stop_blocks(all.take(i as int), grace_secs),
        decreases names@.len() - i,
    {
        assert(all.take(i + 1).drop_last() =~= all.take(i as int));
        assert(all.take(i + 1).last() == names@[i as int]@);
        plan::push_stages(&mut v, stop_lima(names[i].as_str(), grace_secs));
        i += 1;
    }
    assert(all.take(i as int) =~= all);
    plan::push_stage(
        &mut v,
        plan::stage(Task::Nothing).on_good(plan::informs("shutdown complete", 0)).otherwise(
            Effect::Go(0),
        ),
    );
    Order::Carry(v)
}

proof fn lemma_blocks(names: Seq<Seq<char>>, grace_secs: u64)
    ensures
        stop_blocks(names, grace_secs).len() == 4 * names.len(),
        forall|i: int|
            0 <= i < 4 * names.len() ==> #[trigger] stop_blocks(names, grace_secs)[i] == stop_block(
                names[i / 4],
                grace_secs,
            )[i % 4],
    decreases names.len(),
{
    if names.len() > 0 {
        let before = stop_blocks(names.drop_last(), grace_secs);
        lemma_blocks(names.drop_last(), grace_secs);
        assert forall|i: int| 0 <= i < 4 * names.len() implies #[trigger] stop_blocks(
            names,
            grace_secs,
        )[i] == stop_block(names[i / 4], grace_secs)[i % 4] by {
            if i < before.len() {
                assert(stop_blocks(names, grace_secs)[i] == before[i]);
            } else {
                assert(i / 4 == names.len() - 1);
                assert(i % 4 == i - before.len());
            }
        }
    }
}

proof fn lemma_stages(names: Seq<Seq<char>>, grace_secs: u64, i: int)
    requires
        0 <= i < shutdown_plan(names, grace_secs).len(),
    ensures
        shutdown_plan(names, grace_secs).len() == 4 * names.len() + 1,
        plan::never_gives_up(shutdown_plan(names, grace_secs)[i]),
        plan::skips_at_most(shutdown_plan(names, grace_secs)[i], 3 - i % 4),
        i < 4 * names.len() && i % 4 == 0 ==> shutdown_plan(names, grace_secs)[i]
            == stop_block(names[i / 4], grace_secs)[0],
{
    lemma_blocks(names, grace_secs);
    if i < 4 * names.len() {
        assert(shutdown_plan(names, grace_secs)[i] == stop_blocks(names, grace_secs)[i]);
    }
}

/// A shutdown never fails, and it comes to every machine: the question whether it runs is asked of
/// each of them before the shutdown ends.
pub proof fn shutdowns_reach_every_machine(
    names: Seq<Seq<char>>,
    grace_secs: u64,
    replies: Seq<Reply>,
    i: int,
)
    requires
        0 <= i < names.len(),
    ensures
        plan::run(shutdown_plan(names, grace_secs), plan::beginning(), replies).trouble is None,
        plan::finished(
            shutdown_plan(names, grace_secs),
            plan::run(shutdown_plan(names, grace_secs), plan::beginning(), replies),
        ) ==> plan::performed(shutdown_plan(names, grace_secs), replies, 4 * i),
        shutdown_plan(names, grace_secs)[4 * i] == stop_block(names[i], grace_secs)[0],
{
    let p = shutdown_plan(names, grace_secs);
    let s = plan::run(p, plan::beginning(), replies);
    lemma_reached(names, grace_secs, replies, i);
    lemma_blocks(names, grace_secs);
    lemma_stages(names, grace_secs, 4 * i);
    assert((4 * i) / 4 == i);
    if plan::finished(p, s) {
        assert(s.at >= p.len());
    }
}

proof fn lemma_reached(
    names: Seq<Seq<char>>,
    grace_secs: u64,
    replies: Seq<Reply>,
    i: int,
)
    requires
        0 <= i < names.len(),
    ensures
        ({
            let p = shutdown_plan(names, grace_secs);
            let s = plan::run(p, plan::beginning(), replies);
            &&& 0 <= s.at
            &&& s.trouble is None
            &&& s.at > 4 * i ==> plan::performed(p, replies, 4 * i)
        }),
    decreases replies.len(),
{
    if replies.len() > 0 {
        let p = shutdown_plan(names, grace_secs);
        let fewer = replies.drop_last();
        lemma_reached(names, grace_secs, fewer, i);
        let before = plan::run(p, plan::beginning(), fewer);
        lemma_blocks(names, grace_secs);
        if before.at < p.len() {
            lemma_stages(names, grace_secs, before.at);
            plan::performing_lasts(p, replies, 4 * i);
            let e = plan::effect_of(p[before.at], replies.last());
            assert(!plan::gives_up(e));
            assert(plan::skipped(e) <= 3 - before.at % 4);
        } else {
            plan::performing_lasts(p, replies, 4 * i);
        }
    }
}

/// When a shutdown is finished, every machine was found not to run or was stopped with success, or
/// at least an attempt was made to stop it by force.
pub proof fn shutdowns_stop_every_machine(
    names: Seq<Seq<char>>,
    grace_secs: u64,
    replies: Seq<Reply>,
    i: int,
)
    requires
        0 <= i < names.len(),
        plan::finished(
            shutdown_plan(names, grace_secs),
            plan::run(shutdown_plan(names, grace_secs), plan::beginning(), replies),
        ),
    ensures
        ({
            let p = shutdown_plan(names, grace_secs);
            ||| plan::replied(
                p,
                replies,
                plan::running(
                    "limactl"@,
                    seq!["list"@, "--format"@, "{{.Status}}"@, names[i]],
                    15,
                    Output::Captured,
                ),
                Want::ReadsLoosely("running"@),
                false,
            )
            ||| plan::replied(
                p,
                replies,
                plan::running("limactl"@, seq!["stop"@, names[i]], grace_secs, Output::Captured),
                Want::Success,
                true,
            )
            ||| plan::tried(
                p,
                replies,
                plan::running(
                    "limactl"@,
                    seq!["stop"@, "--force"@, names[i]],
                    20,
                    Output::Captured,
                ),
            )
        }),
{
    let p = shutdown_plan(names, grace_secs);
    shutdowns_reach_every_machine(names, grace_secs, replies, i);
    plan::successes_are_complete(p, replies);
    lemma_blocks(names, grace_secs);
    let from = 4 * i;
    assert forall|j: int| 0 <= j < from implies plan::skips_at_most(
        #[trigger] p[j],
        from - j - 1,
    ) by {
        lemma_stages(names, grace_secs, j);
    }
    plan::stretches_are_crossed(p, replies, from, from + 4);
    let k = choose|k: int| #[trigger] plan::leaves(p, replies, k, from, from + 4);
    plan::leaving_is_told(p, replies, k, from, from + 4);
    let at = plan::run(p, plan::beginning(), replies.take(k)).at;
    assert(p[at] == stop_blocks(names, grace_secs)[at]);
    assert(at / 4 == i && at % 4 == at - from);
    assert(p[at] == stop_block(names[i], grace_secs)[at - from]);
    assert(plan::replied(
        p,
        replies,
        p[at].task,
        p[at].want,
        plan::is_good(p[at].want, replies[k]),
    ));
}

/// A shutdown is about every machine of this program but that of the configuration, and about no
/// other.
pub proof fn shutdowns_find_every_machine(names: Seq<Seq<char>>, id: Seq<char>)
    ensures
        stopped_among(names).contains(id) <==> names.contains(id) && edge::begins(id, "tnk-"@) && id
            != "tnk-config"@,
    decreases names.len(),
{
    let found = stopped_among(names);
    if names.len() > 0 {
        let fewer = names.drop_last();
        let before = stopped_among(fewer);
        shutdowns_find_every_machine(fewer, id);
        if found.contains(id) {
            let k = choose|k: int| 0 <= k < found.len() && found[k] == id;
            if k < before.len() {
                assert(before[k] == id);
                let j = choose|j: int| 0 <= j < fewer.len() && fewer[j] == id;
                assert(names[j] == id);
            } else {
                assert(names[names.len() - 1] == id);
            }
        }
        if names.contains(id) && is_stopped(id) {
            let j = choose|j: int| 0 <= j < names.len() && names[j] == id;
            if j < fewer.len() {
                assert(fewer[j] == id);
                let k = choose|k: int| 0 <= k < before.len() && before[k] == id;
                assert(found[k] == id);
            } else {
                assert(found[before.len() as int] == id);
            }
        }
    }
}

} // verus!
