//! Setting up the configuration from a repository of assets.

use crate::config;
use crate::plan;
use crate::plan::{Effect, Output, Reply, Stage, StageView, State, Task, Want};
use crate::text::{compose, path};
use vstd::prelude::*;

verus! {

/// What the setup is asked for.
pub struct InitCommands {
    pub git_url: Option<String>,
    pub force: bool,
}

/// Whether anything is installed: a directory that holds something is left as it is unless forced.
pub open spec fn installs(force: bool, present: bool, entries: nat) -> bool {
    force || !present || entries == 0
}

/// Whether anything is installed, and what is told before.
pub fn should_install(cmd: &InitCommands, present: bool, entries: usize) -> (r: (
    bool,
    Option<String>,
))
    ensures
        r.0 == installs(cmd.force, present, entries as nat),
        compose::opt_text(r.1) == (if cmd.force {
            Some("overwriting existing configs"@)
        } else {
            None
        }),
{
    if cmd.force {
        (true, Some("overwriting existing configs".to_owned()))
    } else {
        (!present || entries == 0, None)
    }
}

/// Where the assets come from.
pub open spec fn source(url: Option<Seq<char>>) -> Seq<char> {
    match url {
        Some(s) => s,
        None => "https://github.com/tappunk/tnk-specs.git"@,
    }
}

/// Where the assets come from.
pub fn repository_url(cmd: &InitCommands) -> (r: String)
    ensures
        r@ == source(compose::opt_text(cmd.git_url)),
{
    match &cmd.git_url {
        Some(s) => s.clone(),
        None => "https://github.com/tappunk/tnk-specs.git".to_owned(),
    }
}

/// The plan that brings the assets to `dst`: a directory is copied, anything else is cloned. What
/// is left of a clone that failed is removed.
pub open spec fn staging_plan(url: Seq<char>, dst: Seq<char>) -> Seq<StageView> {
    seq![
        plan::stage_of(Task::IsDir(url)).when_good(
            plan::informing("staging tnk-specs from local directory "@ + url, 0),
        ).when_not_good(plan::informing("cloning tnk-specs into "@ + dst, 1)),
        plan::stage_of(Task::CopyTree(url, dst)).when_good(Effect::Go(2)),
        plan::stage_of(
            plan::running(
                "git"@,
                seq!["clone"@, "--depth"@, "1"@, url, dst],
                plan::UNLIMITED,
                Output::Shown,
            ),
        ).when_good(Effect::Go(1)).when_bad(Effect::Go(0)),
        plan::stage_of(Task::RemoveDir(dst)).when_good(
            Effect::Stop("failed to clone tnk-specs"@),
        ).when_not_good(Effect::Stop("failed to clone tnk-specs"@)),
    ]
}

/// The plan that brings the assets to `dst`.
pub fn stage_specs_source(url: &str, dst: &str) -> (r: Vec<Stage<String, Vec<String>>>)
    ensures
        plan::stages(r@) == staging_plan(url@, dst@),
{
    let copying = compose::concat("staging tnk-specs from local directory ", url);
    let cloning = compose::concat("cloning tnk-specs into ", dst);
    let args = compose::list5("clone", "--depth", "1", url, dst);
    let mut v = plan::no_stages();
    plan::push_stage(
        &mut v,
        plan::stage(Task::IsDir(url.to_owned())).on_good(
            plan::informs(copying.as_str(), 0),
        ).otherwise(plan::informs(cloning.as_str(), 1)),
    );
    plan::push_stage(
        &mut v,
        plan::stage(Task::CopyTree(url.to_owned(), dst.to_owned())).on_good(Effect::Go(2)),
    );
    plan::push_stage(
        &mut v,
        plan::stage(plan::run_task("git", args, plan::UNLIMITED, Output::Shown)).on_good(
            Effect::Go(1),
        ).on_bad(Effect::Go(0)),
    );
    plan::push_stage(
        &mut v,
        plan::stage(Task::RemoveDir(dst.to_owned())).on_good(
            plan::stops("failed to clone tnk-specs"),
        ).otherwise(plan::stops("failed to clone tnk-specs")),
    );
    v
}

/// Assets that were brought were copied or cloned.
pub proof fn assets_are_staged(url: Seq<char>, dst: Seq<char>, replies: Seq<Reply>)
    ensures
        plan::succeeded(
            staging_plan(url, dst),
            plan::run(staging_plan(url, dst), plan::beginning(), replies),
        ) ==> plan::passed(staging_plan(url, dst), replies, 1) || plan::passed(
            staging_plan(url, dst),
            replies,
            2,
        ),
{
    lemma_staged(url, dst, replies);
}

proof fn lemma_staged(url: Seq<char>, dst: Seq<char>, replies: Seq<Reply>)
    ensures
        ({
            let p = staging_plan(url, dst);
            let s = plan::run(p, plan::beginning(), replies);
            &&& 0 <= s.at <= 4
            &&& s.trouble is None && s.at == 4 ==> plan::passed(p, replies, 1) || plan::passed(
                p,
                replies,
                2,
            )
        }),
    decreases replies.len(),
{
    if replies.len() > 0 {
        let p = staging_plan(url, dst);
        lemma_staged(url, dst, replies.drop_last());
        let before = plan::run(p, plan::beginning(), replies.drop_last());
        plan::passing_lasts(p, replies, 1);
        plan::passing_lasts(p, replies, 2);
        reveal_with_fuel(plan::upcoming, 6);
    }
}

/// What is done with an entry of a directory that is copied.
pub enum Copying {
    /// It is a directory, and what it holds is copied.
    Descend,
    /// It is a file, and it is copied.
    Copy,
    /// It is left out.
    Leave,
}

/// What is done with an entry of a directory that is copied: the data of the repository is left
/// out, and so is what is neither a directory nor a file.
pub fn copy_dir_contents(name: &str, is_dir: bool, is_file: bool) -> (r: Copying)
    ensures
        match r {
            Copying::Leave => name@ == ".git"@ || (!is_dir && !is_file),
            Copying::Descend => name@ != ".git"@ && is_dir,
            Copying::Copy => name@ != ".git"@ && !is_dir && is_file,
        },
{
    if compose::same(name, ".git") {
        Copying::Leave
    } else if is_dir {
        Copying::Descend
    } else if is_file {
        Copying::Copy
    } else {
        Copying::Leave
    }
}

/// The stages that put a directory of the assets in the place of the one that is installed: it is
/// moved, or copied where it cannot be moved.
pub open spec fn sync_block(src: Seq<char>, dst: Seq<char>, name: Seq<char>) -> Seq<StageView> {
    let from = path::below(src, name);
    let to = path::below(dst, name);
    seq![
        plan::stage_of(Task::Exists(from)).when_not_good(Effect::Go(5)),
        plan::stage_of(Task::Exists(to)).when_not_good(Effect::Go(1)),
        plan::stage_of(Task::RemoveDir(to)),
        plan::stage_of(Task::Move(from, to)).when_good(Effect::Go(2)).when_not_good(Effect::Go(0)),
        plan::stage_of(Task::CopyTree(from, to)).when_not_good(
            Effect::StopWith("failed to sync "@ + name + ": "@),
        ),
        plan::stage_of(Task::RemoveDir(from)).when_not_good(Effect::Go(0)),
    ]
}

fn sync_managed_dir(src: &str, dst: &str, name: &str) -> (r: Vec<Stage<String, Vec<String>>>)
    ensures
        plan::stages(r@) == sync_block(src@, dst@, name@),
{
    let from = path::join_path(src, name);
    let to = path::join_path(dst, name);
    let fails = compose::concat3("failed to sync ", name, ": ");
    let mut v = plan::no_stages();
    plan::push_stage(&mut v, plan::stage(Task::Exists(from.clone())).otherwise(Effect::Go(5)));
    plan::push_stage(&mut v, plan::stage(Task::Exists(to.clone())).otherwise(Effect::Go(1)));
    plan::push_stage(&mut v, plan::stage(Task::RemoveDir(to.clone())));
    plan::push_stage(
        &mut v,
        plan::stage(Task::Move(from.clone(), to.clone())).on_good(Effect::Go(2)).otherwise(
            Effect::Go(0),
        ),
    );
    plan::push_stage(
        &mut v,
        plan::stage(Task::CopyTree(from.clone(), to)).otherwise(Effect::StopWith(fails)),
    );
    plan::push_stage(&mut v, plan::stage(Task::RemoveDir(from)).otherwise(Effect::Go(0)));
    v
}

/// The plan that installs the assets that lie at `src`. A configuration file that is there stays;
/// else the one of the assets is taken, or a new one is written.
pub open spec fn install_plan(src: Seq<char>, home: Seq<char>) -> Seq<StageView> {
    let dir = config::config_dir(home);
    let own = path::below(dir, "tnk.toml"@);
    let given = path::below(src, "tnk.toml"@);
    seq![plan::stage_of(Task::MakeDir(dir))] + sync_block(src, dir, "sandbox.d"@) + seq![
        plan::stage_of(Task::Exists(own)).when_good(Effect::Go(7)).when_not_good(Effect::Go(0)),
        plan::stage_of(Task::Exists(given)).when_not_good(Effect::Go(1)),
        plan::stage_of(Task::CopyFile(given, own)).when_good(Effect::Go(5)).when_not_good(
            Effect::StopWith("failed to install tnk.toml: "@),
        ),
    ] + config::init_plan(home, false)
}

/// The plan that installs the assets that lie at `src`.
pub fn install(src: &str, home: &str) -> (r: Vec<Stage<String, Vec<String>>>)
    ensures
        plan::stages(r@) == install_plan(src@, home@),
{
    let dir = config::config_directory(home);
    let own = path::join_path(dir.as_str(), "tnk.toml");
    let given = path::join_path(src, "tnk.toml");
    let mut v = plan::no_stages();
    plan::push_stage(&mut v, plan::stage(Task::MakeDir(dir.clone())));
    plan::push_stages(&mut v, sync_managed_dir(src, dir.as_str(), "sandbox.d"));
    plan::push_stage(
        &mut v,
        plan::stage(Task::Exists(own.clone())).on_good(Effect::Go(7)).otherwise(Effect::Go(0)),
    );
    plan::push_stage(&mut v, plan::stage(Task::Exists(given.clone())).otherwise(Effect::Go(1)));
    plan::push_stage(
        &mut v,
        plan::stage(Task::CopyFile(given, own)).on_good(Effect::Go(5)).otherwise(
            Effect::StopWith("failed to install tnk.toml: ".to_owned()),
        ),
    );
    plan::push_stages(&mut v, config::init_config(home, false));
    assert(plan::stages(v@) =~= install_plan(src@, home@));
    v
}

/// A configuration file that is there stays as it is: once the question whether there is one is
/// answered with yes, nothing is left to do.
pub proof fn installed_config_is_kept(src: Seq<char>, home: Seq<char>, reply: Reply)
    requires
        plan::is_good(install_plan(src, home)[7].want, reply),
    ensures
        install_plan(src, home)[7].task == Task::<Seq<char>, Seq<Seq<char>>>::Exists(
            path::below(config::config_dir(home), "tnk.toml"@),
        ),
        plan::finished(
            install_plan(src, home),
            plan::after(install_plan(src, home), (State { at: 7, trouble: None }), reply),
        ),
{
    let p = install_plan(src, home);
    assert(p.len() == 15);
}

/// The file that keeps the revision of the assets, with its text, if they have one.
pub open spec fn revision_file(home: Seq<char>, rev: Seq<char>) -> Option<(Seq<char>, Seq<char>)> {
    if rev == "local"@ {
        None
    } else {
        Some((path::below(config::config_dir(home), ".specs_rev"@), rev + "\n"@))
    }
}

/// The file that keeps the revision of the assets, with its text, if they have one.
pub fn keep_revision(home: &str, rev: &str) -> (r: Option<(String, String)>)
    ensures
        match r {
            Some(p) => revision_file(home@, rev@) == Some((p.0@, p.1@)),
            None => revision_file(home@, rev@) is None,
        },
{
    if compose::same(rev, "local") {
        None
    } else {
        Some(
            (
                path::join_path(config::config_directory(home).as_str(), ".specs_rev"),
                compose::concat(rev, "\n"),
            ),
        )
    }
}

/// When the plan that brings the assets succeeds, they were copied out of the directory that was
/// named, or cloned from the address that was named, to the place that was asked for.
pub proof fn assets_reach_their_place(url: Seq<char>, dst: Seq<char>, replies: Seq<Reply>)
    requires
        plan::succeeded(
            staging_plan(url, dst),
            plan::run(staging_plan(url, dst), plan::beginning(), replies),
        ),
    ensures
        plan::replied(staging_plan(url, dst), replies, Task::CopyTree(url, dst), Want::Success, true)
            || plan::replied(
            staging_plan(url, dst),
            replies,
            plan::running(
                "git"@,
                seq!["clone"@, "--depth"@, "1"@, url, dst],
                plan::UNLIMITED,
                Output::Shown,
            ),
            Want::Success,
            true,
        ),
{
    let p = staging_plan(url, dst);
    plan::successes_are_complete(p, replies);
    plan::stretches_are_crossed(p, replies, 0, 4);
    let k = choose|k: int| #[trigger] plan::leaves(p, replies, k, 0, 4);
    plan::leaving_is_told(p, replies, k, 0, 4);
    let at = plan::run(p, plan::beginning(), replies.take(k)).at;
    assert(plan::replied(
        p,
        replies,
        p[at].task,
        p[at].want,
        plan::is_good(p[at].want, replies[k]),
    ));
}

proof fn lemma_install_stages(src: Seq<char>, home: Seq<char>)
    ensures
        ({
            let p = install_plan(src, home);
            &&& p.len() == 15
            &&& forall|j: int|
                0 <= j < 6 ==> #[trigger] p[j + 1] == sync_block(
                    src,
                    config::config_dir(home),
                    "sandbox.d"@,
                )[j]
            &&& forall|j: int| 0 <= j < 5 ==> #[trigger] p[j + 10] == config::init_plan(
                home,
                false,
            )[j]
        }),
{
}

/// When an installation succeeds, the directory of the sandboxes was missing among the assets, or
/// what was installed before was removed and the assets were moved or copied to its place.
#[verifier::rlimit(40)]
pub proof fn sandbox_assets_are_installed(src: Seq<char>, home: Seq<char>, replies: Seq<Reply>)
    requires
        plan::succeeded(
            install_plan(src, home),
            plan::run(install_plan(src, home), plan::beginning(), replies),
        ),
    ensures
        ({
            let p = install_plan(src, home);
            let from = path::below(src, "sandbox.d"@);
            let to = path::below(path::below(home, ".config/tnk"@), "sandbox.d"@);
            ||| plan::replied(p, replies, Task::Exists(from), Want::Success, false)
            ||| plan::replied(p, replies, Task::Move(from, to), Want::Success, true)
            ||| plan::replied(p, replies, Task::CopyTree(from, to), Want::Success, true)
        }),
{
    let p = install_plan(src, home);
    lemma_install_stages(src, home);
    plan::successes_are_complete(p, replies);
    plan::stretches_are_crossed(p, replies, 1, 6);
    let k = choose|k: int| #[trigger] plan::leaves(p, replies, k, 1, 6);
    plan::leaving_is_told(p, replies, k, 1, 6);
    let at = plan::run(p, plan::beginning(), replies.take(k)).at;
    assert(p[(at - 1) + 1] == sync_block(src, config::config_dir(home), "sandbox.d"@)[at - 1]);
    assert(plan::replied(
        p,
        replies,
        p[at].task,
        p[at].want,
        plan::is_good(p[at].want, replies[k]),
    ));
}

/// After an installation that succeeds there is a configuration file: one was there, that of the
/// assets was copied, or a new one was written.
#[verifier::rlimit(40)]
pub proof fn installations_are_configured(src: Seq<char>, home: Seq<char>, replies: Seq<Reply>)
    requires
        plan::succeeded(
            install_plan(src, home),
            plan::run(install_plan(src, home), plan::beginning(), replies),
        ),
    ensures
        ({
            let p = install_plan(src, home);
            let own = path::below(path::below(home, ".config/tnk"@), "tnk.toml"@);
            let given = path::below(src, "tnk.toml"@);
            ||| plan::replied(p, replies, Task::Exists(own), Want::Success, true)
            ||| plan::replied(p, replies, Task::CopyFile(given, own), Want::Success, true)
            ||| plan::replied(p, replies, Task::Write(own, config::template()), Want::Success, true)
        }),
{
    let p = install_plan(src, home);
    lemma_install_stages(src, home);
    plan::successes_are_complete(p, replies);
    assert forall|j: int| 0 <= j < 7 implies plan::skips_at_most(#[trigger] p[j], 7 - j - 1) by {
        if j > 0 {
            assert(p[(j - 1) + 1] == sync_block(
                src,
                config::config_dir(home),
                "sandbox.d"@,
            )[j - 1]);
        }
    }
    plan::stretches_are_crossed(p, replies, 7, 14);
    let k = choose|k: int| #[trigger] plan::leaves(p, replies, k, 7, 14);
    plan::leaving_is_told(p, replies, k, 7, 14);
    let at = plan::run(p, plan::beginning(), replies.take(k)).at;
    if at >= 10 {
        assert(p[(at - 10) + 10] == config::init_plan(home, false)[at - 10]);
    }
    assert(plan::replied(
        p,
        replies,
        p[at].task,
        p[at].want,
        plan::is_good(p[at].want, replies[k]),
    ));
}

} // verus!
