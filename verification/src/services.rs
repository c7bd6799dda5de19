//! The machine in which the services for the sandboxes run.

use crate::cli;
use crate::cli::OutputFormat;
use crate::failure;
use crate::failure::Failure;
use crate::json;
use crate::json::{Json, JsonView};
use crate::plan;
use crate::plan::{Effect, Line, Order, Output, Reply, Stage, StageView, Want};
use crate::sandbox::lima;
use crate::text::{compose, number, path};
use crate::ui;
use crate::ui::{ExitCode, Said};
use vstd::prelude::*;

verus! {

/// The services in a Lima machine.
pub struct LimaServices;

/// How many letters a secret has.
pub const SECRET_LEN: usize = 32;

/// The letter with an index below sixty-two: capitals, small letters, digits.
pub open spec fn letter(i: int) -> char {
    if i < 26 {
        (65 + i) as char
    } else if i < 52 {
        (71 + i) as char
    } else {
        (i - 4) as char
    }
}

/// The letter that a random byte gives. The last eight bytes give none, so that every letter comes
/// from as many bytes as any other.
pub open spec fn drawn(b: u8) -> Option<char> {
    if b < 248 {
        Some(letter(b as int % 62))
    } else {
        None
    }
}

/// The letters that random bytes give.
pub open spec fn letters(bytes: Seq<u8>) -> Seq<char>
    decreases bytes.len(),
{
    if bytes.len() == 0 {
        Seq::empty()
    } else {
        let before = letters(bytes.drop_last());
        match drawn(bytes.last()) {
            Some(c) => before.push(c),
            None => before,
        }
    }
}

fn draw(b: u8) -> (r: Option<char>)
    ensures
        r == drawn(b),
{
    if b >= 248 {
        return None;
    }
    let i: u8 = b % 62;
    Some(
        if i < 26 {
            (65 + i) as char
        } else if i < 52 {
            (71 + i) as char
        } else {
            (i - 4) as char
        },
    )
}

/// Adds what a random byte gives to a secret, and says whether the secret is complete.
pub fn generate_searxng_secret(secret: &mut String, byte: u8) -> (r: bool)
    ensures
        final(secret)@ == (match drawn(byte) {
            Some(c) => old(secret)@.push(c),
            None => old(secret)@,
        }),
        r == (final(secret)@.len() == SECRET_LEN),
{
    match draw(byte) {
        Some(c) => {
            secret.push(c);
        },
        None => {},
    }
    let cs = compose::chars_of(secret.as_str());
    cs.len() == SECRET_LEN
}

/// Every letter comes from exactly four bytes.
pub proof fn letters_are_equally_likely(b: u8, i: int)
    requires
        0 <= i < 62,
    ensures
        drawn(b) == Some(letter(i)) <==> b == i || b == i + 62 || b == i + 124 || b == i + 186,
{
    if b < 248 {
        let j = b as int % 62;
        assert(0 <= j < 62);
        assert(letter(j) == letter(i) ==> j == i) by {
            assert(letter(i) as int == (if i < 26 {
                65 + i
            } else if i < 52 {
                71 + i
            } else {
                i - 4
            }));
            assert(letter(j) as int == (if j < 26 {
                65 + j
            } else if j < 52 {
                71 + j
            } else {
                j - 4
            }));
        }
    }
}

/// Whether a character is one of those of which secrets are made.
pub open spec fn is_letter(c: char) -> bool {
    'A' <= c <= 'Z' || 'a' <= c <= 'z' || '0' <= c <= '9'
}

/// Secrets are made of letters and digits only.
pub proof fn secrets_are_plain(bytes: Seq<u8>)
    ensures
        forall|i: int| 0 <= i < letters(bytes).len() ==> is_letter(#[trigger] letters(bytes)[i]),
    decreases bytes.len(),
{
    if bytes.len() > 0 {
        secrets_are_plain(bytes.drop_last());
        let before = letters(bytes.drop_last());
        assert forall|i: int| 0 <= i < letters(bytes).len() implies is_letter(
            #[trigger] letters(bytes)[i],
        ) by {
            if i < before.len() {
                assert(letters(bytes)[i] == before[i]);
            }
        }
    }
}

/// A command to the machines that has to succeed, and what is told when it does not.
pub open spec fn checked(args: Seq<Seq<char>>, context: Seq<char>) -> StageView {
    plan::stage_of(plan::running("limactl"@, args, 300, Output::Echoed)).when_bad(
        Effect::StopTail(context, 6),
    ).when_late(Effect::Stop(context + ": timed out after 300s"@))
}

/// A command to the machines that has to succeed, and what is told when it does not.
pub fn limactl_run_or_err(args: Vec<String>, context: &str) -> (r: Stage<String, Vec<String>>)
    ensures
        r@ == checked(compose::texts(args@), context@),
{
    plan::stage(plan::run_task("limactl", args, 300, Output::Echoed)).on_bad(
        Effect::StopTail(context.to_owned(), 6),
    ).on_late(Effect::Stop(compose::concat(context, ": timed out after 300s")))
}

/// The question whether a machine is among all there are.
pub open spec fn presence(id: Seq<char>) -> StageView {
    plan::stage_of(
        plan::running(
            "limactl"@,
            seq!["list"@, "--format"@, "{{.Name}}"@],
            15,
            Output::Captured,
        ),
    ).wanting(Want::HasLine(id))
}

/// Asks whether a machine is among all there are.
pub fn lima_instance_exists(id: &str) -> (r: Stage<String, Vec<String>>)
    ensures
        r@ == presence(id@),
{
    let v = compose::list3("list", "--format", "{{.Name}}");
    plan::stage(plan::run_task("limactl", v, 15, Output::Captured)).wants(
        Want::HasLine(id.to_owned()),
    )
}

/// What comes of an attempt to reach the machine of the services.
pub enum Readiness {
    /// It answers.
    Ready,
    /// It did not answer in time.
    Expired(Failure),
    /// Another attempt is to be made after two seconds.
    Again,
}

/// What a user who wants to see more is told of an attempt that took too long.
pub open spec fn late_note(id: Seq<char>, late: bool) -> Option<Seq<char>> {
    if late {
        Some("lima shell check timed out after 10s for instance '"@ + id + "'"@)
    } else {
        None
    }
}

/// What comes of an attempt to reach a machine, and what a user who wants to see more is told.
pub fn wait_for_services_ready(
    id: &str,
    timeout_secs: u64,
    answered: bool,
    late: bool,
    expired: bool,
) -> (r: (Readiness, Option<String>))
    ensures
        match r.0 {
            Readiness::Ready => answered,
            Readiness::Expired(e) => !answered && expired && e@
                == "timed out waiting for lima instance '"@ + id@ + "' to be ready after "@
                + number::decimal(timeout_secs as nat) + "s"@,
            Readiness::Again => !answered && !expired,
        },
        compose::opt_text(r.1) == late_note(id@, late && !answered),
{
    if answered {
        return (Readiness::Ready, None);
    }
    let note = if late {
        Some(
            compose::concat3("lima shell check timed out after 10s for instance '", id, "'"),
        )
    } else {
        None
    };
    if expired {
        let n = number::to_decimal(timeout_secs);
        let why = compose::concat5(
            "timed out waiting for lima instance '",
            id,
            "' to be ready after ",
            n.as_str(),
            "s",
        );
        (Readiness::Expired(failure::failed(why)), note)
    } else {
        (Readiness::Again, note)
    }
}

/// How the machine of the services is created: without any directory of the host.
pub open spec fn create_args() -> Seq<Seq<char>> {
    seq![
        "--tty=false"@,
        "start"@,
        "--name"@,
        "tnk-services"@,
        "--vm-type=vz"@,
        "--mount-none"@,
        "--containerd=system"@,
        "--cpus=2"@,
    ] + seq![
        "--memory=2"@,
        "--port-forward=18765:18765"@,
        "--port-forward=18766:18766"@,
        "--set"@,
        ".ssh.loadDotSSHPubKeys = false"@,
        "template:ubuntu"@,
    ]
}

/// Nothing of the host is mounted into the machine of the services, and the one setting that is
/// made keeps the keys of the host out of it.
pub proof fn services_mount_nothing(i: int)
    requires
        0 <= i < create_args().len() - 1,
        create_args()[i] == "--set"@,
    ensures
        create_args()[i + 1] == ".ssh.loadDotSSHPubKeys = false"@,
        create_args().contains("--mount-none"@),
{
    assert(create_args()[5] == "--mount-none"@);
    reveal_strlit("--set");
    reveal_strlit("--tty=false");
    reveal_strlit("start");
    reveal_strlit("--name");
    reveal_strlit("tnk-services");
    reveal_strlit("--vm-type=vz");
    reveal_strlit("--mount-none");
    reveal_strlit("--containerd=system");
    reveal_strlit("--cpus=2");
    reveal_strlit("--memory=2");
    reveal_strlit("--port-forward=18765:18765");
    reveal_strlit("--port-forward=18766:18766");
    reveal_strlit(".ssh.loadDotSSHPubKeys = false");
    assert("start"@[0] != "--set"@[0]);
    let args = create_args();
    assert(args[0] == "--tty=false"@ && args[1] == "start"@ && args[2] == "--name"@);
    assert(args[3] == "tnk-services"@ && args[4] == "--vm-type=vz"@);
    assert(args[6] == "--containerd=system"@ && args[7] == "--cpus=2"@);
    assert(args[8] == "--memory=2"@ && args[9] == "--port-forward=18765:18765"@);
    assert(args[10] == "--port-forward=18766:18766"@);
    assert(args[12] == ".ssh.loadDotSSHPubKeys = false"@);
}

fn creation_args() -> (r: Vec<String>)
    ensures
        compose::texts(r@) == create_args(),
{
    let mut v = compose::list8(
        "--tty=false",
        "start",
        "--name",
        "tnk-services",
        "--vm-type=vz",
        "--mount-none",
        "--containerd=system",
        "--cpus=2",
    );
    let more = compose::list6(
        "--memory=2",
        "--port-forward=18765:18765",
        "--port-forward=18766:18766",
        "--set",
        ".ssh.loadDotSSHPubKeys = false",
        "template:ubuntu",
    );
    compose::push_all(&mut v, &more);
    v
}

/// Going on after it was told that the machine runs.
pub open spec fn told_running(skip: u64) -> Effect<Seq<char>> {
    Effect::Say(
        Line { text: "info: services instance 'tnk-services' is running"@, always: true },
        skip,
    )
}

fn tells_running(skip: u64) -> (r: Effect<String>)
    ensures
        plan::effect_view(r) == told_running(skip),
{
    Effect::Say(
        Line { text: "info: services instance 'tnk-services' is running".to_owned(), always: true },
        skip,
    )
}

/// The plan that brings the machine of the services up: it is created where there is none, and
/// booted where it does not run.
pub open spec fn ensure_plan() -> Seq<StageView> {
    seq![
        presence("tnk-services"@).when_good(Effect::Go(1)).when_not_good(Effect::Go(0)),
        checked(create_args(), "failed to create/start services instance"@).shouting(
            seq![
                "info: creating services instance 'tnk-services' (this can take a few minutes)"@,
            ],
        ).when_good(told_running(2)),
        lima::running_probe("tnk-services"@).when_good(Effect::Go(1)).when_not_good(Effect::Go(0)),
        checked(
            seq!["--tty=false"@, "start"@, "tnk-services"@],
            "failed to start services instance"@,
        ).shouting(seq!["info: starting existing services instance 'tnk-services'"@]).when_good(
            told_running(0),
        ),
    ]
}

/// The plan that brings the machine of the services up.
pub fn ensure_lima_services_instance() -> (r: Vec<Stage<String, Vec<String>>>)
    ensures
        plan::stages(r@) == ensure_plan(),
{
    let mut v = plan::no_stages();
    plan::push_stage(
        &mut v,
        lima_instance_exists("tnk-services").on_good(Effect::Go(1)).otherwise(Effect::Go(0)),
    );
    plan::push_stage(
        &mut v,
        limactl_run_or_err(creation_args(), "failed to create/start services instance").shouts(
            compose::list1(
                "info: creating services instance 'tnk-services' (this can take a few minutes)",
            ),
        ).on_good(tells_running(2)),
    );
    plan::push_stage(
        &mut v,
        lima::ask_running("tnk-services").on_good(Effect::Go(1)).otherwise(Effect::Go(0)),
    );
    plan::push_stage(
        &mut v,
        limactl_run_or_err(
            compose::list3("--tty=false", "start", "tnk-services"),
            "failed to start services instance",
        ).shouts(
            compose::list1("info: starting existing services instance 'tnk-services'"),
        ).on_good(tells_running(0)),
    );
    v
}

/// A machine that was brought up was created, seen running, or booted.
pub proof fn services_are_brought_up(replies: Seq<Reply>)
    ensures
        plan::succeeded(
            ensure_plan(),
            plan::run(ensure_plan(), plan::beginning(), replies),
        ) ==> plan::passed(ensure_plan(), replies, 1) || plan::passed(ensure_plan(), replies, 2)
            || plan::passed(ensure_plan(), replies, 3),
{
    lemma_brought_up(replies);
}

proof fn lemma_brought_up(replies: Seq<Reply>)
    ensures
        ({
            let p = ensure_plan();
            let s = plan::run(p, plan::beginning(), replies);
            &&& 0 <= s.at <= 4
            &&& s.trouble is None && s.at == 4 ==> plan::passed(p, replies, 1) || plan::passed(
                p,
                replies,
                2,
            ) || plan::passed(p, replies, 3)
        }),
    decreases replies.len(),
{
    if replies.len() > 0 {
        let p = ensure_plan();
        lemma_brought_up(replies.drop_last());
        let before = plan::run(p, plan::beginning(), replies.drop_last());
        plan::passing_lasts(p, replies, 1);
        plan::passing_lasts(p, replies, 2);
        plan::passing_lasts(p, replies, 3);
        reveal_with_fuel(plan::upcoming, 6);
    }
}

/// The command that starts the search engine inside the machine.
pub open spec fn searxng_command(secret: Seq<char>) -> Seq<char> {
    "cat >/tmp/tnk-searxng-settings.yml <<'EOF'\nuse_default_settings: true\nsearch:\n  formats:\n    - html\n    - json\nserver:\n  limiter: false\nEOF\nnerdctl rm -f tnk-searxng >/dev/null 2>&1 || true\nnerdctl run -d --name tnk-searxng -p 127.0.0.1:18766:8080 -e SEARXNG_SECRET="@
        + secret
        + " -v /tmp/tnk-searxng-settings.yml:/etc/searxng/settings.yml:ro docker.io/searxng/searxng:latest >/dev/null 2>&1 || true"@
}

/// Where the script that sets the services up lies on the host.
pub open spec fn services_script(home: Seq<char>) -> Seq<char> {
    path::below(home, ".config/tnk/sandbox.d/provision.d/tnk-services.sh"@)
}

/// A command inside the machine.
pub open spec fn inside(command: Seq<char>) -> Seq<Seq<char>> {
    seq!["shell"@, "tnk-services"@, "--"@, "bash"@, "-lc"@, command]
}

/// The plan that sets the services up: the script is copied into the machine and run there, with
/// an attempt to start the search engine in between.
pub open spec fn provision_plan(home: Seq<char>, secret: Seq<char>) -> Seq<StageView> {
    seq![
        checked(
            seq!["copy"@, services_script(home), "tnk-services:/tmp/tnk-services.sh"@],
            "failed to copy services provision script into services instance"@,
        ).shouting(
            seq![
                "info: provisioning services instance 'tnk-services'"@,
                "info: copying provision script into services instance"@,
            ],
        ),
        plan::stage_of(
            plan::running("limactl"@, inside(searxng_command(secret)), 120, Output::Echoed),
        ).shouting(seq!["info: starting searxng inside services instance"@]).when_not_good(
            plan::warning("failed to start searxng in services instance"@, 0),
        ).when_late(plan::warning("timed out starting searxng in services instance"@, 0)),
        checked(
            inside("env TNK_SEARXNG_URL=http://127.0.0.1:18766 bash /tmp/tnk-services.sh"@),
            "failed to provision services instance"@,
        ).shouting(
            seq!["info: running tnk-services provision script inside services instance"@],
        ),
    ]
}

/// The plan that sets the services up.
pub fn provision_lima_services_instance(home: &str, secret: &str) -> (r: Vec<
    Stage<String, Vec<String>>,
>)
    ensures
        plan::stages(r@) == provision_plan(home@, secret@),
{
    let script = path::join_path(home, ".config/tnk/sandbox.d/provision.d/tnk-services.sh");
    let command = compose::concat3(
        "cat >/tmp/tnk-searxng-settings.yml <<'EOF'\nuse_default_settings: true\nsearch:\n  formats:\n    - html\n    - json\nserver:\n  limiter: false\nEOF\nnerdctl rm -f tnk-searxng >/dev/null 2>&1 || true\nnerdctl run -d --name tnk-searxng -p 127.0.0.1:18766:8080 -e SEARXNG_SECRET=",
        secret,
        " -v /tmp/tnk-searxng-settings.yml:/etc/searxng/settings.yml:ro docker.io/searxng/searxng:latest >/dev/null 2>&1 || true",
    );
    let mut v = plan::no_stages();
    plan::push_stage(
        &mut v,
        limactl_run_or_err(
            compose::list3("copy", script.as_str(), "tnk-services:/tmp/tnk-services.sh"),
            "failed to copy services provision script into services instance",
        ).shouts(
            compose::list2(
                "info: provisioning services instance 'tnk-services'",
                "info: copying provision script into services instance",
            ),
        ),
    );
    plan::push_stage(
        &mut v,
        plan::stage(
            plan::run_task(
                "limactl",
                compose::list6("shell", "tnk-services", "--", "bash", "-lc", command.as_str()),
                120,
                Output::Echoed,
            ),
        ).shouts(
            compose::list1("info: starting searxng inside services instance"),
        ).otherwise(
            plan::warns("failed to start searxng in services instance", 0),
        ).on_late(plan::warns("timed out starting searxng in services instance", 0)),
    );
    plan::push_stage(
        &mut v,
        limactl_run_or_err(
            compose::list6(
                "shell",
                "tnk-services",
                "--",
                "bash",
                "-lc",
                "env TNK_SEARXNG_URL=http://127.0.0.1:18766 bash /tmp/tnk-services.sh",
            ),
            "failed to provision services instance",
        ).shouts(
            compose::list1("info: running tnk-services provision script inside services instance"),
        ),
    );
    v
}

/// Services that were set up have had their script copied and run, whatever came of the search
/// engine.
pub proof fn services_are_provisioned(home: Seq<char>, secret: Seq<char>, replies: Seq<Reply>)
    ensures
        plan::succeeded(
            provision_plan(home, secret),
            plan::run(provision_plan(home, secret), plan::beginning(), replies),
        ) ==> plan::passed(provision_plan(home, secret), replies, 0) && plan::passed(
            provision_plan(home, secret),
            replies,
            2,
        ),
        !plan::gives_up(provision_plan(home, secret)[1].bad),
        !plan::gives_up(provision_plan(home, secret)[1].late),
        !plan::gives_up(provision_plan(home, secret)[1].broken),
{
    let p = provision_plan(home, secret);
    plan::strict_stages_are_passed(p, replies, 0);
    plan::strict_stages_are_passed(p, replies, 2);
}

/// The plan that stops the services: first gently, then by force if they still run.
pub open spec fn stop_plan() -> Seq<StageView> {
    seq![
        presence("tnk-services"@).when_not_good(Effect::Go(3)),
        plan::stage_of(
            plan::running("limactl"@, seq!["stop"@, "tnk-services"@], 60, Output::Echoed),
        ).when_good(Effect::Go(2)).when_not_good(Effect::Go(0)),
        lima::running_probe("tnk-services"@).when_good(
            plan::warning(
                "graceful stop for 'tnk-services' did not succeed, escalating to force stop"@,
                0,
            ),
        ).when_not_good(Effect::Go(1)),
        checked(
            seq!["stop"@, "--force"@, "tnk-services"@],
            "failed to stop services instance"@,
        ),
    ]
}

fn stopping() -> (r: Vec<Stage<String, Vec<String>>>)
    ensures
        plan::stages(r@) == stop_plan(),
{
    let mut v = plan::no_stages();
    plan::push_stage(&mut v, lima_instance_exists("tnk-services").otherwise(Effect::Go(3)));
    plan::push_stage(
        &mut v,
        plan::stage(
            plan::run_task("limactl", compose::list2("stop", "tnk-services"), 60, Output::Echoed),
        ).on_good(Effect::Go(2)).otherwise(Effect::Go(0)),
    );
    plan::push_stage(
        &mut v,
        lima::ask_running("tnk-services").on_good(
            plan::warns(
                "graceful stop for 'tnk-services' did not succeed, escalating to force stop",
                0,
            ),
        ).otherwise(Effect::Go(1)),
    );
    plan::push_stage(
        &mut v,
        limactl_run_or_err(
            compose::list3("stop", "--force", "tnk-services"),
            "failed to stop services instance",
        ),
    );
    v
}

/// Stopping the services fails only if the machine was seen running after a gentle attempt.
pub proof fn stops_fail_only_while_running(replies: Seq<Reply>)
    ensures
        plan::run(stop_plan(), plan::beginning(), replies).trouble is Some ==> plan::passed(
            stop_plan(),
            replies,
            2,
        ),
{
    lemma_stop(replies);
}

proof fn lemma_stop(replies: Seq<Reply>)
    ensures
        ({
            let p = stop_plan();
            let s = plan::run(p, plan::beginning(), replies);
            &&& 0 <= s.at <= 4
            &&& s.at == 3 || s.trouble is Some ==> plan::passed(p, replies, 2)
        }),
    decreases replies.len(),
{
    if replies.len() > 0 {
        let p = stop_plan();
        lemma_stop(replies.drop_last());
        let before = plan::run(p, plan::beginning(), replies.drop_last());
        plan::passing_lasts(p, replies, 2);
        reveal_with_fuel(plan::upcoming, 6);
    }
}

/// The plan that deletes the machines of the services.
pub open spec fn delete_plan() -> Seq<StageView> {
    seq![
        presence("tnk-services"@).when_not_good(Effect::Go(1)),
        checked(
            seq!["delete"@, "--force"@, "tnk-services"@],
            "failed to delete lima instance '"@ + "tnk-services"@ + "'"@,
        ),
        presence("tnk-searxng"@).when_not_good(Effect::Go(1)),
        checked(
            seq!["delete"@, "--force"@, "tnk-searxng"@],
            "failed to delete lima instance '"@ + "tnk-searxng"@ + "'"@,
        ),
    ]
}

fn delete_lima_instance(v: &mut Vec<Stage<String, Vec<String>>>, id: &str)
    ensures
        plan::stages(final(v)@) == plan::stages(old(v)@) + seq![
            presence(id@).when_not_good(Effect::Go(1)),
            checked(
                seq!["delete"@, "--force"@, id@],
                "failed to delete lima instance '"@ + id@ + "'"@,
            ),
        ],
{
    let context = compose::concat3("failed to delete lima instance '", id, "'");
    plan::push_stage(v, lima_instance_exists(id).otherwise(Effect::Go(1)));
    plan::push_stage(
        v,
        limactl_run_or_err(compose::list3("delete", "--force", id), context.as_str()),
    );
}
/// The state of a machine in a word.
pub open spec fn state_word(running: bool) -> Seq<char> {
    if running {
        "running"@
    } else {
        "stopped"@
    }
}

/// What is told of the services in JSON.
pub open spec fn status_json(running: bool) -> JsonView {
    JsonView::Object(
        seq![
            ("name"@, JsonView::Text("tnk-services"@)),
            ("runtime"@, JsonView::Text("lima"@)),
            ("status"@, JsonView::Text(state_word(running))),
            ("searxng"@, JsonView::Text(state_word(running))),
        ],
    )
}

fn status_value(running: bool) -> (r: Json)
    ensures
        r@ == status_json(running),
{
    let word = if running {
        "running"
    } else {
        "stopped"
    };
    let mut v = json::no_pairs();
    json::push_pair(&mut v, "name", json::text_value("tnk-services"));
    json::push_pair(&mut v, "runtime", json::text_value("lima"));
    json::push_pair(&mut v, "status", json::text_value(word));
    json::push_pair(&mut v, "searxng", json::text_value(word));
    assert(json::pair_views(v@) =~= status_json(running)->Object_0);
    json::object(v)
}

/// One step in starting the services. `T` stands for a text.
#[derive(Debug)]
pub enum ServiceStep<T> {
    /// Say a line in any case.
    Shout(T),
    /// Take the lock of the services, and hold it to the end.
    Lock,
    /// Carry out the plan that stops the machine.
    Stop,
    /// Wait for some milliseconds.
    Pause(u64),
    /// Carry out the plan that brings the machine up.
    BringUp,
    /// Wait until the machine answers, for this many seconds at most.
    Await(u64),
    /// Draw a secret and carry out the plan that sets the services up.
    Provision,
    /// Say a line, unless the program is quiet.
    Tell(T),
}

pub type ServiceStepView = ServiceStep<Seq<char>>;

pub open spec fn step_view(s: ServiceStep<String>) -> ServiceStepView {
    match s {
        ServiceStep::Shout(t) => ServiceStep::Shout(t@),
        ServiceStep::Lock => ServiceStep::Lock,
        ServiceStep::Stop => ServiceStep::Stop,
        ServiceStep::Pause(n) => ServiceStep::Pause(n),
        ServiceStep::BringUp => ServiceStep::BringUp,
        ServiceStep::Await(n) => ServiceStep::Await(n),
        ServiceStep::Provision => ServiceStep::Provision,
        ServiceStep::Tell(t) => ServiceStep::Tell(t@),
    }
}

/// The steps of a list.
pub open spec fn steps(v: Seq<ServiceStep<String>>) -> Seq<ServiceStepView> {
    Seq::new(v.len(), |i: int| step_view(v[i]))
}

fn push_step(v: &mut Vec<ServiceStep<String>>, s: ServiceStep<String>)
    ensures
        steps(final(v)@) == steps(old(v)@).push(step_view(s)),
{
    let ghost before = v@;
    v.push(s);
    assert(steps(v@) =~= steps(before).push(step_view(s)));
}

/// The steps of starting the services: under the lock the machine is brought up, it has to answer,
/// the services are set up in it, and only then it is told where they are.
pub open spec fn starting() -> Seq<ServiceStepView> {
    seq![
        ServiceStep::Shout("info: services machine: acquiring lifecycle lock"@),
        ServiceStep::Lock,
        ServiceStep::BringUp,
        ServiceStep::Await(180),
        ServiceStep::Provision,
        ServiceStep::Tell(ui::info("searxng:  http://127.0.0.1:18766 (browser access)"@)),
        ServiceStep::Tell(ui::info("mcp:      stdio bridge via limactl shell tnk-services"@)),
    ]
}

/// The steps of starting the services again: they are stopped, and after two seconds started.
pub open spec fn starting_again() -> Seq<ServiceStepView> {
    seq![ServiceStepView::Stop, ServiceStepView::Pause(2000)] + starting()
}

fn push_start(v: &mut Vec<ServiceStep<String>>)
    ensures
        steps(final(v)@) == steps(old(v)@) + starting(),
{
    let ghost before = steps(v@);
    push_step(
        v,
        ServiceStep::Shout("info: services machine: acquiring lifecycle lock".to_owned()),
    );
    push_step(v, ServiceStep::Lock);
    push_step(v, ServiceStep::BringUp);
    push_step(v, ServiceStep::Await(180));
    push_step(v, ServiceStep::Provision);
    push_step(
        v,
        ServiceStep::Tell(
            compose::concat("info: ", "searxng:  http://127.0.0.1:18766 (browser access)"),
        ),
    );
    push_step(
        v,
        ServiceStep::Tell(
            compose::concat("info: ", "mcp:      stdio bridge via limactl shell tnk-services"),
        ),
    );
    assert(steps(v@) =~= before + starting());
}

/// The steps of starting the services.
pub fn start_steps() -> (r: Vec<ServiceStep<String>>)
    ensures
        steps(r@) == starting(),
{
    let mut v: Vec<ServiceStep<String>> = Vec::new();
    push_start(&mut v);
    assert(steps(v@) =~= starting());
    v
}

/// The steps of starting the services again.
pub fn restart_steps() -> (r: Vec<ServiceStep<String>>)
    ensures
        steps(r@) == starting_again(),
{
    let mut v: Vec<ServiceStep<String>> = Vec::new();
    push_step(&mut v, ServiceStep::Stop);
    push_step(&mut v, ServiceStep::Pause(2000));
    push_start(&mut v);
    assert(steps(v@) =~= starting_again());
    v
}

/// What starting the services comes to.
#[derive(Debug)]
pub enum Course {
    /// Nothing is done, and this is told.
    Skip(String),
    /// These steps are taken, one after the other, until one fails.
    Take(Vec<ServiceStep<String>>),
}

/// Whether a course leaves everything as it is when it is only tried, and else takes some steps.
pub open spec fn is_course(
    c: Course,
    dry_run: bool,
    what: Seq<char>,
    all: Seq<ServiceStepView>,
) -> bool {
    match c {
        Course::Skip(note) => dry_run && note@ == cli::skipping(what),
        Course::Take(v) => !dry_run && steps(v@) == all,
    }
}

/// Services are set up only in a machine that was brought up and answers, and nothing is told of
/// them before that.
pub proof fn services_are_set_up_in_order(i: int)
    requires
        0 <= i < starting().len(),
    ensures
        starting()[i] is Provision ==> i >= 2 && starting()[i - 1] is Await && starting()[i - 2]
            is BringUp,
        starting()[i] is Tell ==> exists|j: int| 0 <= j < i && #[trigger] starting()[j] is Provision,
        starting()[i] is BringUp ==> exists|j: int| 0 <= j < i && #[trigger] starting()[j] is Lock,
{
    assert(starting()[4] is Provision);
    assert(starting()[1] is Lock);
}

impl LimaServices {
    /// Starts the services.
    pub fn start(dry_run: bool) -> (r: Course)
        ensures
            is_course(r, dry_run, "services start"@, starting()),
    {
        if dry_run {
            Course::Skip(cli::skip_note("services start"))
        } else {
            Course::Take(start_steps())
        }
    }

    /// Stops the services.
    pub fn stop(dry_run: bool) -> (r: Order)
        ensures
            if dry_run {
                plan::is_skip(r, cli::skipping("services stop"@))
            } else {
                plan::is_carry(r, stop_plan())
            },
    {
        if dry_run {
            Order::Skip(cli::skip_note("services stop"))
        } else {
            Order::Carry(stopping())
        }
    }

    /// What is said about the services, if there is a machine for them.
    pub fn status(present: bool, running: bool, output: OutputFormat) -> (r: Said)
        ensures
            !present ==> r.err@.len() == 0 && r.out@.len() == 0,
            present ==> if output == OutputFormat::Text {
                compose::texts(r.err@) == seq![
                    "services (vm): "@ + state_word(running),
                    "searxng (vm): "@ + state_word(running),
                ] && r.out@.len() == 0
            } else {
                compose::texts(r.out@) == seq![json::notation(status_json(running))]
                    && r.err@.len() == 0
            },
    {
        if !present {
            return Said { err: compose::no_texts(), out: compose::no_texts() };
        }
        match output {
            OutputFormat::Text => {
                let word = if running {
                    "running"
                } else {
                    "stopped"
                };
                let a = compose::concat("services (vm): ", word);
                let b = compose::concat("searxng (vm): ", word);
                Said { err: compose::list2(a.as_str(), b.as_str()), out: compose::no_texts() }
            },
            _ => {
                let line = json::write(&status_value(running));
                Said { err: compose::no_texts(), out: compose::list1(line.as_str()) }
            },
        }
    }

    /// Stops the services and starts them again.
    pub fn restart(dry_run: bool) -> (r: Course)
        ensures
            is_course(r, dry_run, "services restart"@, starting_again()),
    {
        if dry_run {
            Course::Skip(cli::skip_note("services restart"))
        } else {
            Course::Take(restart_steps())
        }
    }

    /// Deletes the machines of the services; without a terminal the user has to have agreed.
    pub fn delete(force: bool, dry_run: bool, terminal: bool) -> (r: Order)
        ensures
            if dry_run {
                plan::is_skip(r, cli::skipping("services delete"@))
            } else if !force && !terminal {
                plan::is_refusal(
                    r,
                    ExitCode::PermissionDenied,
                    "terminal required for deletion, use --yes"@,
                )
            } else {
                plan::is_carry(r, delete_plan())
            },
    {
        if dry_run {
            return Order::Skip(cli::skip_note("services delete"));
        }
        match lima::may_delete(force, terminal) {
            Ok(_) => {
                let mut v = plan::no_stages();
                delete_lima_instance(&mut v, "tnk-services");
                delete_lima_instance(&mut v, "tnk-searxng");
                assert(plan::stages(v@) =~= delete_plan());
                Order::Carry(v)
            },
            Err(p) => Order::Refuse(p.0, p.1),
        }
    }
}

/// When the plan that stops the services succeeds, their machine was found not to exist or not to
/// run, or it was stopped with success, gently or by force.
#[verifier::rlimit(40)]
pub proof fn services_are_stopped(replies: Seq<Reply>)
    requires
        plan::succeeded(stop_plan(), plan::run(stop_plan(), plan::beginning(), replies)),
    ensures
        plan::replied(
            stop_plan(),
            replies,
            plan::running(
                "limactl"@,
                seq!["list"@, "--format"@, "{{.Name}}"@],
                15,
                Output::Captured,
            ),
            Want::HasLine("tnk-services"@),
            false,
        ) || plan::replied(
            stop_plan(),
            replies,
            plan::running(
                "limactl"@,
                seq!["list"@, "--format"@, "{{.Status}}"@, "tnk-services"@],
                15,
                Output::Captured,
            ),
            Want::ReadsLoosely("running"@),
            false,
        ) || plan::replied(
            stop_plan(),
            replies,
            plan::running("limactl"@, seq!["stop"@, "tnk-services"@], 60, Output::Echoed),
            Want::Success,
            true,
        ) || plan::replied(
            stop_plan(),
            replies,
            plan::running(
                "limactl"@,
                seq!["stop"@, "--force"@, "tnk-services"@],
                300,
                Output::Echoed,
            ),
            Want::Success,
            true,
        ),
{
    let p = stop_plan();
    plan::successes_are_complete(p, replies);
    plan::stretches_are_crossed(p, replies, 0, 4);
    let k = choose|k: int| #[trigger] plan::leaves(p, replies, k, 0, 4);
    plan::leaving_is_told(p, replies, k, 0, 4);
    let at = plan::run(p, plan::beginning(), replies.take(k)).at;
    assert(plan::replied(
        p,
        replies,
        p[at].task,
        p[at].want,
        plan::is_good(p[at].want, replies[k]),
    ));
}

/// Whether a run of a plan found that a machine is not there, or deleted it with success.
pub open spec fn is_gone(p: Seq<StageView>, replies: Seq<Reply>, id: Seq<char>) -> bool {
    ||| plan::replied(
        p,
        replies,
        plan::running(
            "limactl"@,
            seq!["list"@, "--format"@, "{{.Name}}"@],
            15,
            Output::Captured,
        ),
        Want::HasLine(id),
        false,
    )
    ||| plan::replied(
        p,
        replies,
        plan::running("limactl"@, seq!["delete"@, "--force"@, id], 300, Output::Echoed),
        Want::Success,
        true,
    )
}

proof fn lemma_gone(p: Seq<StageView>, replies: Seq<Reply>, id: Seq<char>, from: int)
    requires
        0 <= from,
        from + 2 <= p.len(),
        p[from] == presence(id).when_not_good(Effect::Go(1)),
        p[from + 1] == checked(
            seq!["delete"@, "--force"@, id],
            "failed to delete lima instance '"@ + id + "'"@,
        ),
        forall|j: int| 0 <= j < from ==> plan::skips_at_most(#[trigger] p[j], from - j - 1),
        plan::run(p, plan::beginning(), replies).trouble is None,
        plan::run(p, plan::beginning(), replies).at >= from + 2,
    ensures
        is_gone(p, replies, id),
{
    plan::stretches_are_crossed(p, replies, from, from + 2);
    let k = choose|k: int| #[trigger] plan::leaves(p, replies, k, from, from + 2);
    plan::leaving_is_told(p, replies, k, from, from + 2);
    let at = plan::run(p, plan::beginning(), replies.take(k)).at;
    assert(plan::replied(
        p,
        replies,
        p[at].task,
        p[at].want,
        plan::is_good(p[at].want, replies[k]),
    ));
}

/// When the plan that deletes the services succeeds, neither of their machines is left: each was
/// found not to be there, or was deleted with success.
pub proof fn services_are_deleted(replies: Seq<Reply>)
    requires
        plan::succeeded(delete_plan(), plan::run(delete_plan(), plan::beginning(), replies)),
    ensures
        is_gone(delete_plan(), replies, "tnk-services"@),
        is_gone(delete_plan(), replies, "tnk-searxng"@),
{
    let p = delete_plan();
    plan::successes_are_complete(p, replies);
    lemma_gone(p, replies, "tnk-services"@, 0);
    assert(plan::skips_at_most(p[0], 1) && plan::skips_at_most(p[1], 0));
    lemma_gone(p, replies, "tnk-searxng"@, 2);
}

/// When the plan that brings the services up succeeds, a machine that was not there was created, and
/// one that was there was found to run or was booted.
#[verifier::rlimit(40)]
pub proof fn service_machines_are_up(replies: Seq<Reply>)
    requires
        replies.len() > 0,
        plan::succeeded(ensure_plan(), plan::run(ensure_plan(), plan::beginning(), replies)),
    ensures
        ({
            let p = ensure_plan();
            &&& !plan::is_good(Want::HasLine("tnk-services"@), replies[0]) ==> plan::replied(
                p,
                replies,
                plan::running("limactl"@, create_args(), 300, Output::Echoed),
                Want::Success,
                true,
            )
            &&& plan::is_good(Want::HasLine("tnk-services"@), replies[0]) ==> plan::replied(
                p,
                replies,
                plan::running(
                    "limactl"@,
                    seq!["list"@, "--format"@, "{{.Status}}"@, "tnk-services"@],
                    15,
                    Output::Captured,
                ),
                Want::ReadsLoosely("running"@),
                true,
            ) || plan::replied(
                p,
                replies,
                plan::running(
                    "limactl"@,
                    seq!["--tty=false"@, "start"@, "tnk-services"@],
                    300,
                    Output::Echoed,
                ),
                Want::Success,
                true,
            )
        }),
{
    let p = ensure_plan();
    plan::successes_are_complete(p, replies);
    let n: int = if plan::is_good(Want::HasLine("tnk-services"@), replies[0]) {
        4
    } else {
        2
    };
    plan::stretches_are_crossed(p, replies, 0, n);
    let k = choose|k: int| #[trigger] plan::leaves(p, replies, k, 0, n);
    plan::leaving_is_told(p, replies, k, 0, n);
    let at = plan::run(p, plan::beginning(), replies.take(k)).at;
    plan::plans_end(p, replies.take(k));
    assert(at == 0 ==> k == 0);
    if n == 4 {
        if k > 0 {
            assert(replies.take(k)[0] == replies[0]);
            plan::first_replies_decide(p, replies.take(k), 2);
        } else {
            assert(plan::run(p, plan::beginning(), replies.take(0)) == plan::beginning());
        }
    }
    assert(plan::replied(
        p,
        replies,
        p[at].task,
        p[at].want,
        plan::is_good(p[at].want, replies[k]),
    ));
}

/// Services that were set up have had their script copied out of the directory of the user and run
/// in their machine, each with success.
pub proof fn service_scripts_run(home: Seq<char>, secret: Seq<char>, replies: Seq<Reply>)
    requires
        plan::succeeded(
            provision_plan(home, secret),
            plan::run(provision_plan(home, secret), plan::beginning(), replies),
        ),
    ensures
        plan::replied(
            provision_plan(home, secret),
            replies,
            plan::running(
                "limactl"@,
                seq![
                    "copy"@,
                    path::below(home, ".config/tnk/sandbox.d/provision.d/tnk-services.sh"@),
                    "tnk-services:/tmp/tnk-services.sh"@,
                ],
                300,
                Output::Echoed,
            ),
            Want::Success,
            true,
        ),
        plan::replied(
            provision_plan(home, secret),
            replies,
            plan::running(
                "limactl"@,
                seq![
                    "shell"@,
                    "tnk-services"@,
                    "--"@,
                    "bash"@,
                    "-lc"@,
                    "env TNK_SEARXNG_URL=http://127.0.0.1:18766 bash /tmp/tnk-services.sh"@,
                ],
                300,
                Output::Echoed,
            ),
            Want::Success,
            true,
        ),
{
    let p = provision_plan(home, secret);
    plan::successes_are_complete(p, replies);
    plan::strict_tasks_succeed(p, replies, 0);
    plan::strict_tasks_succeed(p, replies, 2);
}

} // verus!
