use crate::failure;
use crate::failure::Failure;
use crate::plan;
use crate::plan::{Effect, Line, Output, Reply, Stage, StageView, Want};
use crate::sandbox::types::Alphabet;
use crate::sandbox::{shared, types};
use crate::text::{class, compose, edge, number, path};
use crate::ui;
use vstd::prelude::*;

verus! {

/// How many bytes a character has in UTF-8.
pub open spec fn width(c: char) -> int {
    if (c as u32) < 0x80 {
        1
    } else if (c as u32) < 0x800 {
        2
    } else if (c as u32) < 0x10000 {
        3
    } else {
        4
    }
}

/// The characters that make up the first `n` bytes of a text; nothing if the text is shorter or
/// the bytes end inside a character.
pub open spec fn first_bytes(s: Seq<char>, n: int) -> Option<Seq<char>>
    decreases s.len(),
{
    if n == 0 {
        Some(Seq::empty())
    } else if n < 0 || s.len() == 0 {
        None
    } else {
        match first_bytes(s.skip(1), n - width(s[0])) {
            Some(t) => Some(seq![s[0]] + t),
            None => None,
        }
    }
}

fn width_of(c: char) -> (r: i64)
    ensures
        r == width(c),
{
    let u: u32 = c as u32;
    if u < 0x80 {
        1
    } else if u < 0x800 {
        2
    } else if u < 0x10000 {
        3
    } else {
        4
    }
}

/// The characters that make up the first `n` bytes of a text.
fn take_bytes(s: &str, n: i64) -> (r: Option<String>)
    requires
        0 <= n <= 1000,
    ensures
        compose::opt_text(r) == first_bytes(s@, n as int),
{
    let cs = compose::chars_of(s);
    let mut t = String::new();
    let mut left: i64 = n;
    let mut i: usize = 0;
    assert(s@.skip(0) =~= s@);
    assert(match first_bytes(s@, n as int) {
        Some(u) => u =~= Seq::<char>::empty() + u,
        None => true,
    });
    while left > 0 && i < cs.len()
        invariant
            i <= cs@.len(),
            cs@ == s@,
            -4 <= left <= 1000,
            match first_bytes(s@.skip(i as int), left as int) {
                Some(u) => first_bytes(s@, n as int) == Some(t@ + u),
                None => first_bytes(s@, n as int) is None,
            },
        decreases cs@.len() - i,
    {
        let c: char = cs[i];
        let ghost rest = s@.skip(i as int);
        let ghost taken = t@;
        assert(rest[0] == c);
        assert(rest.skip(1) =~= s@.skip(i + 1));
        t.push(c);
        left = left - width_of(c);
        i += 1;
        proof {
            if let Some(u) = first_bytes(s@.skip(i as int), left as int) {
                assert(taken + (seq![c] + u) =~= t@ + u);
            }
        }
    }
    if left == 0 {
        assert(t@ + Seq::<char>::empty() =~= t@);
        Some(t)
    } else {
        None
    }
}

/// The revision of the provision assets: the first seven characters of what `git` tells of a
/// repository, else a word for assets without one.
pub open spec fn revision(is_repository: bool, told: Option<Seq<char>>) -> Seq<char> {
    let short = match told {
        Some(t) => first_bytes(edge::trimmed(t), 7),
        None => None,
    };
    if is_repository && short is Some {
        "git:"@ + short->0
    } else {
        "local"@
    }
}

/// The revision of the provision assets, given what `git rev-parse --short HEAD` prints.
pub fn get_specs_rev(is_repository: bool, told: &Option<String>) -> (r: String)
    ensures
        r@ == revision(is_repository, compose::opt_text(*told)),
{
    if is_repository {
        match told {
            Some(t) => {
                let trimmed = edge::trim(t.as_str());
                match take_bytes(trimmed.as_str(), 7) {
                    Some(short) => return compose::concat("git:", short.as_str()),
                    None => {},
                }
            },
            None => {},
        }
    }
    "local".to_owned()
}

/// A path in the notation that is meant for programmers, with quotes and escapes.
pub uninterp spec fn path_notation(p: Seq<char>) -> Seq<char>;

/// Formats a path with the `Debug` format of `std::path::Path`. Claimed: the result depends on the
/// path alone.
#[verifier::external_body]
pub(crate) fn debug_path(p: &str) -> (r: String)
    ensures
        r@ == path_notation(p@),
{
    format!("{:?}", std::path::Path::new(p))
}

/// What is to be done to provision a sandbox.
pub struct ProvisionRequest {
    pub id: String,
    pub script_name: String,
    pub engine_runtime: String,
    pub model_name: String,
    pub ctx_window: u32,
    /// Where the workspace is mounted inside.
    pub mount_path: String,
    pub port: u16,
    pub home: Option<String>,
    /// Whether the provision script is there.
    pub script_found: bool,
    /// Whether the library of the provision scripts is there.
    pub lib_found: bool,
    pub specs_rev: String,
}

/// The provision script of a profile.
pub open spec fn host_script(home: Seq<char>, script: Seq<char>) -> Seq<char> {
    path::below(home, ".config/tnk/sandbox.d/provision.d/"@ + script + ".sh"@)
}

/// The library of the provision scripts.
pub open spec fn host_lib(home: Seq<char>) -> Seq<char> {
    path::below(home, ".config/tnk/sandbox.d/provision.d/lib"@)
}

/// The provision script of a profile.
pub fn provision_script(home: &str, script: &str) -> (r: String)
    ensures
        r@ == host_script(home@, script@),
{
    let name = compose::concat3(".config/tnk/sandbox.d/provision.d/", script, ".sh");
    path::join_path(home, name.as_str())
}

/// The library of the provision scripts.
pub fn provision_lib(home: &str) -> (r: String)
    ensures
        r@ == host_lib(home@),
{
    path::join_path(home, ".config/tnk/sandbox.d/provision.d/lib")
}

/// Where the assets of a script go inside.
pub open spec fn guest_dir(script: Seq<char>) -> Seq<char> {
    "/tmp/tnk-provision-"@ + script
}

/// Where a script goes inside.
pub open spec fn guest_script(script: Seq<char>) -> Seq<char> {
    guest_dir(script) + "/"@ + script + ".sh"@
}

/// The first of two faults.
pub open spec fn first_fault(a: Option<Seq<char>>, b: Option<Seq<char>>) -> Option<Seq<char>> {
    match a {
        Some(e) => Some(e),
        None => b,
    }
}

/// Why a sandbox cannot be provisioned: a name that cannot be used, or a script that is not there.
pub open spec fn provision_fault(q: ProvisionRequest) -> Option<Seq<char>> {
    first_fault(
        types::name_fault(q.script_name@, "profile name"@, Alphabet::Word),
        first_fault(
            types::name_fault(q.engine_runtime@, "runtime"@, Alphabet::Word),
            first_fault(
                types::name_fault(q.model_name@, "model name"@, Alphabet::Model),
                first_fault(
                    types::value_fault(q.mount_path@, "TNK_WORKSPACE_MOUNT"@),
                    match q.home {
                        None => Some("environment variable not found"@),
                        Some(h) => if q.script_found {
                            None
                        } else {
                            Some(
                                "provision script not found: "@ + path_notation(
                                    host_script(h@, q.script_name@),
                                ),
                            )
                        },
                    },
                ),
            ),
        ),
    )
}

/// The host as a machine sees it.
pub open spec fn lima_gateway() -> Seq<char> {
    "host.lima.internal"@
}

/// The address of inference.
pub open spec fn inference_url(gateway: Seq<char>, port: u16) -> Seq<char> {
    "http://"@ + gateway + ":"@ + number::decimal(port as nat) + "/v1"@
}

/// The address of the bridge for tools.
pub open spec fn bridge_url(gateway: Seq<char>) -> Seq<char> {
    "http://"@ + gateway + ":18765"@
}

/// The address of the search engine.
pub open spec fn search_url(gateway: Seq<char>) -> Seq<char> {
    "http://"@ + gateway + ":18766"@
}

/// The address of inference.
pub fn backend_openai_url(gateway: &str, port: u16) -> (r: String)
    ensures
        r@ == inference_url(gateway@, port),
{
    let digits = number::to_decimal(port as u64);
    compose::concat5("http://", gateway, ":", digits.as_str(), "/v1")
}

/// The address of the bridge for tools.
pub fn mcp_bridge_url(gateway: &str) -> (r: String)
    ensures
        r@ == bridge_url(gateway@),
{
    compose::concat3("http://", gateway, ":18765")
}

/// The address of the search engine.
pub fn searxng_url(gateway: &str) -> (r: String)
    ensures
        r@ == search_url(gateway@),
{
    compose::concat3("http://", gateway, ":18766")
}

/// The variables that tell a sandbox where inference and the services are.
pub open spec fn runtime_pairs(
    gateway: Seq<char>,
    port: u16,
    engine: Seq<char>,
    model: Seq<char>,
) -> Seq<(Seq<char>, Seq<char>)> {
    seq![
        ("TNK_INFERENCE_URL"@, inference_url(gateway, port)),
        ("TNK_OPENAI_URL"@, inference_url(gateway, port)),
        ("TNK_MCP_BRIDGE_URL"@, bridge_url(gateway)),
        ("TNK_SEARXNG_URL"@, search_url(gateway)),
        ("TNK_MODEL_NAME"@, model),
        ("TNK_ENGINE_RUNTIME"@, engine),
    ]
}

/// The variables that tell a sandbox where inference and the services are.
pub fn runtime_env_contract(
    gateway: &str,
    port: u16,
    engine_runtime: &str,
    model_name: &str,
) -> (r: Vec<(String, String)>)
    ensures
        compose::pair_texts(r@) == runtime_pairs(gateway@, port, engine_runtime@, model_name@),
{
    let url = backend_openai_url(gateway, port);
    let bridge = mcp_bridge_url(gateway);
    let search = searxng_url(gateway);
    let mut v = shared::no_envs();
    shared::push_env(&mut v, "TNK_INFERENCE_URL", url.as_str());
    shared::push_env(&mut v, "TNK_OPENAI_URL", url.as_str());
    shared::push_env(&mut v, "TNK_MCP_BRIDGE_URL", bridge.as_str());
    shared::push_env(&mut v, "TNK_SEARXNG_URL", search.as_str());
    shared::push_env(&mut v, "TNK_MODEL_NAME", model_name);
    shared::push_env(&mut v, "TNK_ENGINE_RUNTIME", engine_runtime);
    v
}

/// The lines of a shell that set the variables of a provision script.
pub open spec fn export_lines(q: ProvisionRequest) -> Seq<Seq<char>> {
    seq![
        "export TNK_OPENAI_URL="@ + types::escaped(inference_url(lima_gateway(), q.port)),
        "export TNK_INFERENCE_URL="@ + types::escaped(inference_url(lima_gateway(), q.port)),
        "export TNK_MCP_BRIDGE_URL="@ + types::escaped(bridge_url(lima_gateway())),
        "export TNK_SEARXNG_URL="@ + types::escaped(search_url(lima_gateway())),
        "export TNK_MODEL_NAME="@ + types::escaped(q.model_name@),
        "export TNK_CTX_WINDOW="@ + number::decimal(q.ctx_window as nat),
        "export TNK_WORKSPACE_MOUNT="@ + types::escaped(q.mount_path@),
        "export TNK_ENGINE_RUNTIME="@ + types::escaped(q.engine_runtime@),
        "export TNK_SPECS_REV="@ + types::escaped(q.specs_rev@),
    ]
}

/// The command that runs a provision script inside.
pub open spec fn provision_command(q: ProvisionRequest) -> Seq<char> {
    "set -eu -o pipefail\n"@ + compose::joined(export_lines(q), "\n"@) + "\nbash "@
        + types::escaped(guest_script(q.script_name@))
}

/// The variables that the leading lines of a script set, each of which has the form
/// `export NAME=WORD`, and the rest of the script.
pub open spec fn exports_read(s: Seq<char>) -> Option<
    (Seq<(Seq<char>, Seq<char>)>, Seq<char>),
>
    decreases s.len(),
{
    match edge::after_prefix(s, "export "@) {
        None => Some((Seq::empty(), s)),
        Some(t) => match edge::cut(t, '=') {
            None => None,
            Some(c) => match types::word_reads(c.1, false) {
                None => None,
                Some(w) => if w.1.len() == 0 || w.1[0] != '\n' || w.1.len() >= s.len() {
                    None
                } else {
                    match exports_read(w.1.skip(1)) {
                        None => None,
                        Some(more) => Some((seq![(c.0, w.0)] + more.0, more.1)),
                    }
                },
            },
        },
    }
}

/// Whether some pairs set a variable exactly once, to this value.
pub open spec fn sets_once(
    pairs: Seq<(Seq<char>, Seq<char>)>,
    key: Seq<char>,
    value: Seq<char>,
) -> bool {
    &&& pairs.contains((key, value))
    &&& forall|i: int, j: int|
        0 <= i < pairs.len() && 0 <= j < pairs.len() && #[trigger] pairs[i].0 == key
            && #[trigger] pairs[j].0 == key ==> i == j
}

/// Whether a word that ends a command is read as a text.
spec fn means(word: Seq<char>, text: Seq<char>) -> bool {
    forall|rest: Seq<char>|
        types::ends_command(rest) ==> #[trigger] types::word_reads(word + rest, false) == Some(
            (text, rest),
        )
}

/// Whether a line sets a variable.
spec fn is_export(line: Seq<char>, pair: (Seq<char>, Seq<char>)) -> bool {
    &&& !pair.0.contains('=')
    &&& exists|word: Seq<char>|
        line == "export "@ + pair.0 + "="@ + word && #[trigger] means(word, pair.1)
}

proof fn lemma_means(text: Seq<char>)
    ensures
        means(types::escaped(text), text),
{
    assert forall|rest: Seq<char>| types::ends_command(rest) implies #[trigger] types::word_reads(
        types::escaped(text) + rest,
        false,
    ) == Some((text, rest)) by {
        types::escaped_words_are_read(text, rest);
    }
}

proof fn lemma_means_number(n: nat)
    ensures
        means(number::decimal(n), number::decimal(n)),
{
    let d = number::decimal(n);
    number::lemma_decimal_value(n);
    assert forall|rest: Seq<char>| types::ends_command(rest) implies #[trigger] types::word_reads(
        d + rest,
        false,
    ) == Some((d, rest)) by {
        assert forall|i: int| 0 <= i < d.len() implies class::ascii_alphanumeric(
            #[trigger] d[i],
        ) by {
            assert(class::ascii_digit(d[i]));
        }
        types::plain_words_are_read(d, rest);
    }
}

proof fn lemma_exports_read(
    lines: Seq<Seq<char>>,
    pairs: Seq<(Seq<char>, Seq<char>)>,
    last: Seq<char>,
)
    requires
        lines.len() == pairs.len() > 0,
        forall|i: int| 0 <= i < lines.len() ==> is_export(#[trigger] lines[i], pairs[i]),
        !edge::begins(last, "export "@),
    ensures
        exports_read(compose::joined(lines, "\n"@) + "\n"@ + last) == Some((pairs, last)),
    decreases lines.len(),
{
    reveal_strlit("\n");
    reveal_strlit("export ");
    reveal_strlit("=");
    let s = compose::joined(lines, "\n"@) + "\n"@ + last;
    let more = if lines.len() == 1 {
        last
    } else {
        compose::joined(lines.skip(1), "\n"@) + "\n"@ + last
    };
    let tail = pairs.skip(1);
    if lines.len() == 1 {
        assert(tail =~= Seq::<(Seq<char>, Seq<char>)>::empty());
    } else {
        compose::joining_begins_with_the_first(lines, "\n"@);
        assert forall|i: int| 0 <= i < lines.skip(1).len() implies is_export(
            #[trigger] lines.skip(1)[i],
            tail[i],
        ) by {
            assert(is_export(lines[i + 1], pairs[i + 1]));
        }
        lemma_exports_read(lines.skip(1), tail, last);
    }
    assert(exports_read(more) == Some((tail, last)));
    assert(is_export(lines[0], pairs[0]));
    let name = pairs[0].0;
    let word = choose|word: Seq<char>|
        lines[0] == "export "@ + name + "="@ + word && #[trigger] means(word, pairs[0].1);
    let rest = "\n"@ + more;
    assert(s =~= lines[0] + rest);
    assert(s.subrange(0, 7) =~= "export "@);
    let t = s.skip(7);
    assert(t =~= name.push('=') + (word + rest));
    edge::lemma_first_at(t, '=');
    let at = edge::first_at(t, '=');
    assert(t[name.len() as int] == '=');
    assert(t.contains('='));
    assert(at == name.len()) by {
        if at < name.len() {
            assert(t[at] == name[at]);
            assert(name.contains('='));
        }
    }
    assert(t.take(at) =~= name);
    assert(t.skip(at + 1) =~= word + rest);
    assert(types::word_reads(word + rest, false) == Some((pairs[0].1, rest)));
    assert(rest.skip(1) =~= more);
    assert(pairs =~= seq![pairs[0]] + tail);
}

/// The script that a provision command runs, and the variables that it is told before; a command of
/// another form is not read.
pub open spec fn command_reads(s: Seq<char>) -> Option<
    (Seq<(Seq<char>, Seq<char>)>, Seq<char>),
> {
    match edge::after_prefix(s, "set -eu -o pipefail\n"@) {
        None => None,
        Some(t) => match exports_read(t) {
            None => None,
            Some(r) => match edge::after_prefix(r.1, "bash "@) {
                None => None,
                Some(u) => match types::word_reads(u, false) {
                    Some(w) => if w.1.len() == 0 {
                        Some((r.0, w.0))
                    } else {
                        None
                    },
                    None => None,
                },
            },
        },
    }
}

/// The variables of a provision script.
spec fn told(q: ProvisionRequest) -> Seq<(Seq<char>, Seq<char>)> {
    let url = inference_url(lima_gateway(), q.port);
    seq![
        ("TNK_OPENAI_URL"@, url),
        ("TNK_INFERENCE_URL"@, url),
        ("TNK_MCP_BRIDGE_URL"@, bridge_url(lima_gateway())),
        ("TNK_SEARXNG_URL"@, search_url(lima_gateway())),
        ("TNK_MODEL_NAME"@, q.model_name@),
        ("TNK_CTX_WINDOW"@, number::decimal(q.ctx_window as nat)),
        ("TNK_WORKSPACE_MOUNT"@, q.mount_path@),
        ("TNK_ENGINE_RUNTIME"@, q.engine_runtime@),
        ("TNK_SPECS_REV"@, q.specs_rev@),
    ]
}

proof fn lemma_is_export(
    line: Seq<char>,
    head: Seq<char>,
    name: Seq<char>,
    word: Seq<char>,
    text: Seq<char>,
)
    requires
        line == head + word,
        head == "export "@ + name + "="@,
        !name.contains('='),
        means(word, text),
    ensures
        is_export(line, (name, text)),
{
    let pair = (name, text);
    assert(line == "export "@ + pair.0 + "="@ + word && means(word, pair.1));
}

proof fn lemma_told_lines(q: ProvisionRequest)
    ensures
        forall|i: int| 0 <= i < 9 ==> is_export(#[trigger] export_lines(q)[i], told(q)[i]),
{
    let url = inference_url(lima_gateway(), q.port);
    reveal_strlit("export ");
    reveal_strlit("=");
    reveal_strlit("export TNK_OPENAI_URL=");
    reveal_strlit("TNK_OPENAI_URL");
    reveal_strlit("export TNK_INFERENCE_URL=");
    reveal_strlit("TNK_INFERENCE_URL");
    reveal_strlit("export TNK_MCP_BRIDGE_URL=");
    reveal_strlit("TNK_MCP_BRIDGE_URL");
    reveal_strlit("export TNK_SEARXNG_URL=");
    reveal_strlit("TNK_SEARXNG_URL");
    reveal_strlit("export TNK_MODEL_NAME=");
    reveal_strlit("TNK_MODEL_NAME");
    reveal_strlit("export TNK_CTX_WINDOW=");
    reveal_strlit("TNK_CTX_WINDOW");
    reveal_strlit("export TNK_WORKSPACE_MOUNT=");
    reveal_strlit("TNK_WORKSPACE_MOUNT");
    reveal_strlit("export TNK_ENGINE_RUNTIME=");
    reveal_strlit("TNK_ENGINE_RUNTIME");
    reveal_strlit("export TNK_SPECS_REV=");
    reveal_strlit("TNK_SPECS_REV");
    lemma_means(url);
    lemma_means(bridge_url(lima_gateway()));
    lemma_means(search_url(lima_gateway()));
    lemma_means(q.model_name@);
    lemma_means_number(q.ctx_window as nat);
    lemma_means(q.mount_path@);
    lemma_means(q.engine_runtime@);
    lemma_means(q.specs_rev@);
    assert("export TNK_OPENAI_URL="@ =~= "export "@ + "TNK_OPENAI_URL"@ + "="@);
    assert("export TNK_INFERENCE_URL="@ =~= "export "@ + "TNK_INFERENCE_URL"@ + "="@);
    assert("export TNK_MCP_BRIDGE_URL="@ =~= "export "@ + "TNK_MCP_BRIDGE_URL"@ + "="@);
    assert("export TNK_SEARXNG_URL="@ =~= "export "@ + "TNK_SEARXNG_URL"@ + "="@);
    assert("export TNK_MODEL_NAME="@ =~= "export "@ + "TNK_MODEL_NAME"@ + "="@);
    assert("export TNK_CTX_WINDOW="@ =~= "export "@ + "TNK_CTX_WINDOW"@ + "="@);
    assert("export TNK_WORKSPACE_MOUNT="@ =~= "export "@ + "TNK_WORKSPACE_MOUNT"@ + "="@);
    assert("export TNK_ENGINE_RUNTIME="@ =~= "export "@ + "TNK_ENGINE_RUNTIME"@ + "="@);
    assert("export TNK_SPECS_REV="@ =~= "export "@ + "TNK_SPECS_REV"@ + "="@);
    let lines = export_lines(q);
    lemma_is_export(
        lines[0],
        "export TNK_OPENAI_URL="@,
        "TNK_OPENAI_URL"@,
        types::escaped(url),
        url,
    );
    lemma_is_export(
        lines[1],
        "export TNK_INFERENCE_URL="@,
        "TNK_INFERENCE_URL"@,
        types::escaped(url),
        url,
    );
    lemma_is_export(
        lines[2],
        "export TNK_MCP_BRIDGE_URL="@,
        "TNK_MCP_BRIDGE_URL"@,
        types::escaped(bridge_url(lima_gateway())),
        bridge_url(lima_gateway()),
    );
    lemma_is_export(
        lines[3],
        "export TNK_SEARXNG_URL="@,
        "TNK_SEARXNG_URL"@,
        types::escaped(search_url(lima_gateway())),
        search_url(lima_gateway()),
    );
    lemma_is_export(
        lines[4],
        "export TNK_MODEL_NAME="@,
        "TNK_MODEL_NAME"@,
        types::escaped(q.model_name@),
        q.model_name@,
    );
    lemma_is_export(
        lines[5],
        "export TNK_CTX_WINDOW="@,
        "TNK_CTX_WINDOW"@,
        number::decimal(q.ctx_window as nat),
        number::decimal(q.ctx_window as nat),
    );
    lemma_is_export(
        lines[6],
        "export TNK_WORKSPACE_MOUNT="@,
        "TNK_WORKSPACE_MOUNT"@,
        types::escaped(q.mount_path@),
        q.mount_path@,
    );
    lemma_is_export(
        lines[7],
        "export TNK_ENGINE_RUNTIME="@,
        "TNK_ENGINE_RUNTIME"@,
        types::escaped(q.engine_runtime@),
        q.engine_runtime@,
    );
    lemma_is_export(
        lines[8],
        "export TNK_SPECS_REV="@,
        "TNK_SPECS_REV"@,
        types::escaped(q.specs_rev@),
        q.specs_rev@,
    );
}

/// The stage that makes the directory for the assets inside.
pub open spec fn mkdir_stage(q: ProvisionRequest) -> StageView {
    plan::stage_of(
        plan::running(
            "limactl"@,
            seq!["shell"@, q.id@, "--"@, "mkdir"@, "-p"@, guest_dir(q.script_name@)],
            30,
            Output::Captured,
        ),
    ).when_bad(
        Effect::Stop(
            "failed to prepare guest provision directory for '"@ + q.script_name@ + "'"@,
        ),
    ).when_late(
        Effect::Stop("prepare provision dir "@ + q.script_name@ + ": timed out after 30s"@),
    )
}

/// The stage that copies the script.
pub open spec fn copy_script_stage(q: ProvisionRequest) -> StageView {
    plan::stage_of(
        plan::running(
            "limactl"@,
            seq![
                "copy"@,
                host_script(q.home->0@, q.script_name@),
                q.id@ + ":"@ + guest_script(q.script_name@),
            ],
            30,
            Output::Captured,
        ),
    ).when_bad(
        Effect::Stop(
            "failed to copy provision script into lima guest for '"@ + q.script_name@ + "'"@,
        ),
    ).when_late(Effect::Stop("copy script "@ + q.script_name@ + ": timed out after 30s"@))
}

/// The stage that copies the library; when that does not work, the next stage tries another way.
pub open spec fn copy_lib_stage(q: ProvisionRequest) -> StageView {
    plan::stage_of(
        plan::running(
            "limactl"@,
            seq![
                "copy"@,
                "--recursive"@,
                host_lib(q.home->0@),
                q.id@ + ":"@ + (guest_dir(q.script_name@) + "/lib"@),
            ],
            60,
            Output::Captured,
        ),
    ).when_good(Effect::Go(1)).when_bad(
        Effect::Say(
            Line {
                text: ui::warning(
                    "limactl copy --recursive failed for provision library, falling back to tar"@,
                ),
                always: false,
            },
            0,
        ),
    ).when_late(Effect::Stop("copy lib "@ + q.script_name@ + ": timed out after 60s"@))
}

/// The stage that copies the library through a pipe.
pub open spec fn tar_lib_stage(q: ProvisionRequest) -> StageView {
    plan::stage_of(
        plan::running(
            "bash"@,
            seq![
                "-c"@,
                "cd "@ + types::escaped(host_lib(q.home->0@)) + " && tar cf - . | limactl shell "@
                    + q.id@ + " tar xf - -C "@ + (guest_dir(q.script_name@) + "/lib"@),
            ],
            plan::UNLIMITED,
            Output::Captured,
        ),
    ).when_bad(
        Effect::Stop(
            "failed to copy provision library into lima guest for '"@ + q.script_name@
                + "' (both copy --recursive and tar fallback failed)"@,
        ),
    )
}

/// The stage that runs the script.
pub open spec fn run_script_stage(q: ProvisionRequest) -> StageView {
    plan::stage_of(
        plan::running(
            "limactl"@,
            seq!["shell"@, q.id@, "--"@, "bash"@, "-lc"@, provision_command(q)],
            1800,
            Output::Shown,
        ),
    ).when_good(plan::informing("provisioned: "@ + q.script_name@, 0)).when_bad(
        Effect::Stop("provision failed for '"@ + q.script_name@ + "'"@),
    ).when_late(
        Effect::Stop("provision timed out for '"@ + q.script_name@ + "' after 1800s"@),
    ).when_broken(
        Effect::StopWith("provision spawn failed for '"@ + q.script_name@ + "': "@),
    ).when_lost(
        Effect::StopWith("provision execution failed for '"@ + q.script_name@ + "': "@),
    )
}

/// The plan that provisions a machine that answers.
pub open spec fn provision_plan(q: ProvisionRequest) -> Seq<StageView> {
    let copied = seq![mkdir_stage(q), copy_script_stage(q)];
    (if q.lib_found {
        copied.push(copy_lib_stage(q)).push(tar_lib_stage(q))
    } else {
        copied
    }).push(run_script_stage(q))
}

/// A machine is reported as provisioned only after the script has been copied into it and has
/// run there with success.
pub proof fn provisioning_runs_the_script(q: ProvisionRequest, replies: Seq<Reply>)
    ensures
        plan::succeeded(
            provision_plan(q),
            plan::run(provision_plan(q), plan::beginning(), replies),
        ) ==> {
            &&& plan::passed(provision_plan(q), replies, 0)
            &&& plan::passed(provision_plan(q), replies, 1)
            &&& plan::passed(provision_plan(q), replies, provision_plan(q).len() - 1)
            &&& provision_plan(q).last() == run_script_stage(q)
        },
{
    let p = provision_plan(q);
    plan::strict_stages_are_passed(p, replies, 0);
    plan::strict_stages_are_passed(p, replies, 1);
    plan::strict_stages_are_passed(p, replies, p.len() - 1);
}

/// Whether the names of the variables of sandboxes differ from each other.
spec fn names_differ() -> bool {
    let v = seq![
        "TNK_OPENAI_URL"@,
        "TNK_INFERENCE_URL"@,
        "TNK_MCP_BRIDGE_URL"@,
        "TNK_SEARXNG_URL"@,
        "TNK_MODEL_NAME"@,
        "TNK_CTX_WINDOW"@,
        "TNK_WORKSPACE_MOUNT"@,
        "TNK_ENGINE_RUNTIME"@,
        "TNK_SPECS_REV"@,
    ];
    forall|i: int, j: int|
        0 <= i < v.len() && 0 <= j < v.len() && #[trigger] v[i] == #[trigger] v[j] ==> i == j
}

proof fn lemma_names_differ()
    ensures
        names_differ(),
{
    reveal_strlit("TNK_OPENAI_URL");
    reveal_strlit("TNK_INFERENCE_URL");
    reveal_strlit("TNK_MCP_BRIDGE_URL");
    reveal_strlit("TNK_SEARXNG_URL");
    reveal_strlit("TNK_MODEL_NAME");
    reveal_strlit("TNK_CTX_WINDOW");
    reveal_strlit("TNK_WORKSPACE_MOUNT");
    reveal_strlit("TNK_ENGINE_RUNTIME");
    reveal_strlit("TNK_SPECS_REV");
    let v = seq![
        "TNK_OPENAI_URL"@,
        "TNK_INFERENCE_URL"@,
        "TNK_MCP_BRIDGE_URL"@,
        "TNK_SEARXNG_URL"@,
        "TNK_MODEL_NAME"@,
        "TNK_CTX_WINDOW"@,
        "TNK_WORKSPACE_MOUNT"@,
        "TNK_ENGINE_RUNTIME"@,
        "TNK_SPECS_REV"@,
    ];
    assert("TNK_OPENAI_URL"@.len() == 14 && "TNK_OPENAI_URL"@[4] == 'O');
    assert("TNK_INFERENCE_URL"@.len() == 17 && "TNK_INFERENCE_URL"@[4] == 'I');
    assert("TNK_MCP_BRIDGE_URL"@.len() == 18 && "TNK_MCP_BRIDGE_URL"@[4] == 'M');
    assert("TNK_SEARXNG_URL"@.len() == 15 && "TNK_SEARXNG_URL"@[4] == 'S');
    assert("TNK_MODEL_NAME"@.len() == 14 && "TNK_MODEL_NAME"@[4] == 'M');
    assert("TNK_CTX_WINDOW"@.len() == 14 && "TNK_CTX_WINDOW"@[4] == 'C');
    assert("TNK_WORKSPACE_MOUNT"@.len() == 19 && "TNK_WORKSPACE_MOUNT"@[4] == 'W');
    assert("TNK_ENGINE_RUNTIME"@.len() == 18 && "TNK_ENGINE_RUNTIME"@[4] == 'E');
    assert("TNK_SPECS_REV"@.len() == 13 && "TNK_SPECS_REV"@[4] == 'S');
    assert forall|i: int, j: int|
        0 <= i < v.len() && 0 <= j < v.len() && #[trigger] v[i] == #[trigger] v[j] implies i == j by {
        assert(v[i].len() == v[j].len() && v[i][4] == v[j][4]);
    }
}

/// Of some variables whose names differ each is set exactly once.
pub proof fn distinct_names_are_set_once(pairs: Seq<(Seq<char>, Seq<char>)>, at: int)
    requires
        0 <= at < pairs.len(),
        forall|i: int, j: int|
            0 <= i < pairs.len() && 0 <= j < pairs.len() && (#[trigger] pairs[i]).0 == (
            #[trigger] pairs[j]).0 ==> i == j,
    ensures
        sets_once(pairs, pairs[at].0, pairs[at].1),
{
    let key = pairs[at].0;
    let value = pairs[at].1;
    assert(pairs[at] == (key, value));
    assert(pairs.contains((key, value)));
}

/// A sandbox is told of inference, of the services and of the model, each under a name of its own.
pub proof fn sandboxes_are_told(
    gateway: Seq<char>,
    port: u16,
    engine: Seq<char>,
    model: Seq<char>,
)
    ensures
        ({
            let pairs = runtime_pairs(gateway, port, engine, model);
            &&& sets_once(pairs, "TNK_MODEL_NAME"@, model)
            &&& sets_once(pairs, "TNK_ENGINE_RUNTIME"@, engine)
            &&& sets_once(pairs, "TNK_INFERENCE_URL"@, inference_url(gateway, port))
            &&& sets_once(pairs, "TNK_OPENAI_URL"@, inference_url(gateway, port))
            &&& sets_once(pairs, "TNK_MCP_BRIDGE_URL"@, bridge_url(gateway))
            &&& sets_once(pairs, "TNK_SEARXNG_URL"@, search_url(gateway))
        }),
{
    let pairs = runtime_pairs(gateway, port, engine, model);
    lemma_names_differ();
    let v = seq![
        "TNK_OPENAI_URL"@,
        "TNK_INFERENCE_URL"@,
        "TNK_MCP_BRIDGE_URL"@,
        "TNK_SEARXNG_URL"@,
        "TNK_MODEL_NAME"@,
        "TNK_CTX_WINDOW"@,
        "TNK_WORKSPACE_MOUNT"@,
        "TNK_ENGINE_RUNTIME"@,
        "TNK_SPECS_REV"@,
    ];
    assert(v[0] == "TNK_OPENAI_URL"@ && v[1] == "TNK_INFERENCE_URL"@);
    assert(v[2] == "TNK_MCP_BRIDGE_URL"@ && v[3] == "TNK_SEARXNG_URL"@);
    assert(v[4] == "TNK_MODEL_NAME"@ && v[7] == "TNK_ENGINE_RUNTIME"@);
    assert(pairs[0].0 == v[1] && pairs[1].0 == v[0] && pairs[2].0 == v[2]);
    assert(pairs[3].0 == v[3] && pairs[4].0 == v[4] && pairs[5].0 == v[7]);
    distinct_names_are_set_once(pairs, 0);
    distinct_names_are_set_once(pairs, 1);
    distinct_names_are_set_once(pairs, 2);
    distinct_names_are_set_once(pairs, 3);
    distinct_names_are_set_once(pairs, 4);
    distinct_names_are_set_once(pairs, 5);
}

proof fn lemma_command_reads(q: ProvisionRequest)
    ensures
        command_reads(provision_command(q)) == Some((told(q), guest_script(q.script_name@))),
{
    let script = types::escaped(guest_script(q.script_name@));
    let last = "bash "@ + script;
    let lines = export_lines(q);
    let first = "set -eu -o pipefail\n"@;
    lemma_told_lines(q);
    reveal_strlit("bash ");
    reveal_strlit("\nbash ");
    reveal_strlit("\n");
    reveal_strlit("export ");
    assert(last[0] == 'b');
    assert(!edge::begins(last, "export "@)) by {
        if edge::begins(last, "export "@) {
            assert(last.subrange(0, 7)[0] == last[0]);
        }
    }
    lemma_exports_read(lines, told(q), last);
    let body = compose::joined(lines, "\n"@) + "\n"@ + last;
    let s = provision_command(q);
    assert("\nbash "@ =~= "\n"@ + "bash "@);
    assert(s =~= first + body);
    assert(s.subrange(0, first.len() as int) =~= first);
    assert(s.skip(first.len() as int) =~= body);
    assert(last.subrange(0, 5) =~= "bash "@);
    assert(last.skip(5) =~= script + Seq::<char>::empty());
    types::escaped_words_are_read(guest_script(q.script_name@), Seq::empty());
}

/// A provision script is told exactly once of everything that was asked for: the command that runs
/// it sets the variables and then runs the script that was copied.
pub proof fn provision_scripts_are_told(q: ProvisionRequest)
    ensures
        ({
            let name = q.script_name@;
            let script = "/tmp/tnk-provision-"@ + name + "/"@ + name + ".sh"@;
            &&& command_reads(provision_command(q)) matches Some(r)
            &&& r.1 == script
            &&& r.0.len() == 9
            &&& sets_once(r.0, "TNK_MODEL_NAME"@, q.model_name@)
            &&& sets_once(r.0, "TNK_ENGINE_RUNTIME"@, q.engine_runtime@)
            &&& sets_once(r.0, "TNK_WORKSPACE_MOUNT"@, q.mount_path@)
            &&& sets_once(r.0, "TNK_CTX_WINDOW"@, number::decimal(q.ctx_window as nat))
            &&& sets_once(r.0, "TNK_INFERENCE_URL"@, inference_url("host.lima.internal"@, q.port))
            &&& sets_once(r.0, "TNK_OPENAI_URL"@, inference_url("host.lima.internal"@, q.port))
            &&& sets_once(r.0, "TNK_MCP_BRIDGE_URL"@, bridge_url("host.lima.internal"@))
            &&& sets_once(r.0, "TNK_SEARXNG_URL"@, search_url("host.lima.internal"@))
            &&& sets_once(r.0, "TNK_SPECS_REV"@, q.specs_rev@)
        }),
{
    let pairs = told(q);
    lemma_command_reads(q);
    lemma_names_differ();
    let v = seq![
        "TNK_OPENAI_URL"@,
        "TNK_INFERENCE_URL"@,
        "TNK_MCP_BRIDGE_URL"@,
        "TNK_SEARXNG_URL"@,
        "TNK_MODEL_NAME"@,
        "TNK_CTX_WINDOW"@,
        "TNK_WORKSPACE_MOUNT"@,
        "TNK_ENGINE_RUNTIME"@,
        "TNK_SPECS_REV"@,
    ];
    assert(forall|i: int| 0 <= i < 9 ==> (#[trigger] pairs[i]).0 == v[i]);
    distinct_names_are_set_once(pairs, 0);
    distinct_names_are_set_once(pairs, 1);
    distinct_names_are_set_once(pairs, 2);
    distinct_names_are_set_once(pairs, 3);
    distinct_names_are_set_once(pairs, 4);
    distinct_names_are_set_once(pairs, 5);
    distinct_names_are_set_once(pairs, 6);
    distinct_names_are_set_once(pairs, 7);
    distinct_names_are_set_once(pairs, 8);
    let name = q.script_name@;
    assert(guest_script(name) =~= "/tmp/tnk-provision-"@ + name + "/"@ + name + ".sh"@);
}

/// What a provision script is told agrees with what a session in the same machine is told.
pub proof fn scripts_and_sessions_agree(q: ProvisionRequest, i: int)
    requires
        0 <= i < runtime_pairs(
            "host.lima.internal"@,
            q.port,
            q.engine_runtime@,
            q.model_name@,
        ).len(),
    ensures
        ({
            let pair = runtime_pairs(
                "host.lima.internal"@,
                q.port,
                q.engine_runtime@,
                q.model_name@,
            )[i];
            command_reads(provision_command(q)) matches Some(r) && sets_once(r.0, pair.0, pair.1)
        }),
{
    provision_scripts_are_told(q);
}

/// The script that was copied into a machine is the one that the last stage runs there, and the
/// directory that was made before holds it.
#[verifier::rlimit(40)]
pub proof fn scripts_run_where_they_were_copied(q: ProvisionRequest, replies: Seq<Reply>)
    requires
        q.home is Some,
        plan::succeeded(
            provision_plan(q),
            plan::run(provision_plan(q), plan::beginning(), replies),
        ),
    ensures
        exists|command: Seq<char>, dir: Seq<char>, script: Seq<char>|
            {
                &&& #[trigger] runs_script(provision_plan(q), replies, q.id@, command)
                &&& command_reads(command) matches Some(r) && r.1 == script
                &&& script == dir + "/"@ + q.script_name@ + ".sh"@
                &&& #[trigger] prepares(provision_plan(q), replies, q, dir, script)
            },
{
    let p = provision_plan(q);
    let name = q.script_name@;
    plan::successes_are_complete(p, replies);
    lemma_command_reads(q);
    plan::stretches_are_crossed(p, replies, 0, 1);
    let a = choose|k: int| #[trigger] plan::leaves(p, replies, k, 0, 1);
    plan::leaving_is_told(p, replies, a, 0, 1);
    plan::stretches_are_crossed(p, replies, 1, 2);
    let b = choose|k: int| #[trigger] plan::leaves(p, replies, k, 1, 2);
    plan::leaving_is_told(p, replies, b, 1, 2);
    let n = p.len() - 1;
    plan::stretches_are_crossed(p, replies, n, n + 1);
    let c = choose|k: int| #[trigger] plan::leaves(p, replies, k, n, n + 1);
    plan::leaving_is_told(p, replies, c, n, n + 1);
    assert(plan::replied(p, replies, p[0].task, Want::Success, plan::is_good(Want::Success, replies[a])));
    assert(plan::replied(p, replies, p[1].task, Want::Success, plan::is_good(Want::Success, replies[b])));
    assert(plan::replied(p, replies, p[n].task, Want::Success, plan::is_good(Want::Success, replies[c])));
    assert(runs_script(p, replies, q.id@, provision_command(q)));
    assert(prepares(p, replies, q, guest_dir(name), guest_script(name)));
}

/// Whether a run of a plan ran a command in a machine with success.
pub open spec fn runs_script(
    p: Seq<StageView>,
    replies: Seq<Reply>,
    id: Seq<char>,
    command: Seq<char>,
) -> bool {
    plan::replied(
        p,
        replies,
        plan::running(
            "limactl"@,
            seq!["shell"@, id, "--"@, "bash"@, "-lc"@, command],
            1800,
            Output::Shown,
        ),
        Want::Success,
        true,
    )
}

/// Whether a run of a plan made a directory in a machine and copied the script of a profile into the
/// machine, both with success.
pub open spec fn prepares(
    p: Seq<StageView>,
    replies: Seq<Reply>,
    q: ProvisionRequest,
    dir: Seq<char>,
    script: Seq<char>,
) -> bool {
    &&& plan::replied(
        p,
        replies,
        plan::running(
            "limactl"@,
            seq!["shell"@, q.id@, "--"@, "mkdir"@, "-p"@, dir],
            30,
            Output::Captured,
        ),
        Want::Success,
        true,
    )
    &&& plan::replied(
        p,
        replies,
        plan::running(
            "limactl"@,
            seq!["copy"@, host_script(q.home->0@, q.script_name@), q.id@ + ":"@ + script],
            30,
            Output::Captured,
        ),
        Want::Success,
        true,
    )
}

/// The host and the rest of an address without a user, cut at the last colon.
pub open spec fn address_reads(url: Seq<char>) -> Option<(Seq<char>, Seq<char>)> {
    match edge::after_prefix(url, "http://"@) {
        Some(t) => edge::cut_last(t, ':'),
        None => None,
    }
}

proof fn lemma_address_reads(host: Seq<char>, rest: Seq<char>)
    requires
        !rest.contains(':'),
    ensures
        address_reads("http://"@ + host + ":"@ + rest) == Some((host, rest)),
{
    reveal_strlit("http://");
    reveal_strlit(":");
    let url = "http://"@ + host + ":"@ + rest;
    let t = host + ":"@ + rest;
    assert(url.subrange(0, 7) =~= "http://"@);
    assert(url.skip(7) =~= t);
    edge::lemma_last_at(t, ':');
    let at = edge::last_at(t, ':');
    assert(t[host.len() as int] == ':');
    assert(t.contains(':'));
    assert(at == host.len()) by {
        if at > host.len() {
            assert(rest[at - host.len() - 1] == t[at]);
        }
    }
    assert(t.take(at) =~= host);
    assert(t.skip(at + 1) =~= rest);
}

/// The address of inference leads to the port of the engine on the host that it is made for, and the
/// addresses of the services to the ports of the services.
pub proof fn addresses_lead_to_the_host(gateway: Seq<char>, port: u16)
    ensures
        address_reads(inference_url(gateway, port)) matches Some(r) && r.0 == gateway && (
        edge::before_suffix(r.1, "/v1"@) matches Some(d) && number::number(d, 65535) == Some(
            port as nat,
        )),
        address_reads(bridge_url(gateway)) == Some((gateway, "18765"@)),
        address_reads(search_url(gateway)) == Some((gateway, "18766"@)),
{
    let d = number::decimal(port as nat);
    reveal_strlit("/v1");
    reveal_strlit(":");
    reveal_strlit("18765");
    reveal_strlit("18766");
    reveal_strlit(":18765");
    reveal_strlit(":18766");
    let rest = d + "/v1"@;
    number::lemma_decimal_value(port as nat);
    assert(!rest.contains(':')) by {
        if rest.contains(':') {
            let i = choose|i: int| 0 <= i < rest.len() && rest[i] == ':';
            if i < d.len() {
                assert(class::ascii_digit(d[i]));
            } else {
                assert(rest[i] == "/v1"@[i - d.len()]);
            }
        }
    }
    assert(inference_url(gateway, port) =~= "http://"@ + gateway + ":"@ + rest);
    lemma_address_reads(gateway, rest);
    assert(rest.subrange(rest.len() - 3, rest.len() as int) =~= "/v1"@);
    assert(rest.take(rest.len() - 3) =~= d);
    number::parsing_inverts_printing(port as nat, 65535);
    assert(":18765"@ =~= ":"@ + "18765"@);
    assert(":18766"@ =~= ":"@ + "18766"@);
    assert(bridge_url(gateway) =~= "http://"@ + gateway + ":"@ + "18765"@);
    assert(search_url(gateway) =~= "http://"@ + gateway + ":"@ + "18766"@);
    lemma_address_reads(gateway, "18765"@);
    lemma_address_reads(gateway, "18766"@);
}

/// Whether a run of a plan ran a command on the host with success.
pub open spec fn runs_here(p: Seq<StageView>, replies: Seq<Reply>, command: Seq<char>) -> bool {
    plan::replied(
        p,
        replies,
        plan::running("bash"@, seq!["-c"@, command], plan::UNLIMITED, Output::Captured),
        Want::Success,
        true,
    )
}

/// When the library of the scripts is there, a machine is reported as provisioned only after the
/// library was copied into the directory beside the script, in one way or the other.
#[verifier::rlimit(40)]
pub proof fn libraries_are_copied(q: ProvisionRequest, replies: Seq<Reply>)
    requires
        q.home is Some,
        q.lib_found,
        plan::succeeded(
            provision_plan(q),
            plan::run(provision_plan(q), plan::beginning(), replies),
        ),
    ensures
        ({
            let from = host_lib(q.home->0@);
            let to = "/tmp/tnk-provision-"@ + q.script_name@ + "/lib"@;
            ||| plan::replied(
                provision_plan(q),
                replies,
                plan::running(
                    "limactl"@,
                    seq!["copy"@, "--recursive"@, from, q.id@ + ":"@ + to],
                    60,
                    Output::Captured,
                ),
                Want::Success,
                true,
            )
            ||| exists|command: Seq<char>|
                {
                    &&& edge::begins(command, "cd "@ + types::escaped(from) + " && "@)
                    &&& edge::ends(command, " "@ + to)
                    &&& edge::includes(command, "limactl shell "@ + q.id@)
                    &&& #[trigger] runs_here(provision_plan(q), replies, command)
                }
        }),
{
    let p = provision_plan(q);
    plan::successes_are_complete(p, replies);
    plan::stretches_are_crossed(p, replies, 2, 4);
    let k = choose|k: int| #[trigger] plan::leaves(p, replies, k, 2, 4);
    plan::leaving_is_told(p, replies, k, 2, 4);
    let at = plan::run(p, plan::beginning(), replies.take(k)).at;
    assert(plan::replied(
        p,
        replies,
        p[at].task,
        Want::Success,
        plan::is_good(Want::Success, replies[k]),
    ));
    let from = host_lib(q.home->0@);
    let to = "/tmp/tnk-provision-"@ + q.script_name@ + "/lib"@;
    assert(to =~= guest_dir(q.script_name@) + "/lib"@);
    let command = "cd "@ + types::escaped(from) + " && tar cf - . | limactl shell "@ + q.id@
        + " tar xf - -C "@ + to;
    let begin = "cd "@ + types::escaped(from) + " && "@;
    reveal_strlit(" && ");
    reveal_strlit(" && tar cf - . | limactl shell ");
    reveal_strlit(" tar xf - -C ");
    reveal_strlit(" ");
    reveal_strlit("limactl shell ");
    assert(command.subrange(0, begin.len() as int) =~= begin);
    let end = " "@ + to;
    assert(command.subrange(command.len() - end.len(), command.len() as int) =~= end);
    let call = "limactl shell "@ + q.id@;
    let i = ("cd "@ + types::escaped(from)).len() as int + 17;
    assert(command.subrange(i, i + call.len()) =~= call);
    assert(edge::occurs_at(command, call, i));
    assert(at == 3 ==> runs_here(p, replies, command));
}

fn check_request(q: &ProvisionRequest) -> (r: Result<String, Failure>)
    ensures
        types::fault(r) == provision_fault(*q),
        r matches Ok(h) ==> q.home is Some && h@ == q.home->0@,
{
    match types::validate_script_name(q.script_name.as_str()) {
        Ok(_) => {},
        Err(e) => return Err(e),
    }
    match types::validate_engine_runtime(q.engine_runtime.as_str()) {
        Ok(_) => {},
        Err(e) => return Err(e),
    }
    match types::validate_model_name(q.model_name.as_str()) {
        Ok(_) => {},
        Err(e) => return Err(e),
    }
    match types::validate_env_value(q.mount_path.as_str(), "TNK_WORKSPACE_MOUNT") {
        Ok(_) => {},
        Err(e) => return Err(e),
    }
    let home = match &q.home {
        Some(h) => h,
        None => return Err(failure::failure("environment variable not found")),
    };
    if !q.script_found {
        let script = provision_script(home.as_str(), q.script_name.as_str());
        let shown = debug_path(script.as_str());
        return Err(
            failure::failed(compose::concat("provision script not found: ", shown.as_str())),
        );
    }
    Ok(home.clone())
}

fn export(key: &str, value: &str) -> (r: String)
    ensures
        r@ == key@ + types::escaped(value@),
{
    let quoted = types::shell_escape(value);
    compose::concat(key, quoted.as_str())
}

fn command_for(q: &ProvisionRequest) -> (r: String)
    ensures
        r@ == provision_command(*q),
{
    let openai = backend_openai_url("host.lima.internal", q.port);
    let bridge = mcp_bridge_url("host.lima.internal");
    let search = searxng_url("host.lima.internal");
    let window = number::to_decimal(q.ctx_window as u64);
    let mut v = compose::no_texts();
    compose::push_string(&mut v, export("export TNK_OPENAI_URL=", openai.as_str()));
    compose::push_string(&mut v, export("export TNK_INFERENCE_URL=", openai.as_str()));
    compose::push_string(&mut v, export("export TNK_MCP_BRIDGE_URL=", bridge.as_str()));
    compose::push_string(&mut v, export("export TNK_SEARXNG_URL=", search.as_str()));
    compose::push_string(&mut v, export("export TNK_MODEL_NAME=", q.model_name.as_str()));
    compose::push_string(&mut v, compose::concat("export TNK_CTX_WINDOW=", window.as_str()));
    compose::push_string(&mut v, export("export TNK_WORKSPACE_MOUNT=", q.mount_path.as_str()));
    compose::push_string(
        &mut v,
        export("export TNK_ENGINE_RUNTIME=", q.engine_runtime.as_str()),
    );
    compose::push_string(&mut v, export("export TNK_SPECS_REV=", q.specs_rev.as_str()));
    assert(compose::texts(v@) =~= export_lines(*q));
    let lines = compose::join(&v, "\n");
    let script = guest_script_path(q.script_name.as_str());
    let quoted = types::shell_escape(script.as_str());
    compose::concat4("set -eu -o pipefail\n", lines.as_str(), "\nbash ", quoted.as_str())
}

/// Where a script goes inside.
pub fn guest_script_path(script: &str) -> (r: String)
    ensures
        r@ == guest_script(script@),
{
    let dir = compose::concat("/tmp/tnk-provision-", script);
    compose::concat4(dir.as_str(), "/", script, ".sh")
}

fn copying(q: &ProvisionRequest, home: &str) -> (r: Vec<Stage<String, Vec<String>>>)
    requires
        q.home is Some,
        home@ == q.home->0@,
    ensures
        plan::stages(r@) == (if q.lib_found {
            seq![mkdir_stage(*q), copy_script_stage(*q), copy_lib_stage(*q), tar_lib_stage(*q)]
        } else {
            seq![mkdir_stage(*q), copy_script_stage(*q)]
        }),
{
    let id = q.id.as_str();
    let name = q.script_name.as_str();
    let dir = compose::concat("/tmp/tnk-provision-", name);
    let script = guest_script_path(name);
    let host = provision_script(home, name);
    let lib = provision_lib(home);
    let target = compose::concat3(id, ":", script.as_str());
    let guest_lib = compose::concat(dir.as_str(), "/lib");
    let lib_target = compose::concat3(id, ":", guest_lib.as_str());
    let mut v = plan::no_stages();
    plan::push_stage(
        &mut v,
        plan::stage(
            plan::run_task(
                "limactl",
                compose::list6("shell", id, "--", "mkdir", "-p", dir.as_str()),
                30,
                Output::Captured,
            ),
        ).on_bad(
            Effect::Stop(
                compose::concat3("failed to prepare guest provision directory for '", name, "'"),
            ),
        ).on_late(
            Effect::Stop(
                compose::concat3("prepare provision dir ", name, ": timed out after 30s"),
            ),
        ),
    );
    plan::push_stage(
        &mut v,
        plan::stage(
            plan::run_task(
                "limactl",
                compose::list3("copy", host.as_str(), target.as_str()),
                30,
                Output::Captured,
            ),
        ).on_bad(
            Effect::Stop(
                compose::concat3(
                    "failed to copy provision script into lima guest for '",
                    name,
                    "'",
                ),
            ),
        ).on_late(
            Effect::Stop(compose::concat3("copy script ", name, ": timed out after 30s")),
        ),
    );
    if q.lib_found {
        let quoted = types::shell_escape(lib.as_str());
        let pipe = compose::concat3("cd ", quoted.as_str(), " && tar cf - . | limactl shell ");
        let tar = compose::concat4(pipe.as_str(), id, " tar xf - -C ", guest_lib.as_str());
        plan::push_stage(
            &mut v,
            plan::stage(
                plan::run_task(
                    "limactl",
                    compose::list4("copy", "--recursive", lib.as_str(), lib_target.as_str()),
                    60,
                    Output::Captured,
                ),
            ).on_good(Effect::Go(1)).on_bad(
                Effect::Say(
                    Line {
                        text: compose::concat(
                            "warning: ",
                            "limactl copy --recursive failed for provision library, falling back to tar",
                        ),
                        always: false,
                    },
                    0,
                ),
            ).on_late(Effect::Stop(compose::concat3("copy lib ", name, ": timed out after 60s"))),
        );
        plan::push_stage(
            &mut v,
            plan::stage(
                plan::run_task("bash", compose::list2("-c", tar.as_str()), plan::UNLIMITED, Output::Captured),
            ).on_bad(
                Effect::Stop(
                    compose::concat3(
                        "failed to copy provision library into lima guest for '",
                        name,
                        "' (both copy --recursive and tar fallback failed)",
                    ),
                ),
            ),
        );
    }
    v
}

/// The plan that provisions a machine that answers, or why it cannot be provisioned.
pub fn run_provision_lima(q: &ProvisionRequest) -> (r: Result<
    Vec<Stage<String, Vec<String>>>,
    Failure,
>)
    ensures
        types::fault(r) == provision_fault(*q),
        r matches Ok(v) ==> plan::stages(v@) == provision_plan(*q),
{
    let home = match check_request(q) {
        Ok(h) => h,
        Err(e) => return Err(e),
    };
    let name = q.script_name.as_str();
    let mut v = copying(q, home.as_str());
    let command = command_for(q);
    let done = compose::concat("provisioned: ", name);
    plan::push_stage(
        &mut v,
        plan::stage(
            plan::run_task(
                "limactl",
                compose::list6("shell", q.id.as_str(), "--", "bash", "-lc", command.as_str()),
                1800,
                Output::Shown,
            ),
        ).on_good(plan::informs(done.as_str(), 0)).on_bad(
            Effect::Stop(compose::concat3("provision failed for '", name, "'")),
        ).on_late(
            Effect::Stop(compose::concat3("provision timed out for '", name, "' after 1800s")),
        ).on_broken(
            Effect::StopWith(compose::concat3("provision spawn failed for '", name, "': ")),
        ).on_lost(
            Effect::StopWith(compose::concat3("provision execution failed for '", name, "': ")),
        ),
    );
    Ok(v)
}

/// What is said before a machine is provisioned: a warning if the library is missing, then the
/// name of the script. All of it is left out when the program is quiet.
pub open spec fn provision_lines(q: ProvisionRequest) -> Seq<Seq<char>> {
    let name = ui::info("provisioning: "@ + q.script_name@);
    if q.lib_found || q.home is None {
        seq![name]
    } else {
        seq![
            ui::warning(
                "provision library directory not found at "@ + path_notation(host_lib(q.home->0@))
                    + "; the provision script may fail if it sources files from lib/ (run `tnk init --force` to install provision assets)"@,
            ),
            name,
        ]
    }
}

/// What is said before a machine is provisioned.
pub fn announce_provision(q: &ProvisionRequest) -> (r: Vec<String>)
    ensures
        compose::texts(r@) == provision_lines(*q),
{
    let what = compose::concat("provisioning: ", q.script_name.as_str());
    let name = compose::concat("info: ", what.as_str());
    match &q.home {
        Some(h) => {
            if q.lib_found {
                compose::list1(name.as_str())
            } else {
                let lib = provision_lib(h.as_str());
                let shown = debug_path(lib.as_str());
                let text = compose::concat3(
                    "provision library directory not found at ",
                    shown.as_str(),
                    "; the provision script may fail if it sources files from lib/ (run `tnk init --force` to install provision assets)",
                );
                let line = compose::concat("warning: ", text.as_str());
                compose::list2(line.as_str(), name.as_str())
            }
        },
        None => compose::list1(name.as_str()),
    }
}

/// What comes of an attempt to reach a machine that is starting.
pub enum Waiting {
    /// It answers; the line tells so.
    Ready(String),
    /// It did not answer in time.
    Expired(Failure),
    /// Another attempt is to be made after a second; the number of attempts so far.
    Again(u32),
}

/// What comes of the attempt after `attempts` others to reach a machine that is starting.
pub fn wait_for_lima_ready(
    id: &str,
    timeout_secs: u64,
    attempts: u32,
    answered: bool,
    expired: bool,
) -> (r: Waiting)
    requires
        attempts < u32::MAX,
    ensures
        match r {
            Waiting::Ready(line) => answered && line@ == "sandbox "@ + id@ + " ready after "@
                + number::decimal(attempts as nat) + " attempts"@,
            Waiting::Expired(e) => !answered && expired && e@ == "sandbox '"@ + id@
                + "' did not become ready within "@ + number::decimal(timeout_secs as nat) + "s"@,
            Waiting::Again(n) => !answered && !expired && n == attempts + 1,
        },
{
    if answered {
        let n = number::to_decimal(attempts as u64);
        Waiting::Ready(compose::concat5("sandbox ", id, " ready after ", n.as_str(), " attempts"))
    } else if expired {
        let n = number::to_decimal(timeout_secs);
        Waiting::Expired(
            failure::failed(
                compose::concat5(
                    "sandbox '",
                    id,
                    "' did not become ready within ",
                    n.as_str(),
                    "s",
                ),
            ),
        )
    } else {
        Waiting::Again(attempts + 1)
    }
}

/// The scripts of profiles lie in the directory of the configuration, each under its own name.
pub proof fn scripts_lie_in_the_configuration(home: Seq<char>, script: Seq<char>)
    requires
        types::name_fault(script, "profile name"@, Alphabet::Word) is None,
    ensures
        path::directory(host_script(home, script)) == path::directory(home) + seq![
            ".config"@,
            "tnk"@,
            "sandbox.d"@,
            "provision.d"@,
        ].push(script + ".sh"@),
{
    let file = script + ".sh"@;
    let names = seq![".config"@, "tnk"@, "sandbox.d"@, "provision.d"@].push(file);
    reveal_strlit(".");
    reveal_strlit("/");
    reveal_strlit(".sh");
    reveal_strlit(".config");
    reveal_strlit("tnk");
    reveal_strlit("sandbox.d");
    reveal_strlit("provision.d");
    reveal_strlit(".config/tnk/sandbox.d/provision.d/");
    assert("."@.len() == 1 && ".config"@.len() == 7 && "tnk"@.len() == 3);
    assert("sandbox.d"@.len() == 9 && "provision.d"@.len() == 11);
    assert(!".config"@.contains('/') && !"tnk"@.contains('/'));
    assert(!"sandbox.d"@.contains('/') && !"provision.d"@.contains('/'));
    assert(!file.contains('/')) by {
        if file.contains('/') {
            let i = choose|i: int| 0 <= i < file.len() && file[i] == '/';
            if i < script.len() {
                assert(Alphabet::Word.has(script[i]));
            } else {
                assert(file[i] == ".sh"@[i - script.len()]);
            }
        }
    }
    assert forall|i: int| 0 <= i < names.len() implies path::is_step(#[trigger] names[i]) by {}
    path::ways_lead_on(home, names);
    reveal_with_fuel(compose::joined, 6);
    let a = names.drop_last();
    assert(a =~= seq![".config"@, "tnk"@, "sandbox.d"@, "provision.d"@]);
    let b = a.drop_last();
    assert(b =~= seq![".config"@, "tnk"@, "sandbox.d"@]);
    let c = b.drop_last();
    assert(c =~= seq![".config"@, "tnk"@]);
    let d = c.drop_last();
    assert(d =~= seq![".config"@]);
    assert(compose::joined(d, "/"@) == ".config"@);
    assert(compose::joined(c, "/"@) == ".config"@ + "/"@ + "tnk"@);
    assert(compose::joined(b, "/"@) == ".config"@ + "/"@ + "tnk"@ + "/"@ + "sandbox.d"@);
    assert(compose::joined(a, "/"@) == ".config"@ + "/"@ + "tnk"@ + "/"@ + "sandbox.d"@ + "/"@
        + "provision.d"@);
    assert(compose::joined(names, "/"@) =~= ".config/tnk/sandbox.d/provision.d/"@ + script
        + ".sh"@);
}

} // verus!
