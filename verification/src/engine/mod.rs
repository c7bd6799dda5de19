pub mod preset;
pub mod process;
pub mod run;
pub mod status;

use crate::failure;
use crate::failure::Failure;
use crate::text::{compose, edge, number};
use vstd::prelude::*;

verus! {

/// A program that serves models.
#[derive(Clone, Copy, Debug)]
pub struct EngineRuntimeSpec {
    pub name: &'static str,
    pub executable: &'static str,
    pub pid_file_name: &'static str,
    pub active_preset_file: &'static str,
    pub log_stdout: &'static str,
    pub log_stderr: &'static str,
    pub default_model_id: &'static str,
    pub default_bind_host: &'static str,
}

/// The texts of a runtime.
pub struct RuntimeView {
    pub name: Seq<char>,
    pub executable: Seq<char>,
    pub pid_file_name: Seq<char>,
    pub active_preset_file: Seq<char>,
    pub log_stdout: Seq<char>,
    pub log_stderr: Seq<char>,
    pub default_model_id: Seq<char>,
    pub default_bind_host: Seq<char>,
}

impl View for EngineRuntimeSpec {
    type V = RuntimeView;

    open spec fn view(&self) -> RuntimeView {
        RuntimeView {
            name: self.name@,
            executable: self.executable@,
            pid_file_name: self.pid_file_name@,
            active_preset_file: self.active_preset_file@,
            log_stdout: self.log_stdout@,
            log_stderr: self.log_stderr@,
            default_model_id: self.default_model_id@,
            default_bind_host: self.default_bind_host@,
        }
    }
}

/// The runtime `llama`.
pub open spec fn llama() -> RuntimeView {
    RuntimeView {
        name: "llama"@,
        executable: "llama-server"@,
        pid_file_name: "llama-server.pid"@,
        active_preset_file: "active-preset-name-llama"@,
        log_stdout: "llama-server.log"@,
        log_stderr: "llama-server-err.log"@,
        default_model_id: "unsloth/Qwen3.6-35B-A3B-GGUF/Qwen3.6-35B-A3B-UD-Q4_K_XL.gguf"@,
        default_bind_host: "0.0.0.0"@,
    }
}

/// The runtime `mlxcel`.
pub open spec fn mlxcel() -> RuntimeView {
    RuntimeView {
        name: "mlxcel"@,
        executable: "mlxcel-server"@,
        pid_file_name: "mlxcel-server.pid"@,
        active_preset_file: "active-preset-name-mlxcel"@,
        log_stdout: "mlxcel-server.log"@,
        log_stderr: "mlxcel-server-err.log"@,
        default_model_id: "mlx-community/Qwen3.6-35B-A3B-4bit"@,
        default_bind_host: "0.0.0.0"@,
    }
}

/// The runtime `vllm-mlx`.
pub open spec fn vllm_mlx() -> RuntimeView {
    RuntimeView {
        name: "vllm-mlx"@,
        executable: "vllm-mlx"@,
        pid_file_name: "vllm-mlx.pid"@,
        active_preset_file: "active-preset-name-vllm-mlx"@,
        log_stdout: "vllm-mlx.log"@,
        log_stderr: "vllm-mlx-err.log"@,
        default_model_id: "mlx-community/Qwen3.6-35B-A3B-4bit"@,
        default_bind_host: "0.0.0.0"@,
    }
}

fn llama_spec() -> (r: EngineRuntimeSpec)
    ensures
        r@ == llama(),
{
    EngineRuntimeSpec {
        name: "llama",
        executable: "llama-server",
        pid_file_name: "llama-server.pid",
        active_preset_file: "active-preset-name-llama",
        log_stdout: "llama-server.log",
        log_stderr: "llama-server-err.log",
        default_model_id: "unsloth/Qwen3.6-35B-A3B-GGUF/Qwen3.6-35B-A3B-UD-Q4_K_XL.gguf",
        default_bind_host: "0.0.0.0",
    }
}

fn mlxcel_spec() -> (r: EngineRuntimeSpec)
    ensures
        r@ == mlxcel(),
{
    EngineRuntimeSpec {
        name: "mlxcel",
        executable: "mlxcel-server",
        pid_file_name: "mlxcel-server.pid",
        active_preset_file: "active-preset-name-mlxcel",
        log_stdout: "mlxcel-server.log",
        log_stderr: "mlxcel-server-err.log",
        default_model_id: "mlx-community/Qwen3.6-35B-A3B-4bit",
        default_bind_host: "0.0.0.0",
    }
}

fn vllm_mlx_spec() -> (r: EngineRuntimeSpec)
    ensures
        r@ == vllm_mlx(),
{
    EngineRuntimeSpec {
        name: "vllm-mlx",
        executable: "vllm-mlx",
        pid_file_name: "vllm-mlx.pid",
        active_preset_file: "active-preset-name-vllm-mlx",
        log_stdout: "vllm-mlx.log",
        log_stderr: "vllm-mlx-err.log",
        default_model_id: "mlx-community/Qwen3.6-35B-A3B-4bit",
        default_bind_host: "0.0.0.0",
    }
}

/// The runtime of a name.
pub open spec fn runtime_named(name: Seq<char>) -> Option<RuntimeView> {
    if name == "llama"@ {
        Some(llama())
    } else if name == "mlxcel"@ {
        Some(mlxcel())
    } else if name == "vllm-mlx"@ {
        Some(vllm_mlx())
    } else {
        None
    }
}

/// The texts of an optional runtime.
pub open spec fn opt_runtime(o: Option<EngineRuntimeSpec>) -> Option<RuntimeView> {
    match o {
        Some(s) => Some(s@),
        None => None,
    }
}

/// The runtime of a name.
pub fn runtime_spec(runtime: &str) -> (r: Option<EngineRuntimeSpec>)
    ensures
        opt_runtime(r) == runtime_named(runtime@),
{
    if compose::same(runtime, "llama") {
        Some(llama_spec())
    } else if compose::same(runtime, "mlxcel") {
        Some(mlxcel_spec())
    } else if compose::same(runtime, "vllm-mlx") {
        Some(vllm_mlx_spec())
    } else {
        None
    }
}

/// Whether there is a runtime of a name.
pub fn supports_runtime(runtime: &str) -> (r: bool)
    ensures
        r == (runtime_named(runtime@) is Some),
{
    runtime_spec(runtime).is_some()
}

/// The names of the runtimes.
pub fn supported_runtime_names() -> (r: [&'static str; 3])
    ensures
        r@[0]@ == "llama"@,
        r@[1]@ == "mlxcel"@,
        r@[2]@ == "vllm-mlx"@,
        forall|i: int| 0 <= i < 3 ==> runtime_named((#[trigger] r@[i])@) is Some,
{
    ["llama", "mlxcel", "vllm-mlx"]
}

/// The runtimes in the order in which they are looked for.
pub open spec fn supported() -> Seq<RuntimeView> {
    seq![llama(), mlxcel(), vllm_mlx()]
}

/// The runtimes in the order in which they are looked for.
pub fn supported_runtimes() -> (r: Vec<EngineRuntimeSpec>)
    ensures
        r@.map_values(|s: EngineRuntimeSpec| s@) == supported(),
{
    let mut v: Vec<EngineRuntimeSpec> = Vec::new();
    v.push(llama_spec());
    v.push(mlxcel_spec());
    v.push(vllm_mlx_spec());
    assert(v@.map_values(|s: EngineRuntimeSpec| s@) =~= supported());
    v
}

/// Every runtime that is looked for is known by its own name.
pub proof fn runtimes_are_named(i: int)
    requires
        0 <= i < supported().len(),
    ensures
        runtime_named(supported()[i].name) == Some(supported()[i]),
{
    reveal_strlit("llama");
    reveal_strlit("mlxcel");
    reveal_strlit("vllm-mlx");
    assert("llama"@.len() != "mlxcel"@.len());
    assert("llama"@.len() != "vllm-mlx"@.len());
    assert("mlxcel"@.len() != "vllm-mlx"@.len());
}

/// The file that tells the last model of a runtime; that of `llama` for an unknown name.
pub fn active_preset_file_for_runtime(runtime: &str) -> (r: &'static str)
    ensures
        r@ == (match runtime_named(runtime@) {
            Some(s) => s.active_preset_file,
            None => llama().active_preset_file,
        }),
{
    match runtime_spec(runtime) {
        Some(s) => s.active_preset_file,
        None => llama_spec().active_preset_file,
    }
}

/// The model of a runtime that is given none; that of `llama` for an unknown name.
pub fn default_model_for_runtime(runtime: &str) -> (r: &'static str)
    ensures
        r@ == (match runtime_named(runtime@) {
            Some(s) => s.default_model_id,
            None => llama().default_model_id,
        }),
{
    match runtime_spec(runtime) {
        Some(s) => s.default_model_id,
        None => llama_spec().default_model_id,
    }
}

/// The message about a runtime that is not known.
pub open spec fn unsupported(runtime: Seq<char>) -> Seq<char> {
    "unsupported engine runtime '"@ + runtime + "' (supported: llama, mlxcel, vllm-mlx)"@
}

/// The runtime of a name, or the message that there is none.
pub fn require_runtime(runtime: &str) -> (r: Result<EngineRuntimeSpec, Failure>)
    ensures
        match r {
            Ok(s) => runtime_named(runtime@) == Some(s@),
            Err(e) => runtime_named(runtime@) is None && e@ == unsupported(runtime@),
        },
{
    match runtime_spec(runtime) {
        Some(s) => Ok(s),
        None => Err(
            failure::failed(
                compose::concat3(
                    "unsupported engine runtime '",
                    runtime,
                    "' (supported: llama, mlxcel, vllm-mlx)",
                ),
            ),
        ),
    }
}

/// A text without the white space round it, if anything is left.
pub open spec fn nonblank(o: Option<Seq<char>>) -> Option<Seq<char>> {
    match o {
        Some(s) => if edge::trimmed(s).len() > 0 {
            Some(edge::trimmed(s))
        } else {
            None
        },
        None => None,
    }
}

/// A text without the white space round it, if anything is left.
pub fn keep_nonblank(o: &Option<String>) -> (r: Option<String>)
    ensures
        compose::opt_text(r) == nonblank(compose::opt_text(*o)),
{
    match o {
        Some(s) => {
            let t = edge::trim(s.as_str());
            if t.as_str().is_empty() {
                None
            } else {
                Some(t)
            }
        },
        None => None,
    }
}

/// The address that a server listens at: as asked for, else as configured, else its own default.
pub fn resolve_bind_host(
    spec_: &EngineRuntimeSpec,
    bind_host: &Option<String>,
    configured: &Option<String>,
) -> (r: String)
    ensures
        r@ == (match nonblank(compose::opt_text(*bind_host)) {
            Some(h) => h,
            None => match nonblank(compose::opt_text(*configured)) {
                Some(h) => h,
                None => spec_@.default_bind_host,
            },
        }),
{
    match keep_nonblank(bind_host) {
        Some(h) => h,
        None => match keep_nonblank(configured) {
            Some(h) => h,
            None => spec_.default_bind_host.to_owned(),
        },
    }
}

/// The arguments of a server.
pub open spec fn server_args(
    s: RuntimeView,
    model: Seq<char>,
    host: Seq<char>,
    port: u16,
    extra: Seq<Seq<char>>,
) -> Seq<Seq<char>> {
    seq![
        if s.name == "vllm-mlx"@ {
            "serve"@
        } else {
            "--model"@
        },
        model,
        "--host"@,
        host,
        "--port"@,
        number::decimal(port as nat),
    ] + extra
}

/// The arguments of a server.
pub fn runtime_args(
    spec_: &EngineRuntimeSpec,
    model_id: &str,
    host: &str,
    port: u16,
    extra: &Vec<String>,
) -> (r: Vec<String>)
    ensures
        compose::texts(r@) == server_args(spec_@, model_id@, host@, port, compose::texts(extra@)),
{
    let first = if compose::same(spec_.name, "vllm-mlx") {
        "serve"
    } else {
        "--model"
    };
    let digits = number::to_decimal(port as u64);
    let mut v = compose::list6(first, model_id, "--host", host, "--port", digits.as_str());
    compose::push_all(&mut v, extra);
    v
}

/// A server serves the model that was asked for, at the host and the port that were asked for, and
/// what its preset says comes last and unchanged.
pub proof fn servers_are_told(
    s: RuntimeView,
    model: Seq<char>,
    host: Seq<char>,
    port: u16,
    extra: Seq<Seq<char>>,
)
    ensures
        ({
            let args = server_args(s, model, host, port, extra);
            &&& args[0] == "--model"@ || (args[0] == "serve"@ && s.name == "vllm-mlx"@)
            &&& s.name == "vllm-mlx"@ ==> args[0] == "serve"@
            &&& args[1] == model
            &&& args[2] == "--host"@ && args[3] == host
            &&& args[4] == "--port"@
            &&& number::number(args[5], 65535) == Some(port as nat)
            &&& args.skip(6) == extra
        }),
{
    number::parsing_inverts_printing(port as nat, 65535);
    assert(server_args(s, model, host, port, extra).skip(6) =~= extra);
}

} // verus!
