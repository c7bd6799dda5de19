use crate::cli::OutputFormat;
use crate::config;
use crate::engine;
use crate::engine::EngineRuntimeSpec;
use crate::failure;
use crate::failure::Failure;
use crate::json;
use crate::json::{Json, JsonView};
use crate::sandbox::shared;
use crate::text::class::Class;
use crate::text::{compose, edge, order, path, split};
use crate::ui::Said;
use vstd::prelude::*;

verus! {

/// A model with a name of its own and what a server is told about it.
#[derive(Debug)]
pub struct PresetSpec {
    pub name: String,
    pub runtime: Option<String>,
    pub model: String,
    pub extra: Vec<String>,
}

/// A preset, as mathematical values.
pub struct PresetView {
    pub name: Seq<char>,
    pub runtime: Option<Seq<char>>,
    pub model: Seq<char>,
    pub extra: Seq<Seq<char>>,
}

impl View for PresetSpec {
    type V = PresetView;

    open spec fn view(&self) -> PresetView {
        PresetView {
            name: self.name@,
            runtime: compose::opt_text(self.runtime),
            model: self.model@,
            extra: compose::texts(self.extra@),
        }
    }
}

/// The presets of a list.
pub open spec fn preset_views(v: Seq<PresetSpec>) -> Seq<PresetView> {
    v.map_values(|p: PresetSpec| p@)
}

/// Whether a line of a preset file sets nothing: it is blank, a comment or a heading.
pub open spec fn is_remark(line: Seq<char>) -> bool {
    ||| line.len() == 0
    ||| edge::begins(line, "#"@)
    ||| edge::begins(line, ";"@)
    ||| edge::begins(line, "["@) && edge::ends(line, "]"@)
}

/// A value without the quotes round it.
pub open spec fn unquoted(value: Seq<char>) -> Seq<char> {
    edge::both_trimmed(
        edge::both_trimmed(edge::trimmed(value), Class::Only('"')),
        Class::Only('\''),
    )
}

/// What a line of a preset file sets.
pub open spec fn ini_pair(raw: Seq<char>) -> Option<(Seq<char>, Seq<char>)> {
    let line = edge::trimmed(raw);
    if is_remark(line) {
        None
    } else {
        match edge::cut(line, '=') {
            None => None,
            Some((k, v)) => {
                let key = compose::ascii_lower(edge::trimmed(k));
                let value = unquoted(v);
                if key.len() == 0 || value.len() == 0 {
                    None
                } else {
                    Some((key, value))
                }
            },
        }
    }
}

/// What some lines of a preset file set, in their order; of two values for a key the later counts.
pub open spec fn ini_pairs(lines: Seq<Seq<char>>) -> Seq<(Seq<char>, Seq<char>)>
    decreases lines.len(),
{
    if lines.len() == 0 {
        Seq::empty()
    } else {
        match ini_pair(lines.last()) {
            Some(p) => ini_pairs(lines.drop_last()).push(p),
            None => ini_pairs(lines.drop_last()),
        }
    }
}

fn read_ini_line(raw: &str) -> (r: Option<(String, String)>)
    ensures
        match r {
            Some(p) => ini_pair(raw@) == Some((p.0@, p.1@)),
            None => ini_pair(raw@) is None,
        },
{
    let line = edge::trim(raw);
    let l = line.as_str();
    if l.is_empty() || edge::starts_with(l, "#") || edge::starts_with(l, ";") || (
    edge::starts_with(l, "[") && edge::ends_with(l, "]")) {
        return None;
    }
    let (k, v) = match edge::split_once(l, '=') {
        Some(p) => p,
        None => return None,
    };
    let trimmed_key = edge::trim(k.as_str());
    let key = compose::to_ascii_lower(trimmed_key.as_str());
    let trimmed_value = edge::trim(v.as_str());
    let inner = edge::trim_both(trimmed_value.as_str(), Class::Only('"'));
    let value = edge::trim_both(inner.as_str(), Class::Only('\''));
    if key.as_str().is_empty() || value.as_str().is_empty() {
        None
    } else {
        Some((key, value))
    }
}

/// What a preset file sets.
pub fn parse_ini_file(content: &str) -> (r: Vec<(String, String)>)
    ensures
        compose::pair_texts(r@) == ini_pairs(split::lines_of(content@)),
{
    let lines = split::lines(content);
    let ghost all = compose::texts(lines@);
    let mut v = shared::no_envs();
    let mut i: usize = 0;
    while i < lines.len()
        invariant
            i <= lines@.len(),
            all == compose::texts(lines@),
            compose::pair_texts(v@) == ini_pairs(all.take(i as int)),
        decreases lines@.len() - i,
    {
        assert(all.take(i + 1).drop_last() =~= all.take(i as int));
        assert(all.take(i + 1).last() == lines@[i as int]@);
        match read_ini_line(lines[i].as_str()) {
            Some(p) => shared::push_env(&mut v, p.0.as_str(), p.1.as_str()),
            None => {},
        }
        i += 1;
    }
    assert(all.take(i as int) =~= all);
    v
}

/// The words of a command line, as `shell_words` finds them; none if a quote is not closed.
pub uninterp spec fn shell_words_in(s: Seq<char>) -> Option<Seq<Seq<char>>>;

/// Whether a text has no character with a meaning of its own for a shell's words but spaces.
pub open spec fn is_plain(s: Seq<char>) -> bool {
    forall|i: int|
        0 <= i < s.len() ==> {
            let c = #[trigger] s[i];
            c != '\'' && c != '"' && c != '\\' && c != '#' && c != '\t' && c != '\n'
        }
}

/// The texts of an optional list.
pub open spec fn opt_list(o: Option<Vec<String>>) -> Option<Seq<Seq<char>>> {
    match o {
        Some(v) => Some(compose::texts(v@)),
        None => None,
    }
}

/// Calls `shell_words::split`. Claimed: the words, or that a quote is not closed, depend on the
/// text alone; a text without quotes, backslashes, hashes, tabs and line feeds is cut at its
/// spaces.
#[verifier::external_body]
fn split_shell_words(s: &str) -> (r: Option<Vec<String>>)
    ensures
        opt_list(r) == shell_words_in(s@),
        is_plain(s@) ==> opt_list(r) == Some(split::nonempty(split::pieces(s@, Class::Only(' ')))),
{
    shell_words::split(s).ok()
}

/// What a preset says beyond its model.
pub open spec fn extra_words(value: Option<Seq<char>>) -> Seq<Seq<char>> {
    match value {
        Some(s) => match shell_words_in(s) {
            Some(w) => w,
            None => Seq::empty(),
        },
        None => Seq::empty(),
    }
}

/// The preset of what a file sets, given the words of its extra arguments.
pub open spec fn preset_with(
    name: Seq<char>,
    kv: Seq<(Seq<char>, Seq<char>)>,
    extra: Seq<Seq<char>>,
) -> Option<PresetView> {
    let model = first_of(
        shared::last_value(kv, "model"@),
        first_of(shared::last_value(kv, "model_id"@), shared::last_value(kv, "profile"@)),
    );
    match model {
        None => None,
        Some(m) => Some(
            PresetView {
                name,
                runtime: first_of(
                    shared::last_value(kv, "runtime"@),
                    shared::last_value(kv, "engine_runtime"@),
                ),
                model: m,
                extra,
            },
        ),
    }
}

/// The preset of what a file sets.
pub open spec fn preset_of(name: Seq<char>, kv: Seq<(Seq<char>, Seq<char>)>) -> Option<PresetView> {
    preset_with(name, kv, extra_words(shared::last_value(kv, "extra"@)))
}

/// The first of two texts that is there.
pub open spec fn first_of(a: Option<Seq<char>>, b: Option<Seq<char>>) -> Option<Seq<char>> {
    match a {
        Some(s) => Some(s),
        None => b,
    }
}

fn first_text(a: Option<String>, b: Option<String>) -> (r: Option<String>)
    ensures
        compose::opt_text(r) == first_of(compose::opt_text(a), compose::opt_text(b)),
{
    match a {
        Some(s) => Some(s),
        None => b,
    }
}

/// The preset of what a file sets, given the words of its extra arguments.
pub fn preset_from_parts(name: &str, kv: &Vec<(String, String)>, extra: Vec<String>) -> (r: Option<
    PresetSpec,
>)
    ensures
        match r {
            Some(p) => preset_with(name@, compose::pair_texts(kv@), compose::texts(extra@)) == Some(
                p@,
            ),
            None => preset_with(name@, compose::pair_texts(kv@), compose::texts(extra@)) is None,
        },
{
    let model = first_text(
        shared::find_value(kv, "model"),
        first_text(shared::find_value(kv, "model_id"), shared::find_value(kv, "profile")),
    );
    match model {
        None => None,
        Some(m) => Some(
            PresetSpec {
                name: name.to_owned(),
                runtime: first_text(
                    shared::find_value(kv, "runtime"),
                    shared::find_value(kv, "engine_runtime"),
                ),
                model: m,
                extra,
            },
        ),
    }
}

/// The preset of what a file sets.
pub fn preset_from_kv(name: &str, kv: &Vec<(String, String)>) -> (r: Option<PresetSpec>)
    ensures
        match r {
            Some(p) => preset_of(name@, compose::pair_texts(kv@)) == Some(p@),
            None => preset_of(name@, compose::pair_texts(kv@)) is None,
        },
{
    let extra = match shared::find_value(kv, "extra") {
        Some(s) => match split_shell_words(s.as_str()) {
            Some(w) => w,
            None => compose::no_texts(),
        },
        None => compose::no_texts(),
    };
    preset_from_parts(name, kv, extra)
}

/// The preset of a file with the given name and content.
pub open spec fn file_preset(file: (Seq<char>, Seq<char>)) -> Option<PresetView> {
    match edge::before_suffix(file.0, ".ini"@) {
        Some(name) => if name.len() == 0 {
            None
        } else {
            preset_of(name, ini_pairs(split::lines_of(file.1)))
        },
        None => None,
    }
}

/// The presets of some files, in their order.
pub open spec fn file_presets(files: Seq<(Seq<char>, Seq<char>)>) -> Seq<PresetView>
    decreases files.len(),
{
    if files.len() == 0 {
        Seq::empty()
    } else {
        match file_preset(files.last()) {
            Some(p) => file_presets(files.drop_last()).push(p),
            None => file_presets(files.drop_last()),
        }
    }
}

/// The names of some presets.
pub open spec fn preset_names(v: Seq<PresetView>) -> Seq<Seq<char>> {
    v.map_values(|p: PresetView| p.name)
}

/// Presets in ascending order of their names.
pub open spec fn sorted_presets(v: Seq<PresetView>) -> Seq<PresetView> {
    order::stable_order(preset_names(v)).map_values(|i: int| v[i])
}

fn read_preset(file: &str, content: &str) -> (r: Option<PresetSpec>)
    ensures
        match r {
            Some(p) => file_preset((file@, content@)) == Some(p@),
            None => file_preset((file@, content@)) is None,
        },
{
    match edge::strip_suffix(file, ".ini") {
        Some(name) => {
            if name.as_str().is_empty() {
                return None;
            }
            let kv = parse_ini_file(content);
            preset_from_kv(name.as_str(), &kv)
        },
        None => None,
    }
}

fn copy_preset(p: &PresetSpec) -> (r: PresetSpec)
    ensures
        r@ == p@,
{
    PresetSpec {
        name: p.name.clone(),
        runtime: match &p.runtime {
            Some(s) => Some(s.clone()),
            None => None,
        },
        model: p.model.clone(),
        extra: compose::copy_texts(&p.extra),
    }
}

fn push_preset(v: &mut Vec<PresetSpec>, p: PresetSpec)
    ensures
        preset_views(final(v)@) == preset_views(old(v)@).push(p@),
{
    let ghost before = v@;
    v.push(p);
    assert(preset_views(v@) =~= preset_views(before).push(p@));
}

fn sort_presets(v: &Vec<PresetSpec>) -> (r: Vec<PresetSpec>)
    ensures
        preset_views(r@) == sorted_presets(preset_views(v@)),
{
    let ghost all = preset_views(v@);
    let mut names = compose::no_texts();
    let mut i: usize = 0;
    assert(compose::texts(names@) =~= preset_names(all).take(0));
    while i < v.len()
        invariant
            i <= v@.len(),
            all == preset_views(v@),
            compose::texts(names@) == preset_names(all).take(i as int),
        decreases v@.len() - i,
    {
        compose::push_text(&mut names, v[i].name.as_str());
        i += 1;
        assert(compose::texts(names@) =~= preset_names(all).take(i as int));
    }
    assert(preset_names(all).take(i as int) =~= preset_names(all));
    let ranks = order::rank(&names);
    let ghost places = ranks@.map_values(|i: usize| i as int);
    let ghost goal = sorted_presets(all);
    assert(names@.len() == v@.len()) by {
        assert(compose::texts(names@).len() == names@.len());
    }
    let mut r: Vec<PresetSpec> = Vec::new();
    let mut k: usize = 0;
    assert(preset_views(r@) =~= goal.take(0));
    while k < ranks.len()
        invariant
            k <= ranks@.len(),
            all == preset_views(v@),
            goal == sorted_presets(all),
            places == ranks@.map_values(|i: usize| i as int),
            places == order::stable_order(preset_names(all)),
            goal.len() == ranks@.len(),
            forall|j: int| 0 <= j < ranks@.len() ==> #[trigger] ranks@[j] < v@.len(),
            preset_views(r@) == goal.take(k as int),
        decreases ranks@.len() - k,
    {
        assert(places[k as int] == ranks@[k as int]);
        assert(goal[k as int] == all[ranks@[k as int] as int]);
        push_preset(&mut r, copy_preset(&v[ranks[k]]));
        k += 1;
        assert(preset_views(r@) =~= goal.take(k as int));
    }
    assert(goal.take(k as int) =~= goal);
    r
}

/// The presets of some files, given with their names and contents, in ascending order of the
/// names of the presets.
pub fn discover_presets(files: &Vec<(String, String)>) -> (r: Vec<PresetSpec>)
    ensures
        preset_views(r@) == sorted_presets(file_presets(compose::pair_texts(files@))),
{
    let ghost all = compose::pair_texts(files@);
    let mut v: Vec<PresetSpec> = Vec::new();
    let mut i: usize = 0;
    assert(preset_views(v@) =~= file_presets(all.take(0)));
    while i < files.len()
        invariant
            i <= files@.len(),
            all == compose::pair_texts(files@),
            preset_views(v@) == file_presets(all.take(i as int)),
        decreases files@.len() - i,
    {
        assert(all.take(i + 1).drop_last() =~= all.take(i as int));
        assert(all.take(i + 1).last() == (files@[i as int].0@, files@[i as int].1@));
        match read_preset(files[i].0.as_str(), files[i].1.as_str()) {
            Some(p) => push_preset(&mut v, p),
            None => {},
        }
        i += 1;
    }
    assert(all.take(i as int) =~= all);
    sort_presets(&v)
}

/// The first preset of a name.
pub open spec fn preset_named(v: Seq<PresetView>, name: Seq<char>) -> Option<PresetView>
    decreases v.len(),
{
    if v.len() == 0 {
        None
    } else if v[0].name == name {
        Some(v[0])
    } else {
        preset_named(v.skip(1), name)
    }
}

/// The preset that a profile names; none for a blank name.
pub open spec fn profile_preset(v: Seq<PresetView>, profile: Seq<char>) -> Option<PresetView> {
    if edge::trimmed(profile).len() == 0 {
        None
    } else {
        preset_named(v, edge::trimmed(profile))
    }
}

/// The preset that a profile names.
pub fn resolve_preset<'a>(presets: &'a Vec<PresetSpec>, profile: &str) -> (r: Option<
    &'a PresetSpec,
>)
    ensures
        match r {
            Some(p) => profile_preset(preset_views(presets@), profile@) == Some(p@),
            None => profile_preset(preset_views(presets@), profile@) is None,
        },
{
    let name = edge::trim(profile);
    if name.as_str().is_empty() {
        return None;
    }
    let ghost all = preset_views(presets@);
    let mut i: usize = 0;
    assert(all.skip(0) =~= all);
    while i < presets.len()
        invariant
            i <= presets@.len(),
            all == preset_views(presets@),
            name@ == edge::trimmed(profile@),
            name@.len() > 0,
            preset_named(all, name@) == preset_named(all.skip(i as int), name@),
        decreases presets@.len() - i,
    {
        assert(all.skip(i as int)[0] == presets@[i as int]@);
        if compose::same(presets[i].name.as_str(), name.as_str()) {
            return Some(&presets[i]);
        }
        assert(all.skip(i as int).skip(1) =~= all.skip(i + 1));
        i += 1;
    }
    None
}

/// The runtime for a profile: as asked for, else as the preset of the profile says, else as
/// configured, else `llama`.
pub open spec fn runtime_for(
    flag: Option<Seq<char>>,
    configured: Option<Seq<char>>,
    profile: Option<Seq<char>>,
    presets: Seq<PresetView>,
) -> Result<Seq<char>, Seq<char>> {
    let declared = match profile {
        Some(p) => match profile_preset(presets, p) {
            Some(x) => x.runtime,
            None => None,
        },
        None => None,
    };
    match flag {
        Some(r) => if engine::runtime_named(r) is Some {
            Ok(r)
        } else {
            Err(engine::unsupported(r))
        },
        None => match declared {
            Some(r) => if engine::runtime_named(r) is Some {
                Ok(r)
            } else {
                Err(
                    "preset '"@ + profile->0 + "' declares unsupported runtime '"@ + r
                        + "' (supported: llama, mlxcel, vllm-mlx)"@,
                )
            },
            None => {
                let r = config::or_text(configured, "llama"@);
                if engine::runtime_named(r) is Some {
                    Ok(r)
                } else {
                    Err(engine::unsupported(r))
                }
            },
        },
    }
}

fn supported(runtime: String) -> (r: Result<String, Failure>)
    ensures
        match r {
            Ok(s) => engine::runtime_named(runtime@) is Some && s@ == runtime@,
            Err(e) => engine::runtime_named(runtime@) is None && e@ == engine::unsupported(
                runtime@,
            ),
        },
{
    match engine::require_runtime(runtime.as_str()) {
        Ok(_) => Ok(runtime),
        Err(e) => Err(e),
    }
}

/// The runtime for a profile.
pub fn resolve_runtime_for_profile(
    runtime_flag: Option<String>,
    configured_runtime: Option<String>,
    profile: Option<&str>,
    presets: &Vec<PresetSpec>,
) -> (r: Result<String, Failure>)
    ensures
        match r {
            Ok(s) => runtime_for(
                compose::opt_text(runtime_flag),
                compose::opt_text(configured_runtime),
                json::opt_str(profile),
                preset_views(presets@),
            ) == Ok::<Seq<char>, Seq<char>>(s@),
            Err(e) => runtime_for(
                compose::opt_text(runtime_flag),
                compose::opt_text(configured_runtime),
                json::opt_str(profile),
                preset_views(presets@),
            ) == Err::<Seq<char>, Seq<char>>(e@),
        },
{
    match runtime_flag {
        Some(r) => return supported(r),
        None => {},
    }
    match profile {
        Some(name) => match resolve_preset(presets, name) {
            Some(p) => match &p.runtime {
                Some(r) => {
                    if engine::supports_runtime(r.as_str()) {
                        return Ok(r.clone());
                    }
                    return Err(
                        failure::failed(
                            compose::concat5(
                                "preset '",
                                name,
                                "' declares unsupported runtime '",
                                r.as_str(),
                                "' (supported: llama, mlxcel, vllm-mlx)",
                            ),
                        ),
                    );
                },
                None => {},
            },
            None => {},
        },
        None => {},
    }
    let runtime = config::text_or(&configured_runtime, "llama");
    supported(runtime)
}

/// A runtime that has been resolved is always one of those that are known.
pub proof fn resolved_runtimes_are_known(
    flag: Option<Seq<char>>,
    configured: Option<Seq<char>>,
    profile: Option<Seq<char>>,
    presets: Seq<PresetView>,
)
    ensures
        runtime_for(flag, configured, profile, presets) matches Ok(r) ==> engine::runtime_named(
            r,
        ) is Some,
{
}

/// Where a model is: an absolute path as it is, one that begins with `~/` below the home
/// directory, any other below the directory of the models.
pub open spec fn model_path(
    model: Seq<char>,
    home: Option<Seq<char>>,
    model_dir: Option<Seq<char>>,
) -> Seq<char> {
    if edge::begins(model, "/"@) {
        model
    } else {
        match home {
            None => model,
            Some(h) => match edge::after_prefix(model, "~/"@) {
                Some(rest) => h + "/"@ + rest,
                None => {
                    let dir = match model_dir {
                        Some(d) => match edge::after_prefix(d, "~/"@) {
                            Some(rest) => h + "/"@ + rest,
                            None => d,
                        },
                        None => h + "/opt/models"@,
                    };
                    dir + "/"@ + model
                },
            },
        }
    }
}

/// Where a model is.
pub fn expand_model_path(model: &str, home: &Option<String>, model_dir: &Option<String>) -> (r:
    String)
    ensures
        r@ == model_path(model@, compose::opt_text(*home), compose::opt_text(*model_dir)),
{
    if edge::starts_with(model, "/") {
        return model.to_owned();
    }
    let h = match home {
        Some(h) => h.as_str(),
        None => return model.to_owned(),
    };
    match edge::strip_prefix(model, "~/") {
        Some(rest) => return compose::concat3(h, "/", rest.as_str()),
        None => {},
    }
    let dir = match model_dir {
        Some(d) => match edge::strip_prefix(d.as_str(), "~/") {
            Some(rest) => compose::concat3(h, "/", rest.as_str()),
            None => d.clone(),
        },
        None => compose::concat(h, "/opt/models"),
    };
    compose::concat3(dir.as_str(), "/", model)
}

/// The model that a server is to load, with the arguments that go with it: the preset that is
/// asked for, else the configured preset, else the name that is asked for as a model, else the
/// model of the runtime.
pub open spec fn model_for(
    s: engine::RuntimeView,
    asked: Option<Seq<char>>,
    configured: Option<Seq<char>>,
    presets: Seq<PresetView>,
) -> (Seq<char>, Seq<Seq<char>>) {
    let name = engine::nonblank(asked);
    let own = match name {
        Some(n) => profile_preset(presets, n),
        None => None,
    };
    let shared_preset = match engine::nonblank(configured) {
        Some(n) => profile_preset(presets, n),
        None => None,
    };
    match own {
        Some(p) => (p.model, p.extra),
        None => match shared_preset {
            Some(p) => (p.model, p.extra),
            None => (config::or_text(name, s.default_model_id), Seq::empty()),
        },
    }
}

/// The model that a server is to load, with the arguments that go with it.
pub fn resolve_model_id_for_runtime(
    spec_: &EngineRuntimeSpec,
    preset: &Option<String>,
    configured: &Option<String>,
    presets: &Vec<PresetSpec>,
    home: &Option<String>,
    model_dir: &Option<String>,
) -> (r: (String, Vec<String>))
    ensures
        ({
            let m = model_for(
                spec_@,
                compose::opt_text(*preset),
                compose::opt_text(*configured),
                preset_views(presets@),
            );
            &&& r.0@ == model_path(m.0, compose::opt_text(*home), compose::opt_text(*model_dir))
            &&& compose::texts(r.1@) == m.1
        }),
{
    let name = engine::keep_nonblank(preset);
    match &name {
        Some(n) => match resolve_preset(presets, n.as_str()) {
            Some(p) => return (
                expand_model_path(p.model.as_str(), home, model_dir),
                compose::copy_texts(&p.extra),
            ),
            None => {},
        },
        None => {},
    }
    match engine::keep_nonblank(configured) {
        Some(n) => match resolve_preset(presets, n.as_str()) {
            Some(p) => return (
                expand_model_path(p.model.as_str(), home, model_dir),
                compose::copy_texts(&p.extra),
            ),
            None => {},
        },
        None => {},
    }
    let model = config::text_or(&name, spec_.default_model_id);
    (expand_model_path(model.as_str(), home, model_dir), compose::no_texts())
}

/// Whether a preset is for a runtime: it says so, or it says nothing.
pub open spec fn is_for(p: PresetView, runtime: Seq<char>) -> bool {
    config::or_text(p.runtime, runtime) == runtime
}

/// The presets for a runtime.
pub open spec fn presets_for(v: Seq<PresetView>, runtime: Seq<char>) -> Seq<PresetView>
    decreases v.len(),
{
    if v.len() == 0 {
        Seq::empty()
    } else if is_for(v.last(), runtime) {
        presets_for(v.drop_last(), runtime).push(v.last())
    } else {
        presets_for(v.drop_last(), runtime)
    }
}

fn choose_presets(runtime: &str, presets: &Vec<PresetSpec>) -> (r: Vec<PresetSpec>)
    ensures
        preset_views(r@) == presets_for(preset_views(presets@), runtime@),
{
    let ghost all = preset_views(presets@);
    let mut v: Vec<PresetSpec> = Vec::new();
    let mut i: usize = 0;
    assert(preset_views(v@) =~= presets_for(all.take(0), runtime@));
    while i < presets.len()
        invariant
            i <= presets@.len(),
            all == preset_views(presets@),
            preset_views(v@) == presets_for(all.take(i as int), runtime@),
        decreases presets@.len() - i,
    {
        assert(all.take(i + 1).drop_last() =~= all.take(i as int));
        assert(all.take(i + 1).last() == presets@[i as int]@);
        let own = config::text_or(&presets[i].runtime, runtime);
        if compose::same(own.as_str(), runtime) {
            push_preset(&mut v, copy_preset(&presets[i]));
        }
        i += 1;
    }
    assert(all.take(i as int) =~= all);
    v
}

/// What a list of presets tells of one in JSON.
pub open spec fn preset_json(p: PresetView, runtime: Seq<char>) -> JsonView {
    JsonView::Object(
        seq![
            ("name"@, JsonView::Text(p.name)),
            ("model"@, JsonView::Text(p.model)),
            ("runtime"@, JsonView::Text(config::or_text(p.runtime, runtime))),
            ("extra"@, json::text_views(p.extra)),
        ],
    )
}

/// What a list of presets tells of one in JSON.
pub fn preset_payload(p: &PresetSpec, runtime: &str) -> (r: Json)
    ensures
        r@ == preset_json(p@, runtime@),
{
    let own = config::text_or(&p.runtime, runtime);
    let mut v = json::no_pairs();
    json::push_pair(&mut v, "name", json::text_value(p.name.as_str()));
    json::push_pair(&mut v, "model", json::text_value(p.model.as_str()));
    json::push_pair(&mut v, "runtime", json::text_value(own.as_str()));
    json::push_pair(&mut v, "extra", json::text_array(&p.extra));
    assert(json::pair_views(v@) =~= preset_json(p@, runtime@)->Object_0);
    json::object(v)
}

/// What a list of presets tells of one in plain text.
pub open spec fn preset_line(p: PresetView) -> Seq<char> {
    if p.extra.len() == 0 {
        p.name + "  "@ + p.model
    } else {
        p.name + "  "@ + p.model + "  ["@ + (compose::joined(p.extra, " "@) + "]"@)
    }
}

/// What a list of presets tells of one in plain text.
pub fn preset_text(p: &PresetSpec) -> (r: String)
    ensures
        r@ == preset_line(p@),
{
    assert(compose::texts(p.extra@).len() == p.extra@.len());
    if p.extra.len() == 0 {
        compose::concat3(p.name.as_str(), "  ", p.model.as_str())
    } else {
        let words = compose::join(&p.extra, " ");
        let tail = compose::concat(words.as_str(), "]");
        compose::concat5(p.name.as_str(), "  ", p.model.as_str(), "  [", tail.as_str())
    }
}

/// What is printed of presets on the output: one JSON array, or one JSON object for each.
pub open spec fn printed(v: Seq<PresetView>, runtime: Seq<char>, output: OutputFormat) -> Seq<
    Seq<char>,
> {
    match output {
        OutputFormat::Text => Seq::empty(),
        OutputFormat::Json => seq![
            json::notation(
                JsonView::Array(v.map_values(|p: PresetView| preset_json(p, runtime))),
            ),
        ],
        OutputFormat::Ndjson => v.map_values(
            |p: PresetView| json::notation(preset_json(p, runtime)),
        ),
    }
}

/// What is told of presets on the error output: a line for each, unless they are printed as JSON.
pub open spec fn told(v: Seq<PresetView>, output: OutputFormat) -> Seq<Seq<char>> {
    if output == OutputFormat::Text {
        v.map_values(|p: PresetView| preset_line(p))
    } else {
        Seq::empty()
    }
}

fn tell_presets(v: &Vec<PresetSpec>) -> (r: Vec<String>)
    ensures
        compose::texts(r@) == told(preset_views(v@), OutputFormat::Text),
{
    let ghost goal = told(preset_views(v@), OutputFormat::Text);
    let mut lines = compose::no_texts();
    let mut i: usize = 0;
    assert(goal.take(0) =~= Seq::<Seq<char>>::empty());
    while i < v.len()
        invariant
            i <= v@.len(),
            goal == told(preset_views(v@), OutputFormat::Text),
            compose::texts(lines@) == goal.take(i as int),
        decreases v@.len() - i,
    {
        assert(preset_views(v@)[i as int] == v@[i as int]@);
        compose::push_string(&mut lines, preset_text(&v[i]));
        i += 1;
        assert(compose::texts(lines@) =~= goal.take(i as int));
    }
    assert(goal.take(i as int) =~= goal);
    lines
}

fn payloads(v: &Vec<PresetSpec>, runtime: &str) -> (r: Vec<Json>)
    ensures
        json::views(r@) == preset_views(v@).map_values(
            |p: PresetView| preset_json(p, runtime@),
        ),
{
    let ghost goal = preset_views(v@).map_values(|p: PresetView| preset_json(p, runtime@));
    let mut all = json::no_values();
    let mut i: usize = 0;
    assert(goal.take(0) =~= Seq::<JsonView>::empty());
    while i < v.len()
        invariant
            i <= v@.len(),
            goal == preset_views(v@).map_values(|p: PresetView| preset_json(p, runtime@)),
            json::views(all@) == goal.take(i as int),
        decreases v@.len() - i,
    {
        assert(preset_views(v@)[i as int] == v@[i as int]@);
        json::push_value(&mut all, preset_payload(&v[i], runtime));
        i += 1;
        assert(json::views(all@) =~= goal.take(i as int));
    }
    assert(goal.take(i as int) =~= goal);
    all
}

/// What is said of the presets for a runtime, or the message that it is not known.
pub fn presets_for_runtime(runtime: &str, presets: &Vec<PresetSpec>, output: OutputFormat) -> (r:
    Result<Said, Failure>)
    ensures
        match r {
            Ok(s) => {
                let own = presets_for(preset_views(presets@), runtime@);
                &&& engine::runtime_named(runtime@) is Some
                &&& compose::texts(s.out@) == printed(own, runtime@, output)
                &&& compose::texts(s.err@) == told(own, output)
            },
            Err(e) => engine::runtime_named(runtime@) is None && e@ == engine::unsupported(
                runtime@,
            ),
        },
{
    match engine::require_runtime(runtime) {
        Ok(_) => {},
        Err(e) => return Err(e),
    }
    let own = choose_presets(runtime, presets);
    let ghost views = presets_for(preset_views(presets@), runtime@);
    let said = match output {
        OutputFormat::Text => Said { err: tell_presets(&own), out: compose::no_texts() },
        OutputFormat::Json => {
            let line = json::write(&json::array(payloads(&own, runtime)));
            Said { err: compose::no_texts(), out: compose::list1(line.as_str()) }
        },
        OutputFormat::Ndjson => {
            let all = payloads(&own, runtime);
            let ghost goal = printed(views, runtime@, output);
            let mut out = compose::no_texts();
            let mut i: usize = 0;
            assert(json::views(all@).len() == all@.len());
            assert(goal.take(0) =~= Seq::<Seq<char>>::empty());
            while i < all.len()
                invariant
                    i <= all@.len(),
                    goal.len() == all@.len(),
                    forall|k: int|
                        0 <= k < goal.len() ==> #[trigger] goal[k] == json::notation(
                            json::views(all@)[k],
                        ),
                    compose::texts(out@) == goal.take(i as int),
                decreases all@.len() - i,
            {
                assert(json::views(all@)[i as int] == all@[i as int]@);
                compose::push_string(&mut out, json::write(&all[i]));
                i += 1;
                assert(compose::texts(out@) =~= goal.take(i as int));
            }
            assert(goal.take(i as int) =~= goal);
            Said { err: compose::no_texts(), out }
        },
    };
    Ok(said)
}

proof fn lemma_preset_named(v: Seq<PresetView>, i: int)
    requires
        0 <= i < v.len(),
        forall|j: int| 0 <= j < i ==> (#[trigger] v[j]).name != v[i].name,
    ensures
        preset_named(v, v[i].name) == Some(v[i]),
    decreases i,
{
    if i > 0 {
        let w = v.skip(1);
        assert(v[0].name != v[i].name);
        assert forall|j: int| 0 <= j < i - 1 implies (#[trigger] w[j]).name != w[i - 1].name by {
            assert(w[j] == v[j + 1]);
        }
        lemma_preset_named(w, i - 1);
    }
}

/// A preset that is asked for by name is served with its own model and its own arguments, whatever
/// is configured and whichever runtime serves it.
pub proof fn presets_are_honoured(
    s: engine::RuntimeView,
    asked: Seq<char>,
    configured: Option<Seq<char>>,
    presets: Seq<PresetView>,
    i: int,
)
    requires
        0 <= i < presets.len(),
        presets[i].name == edge::trimmed(asked),
        presets[i].name.len() > 0,
        forall|j: int| 0 <= j < i ==> (#[trigger] presets[j]).name != presets[i].name,
    ensures
        model_for(s, Some(asked), configured, presets).0 == presets[i].model,
        model_for(s, Some(asked), configured, presets).1 == presets[i].extra,
{
    lemma_preset_named(presets, i);
    edge::trimming_is_complete(asked, Class::Blank);
    let t = edge::trimmed(asked);
    assert(edge::left_trimmed(t, Class::Blank) == t);
    assert(edge::right_trimmed(t, Class::Blank) == t);
}

/// A model with a relative path is looked for below the directory of the models, and one below `~/`
/// in the home directory.
pub proof fn models_are_found_below(model: Seq<char>, home: Seq<char>, dir: Seq<char>)
    requires
        !edge::begins(model, "/"@),
        !edge::begins(model, "~/"@),
        !edge::begins(dir, "~/"@),
    ensures
        path::directory(model_path(model, Some(home), Some(dir))) == path::directory(dir)
            + path::directory(model),
        path::directory(model_path("~/"@ + model, Some(home), Some(dir))) == path::directory(home)
            + path::directory(model),
{
    reveal_strlit("/");
    reveal_strlit("~/");
    assert(dir + "/"@ + model =~= dir.push('/') + model);
    path::slashes_lead_down(dir, model);
    let m = "~/"@ + model;
    assert(m.subrange(0, 2) =~= "~/"@);
    assert(m.skip(2) =~= model);
    if edge::begins(m, "/"@) {
        assert(m.subrange(0, 1)[0] == m[0]);
    }
    assert(home + "/"@ + model =~= home.push('/') + model);
    path::slashes_lead_down(home, model);
}

/// What a list of presets tells of one in JSON is its name, its model, its runtime and its
/// arguments, each under its own name.
pub proof fn preset_payloads_tell(p: PresetView, runtime: Seq<char>)
    ensures
        ({
            let j = preset_json(p, runtime);
            &&& j.text_at("name"@) == Some(p.name)
            &&& j.text_at("model"@) == Some(p.model)
            &&& p.runtime matches Some(r) ==> j.text_at("runtime"@) == Some(r)
            &&& p.runtime is None ==> j.text_at("runtime"@) == Some(runtime)
            &&& j.field("extra"@) == Some(json::text_views(p.extra))
        }),
{
    let o = preset_json(p, runtime)->Object_0;
    reveal_strlit("name");
    reveal_strlit("model");
    reveal_strlit("runtime");
    reveal_strlit("extra");
    assert("name"@.len() == 4 && "model"@.len() == 5 && "runtime"@.len() == 7);
    assert("extra"@.len() == 5 && "model"@[0] == 'm' && "extra"@[0] == 'e');
    json::lookups_find(o, 0);
    json::lookups_find(o, 1);
    json::lookups_find(o, 2);
    json::lookups_find(o, 3);
}

} // verus!
