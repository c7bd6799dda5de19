use crate::config;
use crate::failure;
use crate::failure::Failure;
use crate::json;
use crate::json::{Json, JsonView};
use crate::sandbox::types;
use crate::sandbox::types::Alphabet;
use crate::text::{compose, edge, number};
use vstd::prelude::*;
use vstd::utf8;

verus! {

/// The most bytes that the value of a variable can have.
pub const MAX_ENV_VALUE_LEN: u64 = 4096;

/// The variable that a text `KEY=VALUE` sets, or what is wrong with it.
pub open spec fn explicit_env(input: Seq<char>) -> Result<(Seq<char>, Seq<char>), Seq<char>> {
    match edge::cut(input, '=') {
        None => Err("invalid --env value '"@ + input + "': expected KEY=VALUE"@),
        Some((key, value)) => if key.len() == 0 {
            Err("invalid --env value '"@ + input + "': key cannot be empty"@)
        } else if !types::written_in(key, Alphabet::Variable) {
            Err("invalid --env key '"@ + key + "': use [A-Za-z0-9_] only"@)
        } else if types::has_control(value) {
            Err("invalid --env value for '"@ + key + "': contains control characters"@)
        } else if utf8::encode_utf8(value).len() > MAX_ENV_VALUE_LEN {
            Err(
                "invalid --env value for '"@ + key + "': exceeds "@ + number::decimal(4096)
                    + " bytes (got "@ + number::decimal(utf8::encode_utf8(value).len()) + ")"@,
            )
        } else {
            Ok((key, value))
        },
    }
}

/// Reads a variable from a text `KEY=VALUE`.
pub fn parse_explicit_env(input: &str) -> (r: Result<(String, String), Failure>)
    ensures
        match r {
            Ok(p) => explicit_env(input@) == Ok::<(Seq<char>, Seq<char>), Seq<char>>(
                (p.0@, p.1@),
            ),
            Err(e) => explicit_env(input@) == Err::<(Seq<char>, Seq<char>), Seq<char>>(e@),
        },
{
    let (key, value) = match edge::split_once(input, '=') {
        Some(p) => p,
        None => return Err(
            failure::failed(
                compose::concat3("invalid --env value '", input, "': expected KEY=VALUE"),
            ),
        ),
    };
    if key.as_str().is_empty() {
        return Err(
            failure::failed(
                compose::concat3("invalid --env value '", input, "': key cannot be empty"),
            ),
        );
    }
    if !types::is_written_in(key.as_str(), Alphabet::Variable) {
        return Err(
            failure::failed(
                compose::concat3(
                    "invalid --env key '",
                    key.as_str(),
                    "': use [A-Za-z0-9_] only",
                ),
            ),
        );
    }
    if types::contains_control(value.as_str()) {
        return Err(
            failure::failed(
                compose::concat3(
                    "invalid --env value for '",
                    key.as_str(),
                    "': contains control characters",
                ),
            ),
        );
    }
    let size: u64 = value.as_str().as_bytes().len() as u64;
    if size > MAX_ENV_VALUE_LEN {
        let limit = number::to_decimal(MAX_ENV_VALUE_LEN);
        let got = number::to_decimal(size);
        let m = compose::concat4(
            "invalid --env value for '",
            key.as_str(),
            "': exceeds ",
            limit.as_str(),
        );
        let tail = compose::concat4(m.as_str(), " bytes (got ", got.as_str(), ")");
        return Err(failure::failed(tail));
    }
    Ok((key, value))
}

/// Reads variables from texts `KEY=VALUE`; the first text that cannot be read decides.
pub open spec fn explicit_envs(inputs: Seq<Seq<char>>) -> Result<
    Seq<(Seq<char>, Seq<char>)>,
    Seq<char>,
>
    decreases inputs.len(),
{
    if inputs.len() == 0 {
        Ok(Seq::empty())
    } else {
        match explicit_envs(inputs.drop_last()) {
            Err(e) => Err(e),
            Ok(earlier) => match explicit_env(inputs.last()) {
                Err(e) => Err(e),
                Ok(p) => Ok(earlier.push(p)),
            },
        }
    }
}

proof fn lemma_first_fault_stays(inputs: Seq<Seq<char>>, n: int)
    requires
        0 <= n <= inputs.len(),
        explicit_envs(inputs.take(n)) is Err,
    ensures
        explicit_envs(inputs) == explicit_envs(inputs.take(n)),
    decreases inputs.len() - n,
{
    if n < inputs.len() {
        assert(inputs.take(n + 1).drop_last() =~= inputs.take(n));
        lemma_first_fault_stays(inputs, n + 1);
    } else {
        assert(inputs.take(n) =~= inputs);
    }
}

/// The first text that cannot be read decides what is told of all.
pub proof fn first_bad_text_decides(inputs: Seq<Seq<char>>, i: int)
    requires
        0 <= i < inputs.len(),
        explicit_env(inputs[i]) is Err,
        forall|j: int| 0 <= j < i ==> (#[trigger] explicit_env(inputs[j])) is Ok,
    ensures
        explicit_envs(inputs) == Err::<Seq<(Seq<char>, Seq<char>)>, Seq<char>>(
            explicit_env(inputs[i])->Err_0,
        ),
{
    lemma_good_texts(inputs, i);
    assert(inputs.take(i + 1).drop_last() =~= inputs.take(i));
    assert(inputs.take(i + 1).last() == inputs[i]);
    lemma_first_fault_stays(inputs, i + 1);
}

proof fn lemma_good_texts(inputs: Seq<Seq<char>>, n: int)
    requires
        0 <= n <= inputs.len(),
        forall|j: int| 0 <= j < n ==> (#[trigger] explicit_env(inputs[j])) is Ok,
    ensures
        explicit_envs(inputs.take(n)) is Ok,
    decreases n,
{
    if n > 0 {
        lemma_good_texts(inputs, n - 1);
        assert(inputs.take(n).drop_last() =~= inputs.take(n - 1));
        assert(inputs.take(n).last() == inputs[n - 1]);
        assert(explicit_env(inputs[n - 1]) is Ok);
    }
}

/// Adds a pair of texts to a list.
pub fn push_env(v: &mut Vec<(String, String)>, key: &str, value: &str)
    ensures
        compose::pair_texts(final(v)@) == compose::pair_texts(old(v)@).push((key@, value@)),
{
    let ghost before = v@;
    v.push((key.to_owned(), value.to_owned()));
    assert(compose::pair_texts(v@) =~= compose::pair_texts(before).push((key@, value@)));
}

/// No pairs of texts.
pub fn no_envs() -> (r: Vec<(String, String)>)
    ensures
        compose::pair_texts(r@) == Seq::<(Seq<char>, Seq<char>)>::empty(),
{
    let r: Vec<(String, String)> = Vec::new();
    assert(compose::pair_texts(r@) =~= Seq::<(Seq<char>, Seq<char>)>::empty());
    r
}

/// Reads variables from texts `KEY=VALUE`.
pub fn parse_explicit_envs(inputs: &Vec<String>) -> (r: Result<Vec<(String, String)>, Failure>)
    ensures
        match r {
            Ok(v) => explicit_envs(compose::texts(inputs@)) == Ok::<
                Seq<(Seq<char>, Seq<char>)>,
                Seq<char>,
            >(compose::pair_texts(v@)),
            Err(e) => explicit_envs(compose::texts(inputs@)) == Err::<
                Seq<(Seq<char>, Seq<char>)>,
                Seq<char>,
            >(e@),
        },
{
    let ghost all = compose::texts(inputs@);
    let mut v = no_envs();
    let mut i: usize = 0;
    while i < inputs.len()
        invariant
            i <= inputs@.len(),
            all == compose::texts(inputs@),
            explicit_envs(all.take(i as int)) == Ok::<Seq<(Seq<char>, Seq<char>)>, Seq<char>>(
                compose::pair_texts(v@),
            ),
        decreases inputs@.len() - i,
    {
        assert(all.take(i + 1).drop_last() =~= all.take(i as int));
        assert(all.take(i + 1).last() == inputs@[i as int]@);
        match parse_explicit_env(inputs[i].as_str()) {
            Ok(p) => push_env(&mut v, p.0.as_str(), p.1.as_str()),
            Err(e) => {
                proof {
                    lemma_first_fault_stays(all, i + 1);
                }
                return Err(e);
            },
        }
        i += 1;
    }
    assert(all.take(i as int) =~= all);
    Ok(v)
}

/// A variable that has been read can be written again: its key has no `=`, and the text was
/// the key, an `=` and the value.
pub proof fn explicit_env_is_faithful(input: Seq<char>)
    ensures
        explicit_env(input) matches Ok(p) ==> input == p.0.push('=') + p.1 && !p.0.contains('=')
            && !types::has_control(p.1),
{
    edge::cutting_loses_nothing(input, '=');
}

/// The clock of the machine.
#[verifier::external_type_specification]
#[verifier::external_body]
pub struct ExSystemTime(std::time::SystemTime);

/// The whole seconds from the beginning of 1970 to a moment; none for an earlier moment.
pub uninterp spec fn epoch_seconds(t: std::time::SystemTime) -> Option<u64>;

/// Calls `SystemTime::now`. Nothing is claimed of the moment.
#[verifier::external_body]
fn clock() -> std::time::SystemTime {
    std::time::SystemTime::now()
}

/// Calls `SystemTime::duration_since` for the beginning of 1970 and takes the whole seconds.
/// Claimed: the answer depends on the moment alone.
#[verifier::external_body]
fn seconds_since_epoch(t: std::time::SystemTime) -> (r: Option<u64>)
    ensures
        r == epoch_seconds(t),
{
    t.duration_since(std::time::UNIX_EPOCH).ok().map(|d| d.as_secs())
}

/// A number of seconds as a time stamp; zero if there is none.
pub fn unix_seconds(seconds: Option<u64>) -> (r: i64)
    ensures
        r == (match seconds {
            Some(s) => s as i64,
            None => 0,
        }),
        seconds matches Some(s) ==> (s <= i64::MAX ==> r == s),
{
    match seconds {
        Some(s) => s as i64,
        None => 0,
    }
}

/// The time stamp of this moment: the whole seconds from the beginning of 1970, and zero if the
/// clock stands before that. Nothing is stated of which moment it is.
pub fn now_unix_seconds() -> (r: i64)
    ensures
        exists|t: std::time::SystemTime| r == (match #[trigger] epoch_seconds(t) {
            Some(s) => s as i64,
            None => 0,
        }),
{
    let t = clock();
    unix_seconds(seconds_since_epoch(t))
}

/// The value that the last pair with a key holds.
pub open spec fn last_value(envs: Seq<(Seq<char>, Seq<char>)>, key: Seq<char>) -> Option<Seq<char>>
    decreases envs.len(),
{
    if envs.len() == 0 {
        None
    } else if envs.last().0 == key {
        Some(envs.last().1)
    } else {
        last_value(envs.drop_last(), key)
    }
}

/// The value that the last pair with a key holds.
pub fn find_value(envs: &Vec<(String, String)>, key: &str) -> (r: Option<String>)
    ensures
        compose::opt_text(r) == last_value(compose::pair_texts(envs@), key@),
{
    let ghost all = compose::pair_texts(envs@);
    let mut i: usize = envs.len();
    assert(all.take(i as int) =~= all);
    while i > 0
        invariant
            i <= envs@.len(),
            all == compose::pair_texts(envs@),
            last_value(all, key@) == last_value(all.take(i as int), key@),
        decreases i,
    {
        assert(all.take(i as int).last() == (envs@[i - 1].0@, envs@[i - 1].1@));
        assert(all.take(i as int).drop_last() =~= all.take(i - 1));
        if compose::same(envs[i - 1].0.as_str(), key) {
            return Some(envs[i - 1].1.clone());
        }
        i -= 1;
    }
    None
}

/// A pair of an object, if the value is there.
pub open spec fn pair_if(key: Seq<char>, value: Option<Seq<char>>) -> Seq<(Seq<char>, JsonView)> {
    match value {
        Some(v) => seq![(key, JsonView::Text(v))],
        None => Seq::empty(),
    }
}

/// What a log tells of the environment of a session: where inference runs, and nothing else.
pub open spec fn env_summary(envs: Seq<(Seq<char>, Seq<char>)>) -> JsonView {
    JsonView::Object(
        pair_if("TNK_ENGINE_RUNTIME"@, last_value(envs, "TNK_ENGINE_RUNTIME"@)) + pair_if(
            "TNK_INFERENCE_URL"@,
            last_value(envs, "TNK_INFERENCE_URL"@),
        ) + pair_if("TNK_MODEL_NAME"@, last_value(envs, "TNK_MODEL_NAME"@)),
    )
}

fn push_if(v: &mut Vec<(String, Json)>, key: &str, value: Option<String>)
    ensures
        json::pair_views(final(v)@) == json::pair_views(old(v)@) + pair_if(
            key@,
            compose::opt_text(value),
        ),
{
    let ghost before = json::pair_views(v@);
    match value {
        Some(s) => {
            json::push_pair(v, key, json::text_value(s.as_str()));
            assert(json::pair_views(v@) =~= before + pair_if(key@, Some(s@)));
        },
        None => {
            assert(before =~= before + pair_if(key@, None));
        },
    }
}

/// What a log tells of the environment of a session.
pub fn runtime_env_summary(envs: &Vec<(String, String)>) -> (r: Json)
    ensures
        r@ == env_summary(compose::pair_texts(envs@)),
{
    let mut v = json::no_pairs();
    push_if(&mut v, "TNK_ENGINE_RUNTIME", find_value(envs, "TNK_ENGINE_RUNTIME"));
    push_if(&mut v, "TNK_INFERENCE_URL", find_value(envs, "TNK_INFERENCE_URL"));
    push_if(&mut v, "TNK_MODEL_NAME", find_value(envs, "TNK_MODEL_NAME"));
    assert(json::pair_views(v@) =~= env_summary(compose::pair_texts(envs@))->Object_0);
    json::object(v)
}

/// A log never tells a variable that is not about inference.
pub proof fn summaries_keep_secrets(envs: Seq<(Seq<char>, Seq<char>)>, key: Seq<char>)
    requires
        key != "TNK_ENGINE_RUNTIME"@,
        key != "TNK_INFERENCE_URL"@,
        key != "TNK_MODEL_NAME"@,
    ensures
        env_summary(envs).field(key) is None,
{
    let pairs = env_summary(envs)->Object_0;
    assert forall|i: int| 0 <= i < pairs.len() implies (#[trigger] pairs[i]).0 != key by {}
    lemma_absent(pairs, key);
}

proof fn lemma_absent(pairs: Seq<(Seq<char>, JsonView)>, key: Seq<char>)
    requires
        forall|i: int| 0 <= i < pairs.len() ==> (#[trigger] pairs[i]).0 != key,
    ensures
        json::lookup(pairs, key) is None,
    decreases pairs.len(),
{
    if pairs.len() > 0 {
        assert(pairs[0].0 != key);
        assert forall|i: int| 0 <= i < pairs.skip(1).len() implies (#[trigger] pairs.skip(1)[i]).0
            != key by {
            assert(pairs.skip(1)[i] == pairs[i + 1]);
        }
        lemma_absent(pairs.skip(1), key);
    }
}

/// The model that sandboxes are told of: the configured one, trimmed, if it has the form of a
/// model name.
pub open spec fn active_model(configured: Option<Seq<char>>, engine: Seq<char>) -> Result<
    Seq<char>,
    Seq<char>,
> {
    let missing = "engine runtime '"@ + engine
        + "' has no model configured; set default_model in tnk.toml"@;
    match configured {
        None => Err(missing),
        Some(m) => {
            let t = edge::trimmed(m);
            if t.len() == 0 {
                Err(missing)
            } else {
                match types::name_fault(t, "model name"@, Alphabet::Model) {
                    Some(e) => Err(e),
                    None => Ok(t),
                }
            }
        },
    }
}

/// The model that sandboxes are told of, with its context window: the configured one, else the
/// usual one.
pub fn resolve_active_model_and_ctx_impl(
    default_model: &Option<String>,
    default_context_window: Option<u32>,
    engine_name: &str,
) -> (r: Result<(String, u32), Failure>)
    ensures
        match r {
            Ok(p) => active_model(compose::opt_text(*default_model), engine_name@) == Ok::<
                Seq<char>,
                Seq<char>,
            >(p.0@) && p.1 == config::window_in_force(default_context_window),
            Err(e) => active_model(compose::opt_text(*default_model), engine_name@) == Err::<
                Seq<char>,
                Seq<char>,
            >(e@),
        },
{
    let model = match default_model {
        Some(m) => edge::trim(m.as_str()),
        None => String::new(),
    };
    if model.as_str().is_empty() {
        return Err(
            failure::failed(
                compose::concat3(
                    "engine runtime '",
                    engine_name,
                    "' has no model configured; set default_model in tnk.toml",
                ),
            ),
        );
    }
    match types::validate_model_name(model.as_str()) {
        Ok(_) => Ok((model, config::context_window(default_context_window))),
        Err(e) => Err(e),
    }
}

/// What a log tells of the environment of a session holds each variable under its own name, with the
/// value that is in force.
pub proof fn summaries_tell_what_is_in_force(envs: Seq<(Seq<char>, Seq<char>)>)
    ensures
        env_summary(envs).text_at("TNK_ENGINE_RUNTIME"@) == last_value(
            envs,
            "TNK_ENGINE_RUNTIME"@,
        ),
        env_summary(envs).text_at("TNK_INFERENCE_URL"@) == last_value(envs, "TNK_INFERENCE_URL"@),
        env_summary(envs).text_at("TNK_MODEL_NAME"@) == last_value(envs, "TNK_MODEL_NAME"@),
{
    let a = pair_if("TNK_ENGINE_RUNTIME"@, last_value(envs, "TNK_ENGINE_RUNTIME"@));
    let b = pair_if("TNK_INFERENCE_URL"@, last_value(envs, "TNK_INFERENCE_URL"@));
    let c = pair_if("TNK_MODEL_NAME"@, last_value(envs, "TNK_MODEL_NAME"@));
    let all = a + b + c;
    reveal_strlit("TNK_ENGINE_RUNTIME");
    reveal_strlit("TNK_INFERENCE_URL");
    reveal_strlit("TNK_MODEL_NAME");
    assert("TNK_ENGINE_RUNTIME"@.len() == 18 && "TNK_INFERENCE_URL"@.len() == 17);
    assert("TNK_MODEL_NAME"@.len() == 14);
    if a.len() > 0 {
        json::lookups_find(all, 0);
    } else {
        lemma_absent(all, "TNK_ENGINE_RUNTIME"@);
    }
    if b.len() > 0 {
        json::lookups_find(all, a.len() as int);
    } else {
        lemma_absent(all, "TNK_INFERENCE_URL"@);
    }
    if c.len() > 0 {
        json::lookups_find(all, (a.len() + b.len()) as int);
    } else {
        lemma_absent(all, "TNK_MODEL_NAME"@);
    }
}

} // verus!
