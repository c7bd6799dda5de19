use crate::config;
use crate::failure;
use crate::failure::Failure;
use crate::json;
use crate::json::{Json, JsonView};
use crate::text::{compose, number};
use crate::ui;
use vstd::prelude::*;

verus! {

/// The number that a JSON value stands for, if it fits into 32 bits.
pub open spec fn as_number(v: JsonView) -> Option<nat> {
    match v {
        JsonView::Unsigned(n) => if n <= u32::MAX {
            Some(n as nat)
        } else {
            None
        },
        JsonView::Text(s) => number::number(s, u32::MAX as nat),
        _ => None,
    }
}

/// A number as a mathematical one.
pub open spec fn opt_nat(o: Option<u32>) -> Option<nat> {
    match o {
        Some(n) => Some(n as nat),
        None => None,
    }
}

/// The number that a JSON value stands for: a whole number or a text of digits.
pub fn value_as_u32(value: &Json) -> (r: Option<u32>)
    ensures
        opt_nat(r) == as_number(value@),
{
    match value {
        Json::Unsigned(n) => if *n <= u32::MAX as u64 {
            Some(*n as u32)
        } else {
            None
        },
        Json::Text(s) => match number::parse_unsigned(s.as_str(), u32::MAX as u64) {
            Some(n) => Some(n as u32),
            None => None,
        },
        _ => None,
    }
}

/// The first of some keys under which a value holds a number.
pub open spec fn first_number(item: JsonView, keys: Seq<Seq<char>>) -> Option<nat>
    decreases keys.len(),
{
    if keys.len() == 0 {
        None
    } else {
        let here = match item.field(keys[0]) {
            Some(v) => as_number(v),
            None => None,
        };
        match here {
            Some(n) => Some(n),
            None => first_number(item, keys.skip(1)),
        }
    }
}

fn find_number(item: &Json, keys: &Vec<String>) -> (r: Option<u32>)
    ensures
        opt_nat(r) == first_number(item@, compose::texts(keys@)),
{
    let ghost all = compose::texts(keys@);
    let mut i: usize = 0;
    assert(all.skip(0) =~= all);
    while i < keys.len()
        invariant
            i <= keys@.len(),
            all == compose::texts(keys@),
            first_number(item@, all) == first_number(item@, all.skip(i as int)),
        decreases keys@.len() - i,
    {
        assert(all.skip(i as int)[0] == keys@[i as int]@);
        match item.field(keys[i].as_str()) {
            Some(v) => match value_as_u32(v) {
                Some(n) => return Some(n),
                None => {},
            },
            None => {},
        }
        assert(all.skip(i as int).skip(1) =~= all.skip(i + 1));
        i += 1;
    }
    None
}

/// The number that a part of a value holds under the first of some keys.
pub open spec fn number_in(item: JsonView, part: Seq<char>, keys: Seq<Seq<char>>) -> Option<nat> {
    match item.field(part) {
        Some(v) => first_number(v, keys),
        None => None,
    }
}

fn find_number_in(item: &Json, part: &str, keys: &Vec<String>) -> (r: Option<u32>)
    ensures
        opt_nat(r) == number_in(item@, part@, compose::texts(keys@)),
{
    match item.field(part) {
        Some(v) => find_number(v, keys),
        None => None,
    }
}

/// The context window that the description of a model tells: by the first of the names that
/// servers give it.
pub open spec fn ctx_window(item: JsonView) -> Option<nat> {
    match first_number(
        item,
        seq![
            "context_window"@,
            "context_length"@,
            "max_context_length"@,
            "input_token_limit"@,
            "max_input_tokens"@,
            "n_ctx"@,
        ],
    ) {
        Some(n) => Some(n),
        None => match number_in(
            item,
            "meta"@,
            seq!["n_ctx"@, "context_window"@, "context_length"@, "max_context_length"@],
        ) {
            Some(n) => Some(n),
            None => match number_in(item, "limits"@, seq!["context"@, "input"@]) {
                Some(n) => Some(n),
                None => number_in(
                    item,
                    "capabilities"@,
                    seq!["context_window"@, "max_context_length"@, "input_token_limit"@],
                ),
            },
        },
    }
}

/// The context window that the description of a model tells.
pub fn extract_ctx_window(item: &Json) -> (r: Option<u32>)
    ensures
        opt_nat(r) == ctx_window(item@),
{
    let own = compose::list6(
        "context_window",
        "context_length",
        "max_context_length",
        "input_token_limit",
        "max_input_tokens",
        "n_ctx",
    );
    match find_number(item, &own) {
        Some(n) => return Some(n),
        None => {},
    }
    let meta = compose::list4("n_ctx", "context_window", "context_length", "max_context_length");
    match find_number_in(item, "meta", &meta) {
        Some(n) => return Some(n),
        None => {},
    }
    let limits = compose::list2("context", "input");
    match find_number_in(item, "limits", &limits) {
        Some(n) => return Some(n),
        None => {},
    }
    let caps = compose::list3("context_window", "max_context_length", "input_token_limit");
    find_number_in(item, "capabilities", &caps)
}

/// The context window of the first of some descriptions that tells one.
pub open spec fn first_ctx(items: Seq<JsonView>) -> Option<nat>
    decreases items.len(),
{
    if items.len() == 0 {
        None
    } else {
        match ctx_window(items[0]) {
            Some(n) => Some(n),
            None => first_ctx(items.skip(1)),
        }
    }
}

/// The models that the answer of a server describes.
pub open spec fn described(answer: JsonView) -> Seq<JsonView> {
    match answer.field("data"@) {
        Some(JsonView::Array(v)) => v,
        _ => Seq::empty(),
    }
}

/// The context window that the answer of a server tells: that of the first model that tells one,
/// else that of the answer itself, else the default.
pub open spec fn answered_ctx(answer: JsonView) -> nat {
    match first_ctx(described(answer)) {
        Some(n) => n,
        None => match ctx_window(answer) {
            Some(n) => n,
            None => config::DEFAULT_CONTEXT_WINDOW as nat,
        },
    }
}

fn models(answer: &Json) -> (r: Option<&Vec<Json>>)
    ensures
        match r {
            Some(v) => described(answer@) == json::views(v@),
            None => described(answer@).len() == 0,
        },
{
    match answer.field("data") {
        Some(d) => d.as_array(),
        None => None,
    }
}

/// The context window that the answer of a server tells.
pub fn ctx_window_of(answer: &Json) -> (r: u32)
    ensures
        r == answered_ctx(answer@),
{
    match models(answer) {
        Some(items) => {
            let ghost all = json::views(items@);
            let mut i: usize = 0;
            assert(all.skip(0) =~= all);
            while i < items.len()
                invariant
                    i <= items@.len(),
                    all == json::views(items@),
                    described(answer@) == all,
                    first_ctx(all) == first_ctx(all.skip(i as int)),
                decreases items@.len() - i,
            {
                assert(all.skip(i as int)[0] == items@[i as int]@);
                match extract_ctx_window(&items[i]) {
                    Some(n) => return n,
                    None => {},
                }
                assert(all.skip(i as int).skip(1) =~= all.skip(i + 1));
                i += 1;
            }
        },
        None => {},
    }
    match extract_ctx_window(answer) {
        Some(n) => n,
        None => config::DEFAULT_CONTEXT_WINDOW,
    }
}

/// The context window that the body of a server's answer tells; nothing if it is no JSON.
pub fn get_ctx_window(body: &Vec<u8>) -> (r: Option<u32>)
    ensures
        match json::document(body@) {
            Some(answer) => r is Some && r->0 == answered_ctx(answer),
            None => r is None,
        },
{
    match json::read(body) {
        Some(answer) => Some(ctx_window_of(&answer)),
        None => None,
    }
}

/// The name of the first of some models that has one.
pub open spec fn first_name(items: Seq<JsonView>) -> Option<Seq<char>>
    decreases items.len(),
{
    if items.len() == 0 {
        None
    } else {
        match items[0].text_at("id"@) {
            Some(s) => if s.len() > 0 {
                Some(s)
            } else {
                first_name(items.skip(1))
            },
            None => first_name(items.skip(1)),
        }
    }
}

/// The model that a server has loaded.
pub fn loaded_model(answer: &Json) -> (r: Option<String>)
    ensures
        compose::opt_text(r) == first_name(described(answer@)),
{
    match models(answer) {
        Some(items) => {
            let ghost all = json::views(items@);
            let mut i: usize = 0;
            assert(all.skip(0) =~= all);
            while i < items.len()
                invariant
                    i <= items@.len(),
                    all == json::views(items@),
                    described(answer@) == all,
                    first_name(all) == first_name(all.skip(i as int)),
                decreases items@.len() - i,
            {
                assert(all.skip(i as int)[0] == items@[i as int]@);
                match items[i].text_at("id") {
                    Some(s) => if !s.is_empty() {
                        return Some(s.to_owned());
                    },
                    None => {},
                }
                assert(all.skip(i as int).skip(1) =~= all.skip(i + 1));
                i += 1;
            }
            None
        },
        None => None,
    }
}

/// Where a server tells its models.
pub fn models_url(host: &str, port: u16) -> (r: String)
    ensures
        r@ == "http://"@ + host@ + ":"@ + number::decimal(port as nat) + "/v1/models"@,
{
    let digits = number::to_decimal(port as u64);
    compose::concat5("http://", host, ":", digits.as_str(), "/v1/models")
}

/// Where a server tells that it is well.
pub fn health_url(host: &str, port: u16) -> (r: String)
    ensures
        r@ == "http://"@ + host@ + ":"@ + number::decimal(port as nat) + "/health"@,
{
    let digits = number::to_decimal(port as u64);
    compose::concat5("http://", host, ":", digits.as_str(), "/health")
}

/// What came of asking a server for its models.
pub enum Answer {
    /// It could not be asked, for this reason.
    Failed(String),
    /// It said something that is no JSON.
    NotJson,
    /// It said this.
    Said(Json),
}

/// How far the search for the loaded model has come.
pub struct Poll {
    /// How often the server said something that is no JSON.
    pub json_failures: u32,
    /// The last kind of content that it named.
    pub content_type: String,
}

/// What follows from an answer.
pub enum PollStep {
    /// The model is found.
    Found(String),
    /// Another attempt is to be made; the line, if any, is said first.
    Again(Option<String>),
}

impl Poll {
    /// Nothing has been asked yet.
    pub fn start() -> (r: Poll)
        ensures
            r.json_failures == 0,
            r.content_type@ == "unknown"@,
    {
        Poll { json_failures: 0, content_type: "unknown".to_owned() }
    }

    /// The line that follows an answer without a model. It is left out when the program is quiet.
    pub open spec fn note(self, answer: Answer, i: u32, max: u32) -> Option<Seq<char>> {
        match answer {
            Answer::Failed(e) => Some(
                ui::warning(
                    "request failed (attempt "@ + number::decimal(i as nat) + "/"@
                        + number::decimal(max as nat) + "): "@ + e@,
                ),
            ),
            Answer::NotJson => if self.json_failures + 1 >= 3 {
                Some(
                    ui::warning(
                        "non-JSON response (content-type: "@ + self.content_type@ + ") on "@
                            + number::decimal((self.json_failures + 1) as nat)
                            + " consecutive attempts"@,
                    ),
                )
            } else {
                None
            },
            Answer::Said(_) => if i % 5 == 0 {
                Some(
                    ui::info(
                        "waiting for loaded model ("@ + number::decimal(i as nat) + "/"@
                            + number::decimal(max as nat) + ")"@,
                    ),
                )
            } else {
                None
            },
        }
    }

    /// Takes in the answer to the attempt `i` of `max`.
    pub fn take(&mut self, answer: &Answer, i: u32, max: u32) -> (r: PollStep)
        requires
            old(self).json_failures < u32::MAX,
        ensures
            final(self).content_type@ == old(self).content_type@,
            final(self).json_failures == old(self).json_failures + (if *answer is NotJson {
                1int
            } else {
                0int
            }),
            match r {
                PollStep::Found(m) => *answer matches Answer::Said(j) && first_name(described(j@))
                    == Some(m@),
                PollStep::Again(line) => {
                    &&& *answer matches Answer::Said(j) ==> first_name(described(j@)) is None
                    &&& compose::opt_text(line) == old(self).note(*answer, i, max)
                },
            },
    {
        let at = number::to_decimal(i as u64);
        let of = number::to_decimal(max as u64);
        match answer {
            Answer::Failed(e) => {
                let what = compose::concat5(
                    "request failed (attempt ",
                    at.as_str(),
                    "/",
                    of.as_str(),
                    "): ",
                );
                let text = compose::concat(what.as_str(), e.as_str());
                PollStep::Again(Some(compose::concat("warning: ", text.as_str())))
            },
            Answer::NotJson => {
                self.json_failures = self.json_failures + 1;
                if self.json_failures >= 3 {
                    let n = number::to_decimal(self.json_failures as u64);
                    let text = compose::concat5(
                        "non-JSON response (content-type: ",
                        self.content_type.as_str(),
                        ") on ",
                        n.as_str(),
                        " consecutive attempts",
                    );
                    PollStep::Again(Some(compose::concat("warning: ", text.as_str())))
                } else {
                    PollStep::Again(None)
                }
            },
            Answer::Said(j) => {
                match loaded_model(j) {
                    Some(m) => return PollStep::Found(m),
                    None => {},
                }
                if i % 5 == 0 {
                    let text = compose::concat5(
                        "waiting for loaded model (",
                        at.as_str(),
                        "/",
                        of.as_str(),
                        ")",
                    );
                    PollStep::Again(Some(compose::concat("info: ", text.as_str())))
                } else {
                    PollStep::Again(None)
                }
            },
        }
    }

    /// Why no model was found in the end.
    pub fn give_up(&self) -> (r: Failure)
        ensures
            r@
                == "timeout: could not get loaded model from inference server (content-type seen: "@
                + self.content_type@ + ")"@,
    {
        failure::failed(
            compose::concat3(
                "timeout: could not get loaded model from inference server (content-type seen: ",
                self.content_type.as_str(),
                ")",
            ),
        )
    }
}

/// The context window of an answer is that of the first model in it that tells one.
pub proof fn first_windows_count(answer: JsonView, models: Seq<JsonView>, i: int, n: nat)
    requires
        answer.field("data"@) == Some(JsonView::Array(models)),
        0 <= i < models.len(),
        ctx_window(models[i]) == Some(n),
        forall|j: int| 0 <= j < i ==> ctx_window(#[trigger] models[j]) is None,
    ensures
        first_ctx(described(answer)) == Some(n),
{
    lemma_first_ctx(models, i);
}

proof fn lemma_first_ctx(items: Seq<JsonView>, i: int)
    requires
        0 <= i < items.len(),
        ctx_window(items[i]) is Some,
        forall|j: int| 0 <= j < i ==> ctx_window(#[trigger] items[j]) is None,
    ensures
        first_ctx(items) == ctx_window(items[i]),
    decreases i,
{
    if i > 0 {
        let rest = items.skip(1);
        assert(ctx_window(items[0]) is None);
        assert forall|j: int| 0 <= j < i - 1 implies ctx_window(#[trigger] rest[j]) is None by {
            assert(rest[j] == items[j + 1]);
        }
        lemma_first_ctx(rest, i - 1);
    }
}

} // verus!
