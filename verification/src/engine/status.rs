use crate::cli::OutputFormat;
use crate::engine;
use crate::engine::EngineRuntimeSpec;
use crate::json;
use crate::json::{Json, JsonView};
use crate::sandbox::container_utils;
use crate::sandbox::container_utils::ContainerListItem;
use crate::sandbox::{lima, shared};
use crate::text::class::Class;
use crate::text::{compose, edge, order, split};
use crate::ui::Said;
use vstd::prelude::*;

verus! {

/// What is known of a runtime.
pub struct RuntimeStatus {
    pub name: String,
    /// The model that it serves or served last; empty if none is known.
    pub model: String,
    pub running: bool,
}

/// What is known of a runtime, as mathematical values.
pub struct StatusView {
    pub name: Seq<char>,
    pub model: Seq<char>,
    pub running: bool,
}

impl View for RuntimeStatus {
    type V = StatusView;

    open spec fn view(&self) -> StatusView {
        StatusView { name: self.name@, model: self.model@, running: self.running }
    }
}

/// What is known of some runtimes.
pub open spec fn status_views(v: Seq<RuntimeStatus>) -> Seq<StatusView> {
    v.map_values(|s: RuntimeStatus| s@)
}

impl StatusView {
    /// Whether the runtime has been set up.
    pub open spec fn configured(self) -> bool {
        self.model.len() > 0 || self.running
    }
}

/// A text that is there, or an empty one.
pub open spec fn or_empty(o: Option<Seq<char>>) -> Seq<char> {
    match o {
        Some(s) => s,
        None => Seq::empty(),
    }
}

/// The model that is on record.
pub open spec fn own_model(recorded: Option<Seq<char>>) -> Seq<char> {
    match recorded {
        Some(s) => edge::trimmed(s),
        None => Seq::empty(),
    }
}

/// The model of a runtime: the one on record, else, if the runtime runs, the one of its process,
/// else the one that it tells itself.
pub open spec fn active_model(
    recorded: Option<Seq<char>>,
    running: bool,
    from_process: Option<Seq<char>>,
    polled: Option<Seq<char>>,
) -> Seq<char> {
    if own_model(recorded).len() == 0 && running {
        if or_empty(from_process).len() > 0 {
            or_empty(from_process)
        } else {
            or_empty(polled)
        }
    } else {
        own_model(recorded)
    }
}

fn text_or_empty(o: &Option<String>) -> (r: String)
    ensures
        r@ == or_empty(compose::opt_text(*o)),
{
    match o {
        Some(s) => s.clone(),
        None => String::new(),
    }
}

/// Whether the process of a server is asked for its model: nothing is on record, and it runs.
pub fn asks_process(recorded: &Option<String>, running: bool) -> (r: bool)
    ensures
        r == (running && own_model(compose::opt_text(*recorded)).len() == 0),
{
    let own = match recorded {
        Some(s) => edge::trim(s.as_str()),
        None => String::new(),
    };
    running && own.as_str().is_empty()
}

/// Whether a server itself is asked for its model: its process does not tell.
pub fn asks_server(from_process: &Option<String>) -> (r: bool)
    ensures
        r == (or_empty(compose::opt_text(*from_process)).len() == 0),
{
    let told = text_or_empty(from_process);
    told.as_str().is_empty()
}

/// What is known of a runtime.
pub fn runtime_status(
    spec_: &EngineRuntimeSpec,
    recorded: &Option<String>,
    running: bool,
    from_process: &Option<String>,
    polled: &Option<String>,
) -> (r: RuntimeStatus)
    ensures
        r@ == (StatusView {
            name: spec_@.name,
            model: active_model(
                compose::opt_text(*recorded),
                running,
                compose::opt_text(*from_process),
                compose::opt_text(*polled),
            ),
            running,
        }),
{
    let own = match recorded {
        Some(s) => edge::trim(s.as_str()),
        None => String::new(),
    };
    let model = if own.as_str().is_empty() && running {
        let told = text_or_empty(from_process);
        if told.as_str().is_empty() {
            text_or_empty(polled)
        } else {
            told
        }
    } else {
        own
    };
    RuntimeStatus { name: spec_.name.to_owned(), model, running }
}

/// Whether any runtime runs.
pub open spec fn any_running(v: Seq<StatusView>) -> bool {
    exists|i: int| 0 <= i < v.len() && (#[trigger] v[i]).running
}

/// Whether any runtime has been set up.
pub open spec fn any_configured(v: Seq<StatusView>) -> bool {
    exists|i: int| 0 <= i < v.len() && (#[trigger] v[i]).configured()
}

/// How things stand as a whole.
#[derive(Clone, Copy, PartialEq, Eq, Structural, Debug)]
pub enum Overall {
    NotConfigured,
    Running,
    Stopped,
}

/// How things stand as a whole.
pub open spec fn overall(v: Seq<StatusView>) -> Overall {
    if !any_configured(v) {
        Overall::NotConfigured
    } else if any_running(v) {
        Overall::Running
    } else {
        Overall::Stopped
    }
}

/// How things stand as a whole.
pub fn overall_state(v: &Vec<RuntimeStatus>) -> (r: Overall)
    ensures
        r == overall(status_views(v@)),
{
    let ghost all = status_views(v@);
    let mut running = false;
    let mut configured = false;
    let mut i: usize = 0;
    while i < v.len()
        invariant
            i <= v@.len(),
            all == status_views(v@),
            running == (exists|k: int| 0 <= k < i && (#[trigger] all[k]).running),
            configured == (exists|k: int| 0 <= k < i && (#[trigger] all[k]).configured()),
        decreases v@.len() - i,
    {
        assert(all[i as int] == v@[i as int]@);
        if v[i].running {
            running = true;
        }
        if v[i].running || !v[i].model.as_str().is_empty() {
            assert(all[i as int].configured());
            configured = true;
        }
        i += 1;
    }
    assert(running == any_running(all));
    assert(configured == any_configured(all));
    if !configured {
        Overall::NotConfigured
    } else if running {
        Overall::Running
    } else {
        Overall::Stopped
    }
}

/// A runtime that runs is never reported as not set up.
pub proof fn running_means_configured(v: Seq<StatusView>)
    requires
        any_running(v),
    ensures
        overall(v) == Overall::Running,
{
    let i = choose|i: int| 0 <= i < v.len() && (#[trigger] v[i]).running;
    assert(v[i].configured());
}

/// The word for how things stand in JSON.
pub open spec fn overall_word(o: Overall) -> Seq<char> {
    match o {
        Overall::NotConfigured => "not_configured"@,
        Overall::Running => "running"@,
        Overall::Stopped => "configured_stopped"@,
    }
}

/// What is told of a runtime in JSON.
pub open spec fn runtime_json(s: StatusView) -> JsonView {
    JsonView::Object(
        seq![
            ("model"@, if s.model.len() == 0 {
                JsonView::Null
            } else {
                JsonView::Text(s.model)
            }),
            ("server_running"@, JsonView::Bool(s.running)),
        ],
    )
}

/// What is told of all runtimes in JSON.
pub open spec fn status_json(v: Seq<StatusView>) -> JsonView {
    JsonView::Object(
        seq![
            ("state"@, JsonView::Text(overall_word(overall(v)))),
            (
                "runtimes"@,
                JsonView::Object(v.map_values(|s: StatusView| (s.name, runtime_json(s)))),
            ),
        ],
    )
}

fn runtime_payload(s: &RuntimeStatus) -> (r: Json)
    ensures
        r@ == runtime_json(s@),
{
    let mut v = json::no_pairs();
    let model = if s.model.as_str().is_empty() {
        Json::Null
    } else {
        json::text_value(s.model.as_str())
    };
    json::push_pair(&mut v, "model", model);
    json::push_pair(&mut v, "server_running", Json::Bool(s.running));
    assert(json::pair_views(v@) =~= runtime_json(s@)->Object_0);
    json::object(v)
}

/// What is told of all runtimes in JSON.
pub fn status_payload(statuses: &Vec<RuntimeStatus>) -> (r: Json)
    ensures
        r@ == status_json(status_views(statuses@)),
{
    let ghost all = status_views(statuses@);
    let ghost goal = all.map_values(|s: StatusView| (s.name, runtime_json(s)));
    let mut inner = json::no_pairs();
    let mut i: usize = 0;
    assert(goal.take(0) =~= Seq::<(Seq<char>, JsonView)>::empty());
    while i < statuses.len()
        invariant
            i <= statuses@.len(),
            all == status_views(statuses@),
            goal == all.map_values(|s: StatusView| (s.name, runtime_json(s))),
            json::pair_views(inner@) == goal.take(i as int),
        decreases statuses@.len() - i,
    {
        assert(all[i as int] == statuses@[i as int]@);
        assert(goal[i as int] == (all[i as int].name, runtime_json(all[i as int])));
        json::push_pair(&mut inner, statuses[i].name.as_str(), runtime_payload(&statuses[i]));
        i += 1;
        assert(json::pair_views(inner@) =~= goal.take(i as int));
    }
    assert(goal.take(i as int) =~= goal);
    let word = match overall_state(statuses) {
        Overall::NotConfigured => "not_configured",
        Overall::Running => "running",
        Overall::Stopped => "configured_stopped",
    };
    let mut v = json::no_pairs();
    json::push_pair(&mut v, "state", json::text_value(word));
    json::push_pair(&mut v, "runtimes", json::object(inner));
    assert(json::pair_views(v@) =~= status_json(all)->Object_0);
    json::object(v)
}

/// A row of the status table.
pub open spec fn row(label: Seq<char>, state: Seq<char>, detail: Seq<char>) -> Seq<char> {
    let start = "  "@ + compose::padded(label, 18) + "  "@ + state;
    if detail.len() == 0 {
        start
    } else {
        start + "  "@ + detail
    }
}

/// A row of the status table.
pub fn print_status_row(label: &str, state: &str, detail: &str) -> (r: String)
    ensures
        r@ == row(label@, state@, detail@),
{
    let wide = compose::pad_right(label, 18);
    let start = compose::concat4("  ", wide.as_str(), "  ", state);
    if detail.is_empty() {
        start
    } else {
        compose::concat3(start.as_str(), "  ", detail)
    }
}

/// The row of a runtime.
pub open spec fn runtime_row(s: StatusView) -> Seq<char> {
    let label = "engine "@ + s.name;
    if s.running {
        row(label, "running"@, s.model)
    } else if s.model.len() == 0 {
        row(label, "stopped"@, Seq::empty())
    } else {
        row(label, "stopped"@, "last: "@ + s.model)
    }
}

/// The row of a runtime.
pub fn print_runtime_status(s: &RuntimeStatus) -> (r: String)
    ensures
        r@ == runtime_row(s@),
{
    proof {
        reveal_strlit("");
        assert(""@ =~= Seq::<char>::empty());
    }
    let label = compose::concat("engine ", s.name.as_str());
    if s.running {
        print_status_row(label.as_str(), "running", s.model.as_str())
    } else if s.model.as_str().is_empty() {
        print_status_row(label.as_str(), "stopped", "")
    } else {
        let detail = compose::concat("last: ", s.model.as_str());
        print_status_row(label.as_str(), "stopped", detail.as_str())
    }
}

/// The rows of the runtimes, with the headline before them.
pub open spec fn engine_lines(v: Seq<StatusView>) -> Seq<Seq<char>> {
    seq![
        match overall(v) {
            Overall::NotConfigured => "tnk: not configured"@,
            Overall::Running => "tnk: running"@,
            Overall::Stopped => "tnk: configured, stopped"@,
        },
    ] + v.map_values(|s: StatusView| runtime_row(s))
}

fn engine_rows(statuses: &Vec<RuntimeStatus>) -> (r: Vec<String>)
    ensures
        compose::texts(r@) == engine_lines(status_views(statuses@)),
{
    let head = match overall_state(statuses) {
        Overall::NotConfigured => "tnk: not configured",
        Overall::Running => "tnk: running",
        Overall::Stopped => "tnk: configured, stopped",
    };
    let ghost all = status_views(statuses@);
    let ghost goal = all.map_values(|s: StatusView| runtime_row(s));
    let mut v = compose::list1(head);
    let ghost first = compose::texts(v@);
    let mut i: usize = 0;
    assert(first + goal.take(0) =~= first);
    while i < statuses.len()
        invariant
            i <= statuses@.len(),
            all == status_views(statuses@),
            goal == all.map_values(|s: StatusView| runtime_row(s)),
            compose::texts(v@) == first + goal.take(i as int),
        decreases statuses@.len() - i,
    {
        assert(all[i as int] == statuses@[i as int]@);
        assert(goal[i as int] == runtime_row(all[i as int]));
        compose::push_string(&mut v, print_runtime_status(&statuses[i]));
        i += 1;
        assert(compose::texts(v@) =~= first + goal.take(i as int));
    }
    assert(goal.take(i as int) =~= goal);
    v
}

/// What is said of the runtimes and of the sandboxes: a table, or the runtimes in JSON.
pub fn status(statuses: &Vec<RuntimeStatus>, sandboxes: &Vec<String>, output: OutputFormat) -> (r:
    Said)
    ensures
        output == OutputFormat::Text ==> r.out@.len() == 0 && compose::texts(r.err@)
            == engine_lines(status_views(statuses@)) + compose::texts(sandboxes@),
        output != OutputFormat::Text ==> r.err@.len() == 0 && compose::texts(r.out@) == seq![
            json::notation(status_json(status_views(statuses@))),
        ],
{
    match output {
        OutputFormat::Text => {
            let mut err = engine_rows(statuses);
            compose::push_all(&mut err, sandboxes);
            Said { err, out: compose::no_texts() }
        },
        _ => {
            let line = json::write(&status_payload(statuses));
            Said { err: compose::no_texts(), out: compose::list1(line.as_str()) }
        },
    }
}

/// The state of a container in the output of the container tool.
pub open spec fn json_state(item: JsonView) -> Seq<char> {
    match container_utils::either(item.inner_text("status"@, "state"@), item.text_at("state"@)) {
        Some(s) => s,
        None => "unknown"@,
    }
}

/// Whether the first container with an id runs; nothing if there is none.
pub open spec fn service(items: Seq<JsonView>, id: Seq<char>) -> Option<bool>
    decreases items.len(),
{
    if items.len() == 0 {
        None
    } else if or_empty(container_utils::container_id(items[0])) == id {
        Some(
            compose::ascii_lower(json_state(items[0])) == compose::ascii_lower("running"@),
        )
    } else {
        service(items.skip(1), id)
    }
}

/// Whether the first container with an id runs; nothing if there is none.
pub fn service_state(items: &Vec<Json>, id: &str) -> (r: Option<bool>)
    ensures
        r == service(json::views(items@), id@),
{
    let ghost all = json::views(items@);
    let mut i: usize = 0;
    assert(all.skip(0) =~= all);
    while i < items.len()
        invariant
            i <= items@.len(),
            all == json::views(items@),
            service(all, id@) == service(all.skip(i as int), id@),
        decreases items@.len() - i,
    {
        assert(all.skip(i as int)[0] == items@[i as int]@);
        let own = match container_utils::container_id_from_json(&items[i]) {
            Some(s) => s,
            None => String::new(),
        };
        if compose::same(own.as_str(), id) {
            let state = match items[i].inner_text("status", "state") {
                Some(s) => s,
                None => match items[i].text_at("state") {
                    Some(s) => s,
                    None => "unknown",
                },
            };
            return Some(compose::same_ignoring_ascii_case(state, "running"));
        }
        assert(all.skip(i as int).skip(1) =~= all.skip(i + 1));
        i += 1;
    }
    None
}

/// The containers that the container tool printed; none if it printed anything but a JSON array.
pub open spec fn printed_items(ok: bool, bytes: Seq<u8>) -> Seq<JsonView> {
    match json::document(bytes) {
        Some(JsonView::Array(v)) => if ok {
            v
        } else {
            Seq::empty()
        },
        _ => Seq::empty(),
    }
}

/// The containers that the container tool printed.
pub fn read_items(ok: bool, output: &Vec<u8>) -> (r: Vec<Json>)
    ensures
        json::views(r@) == printed_items(ok, output@),
{
    if ok {
        match json::read(output) {
            Some(j) => match j {
                Json::Array(v) => {
                    assert(j@->Array_0 =~= json::views(v@));
                    return v;
                },
                _ => {},
            },
            None => {},
        }
    }
    json::no_values()
}

/// The word for how the bridge for tools stands.
pub open spec fn bridge_word(running: bool, provisioned: bool) -> Seq<char> {
    if !running {
        "stopped"@
    } else if provisioned {
        "running"@
    } else {
        "degraded"@
    }
}

fn bridge_state(running: bool, provisioned: bool) -> (r: &'static str)
    ensures
        r@ == bridge_word(running, provisioned),
{
    if !running {
        "stopped"
    } else if provisioned {
        "running"
    } else {
        "degraded"
    }
}

/// The word for whether something runs.
pub open spec fn running_word(running: bool) -> Seq<char> {
    if running {
        "running"@
    } else {
        "stopped"@
    }
}

fn running_state(running: bool) -> (r: &'static str)
    ensures
        r@ == running_word(running),
{
    if running {
        "running"
    } else {
        "stopped"
    }
}

/// Rows of a name and a state in ascending order of the names.
pub open spec fn sorted_rows(v: Seq<(Seq<char>, Seq<char>)>) -> Seq<(Seq<char>, Seq<char>)> {
    order::stable_order(row_names(v)).map_values(|i: int| v[i])
}

/// The names of rows.
pub open spec fn row_names(v: Seq<(Seq<char>, Seq<char>)>) -> Seq<Seq<char>> {
    v.map_values(|p: (Seq<char>, Seq<char>)| p.0)
}

fn sort_rows(v: &Vec<(String, String)>) -> (r: Vec<(String, String)>)
    ensures
        compose::pair_texts(r@) == sorted_rows(compose::pair_texts(v@)),
{
    let ghost all = compose::pair_texts(v@);
    let mut names = compose::no_texts();
    let mut i: usize = 0;
    assert(compose::texts(names@) =~= row_names(all).take(0));
    while i < v.len()
        invariant
            i <= v@.len(),
            all == compose::pair_texts(v@),
            compose::texts(names@) == row_names(all).take(i as int),
        decreases v@.len() - i,
    {
        compose::push_text(&mut names, v[i].0.as_str());
        i += 1;
        assert(compose::texts(names@) =~= row_names(all).take(i as int));
    }
    assert(row_names(all).take(i as int) =~= row_names(all));
    let ranks = order::rank(&names);
    let ghost places = ranks@.map_values(|i: usize| i as int);
    let ghost goal = sorted_rows(all);
    assert(names@.len() == v@.len()) by {
        assert(compose::texts(names@).len() == names@.len());
    }
    let mut r = shared::no_envs();
    let mut k: usize = 0;
    assert(compose::pair_texts(r@) =~= goal.take(0));
    while k < ranks.len()
        invariant
            k <= ranks@.len(),
            all == compose::pair_texts(v@),
            goal == sorted_rows(all),
            places == ranks@.map_values(|i: usize| i as int),
            places == order::stable_order(row_names(all)),
            goal.len() == ranks@.len(),
            forall|j: int| 0 <= j < ranks@.len() ==> #[trigger] ranks@[j] < v@.len(),
            compose::pair_texts(r@) == goal.take(k as int),
        decreases ranks@.len() - k,
    {
        assert(places[k as int] == ranks@[k as int]);
        assert(goal[k as int] == all[ranks@[k as int] as int]);
        let at: usize = ranks[k];
        shared::push_env(&mut r, v[at].0.as_str(), v[at].1.as_str());
        k += 1;
        assert(compose::pair_texts(r@) =~= goal.take(k as int));
    }
    assert(goal.take(k as int) =~= goal);
    r
}

/// The project that a container is for, with its state.
pub open spec fn container_row(item: ContainerListItem) -> Option<(Seq<char>, Seq<char>)> {
    let id = or_empty(item.any_id());
    if !lima::is_managed(id) {
        None
    } else {
        Some(
            (
                id.skip("tnk-"@.len() as int),
                match item.any_state() {
                    Some(s) => s,
                    None => "unknown"@,
                },
            ),
        )
    }
}

/// The projects that some containers are for.
pub open spec fn container_rows(items: Seq<ContainerListItem>) -> Seq<(Seq<char>, Seq<char>)>
    decreases items.len(),
{
    if items.len() == 0 {
        Seq::empty()
    } else {
        match container_row(items.last()) {
            Some(p) => container_rows(items.drop_last()).push(p),
            None => container_rows(items.drop_last()),
        }
    }
}

/// The projects that some containers are for, with their states, in ascending order.
pub fn list_container_sandboxes(items: &Vec<ContainerListItem>) -> (r: Vec<(String, String)>)
    ensures
        compose::pair_texts(r@) == sorted_rows(container_rows(items@)),
{
    let mut v = shared::no_envs();
    let mut i: usize = 0;
    while i < items.len()
        invariant
            i <= items@.len(),
            compose::pair_texts(v@) == container_rows(items@.take(i as int)),
        decreases items@.len() - i,
    {
        assert(items@.take(i + 1).drop_last() =~= items@.take(i as int));
        assert(items@.take(i + 1).last() == items@[i as int]);
        let id = match items[i].id() {
            Some(s) => s.to_owned(),
            None => String::new(),
        };
        if lima::managed(id.as_str()) {
            match edge::strip_prefix(id.as_str(), "tnk-") {
                Some(token) => {
                    let state = match items[i].status_state() {
                        Some(s) => s,
                        None => "unknown",
                    };
                    shared::push_env(&mut v, token.as_str(), state);
                },
                None => {},
            }
        }
        i += 1;
    }
    assert(items@.take(i as int) =~= items@);
    sort_rows(&v)
}

/// The project that a line of `limactl list` tells of, with its state in small letters.
pub open spec fn lima_row(line: Seq<char>) -> Option<(Seq<char>, Seq<char>)> {
    let cells = split::pieces(line, Class::Only('\t'));
    let id = edge::trimmed(cells[0]);
    if !lima::is_managed(id) || id == "tnk-config"@ {
        None
    } else {
        Some(
            (
                id.skip("tnk-"@.len() as int),
                compose::lowercase(
                    edge::trimmed(
                        if cells.len() < 2 {
                            "unknown"@
                        } else {
                            cells[1]
                        },
                    ),
                ),
            ),
        )
    }
}

/// The projects that some lines tell of.
pub open spec fn lima_rows(lines: Seq<Seq<char>>) -> Seq<(Seq<char>, Seq<char>)>
    decreases lines.len(),
{
    if lines.len() == 0 {
        Seq::empty()
    } else {
        match lima_row(lines.last()) {
            Some(p) => lima_rows(lines.drop_last()).push(p),
            None => lima_rows(lines.drop_last()),
        }
    }
}

fn read_lima_row(line: &str) -> (r: Option<(String, String)>)
    ensures
        match r {
            Some(p) => lima_row(line@) == Some((p.0@, p.1@)),
            None => lima_row(line@) is None,
        },
{
    let cells = split::split(line, Class::Only('\t'));
    let ghost c = compose::texts(cells@);
    assert(c.len() == cells@.len());
    assert(c[0] == cells@[0]@);
    let id = edge::trim(cells[0].as_str());
    if !lima::managed(id.as_str()) || compose::same(id.as_str(), "tnk-config") {
        return None;
    }
    let raw = if cells.len() < 2 {
        "unknown".to_owned()
    } else {
        assert(c[1] == cells@[1]@);
        cells[1].clone()
    };
    let trimmed = edge::trim(raw.as_str());
    let state = compose::to_lowercase(trimmed.as_str());
    match edge::strip_prefix(id.as_str(), "tnk-") {
        Some(token) => Some((token, state)),
        None => None,
    }
}

/// The projects that the output of `limactl list` tells of, with their states, in ascending order.
pub fn list_lima_sandboxes(output: &str) -> (r: Vec<(String, String)>)
    ensures
        compose::pair_texts(r@) == sorted_rows(lima_rows(split::lines_of(output@))),
{
    let lines = split::lines(output);
    let ghost all = compose::texts(lines@);
    let mut v = shared::no_envs();
    let mut i: usize = 0;
    while i < lines.len()
        invariant
            i <= lines@.len(),
            all == compose::texts(lines@),
            compose::pair_texts(v@) == lima_rows(all.take(i as int)),
        decreases lines@.len() - i,
    {
        assert(all.take(i + 1).drop_last() =~= all.take(i as int));
        assert(all.take(i + 1).last() == lines@[i as int]@);
        match read_lima_row(lines[i].as_str()) {
            Some(p) => shared::push_env(&mut v, p.0.as_str(), p.1.as_str()),
            None => {},
        }
        i += 1;
    }
    assert(all.take(i as int) =~= all);
    sort_rows(&v)
}

/// The rows of the sandboxes; `short` leaves out those that do not run.
pub open spec fn sandbox_rows(
    rows: Seq<(Seq<char>, Seq<char>)>,
    label: Seq<char>,
    short: bool,
) -> Seq<Seq<char>>
    decreases rows.len(),
{
    if rows.len() == 0 {
        Seq::empty()
    } else {
        let before = sandbox_rows(rows.drop_last(), label, short);
        let (token, state) = rows.last();
        let runs = compose::ascii_lower(state) == compose::ascii_lower("running"@);
        if !short {
            before.push(row(label + token, state, Seq::empty()))
        } else if runs {
            before.push(row(label + token, "running"@, Seq::empty()))
        } else {
            before
        }
    }
}

fn push_sandbox_rows(
    v: &mut Vec<String>,
    rows: &Vec<(String, String)>,
    label: &str,
    short: bool,
)
    ensures
        compose::texts(final(v)@) == compose::texts(old(v)@) + sandbox_rows(
            compose::pair_texts(rows@),
            label@,
            short,
        ),
{
    proof {
        reveal_strlit("");
        assert(""@ =~= Seq::<char>::empty());
    }
    let ghost first = compose::texts(v@);
    let ghost all = compose::pair_texts(rows@);
    let mut i: usize = 0;
    assert(first + sandbox_rows(all.take(0), label@, short) =~= first);
    while i < rows.len()
        invariant
            i <= rows@.len(),
            all == compose::pair_texts(rows@),
            ""@ == Seq::<char>::empty(),
            compose::texts(v@) == first + sandbox_rows(all.take(i as int), label@, short),
        decreases rows@.len() - i,
    {
        assert(all.take(i + 1).drop_last() =~= all.take(i as int));
        assert(all.take(i + 1).last() == (rows@[i as int].0@, rows@[i as int].1@));
        let full = compose::concat(label, rows[i].0.as_str());
        if !short {
            let line = print_status_row(full.as_str(), rows[i].1.as_str(), "");
            compose::push_string(v, line);
        } else if compose::same_ignoring_ascii_case(rows[i].1.as_str(), "running") {
            let line = print_status_row(full.as_str(), "running", "");
            compose::push_string(v, line);
        }
        i += 1;
        assert(compose::texts(v@) =~= first + sandbox_rows(all.take(i as int), label@, short));
    }
    assert(all.take(i as int) =~= all);
}

/// The rows of the services and the sandboxes in containers: of the services only those that
/// there are, and in the short form only what runs.
pub open spec fn container_lines(
    services: Option<bool>,
    provisioned: bool,
    searxng: Option<bool>,
    rows: Seq<(Seq<char>, Seq<char>)>,
    short: bool,
) -> Seq<Seq<char>> {
    let bridge = match services {
        Some(running) => if short && !running {
            Seq::empty()
        } else {
            seq![
                row("mcp (container)"@, bridge_word(running, provisioned), Seq::empty()),
            ]
        },
        None => Seq::empty(),
    };
    let search = match searxng {
        Some(running) => if short && !running {
            Seq::empty()
        } else {
            seq![row("searxng (container)"@, running_word(running), Seq::empty())]
        },
        None => Seq::empty(),
    };
    bridge + search + sandbox_rows(rows, "sandbox (container) "@, short)
}

/// The rows of the services and the sandboxes in containers.
pub fn container_status_lines(
    services: Option<bool>,
    provisioned: bool,
    searxng: Option<bool>,
    rows: &Vec<(String, String)>,
    short: bool,
) -> (r: Vec<String>)
    ensures
        compose::texts(r@) == container_lines(
            services,
            provisioned,
            searxng,
            compose::pair_texts(rows@),
            short,
        ),
{
    proof {
        reveal_strlit("");
        assert(""@ =~= Seq::<char>::empty());
    }
    let mut v = compose::no_texts();
    match services {
        Some(running) => if !(short && !running) {
            let line = print_status_row("mcp (container)", bridge_state(running, provisioned), "");
            compose::push_string(&mut v, line);
        },
        None => {},
    }
    match searxng {
        Some(running) => if !(short && !running) {
            let line = print_status_row("searxng (container)", running_state(running), "");
            compose::push_string(&mut v, line);
        },
        None => {},
    }
    push_sandbox_rows(&mut v, rows, "sandbox (container) ", short);
    assert(compose::texts(v@) =~= container_lines(
        services,
        provisioned,
        searxng,
        compose::pair_texts(rows@),
        short,
    ));
    v
}

/// The rows of the services and the sandboxes in machines; in the short form only what runs.
pub open spec fn lima_lines(
    services_running: bool,
    rows: Seq<(Seq<char>, Seq<char>)>,
    short: bool,
) -> Seq<Seq<char>> {
    (if short && !services_running {
        Seq::empty()
    } else {
        seq![
            row("mcp (lima)"@, running_word(services_running), Seq::empty()),
            row("searxng (lima)"@, running_word(services_running), Seq::empty()),
        ]
    }) + sandbox_rows(rows, "sandbox (lima) "@, short)
}

/// The rows of the services and the sandboxes in machines.
pub fn lima_status_lines(services_running: bool, rows: &Vec<(String, String)>, short: bool) -> (r:
    Vec<String>)
    ensures
        compose::texts(r@) == lima_lines(services_running, compose::pair_texts(rows@), short),
{
    proof {
        reveal_strlit("");
        assert(""@ =~= Seq::<char>::empty());
    }
    let mut v = compose::no_texts();
    if !(short && !services_running) {
        let word = running_state(services_running);
        compose::push_string(&mut v, print_status_row("mcp (lima)", word, ""));
        compose::push_string(&mut v, print_status_row("searxng (lima)", word, ""));
    }
    push_sandbox_rows(&mut v, rows, "sandbox (lima) ", short);
    assert(compose::texts(v@) =~= lima_lines(services_running, compose::pair_texts(rows@), short));
    v
}

/// The row of the runtime that runs: its model as its process tells it, else as it tells it itself.
pub open spec fn running_row(from_process: Option<Seq<char>>, polled: Option<Seq<char>>) -> Seq<
    char,
> {
    row(
        "engine"@,
        "running"@,
        if or_empty(from_process).len() > 0 {
            or_empty(from_process)
        } else {
            or_empty(polled)
        },
    )
}

/// The short form of the status: the runtime that runs, if one does, with what its process and the
/// server tell of the model, and then the sandboxes.
pub fn print_status(
    engine: &Option<(Option<String>, Option<String>)>,
    sandboxes: &Vec<String>,
) -> (r: Vec<String>)
    ensures
        compose::texts(r@) == (match *engine {
            Some(p) => seq![running_row(compose::opt_text(p.0), compose::opt_text(p.1))],
            None => Seq::empty(),
        }) + compose::texts(sandboxes@),
{
    let mut v = compose::no_texts();
    match engine {
        Some(p) => {
            let told = text_or_empty(&p.0);
            let detail = if told.as_str().is_empty() {
                text_or_empty(&p.1)
            } else {
                told
            };
            compose::push_string(&mut v, print_status_row("engine", "running", detail.as_str()));
        },
        None => {},
    }
    compose::push_all(&mut v, sandboxes);
    v
}

/// What is told of a model goes by what is surest: what is on record counts before what the process
/// tells, that before what the server answers, and a runtime that does not run is not asked.
pub proof fn records_come_first(
    recorded: Seq<char>,
    running: bool,
    process: Seq<char>,
    polled: Option<Seq<char>>,
    other: Option<Seq<char>>,
)
    requires
        process.len() > 0,
    ensures
        edge::trimmed(recorded).len() > 0 ==> active_model(Some(recorded), running, other, polled)
            == edge::trimmed(recorded),
        active_model(None, true, Some(process), polled) == process,
        active_model(None, true, None, Some(process)) == process,
        active_model(None, false, other, polled).len() == 0,
{
}

/// What is told of all runtimes in JSON says of each of them which model it has and whether it runs.
pub proof fn status_payloads_tell(v: Seq<StatusView>, i: int)
    requires
        0 <= i < v.len(),
        forall|j: int| 0 <= j < i ==> (#[trigger] v[j]).name != v[i].name,
    ensures
        ({
            let one = status_json(v).inner("runtimes"@, v[i].name);
            &&& one matches Some(r)
            &&& r.field("server_running"@) == Some(JsonView::Bool(v[i].running))
            &&& v[i].model.len() > 0 ==> r.text_at("model"@) == Some(v[i].model)
            &&& v[i].model.len() == 0 ==> r.field("model"@) == Some(JsonView::Null)
        }),
{
    let all = v.map_values(|s: StatusView| (s.name, runtime_json(s)));
    reveal_strlit("state");
    reveal_strlit("runtimes");
    reveal_strlit("model");
    reveal_strlit("server_running");
    assert("state"@.len() == 5 && "runtimes"@.len() == 8);
    assert("model"@.len() == 5 && "server_running"@.len() == 14);
    json::lookups_find(status_json(v)->Object_0, 1);
    assert(all[i].0 == v[i].name);
    assert forall|j: int| 0 <= j < i implies (#[trigger] all[j]).0 != all[i].0 by {
        assert(v[j].name != v[i].name);
    }
    json::lookups_find(all, i);
    json::lookups_find(runtime_json(v[i])->Object_0, 0);
    json::lookups_find(runtime_json(v[i])->Object_0, 1);
}

} // verus!
