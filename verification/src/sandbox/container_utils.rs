use crate::json;
use crate::json::{Json, JsonView};
use crate::text::class::Class;
use crate::text::{compose, edge, split};
use vstd::prelude::*;

verus! {

/// The word that follows the first occurrence of a word.
pub open spec fn word_after(words: Seq<Seq<char>>, mark: Seq<char>) -> Option<Seq<char>>
    decreases words.len(),
{
    if words.len() < 2 {
        None
    } else if words[0] == mark {
        Some(words[1])
    } else {
        word_after(words.skip(1), mark)
    }
}

/// Finds the word that follows the first occurrence of a word.
fn find_after(words: &Vec<String>, mark: &str) -> (r: Option<String>)
    ensures
        compose::opt_text(r) == word_after(compose::texts(words@), mark@),
{
    let ghost all = compose::texts(words@);
    let mut i: usize = 0;
    assert(all.skip(0) =~= all);
    while i < words.len()
        invariant
            i <= words@.len(),
            all == compose::texts(words@),
            word_after(all, mark@) == word_after(all.skip(i as int), mark@),
        decreases words@.len() - i,
    {
        assert(all.skip(i as int)[0] == words@[i as int]@);
        if i + 1 < words.len() {
            assert(all.skip(i as int)[1] == words@[i + 1]@);
        }
        if compose::same(words[i].as_str(), mark) {
            return if words.len() - i < 2 {
                None
            } else {
                Some(words[i + 1].clone())
            };
        }
        assert(all.skip(i as int).skip(1) =~= all.skip(i + 1));
        i += 1;
    }
    None
}

/// The gateway that a line of a routing table names.
pub open spec fn gateway_in_line(line: Seq<char>) -> Option<Seq<char>> {
    let words = split::words_of(edge::trimmed(line));
    match word_after(words, "via"@) {
        Some(w) => Some(w),
        None => word_after(words, "gateway:"@),
    }
}

/// The first gateway that some lines of a routing table name.
pub open spec fn first_gateway(lines: Seq<Seq<char>>) -> Option<Seq<char>>
    decreases lines.len(),
{
    if lines.len() == 0 {
        None
    } else {
        match gateway_in_line(lines[0]) {
            Some(g) => Some(g),
            None => first_gateway(lines.skip(1)),
        }
    }
}

/// The gateway that the output of `ip route` or `route get` names.
pub fn parse_gateway_from_route_output(output: &str) -> (r: Option<String>)
    ensures
        compose::opt_text(r) == first_gateway(split::lines_of(output@)),
{
    let lines = split::lines(output);
    let ghost all = compose::texts(lines@);
    let mut i: usize = 0;
    assert(all.skip(0) =~= all);
    while i < lines.len()
        invariant
            i <= lines@.len(),
            all == compose::texts(lines@),
            all == split::lines_of(output@),
            first_gateway(all) == first_gateway(all.skip(i as int)),
        decreases lines@.len() - i,
    {
        assert(all.skip(i as int)[0] == lines@[i as int]@);
        let trimmed = edge::trim(lines[i].as_str());
        let words = split::words(trimmed.as_str());
        match find_after(&words, "via") {
            Some(g) => return Some(g),
            None => {},
        }
        match find_after(&words, "gateway:") {
            Some(g) => return Some(g),
            None => {},
        }
        assert(all.skip(i as int).skip(1) =~= all.skip(i + 1));
        i += 1;
    }
    None
}

proof fn lemma_word_after(words: Seq<Seq<char>>, mark: Seq<char>)
    ensures
        word_after(words, mark) matches Some(w) ==> words.contains(w),
    decreases words.len(),
{
    if words.len() >= 2 {
        if words[0] == mark {
            assert(words.contains(words[1]));
        } else {
            lemma_word_after(words.skip(1), mark);
            if let Some(w) = word_after(words, mark) {
                let i = choose|i: int| 0 <= i < words.skip(1).len() && words.skip(1)[i] == w;
                assert(words[i + 1] == w);
            }
        }
    }
}

/// A gateway that is read from a routing table is never empty and holds no white space.
pub proof fn gateways_are_not_empty(lines: Seq<Seq<char>>)
    ensures
        first_gateway(lines) matches Some(g) ==> g.len() > 0 && split::free_of(g, Class::Blank),
    decreases lines.len(),
{
    if lines.len() > 0 {
        let words = split::words_of(edge::trimmed(lines[0]));
        split::words_stand_in_their_text(edge::trimmed(lines[0]));
        lemma_word_after(words, "via"@);
        lemma_word_after(words, "gateway:"@);
        gateways_are_not_empty(lines.skip(1));
    }
}

/// A text without the white space round it, unless nothing is left.
pub open spec fn filled(t: Option<Seq<char>>) -> Option<Seq<char>> {
    match t {
        Some(s) => if edge::trimmed(s).len() == 0 {
            None
        } else {
            Some(edge::trimmed(s))
        },
        None => None,
    }
}

/// The first of two texts that is there.
pub open spec fn either<A>(a: Option<A>, b: Option<A>) -> Option<A> {
    match a {
        Some(x) => Some(x),
        None => b,
    }
}

fn fill(t: Option<&str>) -> (r: Option<String>)
    ensures
        compose::opt_text(r) == filled(json::opt_str(t)),
{
    match t {
        Some(s) => {
            let u = edge::trim(s);
            if u.as_str().is_empty() {
                None
            } else {
                Some(u)
            }
        },
        None => None,
    }
}

/// What the first element of the array under a key holds under a second key.
pub open spec fn in_first(entry: JsonView, list: Seq<char>, key: Seq<char>) -> Option<Seq<char>> {
    match entry.field(list) {
        Some(JsonView::Array(v)) => if v.len() == 0 {
            None
        } else {
            v[0].text_at(key)
        },
        _ => None,
    }
}

fn text_in_first<'a>(entry: &'a Json, list: &str, key: &str) -> (r: Option<&'a str>)
    ensures
        json::opt_str(r) == in_first(entry@, list@, key@),
{
    match entry.field(list) {
        Some(v) => match v.as_array() {
            Some(a) => if a.len() == 0 {
                None
            } else {
                a[0].text_at(key)
            },
            None => None,
        },
        None => None,
    }
}

/// The places of a network entry that can name a gateway, in the order in which they are tried.
pub open spec fn gateway_candidates(entry: JsonView) -> Seq<Option<Seq<char>>> {
    seq![
        entry.text_at("gateway"@),
        entry.text_at("Gateway"@),
        entry.inner_text("status"@, "ipv4Gateway"@),
        entry.inner_text("status"@, "ipv6Gateway"@),
        entry.inner_text("status"@, "gateway"@),
        entry.inner_text("Status"@, "IPv4Gateway"@),
        entry.inner_text("Status"@, "IPv6Gateway"@),
        entry.inner_text("Status"@, "Gateway"@),
        entry.inner_text("ipam"@, "gateway"@),
        entry.inner_text("IPAM"@, "Gateway"@),
        in_first(entry, "subnets"@, "gateway"@),
        in_first(entry, "Subnets"@, "Gateway"@),
    ]
}

/// The first candidate that is not blank.
pub open spec fn first_filled(candidates: Seq<Option<Seq<char>>>) -> Option<Seq<char>>
    decreases candidates.len(),
{
    if candidates.len() == 0 {
        None
    } else {
        either(filled(candidates[0]), first_filled(candidates.skip(1)))
    }
}

/// The gateway of the first network entry that names one.
pub open spec fn network_gateway(entries: Seq<JsonView>) -> Option<Seq<char>>
    decreases entries.len(),
{
    if entries.len() == 0 {
        None
    } else {
        either(
            first_filled(gateway_candidates(entries[0])),
            network_gateway(entries.skip(1)),
        )
    }
}

fn entry_gateway(entry: &Json) -> (r: Option<String>)
    ensures
        compose::opt_text(r) == first_filled(gateway_candidates(entry@)),
{
    let ghost all = gateway_candidates(entry@);
    let mut i: usize = 0;
    assert(all.skip(0) =~= all);
    while i < 12
        invariant
            i <= 12,
            all == gateway_candidates(entry@),
            all.len() == 12,
            first_filled(all) == first_filled(all.skip(i as int)),
        decreases 12 - i,
    {
        let candidate = match i {
            0 => entry.text_at("gateway"),
            1 => entry.text_at("Gateway"),
            2 => entry.inner_text("status", "ipv4Gateway"),
            3 => entry.inner_text("status", "ipv6Gateway"),
            4 => entry.inner_text("status", "gateway"),
            5 => entry.inner_text("Status", "IPv4Gateway"),
            6 => entry.inner_text("Status", "IPv6Gateway"),
            7 => entry.inner_text("Status", "Gateway"),
            8 => entry.inner_text("ipam", "gateway"),
            9 => entry.inner_text("IPAM", "Gateway"),
            10 => text_in_first(entry, "subnets", "gateway"),
            _ => text_in_first(entry, "Subnets", "Gateway"),
        };
        assert(json::opt_str(candidate) == all[i as int]);
        assert(all.skip(i as int)[0] == all[i as int]);
        match fill(candidate) {
            Some(g) => return Some(g),
            None => {},
        }
        assert(all.skip(i as int).skip(1) =~= all.skip(i + 1));
        i += 1;
    }
    None
}

/// The gateway that a list of networks names.
pub fn gateway_of_networks(entries: &Vec<Json>) -> (r: Option<String>)
    ensures
        compose::opt_text(r) == network_gateway(json::views(entries@)),
{
    let ghost all = json::views(entries@);
    let mut i: usize = 0;
    assert(all.skip(0) =~= all);
    while i < entries.len()
        invariant
            i <= entries@.len(),
            all == json::views(entries@),
            network_gateway(all) == network_gateway(all.skip(i as int)),
        decreases entries@.len() - i,
    {
        assert(all.skip(i as int)[0] == entries@[i as int]@);
        match entry_gateway(&entries[i]) {
            Some(g) => return Some(g),
            None => {},
        }
        assert(all.skip(i as int).skip(1) =~= all.skip(i + 1));
        i += 1;
    }
    None
}

/// The gateway that the list of networks printed by the container tool names: none if the tool
/// printed anything but a JSON array.
pub open spec fn printed_gateway(bytes: Seq<u8>) -> Option<Seq<char>> {
    match json::document(bytes) {
        Some(JsonView::Array(entries)) => network_gateway(entries),
        _ => None,
    }
}

/// The gateway that the output of `container network list --format json` names.
pub fn discover_container_gateway(ok: bool, output: &Vec<u8>) -> (r: Option<String>)
    ensures
        compose::opt_text(r) == (if ok {
            printed_gateway(output@)
        } else {
            None
        }),
{
    if !ok {
        return None;
    }
    match json::read(output) {
        Some(j) => match j.as_array() {
            Some(entries) => gateway_of_networks(entries),
            None => None,
        },
        None => None,
    }
}

/// The id of a container in the output of the container tool.
pub open spec fn container_id(item: JsonView) -> Option<Seq<char>> {
    either(item.text_at("id"@), item.inner_text("configuration"@, "id"@))
}

/// The id of a container in the output of the container tool.
pub fn container_id_from_json(item: &Json) -> (r: Option<String>)
    ensures
        compose::opt_text(r) == container_id(item@),
{
    match item.text_at("id") {
        Some(s) => Some(s.to_owned()),
        None => match item.inner_text("configuration", "id") {
            Some(s) => Some(s.to_owned()),
            None => None,
        },
    }
}

/// The label of a container in the output of the container tool.
pub open spec fn container_label(item: JsonView, key: Seq<char>) -> Option<Seq<char>> {
    match item.inner("configuration"@, "labels"@) {
        Some(labels) => labels.text_at(key),
        None => None,
    }
}

/// Whether a container has a label with the given text.
pub fn container_has_label_json(item: &Json, key: &str, expected: &str) -> (r: bool)
    ensures
        r == (container_label(item@, key@) == Some(expected@)),
{
    match item.inner("configuration", "labels") {
        Some(labels) => match labels.text_at(key) {
            Some(s) => compose::same(s, expected),
            None => false,
        },
        None => false,
    }
}

/// What the container tool tells of how a container was made.
pub struct ContainerConfiguration {
    pub id: Option<String>,
    pub id_alias: Option<String>,
    /// Labels with their values, each key once.
    pub labels: Option<Vec<(String, Json)>>,
    pub labels_alias: Option<Vec<(String, Json)>>,
}

/// What the container tool tells of a container.
pub struct ContainerListItem {
    pub id: Option<String>,
    pub id_alias: Option<String>,
    pub status: Option<Json>,
    pub status_alias: Option<Json>,
    pub state: Option<String>,
    pub state_alias: Option<String>,
    pub configuration: Option<ContainerConfiguration>,
    pub configuration_alias: Option<ContainerConfiguration>,
}

/// The state that the status of a container tells: the status itself or a part of it.
pub open spec fn status_text(status: JsonView) -> Option<Seq<char>> {
    match status.text() {
        Some(s) => Some(s),
        None => match either(status.field("state"@), status.field("State"@)) {
            Some(v) => v.text(),
            None => None,
        },
    }
}

/// The state of an optional status.
pub open spec fn opt_status(status: Option<Json>) -> Option<Seq<char>> {
    match status {
        Some(v) => status_text(v@),
        None => None,
    }
}

/// Whether one of some labels tells a profile.
pub open spec fn names_profile(labels: Seq<(Seq<char>, JsonView)>) -> bool {
    exists|i: int|
        0 <= i < labels.len() && edge::begins((#[trigger] labels[i]).0, "tnk.profile."@)
}

impl ContainerConfiguration {
    /// The id under either of its names.
    pub open spec fn either_id(self) -> Option<Seq<char>> {
        either(compose::opt_text(self.id), compose::opt_text(self.id_alias))
    }

    /// The labels under either of their names.
    pub open spec fn either_labels(self) -> Option<Seq<(Seq<char>, JsonView)>> {
        match self.labels {
            Some(l) => Some(json::pair_views(l@)),
            None => match self.labels_alias {
                Some(l) => Some(json::pair_views(l@)),
                None => None,
            },
        }
    }
}

impl ContainerListItem {
    /// The configuration under either of its names.
    pub open spec fn either_configuration(self) -> Option<ContainerConfiguration> {
        either(self.configuration, self.configuration_alias)
    }

    /// The id, in the first of the places where it can stand.
    pub open spec fn any_id(self) -> Option<Seq<char>> {
        match either(compose::opt_text(self.id), compose::opt_text(self.id_alias)) {
            Some(s) => Some(s),
            None => match self.either_configuration() {
                Some(c) => c.either_id(),
                None => None,
            },
        }
    }

    /// The state, in the first of the places where it can stand.
    pub open spec fn any_state(self) -> Option<Seq<char>> {
        let status = match self.status {
            Some(v) => Some(v),
            None => self.status_alias,
        };
        match opt_status(status) {
            Some(s) => Some(s),
            None => either(compose::opt_text(self.state), compose::opt_text(self.state_alias)),
        }
    }

    /// The labels, if any are told.
    pub open spec fn all_labels(self) -> Option<Seq<(Seq<char>, JsonView)>> {
        match self.either_configuration() {
            Some(c) => c.either_labels(),
            None => None,
        }
    }

    /// The text of a label.
    pub open spec fn label_text(self, key: Seq<char>) -> Option<Seq<char>> {
        match self.all_labels() {
            Some(labels) => match json::lookup(labels, key) {
                Some(v) => v.text(),
                None => None,
            },
            None => None,
        }
    }

    /// Whether a label tells a profile of the container.
    pub open spec fn profile_labelled(self) -> bool {
        match self.all_labels() {
            Some(labels) => names_profile(labels),
            None => false,
        }
    }

    /// The id of the container.
    pub fn id(&self) -> (r: Option<&str>)
        ensures
            json::opt_str(r) == self.any_id(),
    {
        match &self.id {
            Some(s) => return Some(s.as_str()),
            None => {},
        }
        match &self.id_alias {
            Some(s) => return Some(s.as_str()),
            None => {},
        }
        match self.configuration_ref() {
            Some(c) => match &c.id {
                Some(s) => Some(s.as_str()),
                None => match &c.id_alias {
                    Some(s) => Some(s.as_str()),
                    None => None,
                },
            },
            None => None,
        }
    }

    /// The state of the container.
    pub fn status_state(&self) -> (r: Option<&str>)
        ensures
            json::opt_str(r) == self.any_state(),
    {
        let status: Option<&Json> = match &self.status {
            Some(v) => Some(v),
            None => match &self.status_alias {
                Some(v) => Some(v),
                None => None,
            },
        };
        match status {
            Some(v) => match state_in(v) {
                Some(s) => return Some(s),
                None => {},
            },
            None => {},
        }
        match &self.state {
            Some(s) => Some(s.as_str()),
            None => match &self.state_alias {
                Some(s) => Some(s.as_str()),
                None => None,
            },
        }
    }

    /// The text of a label of the container.
    pub fn label(&self, key: &str) -> (r: Option<&str>)
        ensures
            json::opt_str(r) == self.label_text(key@),
    {
        match self.labels_ref() {
            Some(labels) => {
                let ghost all = json::pair_views(labels@);
                let mut i: usize = 0;
                assert(all.skip(0) =~= all);
                while i < labels.len()
                    invariant
                        i <= labels@.len(),
                        all == json::pair_views(labels@),
                        self.all_labels() == Some(all),
                        json::lookup(all, key@) == json::lookup(all.skip(i as int), key@),
                    decreases labels@.len() - i,
                {
                    assert(all.skip(i as int)[0] == (labels@[i as int].0@, labels@[i as int].1@));
                    if compose::same(labels[i].0.as_str(), key) {
                        return labels[i].1.as_str();
                    }
                    assert(all.skip(i as int).skip(1) =~= all.skip(i + 1));
                    i += 1;
                }
                None
            },
            None => None,
        }
    }

    /// Whether a label tells a profile of the container.
    pub fn has_profile_label(&self) -> (r: bool)
        ensures
            r == self.profile_labelled(),
    {
        match self.labels_ref() {
            Some(labels) => {
                let ghost all = json::pair_views(labels@);
                let mut i: usize = 0;
                while i < labels.len()
                    invariant
                        i <= labels@.len(),
                        all == json::pair_views(labels@),
                        self.all_labels() == Some(all),
                        forall|k: int|
                            0 <= k < i ==> !edge::begins((#[trigger] all[k]).0, "tnk.profile."@),
                    decreases labels@.len() - i,
                {
                    assert(all[i as int].0 == labels@[i as int].0@);
                    if edge::starts_with(labels[i].0.as_str(), "tnk.profile.") {
                        assert(names_profile(all));
                        return true;
                    }
                    i += 1;
                }
                false
            },
            None => false,
        }
    }

    fn configuration_ref(&self) -> (r: Option<&ContainerConfiguration>)
        ensures
            match r {
                Some(c) => self.either_configuration() == Some(*c),
                None => self.either_configuration() is None,
            },
    {
        match &self.configuration {
            Some(c) => Some(c),
            None => match &self.configuration_alias {
                Some(c) => Some(c),
                None => None,
            },
        }
    }

    fn labels_ref(&self) -> (r: Option<&Vec<(String, Json)>>)
        ensures
            match r {
                Some(l) => self.all_labels() == Some(json::pair_views(l@)),
                None => self.all_labels() is None,
            },
    {
        match self.configuration_ref() {
            Some(c) => match &c.labels {
                Some(l) => Some(l),
                None => match &c.labels_alias {
                    Some(l) => Some(l),
                    None => None,
                },
            },
            None => None,
        }
    }
}

fn state_in(status: &Json) -> (r: Option<&str>)
    ensures
        json::opt_str(r) == status_text(status@),
{
    match status.as_str() {
        Some(s) => Some(s),
        None => match status.field("state") {
            Some(v) => v.as_str(),
            None => match status.field("State") {
                Some(v) => v.as_str(),
                None => None,
            },
        },
    }
}

/// Whether an item tells of a running container.
pub open spec fn runs(item: ContainerListItem) -> bool {
    match item.any_state() {
        Some(s) => compose::ascii_lower(s) == compose::ascii_lower("running"@),
        None => false,
    }
}

/// Whether a container with the given id is listed.
pub open spec fn listed(items: Seq<ContainerListItem>, id: Seq<char>) -> bool {
    exists|i: int| 0 <= i < items.len() && (#[trigger] items[i]).any_id() == Some(id)
}

/// Whether a container with the given id is listed as running.
pub open spec fn listed_running(items: Seq<ContainerListItem>, id: Seq<char>) -> bool {
    exists|i: int|
        0 <= i < items.len() && (#[trigger] items[i]).any_id() == Some(id) && runs(items[i])
}

/// Whether an item has the given id.
pub fn item_has_id(item: &ContainerListItem, id: &str) -> (r: bool)
    ensures
        r == (item.any_id() == Some(id@)),
{
    match item.id() {
        Some(s) => compose::same(s, id),
        None => false,
    }
}

/// Whether an item tells of a running container.
pub fn item_runs(item: &ContainerListItem) -> (r: bool)
    ensures
        r == runs(*item),
{
    match item.status_state() {
        Some(s) => compose::same_ignoring_ascii_case(s, "running"),
        None => false,
    }
}

/// Whether a container is listed.
pub fn container_exists(items: &Vec<ContainerListItem>, id: &str) -> (r: bool)
    ensures
        r == listed(items@, id@),
{
    let mut i: usize = 0;
    while i < items.len()
        invariant
            i <= items@.len(),
            forall|k: int| 0 <= k < i ==> (#[trigger] items@[k]).any_id() != Some(id@),
        decreases items@.len() - i,
    {
        if item_has_id(&items[i], id) {
            return true;
        }
        i += 1;
    }
    false
}

/// Whether a container is listed as running.
pub fn container_is_running(items: &Vec<ContainerListItem>, id: &str) -> (r: bool)
    ensures
        r == listed_running(items@, id@),
{
    let mut i: usize = 0;
    while i < items.len()
        invariant
            i <= items@.len(),
            forall|k: int|
                0 <= k < i ==> !((#[trigger] items@[k]).any_id() == Some(id@) && runs(items@[k])),
        decreases items@.len() - i,
    {
        if item_has_id(&items[i], id) && item_runs(&items[i]) {
            return true;
        }
        i += 1;
    }
    false
}

/// A container that runs exists.
pub proof fn running_implies_existing(items: Seq<ContainerListItem>, id: Seq<char>)
    requires
        listed_running(items, id),
    ensures
        listed(items, id),
{
}

} // verus!
