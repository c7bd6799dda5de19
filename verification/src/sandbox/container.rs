use crate::failure;
use crate::failure::Failure;
use crate::sandbox::shared;
use crate::sandbox::ResourceLimits;
use crate::text::{compose, edge, number};
use vstd::prelude::*;

verus! {

/// Sandboxes in containers.
pub struct ContainerBackend;

/// What a profile says of what its sandboxes may do.
pub struct SecurityCaps {
    pub network: Option<String>,
    pub workspace_mode: Option<String>,
}

/// What a profile says of its containers.
pub struct ContainerManifest {
    pub image: Option<String>,
    pub resources: Option<ResourceLimits>,
    /// Directories outside with the places inside, in the order in which they are mounted.
    pub mounts: Option<Vec<(String, String)>>,
    pub security: Option<SecurityCaps>,
}

/// A directory outside that is seen inside.
pub struct MountSpec {
    pub host: String,
    pub guest: String,
    pub read_only: bool,
}

/// The settings that a profile comes to.
pub struct ContainerProfileSettings {
    pub image: String,
    pub workspace_guest_path: String,
    pub mounts: Vec<MountSpec>,
    pub network_none: bool,
    pub cpus: Option<u32>,
    pub memory: Option<String>,
    pub uses_golden_image: bool,
}

/// A mount, as mathematical values: the place outside, the place inside, and whether it can only
/// be read.
pub struct MountView {
    pub host: Seq<char>,
    pub guest: Seq<char>,
    pub read_only: bool,
}

impl View for MountSpec {
    type V = MountView;

    open spec fn view(&self) -> MountView {
        MountView { host: self.host@, guest: self.guest@, read_only: self.read_only }
    }
}

/// The mounts of a list.
pub open spec fn mount_views(v: Seq<MountSpec>) -> Seq<MountView> {
    v.map_values(|m: MountSpec| m@)
}

/// The settings of a container, as mathematical values.
pub struct SettingsView {
    pub image: Seq<char>,
    pub guest: Seq<char>,
    pub mounts: Seq<MountView>,
    pub network_none: bool,
    pub cpus: Option<u32>,
    pub memory: Option<Seq<char>>,
    pub golden: bool,
}

impl View for ContainerProfileSettings {
    type V = SettingsView;

    open spec fn view(&self) -> SettingsView {
        SettingsView {
            image: self.image@,
            guest: self.workspace_guest_path@,
            mounts: mount_views(self.mounts@),
            network_none: self.network_none,
            cpus: self.cpus,
            memory: compose::opt_text(self.memory),
            golden: self.uses_golden_image,
        }
    }
}

/// The image that a profile can have been baked into.
pub open spec fn golden_tag(profile: Seq<char>) -> Seq<char> {
    "tnk-profile-"@ + profile + ":latest"@
}

/// The image that a profile can have been baked into.
pub fn golden_image_tag(profile_name: &str) -> (r: String)
    ensures
        r@ == golden_tag(profile_name@),
{
    compose::concat3("tnk-profile-", profile_name, ":latest")
}

/// A path with a leading `~/` written out.
pub open spec fn home_expanded(input: Seq<char>, home: Seq<char>) -> Seq<char> {
    match edge::after_prefix(input, "~/"@) {
        Some(tail) => home + "/"@ + tail,
        None => input,
    }
}

/// Writes out a leading `~/`.
pub fn expand_home_path(input: &str, home: &str) -> (r: String)
    ensures
        r@ == home_expanded(input@, home@),
{
    match edge::strip_prefix(input, "~/") {
        Some(tail) => compose::concat3(home, "/", tail.as_str()),
        None => input.to_owned(),
    }
}

/// The place inside that a text names, and whether it can only be read.
pub open spec fn guest_target(value: Seq<char>) -> Result<(Seq<char>, bool), Seq<char>> {
    let raw = edge::trimmed(value);
    if raw.len() == 0 {
        Err("invalid guest mount target: empty"@)
    } else {
        let (guest, read_only) = match edge::before_suffix(raw, ":ro"@) {
            Some(g) => (g, true),
            None => (raw, false),
        };
        if edge::begins(guest, "/"@) {
            Ok((guest, read_only))
        } else {
            Err("invalid guest mount target '"@ + value + "' (must be absolute)"@)
        }
    }
}

/// The place inside that a text names, and whether it can only be read.
pub fn parse_guest_mount_target(value: &str) -> (r: Result<(String, bool), Failure>)
    ensures
        match r {
            Ok(p) => guest_target(value@) == Ok::<(Seq<char>, bool), Seq<char>>((p.0@, p.1)),
            Err(e) => guest_target(value@) == Err::<(Seq<char>, bool), Seq<char>>(e@),
        },
{
    let raw = edge::trim(value);
    if raw.as_str().is_empty() {
        return Err(failure::failure("invalid guest mount target: empty"));
    }
    let (guest, read_only) = match edge::strip_suffix(raw.as_str(), ":ro") {
        Some(g) => (g, true),
        None => (raw, false),
    };
    if !edge::starts_with(guest.as_str(), "/") {
        return Err(
            failure::failed(
                compose::concat3(
                    "invalid guest mount target '",
                    value,
                    "' (must be absolute)",
                ),
            ),
        );
    }
    Ok((guest, read_only))
}

/// What the mounts of a manifest come to: where the workspace is seen, and the other mounts.
pub open spec fn manifest_mounts(pairs: Seq<(Seq<char>, Seq<char>)>, home: Seq<char>) -> Result<
    (Seq<char>, Seq<MountView>),
    Seq<char>,
>
    decreases pairs.len(),
{
    if pairs.len() == 0 {
        Ok(("/workspace"@, Seq::empty()))
    } else {
        match manifest_mounts(pairs.drop_last(), home) {
            Err(e) => Err(e),
            Ok((guest, mounts)) => {
                let (key, value) = pairs.last();
                let host = home_expanded(edge::trimmed(key), home);
                if key == "workspace"@ {
                    if edge::begins(edge::trimmed(value), "/"@) {
                        Ok((edge::trimmed(value), mounts))
                    } else {
                        Ok((guest, mounts))
                    }
                } else if host.len() == 0 {
                    Ok((guest, mounts))
                } else {
                    match guest_target(value) {
                        Err(e) => Err(e),
                        Ok((inside, read_only)) => Ok(
                            (guest, mounts.push(MountView { host, guest: inside, read_only })),
                        ),
                    }
                }
            },
        }
    }
}

proof fn lemma_mount_fault_stays(pairs: Seq<(Seq<char>, Seq<char>)>, home: Seq<char>, n: int)
    requires
        0 <= n <= pairs.len(),
        manifest_mounts(pairs.take(n), home) is Err,
    ensures
        manifest_mounts(pairs, home) == manifest_mounts(pairs.take(n), home),
    decreases pairs.len() - n,
{
    if n < pairs.len() {
        assert(pairs.take(n + 1).drop_last() =~= pairs.take(n));
        lemma_mount_fault_stays(pairs, home, n + 1);
    } else {
        assert(pairs.take(n) =~= pairs);
    }
}

fn read_mounts(pairs: &Vec<(String, String)>, home: &str) -> (r: Result<
    (String, Vec<MountSpec>),
    Failure,
>)
    ensures
        match r {
            Ok(p) => manifest_mounts(compose::pair_texts(pairs@), home@) == Ok::<
                (Seq<char>, Seq<MountView>),
                Seq<char>,
            >((p.0@, mount_views(p.1@))),
            Err(e) => manifest_mounts(compose::pair_texts(pairs@), home@) == Err::<
                (Seq<char>, Seq<MountView>),
                Seq<char>,
            >(e@),
        },
{
    let ghost all = compose::pair_texts(pairs@);
    let mut guest = "/workspace".to_owned();
    let mut mounts: Vec<MountSpec> = Vec::new();
    let mut i: usize = 0;
    assert(mount_views(mounts@) =~= Seq::<MountView>::empty());
    while i < pairs.len()
        invariant
            i <= pairs@.len(),
            all == compose::pair_texts(pairs@),
            manifest_mounts(all.take(i as int), home@) == Ok::<
                (Seq<char>, Seq<MountView>),
                Seq<char>,
            >((guest@, mount_views(mounts@))),
        decreases pairs@.len() - i,
    {
        assert(all.take(i + 1).drop_last() =~= all.take(i as int));
        assert(all.take(i + 1).last() == (pairs@[i as int].0@, pairs@[i as int].1@));
        let key = pairs[i].0.as_str();
        let value = pairs[i].1.as_str();
        let trimmed_key = edge::trim(key);
        let host = expand_home_path(trimmed_key.as_str(), home);
        if compose::same(key, "workspace") {
            let place = edge::trim(value);
            if edge::starts_with(place.as_str(), "/") {
                guest = place;
            }
        } else if !host.as_str().is_empty() {
            match parse_guest_mount_target(value) {
                Ok((inside, read_only)) => {
                    let ghost before = mounts@;
                    let m = MountSpec { host, guest: inside, read_only };
                    mounts.push(m);
                    assert(mount_views(mounts@) =~= mount_views(before).push(m@));
                },
                Err(e) => {
                    proof {
                        lemma_mount_fault_stays(all, home@, i + 1);
                    }
                    return Err(e);
                },
            }
        }
        i += 1;
    }
    assert(all.take(i as int) =~= all);
    Ok((guest, mounts))
}

/// Whether a network setting cuts a container off.
pub open spec fn cuts_network(security: Option<SecurityCaps>) -> bool {
    match security {
        Some(s) => match s.network {
            Some(n) => {
                let mode = compose::ascii_lower(edge::trimmed(n@));
                mode == "none"@ || mode == "restricted"@
            },
            None => false,
        },
        None => false,
    }
}

/// Whether a workspace mode asks for what is not there.
pub open spec fn asks_overlay(security: Option<SecurityCaps>) -> bool {
    match security {
        Some(s) => match s.workspace_mode {
            Some(m) => compose::ascii_lower(edge::trimmed(m@)) == "overlay"@,
            None => false,
        },
        None => false,
    }
}

/// The image of a manifest, unless it is blank.
pub open spec fn manifest_image(image: Option<String>) -> Seq<char> {
    match image {
        Some(i) => if edge::trimmed(i@).len() > 0 {
            edge::trimmed(i@)
        } else {
            "debian:13-slim"@
        },
        None => "debian:13-slim"@,
    }
}

/// The mounts of a manifest as pairs of texts.
pub open spec fn manifest_pairs(m: ContainerManifest) -> Seq<(Seq<char>, Seq<char>)> {
    match m.mounts {
        Some(v) => compose::pair_texts(v@),
        None => Seq::empty(),
    }
}

/// The settings that the manifest of a profile comes to for a project: the workspace is always
/// the first mount and can be written.
pub open spec fn profile_settings(
    m: Option<ContainerManifest>,
    profile: Seq<char>,
    project_root: Seq<char>,
    home: Seq<char>,
    golden: bool,
) -> Result<SettingsView, Seq<char>> {
    let pairs = match m {
        Some(x) => manifest_pairs(x),
        None => Seq::empty(),
    };
    match manifest_mounts(pairs, home) {
        Err(e) => Err(e),
        Ok((guest, mounts)) => Ok(
            SettingsView {
                image: if golden {
                    golden_tag(profile)
                } else {
                    match m {
                        Some(x) => manifest_image(x.image),
                        None => "debian:13-slim"@,
                    }
                },
                guest,
                mounts: seq![MountView { host: project_root, guest, read_only: false }] + mounts,
                network_none: m matches Some(x) && cuts_network(x.security),
                cpus: match m {
                    Some(x) => match x.resources {
                        Some(l) => l.cpus,
                        None => None,
                    },
                    None => None,
                },
                memory: match m {
                    Some(x) => match x.resources {
                        Some(l) => compose::opt_text(l.memory),
                        None => None,
                    },
                    None => None,
                },
                golden,
            },
        ),
    }
}

fn mode_is(text: &str, mode: &str) -> (r: bool)
    ensures
        r == (compose::ascii_lower(edge::trimmed(text@)) == mode@),
{
    let trimmed = edge::trim(text);
    let lowered = compose::to_ascii_lower(trimmed.as_str());
    compose::same(lowered.as_str(), mode)
}

fn network_is_cut(security: &Option<SecurityCaps>) -> (r: bool)
    ensures
        r == cuts_network(*security),
{
    match security {
        Some(s) => match &s.network {
            Some(n) => mode_is(n.as_str(), "none") || mode_is(n.as_str(), "restricted"),
            None => false,
        },
        None => false,
    }
}

/// The warning about a workspace mode that asks for what is not there.
pub fn overlay_warning(m: &Option<ContainerManifest>) -> (r: Option<String>)
    ensures
        compose::opt_text(r) == (if m matches Some(x) && asks_overlay(x.security) {
            Some(
                "warning: workspace_mode=overlay requested; overlay semantics are not implemented yet, using direct mount"@,
            )
        } else {
            None
        }),
{
    match m {
        Some(x) => match &x.security {
            Some(s) => match &s.workspace_mode {
                Some(mode) => if mode_is(mode.as_str(), "overlay") {
                    Some(
                        "warning: workspace_mode=overlay requested; overlay semantics are not implemented yet, using direct mount".to_owned(),
                    )
                } else {
                    None
                },
                None => None,
            },
            None => None,
        },
        None => None,
    }
}

/// The settings that the manifest of a profile comes to for a project.
pub fn container_profile_settings(
    manifest: &Option<ContainerManifest>,
    profile_name: &str,
    project_root: &str,
    home: &str,
    golden_exists: bool,
) -> (r: Result<ContainerProfileSettings, Failure>)
    ensures
        match r {
            Ok(s) => profile_settings(
                *manifest,
                profile_name@,
                project_root@,
                home@,
                golden_exists,
            ) == Ok::<SettingsView, Seq<char>>(s@),
            Err(e) => profile_settings(
                *manifest,
                profile_name@,
                project_root@,
                home@,
                golden_exists,
            ) == Err::<SettingsView, Seq<char>>(e@),
        },
{
    let mut image = "debian:13-slim".to_owned();
    let mut network_none = false;
    let mut cpus: Option<u32> = None;
    let mut memory: Option<String> = None;
    let mut pairs: &Vec<(String, String)> = &shared::no_envs();
    match manifest {
        Some(m) => {
            match &m.image {
                Some(i) => {
                    let t = edge::trim(i.as_str());
                    if !t.as_str().is_empty() {
                        image = t;
                    }
                },
                None => {},
            }
            match &m.resources {
                Some(l) => {
                    cpus = l.cpus;
                    memory = match &l.memory {
                        Some(s) => Some(s.clone()),
                        None => None,
                    };
                },
                None => {},
            }
            network_none = network_is_cut(&m.security);
            match &m.mounts {
                Some(v) => {
                    pairs = v;
                },
                None => {},
            }
        },
        None => {},
    }
    let (guest, others) = match read_mounts(pairs, home) {
        Ok(p) => p,
        Err(e) => return Err(e),
    };
    let ghost rest = others@;
    let own = MountSpec { host: project_root.to_owned(), guest: guest.clone(), read_only: false };
    let mut mounts = others;
    mounts.insert(0, own);
    assert(mount_views(mounts@) =~= seq![own@] + mount_views(rest));
    if golden_exists {
        image = golden_image_tag(profile_name);
    }
    Ok(
        ContainerProfileSettings {
            image,
            workspace_guest_path: guest,
            mounts,
            network_none,
            cpus,
            memory,
            uses_golden_image: golden_exists,
        },
    )
}

/// What the container tool is told of a mount.
pub open spec fn volume(m: MountView) -> Seq<char> {
    if m.read_only {
        m.host + ":"@ + m.guest + ":ro"@
    } else {
        m.host + ":"@ + m.guest
    }
}

/// The arguments that mount directories.
pub open spec fn volume_args(mounts: Seq<MountView>) -> Seq<Seq<char>>
    decreases mounts.len(),
{
    if mounts.len() == 0 {
        Seq::empty()
    } else {
        volume_args(mounts.drop_last()).push("--volume"@).push(volume(mounts.last()))
    }
}

/// The arguments that create a container.
pub open spec fn create_args(id: Seq<char>, s: SettingsView) -> Seq<Seq<char>> {
    seq![
        "create"@,
        "--name"@,
        id,
        "--platform"@,
        "linux/arm64"@,
        "--detach"@,
        "--label"@,
        "tnk.managed=true"@,
        "--label"@,
        "tnk.owner=project"@,
        "--label"@,
        "tnk.profile.base=true"@,
    ] + (if s.network_none {
        seq!["--network"@, "none"@]
    } else {
        Seq::empty()
    }) + (match s.cpus {
        Some(n) => seq!["--cpus="@ + number::decimal(n as nat)],
        None => Seq::empty(),
    }) + (match s.memory {
        Some(m) => if edge::trimmed(m).len() > 0 {
            seq!["--memory="@ + edge::trimmed(m)]
        } else {
            Seq::empty()
        },
        None => Seq::empty(),
    }) + volume_args(s.mounts) + seq![
        "--workdir"@,
        s.guest,
        s.image,
        "sh"@,
        "-lc"@,
        "while true; do sleep 3600; done"@,
    ]
}

fn push_volumes(v: &mut Vec<String>, mounts: &Vec<MountSpec>)
    ensures
        compose::texts(final(v)@) == compose::texts(old(v)@) + volume_args(mount_views(mounts@)),
{
    let ghost before = compose::texts(v@);
    let ghost all = mount_views(mounts@);
    let mut i: usize = 0;
    assert(before + volume_args(all.take(0)) =~= before);
    while i < mounts.len()
        invariant
            i <= mounts@.len(),
            all == mount_views(mounts@),
            compose::texts(v@) == before + volume_args(all.take(i as int)),
        decreases mounts@.len() - i,
    {
        assert(all.take(i + 1).drop_last() =~= all.take(i as int));
        assert(all.take(i + 1).last() == mounts@[i as int]@);
        let m = &mounts[i];
        compose::push_text(v, "--volume");
        if m.read_only {
            compose::push_string(
                v,
                compose::concat4(m.host.as_str(), ":", m.guest.as_str(), ":ro"),
            );
        } else {
            compose::push_string(v, compose::concat3(m.host.as_str(), ":", m.guest.as_str()));
        }
        i += 1;
        assert(compose::texts(v@) =~= before + volume_args(all.take(i as int)));
    }
    assert(all.take(i as int) =~= all);
}

/// The arguments that create a container.
pub fn create_args_for_settings(id: &str, settings: &ContainerProfileSettings) -> (r: Vec<String>)
    ensures
        compose::texts(r@) == create_args(id@, settings@),
{
    let mut v = compose::list6("create", "--name", id, "--platform", "linux/arm64", "--detach");
    compose::push_all(
        &mut v,
        &compose::list6(
            "--label",
            "tnk.managed=true",
            "--label",
            "tnk.owner=project",
            "--label",
            "tnk.profile.base=true",
        ),
    );
    let ghost first = compose::texts(v@);
    if settings.network_none {
        compose::push_all(&mut v, &compose::list2("--network", "none"));
    }
    match settings.cpus {
        Some(n) => {
            let digits = number::to_decimal(n as u64);
            compose::push_string(&mut v, compose::concat("--cpus=", digits.as_str()));
        },
        None => {},
    }
    match &settings.memory {
        Some(m) => {
            let t = edge::trim(m.as_str());
            if !t.as_str().is_empty() {
                compose::push_string(&mut v, compose::concat("--memory=", t.as_str()));
            }
        },
        None => {},
    }
    let ghost sized = compose::texts(v@);
    push_volumes(&mut v, &settings.mounts);
    compose::push_all(
        &mut v,
        &compose::list6(
            "--workdir",
            settings.workspace_guest_path.as_str(),
            settings.image.as_str(),
            "sh",
            "-lc",
            "while true; do sleep 3600; done",
        ),
    );
    assert(compose::texts(v@) =~= create_args(id@, settings@));
    v
}

/// A container sees nothing of the host but the directories that its settings name: there is one
/// mount argument for each of them, in their order, and what can only be read is marked so.
pub proof fn containers_mount_only_settings(mounts: Seq<MountView>, i: int)
    requires
        0 <= i < mounts.len(),
    ensures
        volume_args(mounts).len() == 2 * mounts.len(),
        volume_args(mounts)[2 * i] == "--volume"@,
        volume_args(mounts)[2 * i + 1] == volume(mounts[i]),
    decreases mounts.len(),
{
    lemma_volume_count(mounts);
    lemma_volume_count(mounts.drop_last());
    if i < mounts.len() - 1 {
        containers_mount_only_settings(mounts.drop_last(), i);
        assert(volume_args(mounts)[2 * i] == volume_args(mounts.drop_last())[2 * i]);
        assert(volume_args(mounts)[2 * i + 1] == volume_args(mounts.drop_last())[2 * i + 1]);
    }
}

proof fn lemma_volume_count(mounts: Seq<MountView>)
    ensures
        volume_args(mounts).len() == 2 * mounts.len(),
    decreases mounts.len(),
{
    if mounts.len() > 0 {
        lemma_volume_count(mounts.drop_last());
    }
}

/// A profile that names no mounts of its own gives its sandboxes the project and nothing else.
pub proof fn plain_profiles_mount_only_the_project(
    m: Option<ContainerManifest>,
    profile: Seq<char>,
    project_root: Seq<char>,
    home: Seq<char>,
    golden: bool,
)
    requires
        m matches Some(x) ==> manifest_pairs(x).len() == 0,
    ensures
        profile_settings(m, profile, project_root, home, golden) matches Ok(s) && s.mounts == seq![
            MountView { host: project_root, guest: "/workspace"@, read_only: false },
        ],
{
    assert(seq![MountView { host: project_root, guest: "/workspace"@, read_only: false }] + Seq::<
        MountView,
    >::empty() =~= seq![MountView { host: project_root, guest: "/workspace"@, read_only: false }]);
}

/// What the container tool reads from the argument of a mount: the place outside stands before the
/// first colon, the place inside behind it, and a mark at the end tells that it can only be read.
pub proof fn volumes_are_read_back(m: MountView)
    requires
        !m.host.contains(':'),
    ensures
        edge::cut(volume(m), ':') matches Some(c) && c.0 == m.host && (if m.read_only {
            edge::before_suffix(c.1, ":ro"@) == Some(m.guest)
        } else {
            c.1 == m.guest
        }),
{
    let v = volume(m);
    reveal_strlit(":");
    reveal_strlit(":ro");
    let n = m.host.len() as int;
    assert(v[n] == ':');
    assert(v.contains(':'));
    edge::lemma_first_at(v, ':');
    let at = edge::first_at(v, ':');
    assert(at == n) by {
        if at < n {
            assert(v[at] == m.host[at]);
            assert(m.host.contains(':'));
        }
    }
    assert(v.take(at) =~= m.host);
    let rest = v.skip(at + 1);
    if m.read_only {
        assert(rest =~= m.guest + ":ro"@);
        assert(rest.subrange(rest.len() - 3, rest.len() as int) =~= ":ro"@);
        assert(rest.take(rest.len() - 3) =~= m.guest);
    } else {
        assert(rest =~= m.guest);
    }
}

/// A container sees its project: the first mount is the directory of the project at the place of
/// the workspace, where it can be written to, and commands begin there.
pub proof fn containers_see_their_project(
    m: Option<ContainerManifest>,
    profile: Seq<char>,
    project_root: Seq<char>,
    home: Seq<char>,
    golden: bool,
    id: Seq<char>,
)
    ensures
        profile_settings(m, profile, project_root, home, golden) matches Ok(s) ==> {
            let args = create_args(id, s);
            &&& s.mounts.len() > 0
            &&& s.mounts[0].host == project_root
            &&& s.mounts[0].guest == s.guest
            &&& !s.mounts[0].read_only
            &&& args[0] == "create"@ && args[1] == "--name"@ && args[2] == id
            &&& args[args.len() - 6] == "--workdir"@
            &&& args[args.len() - 5] == s.guest
            &&& args[args.len() - 4] == s.image
        },
{
}

/// Whether one of some pairs names the two places of a mount, and marks it if it can only be read.
pub open spec fn is_named(
    pairs: Seq<(Seq<char>, Seq<char>)>,
    home: Seq<char>,
    mount: MountView,
) -> bool {
    exists|i: int|
        {
            &&& 0 <= i < pairs.len()
            &&& (#[trigger] pairs[i]).0 != "workspace"@
            &&& mount.host == home_expanded(edge::trimmed(pairs[i].0), home)
            &&& edge::begins(mount.guest, "/"@)
            &&& edge::trimmed(pairs[i].1) == (if mount.read_only {
                mount.guest + ":ro"@
            } else {
                mount.guest
            })
        }
}

/// Every other mount of a container is named by the manifest of its profile, and one that the
/// manifest marks can only be read.
pub proof fn mounts_are_asked_for(pairs: Seq<(Seq<char>, Seq<char>)>, home: Seq<char>, i: int)
    ensures
        manifest_mounts(pairs, home) matches Ok(r) ==> (0 <= i < r.1.len() ==> is_named(
            pairs,
            home,
            r.1[i],
        )),
    decreases pairs.len(),
{
    if pairs.len() > 0 {
        let fewer = pairs.drop_last();
        mounts_are_asked_for(fewer, home, i);
        if let Ok(r) = manifest_mounts(pairs, home) {
            if 0 <= i < r.1.len() {
                let before = manifest_mounts(fewer, home)->Ok_0.1;
                if i < before.len() {
                    assert(r.1[i] == before[i]);
                    let j = choose|j: int|
                        {
                            &&& 0 <= j < fewer.len()
                            &&& (#[trigger] fewer[j]).0 != "workspace"@
                            &&& r.1[i].host == home_expanded(edge::trimmed(fewer[j].0), home)
                            &&& edge::begins(r.1[i].guest, "/"@)
                            &&& edge::trimmed(fewer[j].1) == (if r.1[i].read_only {
                                r.1[i].guest + ":ro"@
                            } else {
                                r.1[i].guest
                            })
                        };
                    assert(pairs[j] == fewer[j]);
                } else {
                    let n = pairs.len() - 1;
                    let raw = edge::trimmed(pairs[n].1);
                    assert(pairs[n] == pairs.last());
                    if edge::ends(raw, ":ro"@) {
                        let k = raw.len() - ":ro"@.len();
                        assert(raw =~= raw.take(k) + raw.subrange(k, raw.len() as int));
                    }
                    assert(is_named(pairs, home, r.1[i]));
                }
            }
        }
    }
}

} // verus!
