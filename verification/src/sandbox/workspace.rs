use crate::config;
use crate::failure;
use crate::failure::Failure;
use crate::sandbox::types;
use crate::text::path::DirPath;
use crate::text::{class, compose, number, path};
use crate::ui::ExitCode;
use vstd::prelude::*;
use vstd::utf8;

verus! {

/// The tool that runs the sandboxes.
#[derive(Clone, Copy, PartialEq, Eq, Structural, Debug)]
pub enum Backend {
    Lima,
    Container,
}

/// Whether a character of a project name stays in the name of its sandbox.
pub open spec fn is_kept(c: char) -> bool {
    class::alphanumeric(c) || c == '-' || c == '_'
}

/// The characters of a project name that stay in the name of its sandbox.
pub open spec fn kept(s: Seq<char>) -> Seq<char>
    decreases s.len(),
{
    if s.len() == 0 {
        Seq::empty()
    } else if is_kept(s.last()) {
        kept(s.drop_last()).push(s.last())
    } else {
        kept(s.drop_last())
    }
}

/// A project name reduced to letters, digits, hyphens and underscores; nothing if none is left.
pub fn sanitize_project_name(name: &str) -> (r: Option<String>)
    ensures
        compose::opt_text(r) == (if kept(name@).len() == 0 {
            None
        } else {
            Some(kept(name@))
        }),
{
    let cs = compose::chars_of(name);
    let mut s = String::new();
    let mut i: usize = 0;
    while i < cs.len()
        invariant
            i <= cs@.len(),
            cs@ == name@,
            s@ == kept(name@.take(i as int)),
        decreases cs@.len() - i,
    {
        assert(name@.take(i + 1).drop_last() =~= name@.take(i as int));
        let c: char = cs[i];
        if class::is_alphanumeric(c) || c == '-' || c == '_' {
            s.push(c);
        }
        i += 1;
    }
    assert(name@.take(i as int) =~= name@);
    if s.as_str().is_empty() {
        None
    } else {
        Some(s)
    }
}

/// The FNV-1a hash of some bytes.
pub open spec fn fnv(bytes: Seq<u8>) -> u64
    decreases bytes.len(),
{
    if bytes.len() == 0 {
        0xcbf29ce484222325
    } else {
        (fnv(bytes.drop_last()) ^ (bytes.last() as u64)).wrapping_mul(0x100000001b3)
    }
}

/// The mark that tells sandboxes apart whose projects lost characters from their names.
pub open spec fn name_mark(seed: Seq<char>) -> Seq<char> {
    number::hex((fnv(utf8::encode_utf8(seed)) % 0x1_0000_0000) as nat, 8)
}

/// The mark of a project name: the lower half of its hash, in hexadecimal notation.
pub fn project_name_suffix(seed: &str) -> (r: String)
    ensures
        r@ == name_mark(seed@),
{
    let bytes = seed.as_bytes();
    let mut h: u64 = 0xcbf29ce484222325;
    let mut i: usize = 0;
    while i < bytes.len()
        invariant
            i <= bytes@.len(),
            h == fnv(bytes@.take(i as int)),
        decreases bytes@.len() - i,
    {
        assert(bytes@.take(i + 1).drop_last() =~= bytes@.take(i as int));
        h = (h ^ (bytes[i] as u64)).wrapping_mul(0x100000001b3);
        i += 1;
    }
    assert(bytes@.take(i as int) =~= bytes@);
    number::to_hex(h % 0x1_0000_0000, 8)
}

/// A mark has eight characters, each a digit or one of the letters from `a` to `f`.
pub proof fn marks_have_eight_digits(seed: Seq<char>)
    ensures
        name_mark(seed).len() == 8,
        forall|i: int|
            0 <= i < 8 ==> class::ascii_digit(#[trigger] name_mark(seed)[i]) || 'a' <= name_mark(
                seed,
            )[i] <= 'f',
{
    reveal_with_fuel(number::hex_bound, 9);
    number::hex_fills_width((fnv(utf8::encode_utf8(seed)) % 0x1_0000_0000) as nat, 8);
}

/// The name of the sandbox of a project.
pub open spec fn sandbox_name(project: Seq<char>) -> Seq<char> {
    "tnk-"@ + (if kept(project) == project {
        kept(project)
    } else {
        kept(project) + "-"@ + name_mark(project)
    })
}

/// The name of the sandbox of a project.
pub fn sandbox_id(project: &str) -> (r: Option<String>)
    ensures
        compose::opt_text(r) == (if kept(project@).len() == 0 {
            None
        } else {
            Some(sandbox_name(project@))
        }),
{
    let name = match sanitize_project_name(project) {
        Some(n) => n,
        None => return None,
    };
    let token = if compose::same(name.as_str(), project) {
        name
    } else {
        let mark = project_name_suffix(project);
        compose::concat3(name.as_str(), "-", mark.as_str())
    };
    Some(compose::concat("tnk-", token.as_str()))
}

proof fn lemma_kept_chars(s: Seq<char>)
    ensures
        forall|i: int| 0 <= i < kept(s).len() ==> is_kept(#[trigger] kept(s)[i]),
    decreases s.len(),
{
    if s.len() > 0 {
        lemma_kept_chars(s.drop_last());
        let before = kept(s.drop_last());
        assert forall|i: int| 0 <= i < kept(s).len() implies is_kept(#[trigger] kept(s)[i]) by {
            if i < before.len() {
                assert(kept(s)[i] == before[i]);
            }
        }
    }
}

/// The reduced name of a project holds nothing but the characters that are kept, and a name that
/// holds nothing else is not changed.
pub proof fn sanitizing_keeps_good_names(s: Seq<char>)
    ensures
        forall|i: int| 0 <= i < kept(s).len() ==> is_kept(#[trigger] kept(s)[i]),
        (forall|i: int| 0 <= i < s.len() ==> is_kept(#[trigger] s[i])) ==> kept(s) == s,
    decreases s.len(),
{
    lemma_kept_chars(s);
    if s.len() > 0 && (forall|i: int| 0 <= i < s.len() ==> is_kept(#[trigger] s[i])) {
        assert forall|i: int| 0 <= i < s.drop_last().len() implies is_kept(
            #[trigger] s.drop_last()[i],
        ) by {
            assert(s.drop_last()[i] == s[i]);
        }
        sanitizing_keeps_good_names(s.drop_last());
        assert(s.drop_last().push(s.last()) =~= s);
    } else if s.len() == 0 {
        assert(kept(s) =~= s);
    }
}

/// Two projects share a sandbox only if one of their names lost characters: either both did, and
/// what is left and the marks agree, or the other name is just what the sandbox of the first is
/// called. Projects whose names are left as they are never share a sandbox.
pub proof fn sandboxes_tell_projects_apart(a: Seq<char>, b: Seq<char>)
    requires
        sandbox_name(a) == sandbox_name(b),
        a != b,
    ensures
        kept(a) != a || kept(b) != b,
        kept(a) != a && kept(b) != b ==> kept(a) == kept(b) && name_mark(a) == name_mark(b),
        kept(a) == a ==> a == kept(b) + "-"@ + name_mark(b),
        kept(b) == b ==> b == kept(a) + "-"@ + name_mark(a),
{
    let x = sandbox_name(a).skip("tnk-"@.len() as int);
    let token_a = if kept(a) == a {
        kept(a)
    } else {
        kept(a) + "-"@ + name_mark(a)
    };
    let token_b = if kept(b) == b {
        kept(b)
    } else {
        kept(b) + "-"@ + name_mark(b)
    };
    assert(x =~= token_a);
    assert(x =~= token_b);
    if kept(a) != a && kept(b) != b {
        marks_have_eight_digits(a);
        marks_have_eight_digits(b);
        let n = token_a.len();
        assert(token_a.skip(n - 8) =~= name_mark(a));
        assert(token_b.skip(n - 8) =~= name_mark(b));
        let m = n - 8 - "-"@.len();
        assert(token_a.take(m) =~= kept(a));
        assert(token_b.take(m) =~= kept(b));
    }
}

/// The workspace root: from the environment, else from the configuration, with the notations for
/// the home directory written out, else the default below the home directory.
pub open spec fn root_text(
    env: Option<Seq<char>>,
    configured: Option<Seq<char>>,
    home: Seq<char>,
) -> Seq<char> {
    match env {
        Some(v) => config::expanded(v, home),
        None => match configured {
            Some(w) => config::expanded(w, home),
            None => home + "/code"@,
        },
    }
}

/// The workspace root.
pub fn workspace_root(env: &Option<String>, configured: &Option<String>, home: &str) -> (r: String)
    ensures
        r@ == root_text(compose::opt_text(*env), compose::opt_text(*configured), home@),
{
    match env {
        Some(v) => config::expand_path(v.clone(), home),
        None => match configured {
            Some(w) => config::expand_path(w.clone(), home),
            None => compose::concat(home, "/code"),
        },
    }
}

/// The root that projects are looked for in is the one that the settings in force show.
pub proof fn the_root_in_force_is_used(
    file: config::TnkConfig,
    env: config::EnvOverrides,
    loaded: config::TnkConfig,
    home: Seq<char>,
    shown: config::ResolvedConfig,
)
    requires
        config::overridden(file, env, loaded),
        config::resolves_to(loaded, home, shown),
    ensures
        root_text(
            compose::opt_text(env.workspace_root),
            compose::opt_text(file.workspace_root),
            home,
        ) == shown.workspace_root@,
{
}

/// Why a directory cannot be the workspace root.
pub open spec fn root_fault(
    workspace: Seq<Seq<char>>,
    home: Seq<Seq<char>>,
    backend: Backend,
) -> Option<Seq<char>> {
    if workspace.len() == 0 {
        Some("workspace root cannot be '/'"@)
    } else if workspace == seq!["Users"@] {
        Some("workspace root cannot be '/Users'"@)
    } else if workspace == home {
        Some(
            "security violation: workspace root cannot be the home directory; use a dedicated subdirectory (for example, "@
                + (if backend == Backend::Lima {
                "~/code"@
            } else {
                "~/src"@
            }) + ")"@,
        )
    } else if !path::within(workspace, home) {
        Some("workspace root must be inside '$HOME'"@)
    } else {
        None
    }
}

/// Accepts a directory below the home directory as the workspace root.
pub fn validate_workspace_root(workspace: &DirPath, home: &DirPath, backend: Backend) -> (r: Result<
    (),
    Failure,
>)
    ensures
        types::fault(r) == root_fault(workspace@, home@, backend),
{
    assert(workspace@.len() == workspace.parts@.len());
    if workspace.parts.len() == 0 {
        return Err(failure::failure("workspace root cannot be '/'"));
    }
    let mut names = compose::no_texts();
    compose::push_text(&mut names, "Users");
    let users = DirPath { parts: names };
    if workspace.equals(&users) {
        return Err(failure::failure("workspace root cannot be '/Users'"));
    }
    if workspace.equals(home) {
        let example = match backend {
            Backend::Lima => "~/code",
            Backend::Container => "~/src",
        };
        return Err(
            failure::failed(
                compose::concat3(
                    "security violation: workspace root cannot be the home directory; use a dedicated subdirectory (for example, ",
                    example,
                    ")",
                ),
            ),
        );
    }
    if !workspace.starts_with(home) {
        return Err(failure::failure("workspace root must be inside '$HOME'"));
    }
    Ok(())
}

/// An accepted workspace root lies strictly below the home directory.
pub proof fn accepted_roots_lie_below_home(
    workspace: Seq<Seq<char>>,
    home: Seq<Seq<char>>,
    backend: Backend,
)
    requires
        root_fault(workspace, home, backend) is None,
    ensures
        path::within(workspace, home),
        workspace.len() > home.len(),
{
    if workspace.len() == home.len() {
        assert(workspace.take(home.len() as int) =~= workspace);
    }
}

/// What came of following the links of a path.
pub enum Canonical {
    Found(DirPath),
    NotFound,
    Denied(String),
    Broken(String),
}

/// What is known of the place that the program was started in.
pub struct Surroundings {
    /// The current directory as the system gives it.
    pub current: String,
    /// The current directory without links.
    pub canonical_current: DirPath,
    pub home: String,
    /// The home directory without links, or why it cannot be had.
    pub canonical_home: Result<DirPath, String>,
    /// The configuration directory without links, if it is there.
    pub canonical_config: Option<DirPath>,
    /// The workspace root as it is written.
    pub root: String,
    /// The workspace root without links.
    pub canonical_root: Canonical,
}

/// A sandbox and what it is for.
pub struct Workspace {
    pub id: String,
    /// The directory that the sandbox mounts.
    pub project_root: String,
    /// The directory that work goes on in.
    pub workdir: String,
}

/// A sandbox and what it is for, as mathematical values.
pub struct WorkspaceView {
    pub id: Seq<char>,
    pub project_root: Seq<char>,
    pub workdir: Seq<char>,
}

impl View for Workspace {
    type V = WorkspaceView;

    open spec fn view(&self) -> WorkspaceView {
        WorkspaceView {
            id: self.id@,
            project_root: self.project_root@,
            workdir: self.workdir@,
        }
    }
}

/// The sandbox of a directory below the workspace root: that of the project it belongs to.
pub open spec fn project_context(
    current: Seq<Seq<char>>,
    root: Seq<Seq<char>>,
    workdir: Seq<char>,
) -> Result<WorkspaceView, Seq<char>> {
    if current == root {
        Err("navigate into a project directory first"@)
    } else if !path::within(current, root) {
        Err("current directory is outside the configured workspace root"@)
    } else {
        let project = current[root.len() as int];
        if kept(project).len() == 0 {
            Err("sanitized project name is empty"@)
        } else {
            Ok(
                WorkspaceView {
                    id: sandbox_name(project),
                    project_root: path::shown(root.push(project)),
                    workdir,
                },
            )
        }
    }
}

/// The sandbox of the current directory.
pub open spec fn context(s: Surroundings, backend: Backend) -> Result<WorkspaceView, Seq<char>> {
    if s.canonical_config is Some && path::within(
        s.canonical_current@,
        s.canonical_config->0@,
    ) {
        Ok(
            WorkspaceView {
                id: "tnk-config"@,
                project_root: config::config_dir(s.home@),
                workdir: s.current@,
            },
        )
    } else {
        match s.canonical_root {
            Canonical::NotFound => Err("workspace root '"@ + s.root@ + "' does not exist"@),
            Canonical::Denied(e) => Err(
                "permission denied resolving workspace root '"@ + s.root@ + "': "@ + e@,
            ),
            Canonical::Broken(e) => Err(
                "failed to canonicalize workspace root '"@ + s.root@ + "': "@ + e@,
            ),
            Canonical::Found(root) => match s.canonical_home {
                Err(e) => Err("failed to canonicalize home directory: "@ + e@),
                Ok(home) => match root_fault(root@, home@, backend) {
                    Some(e) => Err(e),
                    None => project_context(s.canonical_current@, root@, s.current@),
                },
            },
        }
    }
}

fn resolve_project(current: &DirPath, root: &DirPath, workdir: &str) -> (r: Result<
    Workspace,
    Failure,
>)
    ensures
        match r {
            Ok(w) => project_context(current@, root@, workdir@) == Ok::<WorkspaceView, Seq<char>>(
                w@,
            ),
            Err(e) => project_context(current@, root@, workdir@) == Err::<
                WorkspaceView,
                Seq<char>,
            >(e@),
        },
{
    if current.equals(root) {
        return Err(failure::failure("navigate into a project directory first"));
    }
    if !current.starts_with(root) {
        return Err(
            failure::failure("current directory is outside the configured workspace root"),
        );
    }
    assert(current@.take(current@.len() as int) =~= current@);
    let project = &current.parts[root.parts.len()];
    assert(current@[root@.len() as int] == project@);
    match sandbox_id(project.as_str()) {
        None => Err(failure::failure("sanitized project name is empty")),
        Some(id) => {
            let mount = root.child(project.as_str());
            Ok(Workspace { id, project_root: mount.to_text(), workdir: workdir.to_owned() })
        },
    }
}

/// The sandbox of the current directory: that of the configuration inside the configuration
/// directory, else that of the project of the workspace that the directory belongs to.
pub fn resolve_workspace_context(s: &Surroundings, backend: Backend) -> (r: Result<
    Workspace,
    Failure,
>)
    ensures
        match r {
            Ok(w) => context(*s, backend) == Ok::<WorkspaceView, Seq<char>>(w@),
            Err(e) => context(*s, backend) == Err::<WorkspaceView, Seq<char>>(e@),
        },
{
    match &s.canonical_config {
        Some(dir) => {
            if s.canonical_current.starts_with(dir) {
                return Ok(
                    Workspace {
                        id: "tnk-config".to_owned(),
                        project_root: config::config_directory(s.home.as_str()),
                        workdir: s.current.clone(),
                    },
                );
            }
        },
        None => {},
    }
    let root = match &s.canonical_root {
        Canonical::Found(root) => root,
        Canonical::NotFound => return Err(
            failure::failed(
                compose::concat3("workspace root '", s.root.as_str(), "' does not exist"),
            ),
        ),
        Canonical::Denied(e) => return Err(
            failure::failed(
                compose::concat4(
                    "permission denied resolving workspace root '",
                    s.root.as_str(),
                    "': ",
                    e.as_str(),
                ),
            ),
        ),
        Canonical::Broken(e) => return Err(
            failure::failed(
                compose::concat4(
                    "failed to canonicalize workspace root '",
                    s.root.as_str(),
                    "': ",
                    e.as_str(),
                ),
            ),
        ),
    };
    let home = match &s.canonical_home {
        Ok(h) => h,
        Err(e) => return Err(
            failure::failed(
                compose::concat("failed to canonicalize home directory: ", e.as_str()),
            ),
        ),
    };
    match validate_workspace_root(root, home, backend) {
        Err(e) => Err(e),
        Ok(_) => resolve_project(&s.canonical_current, root, s.current.as_str()),
    }
}

/// What is printed when the workspace root does not exist.
pub fn missing_root_lines(root: &str) -> (r: Vec<String>)
    ensures
        compose::texts(r@) == seq![
            "error: workspace root '"@ + root@ + "' does not exist"@,
            "info: create it with 'mkdir -p "@ + root@ + "' or set TNK_WORKSPACE_ROOT"@,
        ],
{
    let mut v = compose::no_texts();
    compose::push_string(
        &mut v,
        compose::concat3("error: workspace root '", root, "' does not exist"),
    );
    compose::push_string(
        &mut v,
        compose::concat3(
            "info: create it with 'mkdir -p ",
            root,
            "' or set TNK_WORKSPACE_ROOT",
        ),
    );
    v
}

/// The exit code with which a missing workspace root ends the program at once, if it does.
pub fn missing_root_exit(backend: Backend) -> (r: Option<ExitCode>)
    ensures
        r == (if backend == Backend::Container {
            Some(ExitCode::NotFound)
        } else {
            None
        }),
{
    match backend {
        Backend::Lima => None,
        Backend::Container => Some(ExitCode::NotFound),
    }
}

/// Whether a sandbox mounts a directory that holds the current one and lies more than one level
/// below the home directory.
pub open spec fn mounts_project(s: Surroundings, mount: Seq<Seq<char>>, w: WorkspaceView) -> bool {
    &&& w.project_root == path::shown(mount)
    &&& path::within(s.canonical_current@, mount)
    &&& path::within(mount, s.canonical_home->Ok_0@)
    &&& mount.len() > s.canonical_home->Ok_0@.len() + 1
}

/// All directories of a project belong to the same sandbox, which mounts the project.
pub proof fn projects_have_one_sandbox(
    a: Seq<Seq<char>>,
    b: Seq<Seq<char>>,
    root: Seq<Seq<char>>,
    project: Seq<char>,
    workdir: Seq<char>,
    other: Seq<char>,
)
    requires
        path::within(a, root.push(project)),
        path::within(b, root.push(project)),
    ensures
        match project_context(a, root, workdir) {
            Ok(w) => project_context(b, root, other) matches Ok(v) && v.id == w.id && v.project_root
                == w.project_root && w.project_root == path::shown(root.push(project)),
            Err(e) => project_context(b, root, other) matches Err(f) && f == e,
        },
{
    lemma_below_root(a, root, project);
    lemma_below_root(b, root, project);
}

proof fn lemma_below_root(a: Seq<Seq<char>>, root: Seq<Seq<char>>, project: Seq<char>)
    requires
        path::within(a, root.push(project)),
    ensures
        path::within(a, root),
        a != root,
        a[root.len() as int] == project,
{
    let n = root.len() as int;
    assert(a.take(n + 1)[n] == a[n]);
    assert(a.take(n) =~= a.take(n + 1).take(n));
    assert(root.push(project).take(n) =~= root);
}

/// What a sandbox mounts is a directory directly below the workspace root that holds the current
/// directory, so never the home directory or anything that contains it; the one exception is the
/// configuration directory.
pub proof fn sandboxes_mount_only_projects(s: Surroundings, backend: Backend)
    ensures
        context(s, backend) matches Ok(w) ==> {
            ||| w.project_root == config::config_dir(s.home@) && w.id == "tnk-config"@
            ||| {
                &&& s.canonical_root is Found
                &&& s.canonical_home is Ok
                &&& exists|project: Seq<char>| #[trigger]
                    mounts_project(s, s.canonical_root->Found_0@.push(project), w)
            }
        },
{
    if let Ok(w) = context(s, backend) {
        if !(s.canonical_config is Some && path::within(
            s.canonical_current@,
            s.canonical_config->0@,
        )) {
            let root = s.canonical_root->Found_0@;
            let home = s.canonical_home->Ok_0@;
            let current = s.canonical_current@;
            accepted_roots_lie_below_home(root, home, backend);
            assert(current.len() > root.len()) by {
                if current.len() == root.len() {
                    assert(current.take(root.len() as int) =~= current);
                }
            }
            let project = current[root.len() as int];
            let mount = root.push(project);
            assert(w.project_root == path::shown(mount));
            assert(current.take(mount.len() as int) =~= mount) by {
                assert forall|i: int| 0 <= i < mount.len() implies current[i] == mount[i] by {
                    if i < root.len() {
                        assert(current.take(root.len() as int)[i] == root[i]);
                    }
                }
            }
            assert(mount.take(home.len() as int) =~= root.take(home.len() as int));
            assert(mounts_project(s, mount, w));
        }
    }
}

/// The directory inside a sandbox that stands for a directory outside.
pub open spec fn guest_dir(
    guest_root: Seq<char>,
    workdir: Seq<char>,
    project_root: Seq<char>,
) -> Seq<char> {
    let w = path::directory(workdir);
    let p = path::directory(project_root);
    if path::within(w, p) {
        path::below(guest_root, compose::joined(w.skip(p.len() as int), "/"@))
    } else {
        guest_root
    }
}

/// A directory of a project is found inside at the same place below the mount point: the names that
/// lead to it are those of the mount point, then all those that lead from the project to it, in
/// their order. Any other directory stands for the mount point.
pub proof fn guests_see_the_same_tree(
    guest_root: Seq<char>,
    workdir: Seq<char>,
    project_root: Seq<char>,
)
    ensures
        ({
            let w = path::directory(workdir);
            let p = path::directory(project_root);
            let r = guest_dir(guest_root, workdir, project_root);
            &&& path::within(w, p) ==> path::directory(r) == path::directory(guest_root) + w.skip(
                p.len() as int,
            )
            &&& !path::within(w, p) ==> r == guest_root
        }),
{
    let w = path::directory(workdir);
    let p = path::directory(project_root);
    if path::within(w, p) {
        let rest = w.skip(p.len() as int);
        assert forall|i: int| 0 <= i < rest.len() implies path::is_step(#[trigger] rest[i]) by {
            path::directories_are_named(workdir, i + p.len());
        }
        path::ways_lead_on(guest_root, rest);
    }
}

/// The directory inside a sandbox that stands for a directory outside; the mount point itself for
/// a directory outside the project.
pub fn guest_workdir(guest_root: &str, workdir: &str, project_root: &str) -> (r: String)
    ensures
        r@ == guest_dir(guest_root@, workdir@, project_root@),
        path::within(path::directory(workdir@), path::directory(project_root@))
            ==> path::directory(r@) == path::directory(guest_root@) + path::directory(workdir@).skip(
            path::directory(project_root@).len() as int,
        ),
{
    proof {
        guests_see_the_same_tree(guest_root@, workdir@, project_root@);
    }
    let w = path::parse_dir(workdir);
    let p = path::parse_dir(project_root);
    match w.relative_to(&p) {
        Some(rest) => {
            let tail = compose::join(&rest, "/");
            path::join_path(guest_root, tail.as_str())
        },
        None => guest_root.to_owned(),
    }
}

} // verus!
