use crate::download::{HfUrl, UrlView};
use crate::failure;
use crate::failure::Failure;
use crate::text::class::Class;
use crate::text::{class, compose, edge, path, split};
use vstd::prelude::*;

verus! {

/// Whether a path leads upwards at its beginning.
pub open spec fn leads_up(segment: Seq<char>) -> bool {
    segment == ".."@ || edge::begins(segment, "../"@)
}

/// Whether a path leads upwards at its beginning.
pub fn is_path_traversal(segment: &str) -> (r: bool)
    ensures
        r == leads_up(segment@),
{
    compose::same(segment, "..") || edge::starts_with(segment, "../")
}

/// Whether a character can stand in a part of a repository path.
pub open spec fn path_char(c: char) -> bool {
    class::alphanumeric(c) || c == '.' || c == '-' || c == '_' || c == '/'
}

/// Whether a part of a repository path is made of the characters for it, is not empty and does
/// not lead upwards.
pub open spec fn good_segment(s: Seq<char>) -> bool {
    &&& s.len() > 0
    &&& !leads_up(s)
    &&& forall|i: int| 0 <= i < s.len() ==> path_char(#[trigger] s[i])
}

/// Whether a path leads to a place in a repository: it is relative, and each of its parts is good.
pub open spec fn good_path(p: Seq<char>) -> bool {
    let segments = split::pieces(p, Class::Only('/'));
    &&& p.len() > 0
    &&& !edge::begins(p, "/"@)
    &&& forall|i: int| 0 <= i < segments.len() ==> good_segment(#[trigger] segments[i])
}

fn is_good_segment(s: &str) -> (r: bool)
    ensures
        r == good_segment(s@),
{
    if s.is_empty() || is_path_traversal(s) {
        return false;
    }
    let cs = compose::chars_of(s);
    let mut i: usize = 0;
    while i < cs.len()
        invariant
            i <= cs@.len(),
            cs@ == s@,
            forall|k: int| 0 <= k < i ==> path_char(#[trigger] s@[k]),
        decreases cs@.len() - i,
    {
        let c: char = cs[i];
        if !(class::is_alphanumeric(c) || c == '.' || c == '-' || c == '_' || c == '/') {
            assert(!path_char(s@[i as int]));
            return false;
        }
        i += 1;
    }
    true
}

/// Whether a path does not lead to a place in a repository.
pub fn is_invalid_repo_path(p: &str) -> (r: bool)
    ensures
        r == !good_path(p@),
{
    if p.is_empty() || edge::starts_with(p, "/") {
        return true;
    }
    let segments = split::split(p, Class::Only('/'));
    let ghost all = compose::texts(segments@);
    let mut i: usize = 0;
    while i < segments.len()
        invariant
            i <= segments@.len(),
            all == compose::texts(segments@),
            all == split::pieces(p@, Class::Only('/')),
            p@.len() > 0,
            !edge::begins(p@, "/"@),
            forall|k: int| 0 <= k < i ==> good_segment(#[trigger] all[k]),
        decreases segments@.len() - i,
    {
        assert(all[i as int] == segments@[i as int]@);
        if !is_good_segment(segments[i].as_str()) {
            assert(!good_segment(all[i as int]));
            return true;
        }
        i += 1;
    }
    false
}

/// What stands behind the address of the repository server, if a text begins with it.
pub open spec fn behind_host(s: Seq<char>) -> Option<Seq<char>> {
    match edge::after_prefix(s, "https://huggingface.co/"@) {
        Some(rest) => Some(rest),
        None => edge::after_prefix(s, "http://huggingface.co/"@),
    }
}

/// The repository, the revision and the path of a text `namespace/name@revision/path`, each
/// without the slashes at its ends.
pub open spec fn uri_parts(s: Seq<char>) -> (Seq<char>, Seq<char>, Seq<char>) {
    let (repo, revision, path) = match edge::cut(s, '@') {
        None => (s, "main"@, Seq::empty()),
        Some((repo, after)) => match edge::cut(after, '/') {
            None => (repo, after, Seq::empty()),
            Some((revision, path)) => (repo, revision, path),
        },
    };
    (
        edge::right_trimmed(repo, Class::Only('/')),
        edge::right_trimmed(revision, Class::Only('/')),
        edge::right_trimmed(edge::left_trimmed(path, Class::Only('/')), Class::Only('/')),
    )
}

/// The place that a text after `hf://` names.
pub open spec fn uri_place(s: Seq<char>) -> Result<UrlView, Seq<char>> {
    let (repo, revision, path) = uri_parts(s);
    if repo.len() == 0 {
        Err("hf:// URI: missing repository ID"@)
    } else if !repo.contains('/') {
        Err("hf:// URI: repository ID must be 'namespace/name', got '"@ + repo + "'"@)
    } else if revision.len() > 0 && leads_up(revision) {
        Err("hf:// URI: invalid revision '"@ + revision + "'"@)
    } else if path.len() > 0 && !good_path(path) {
        Err("hf:// URI: invalid path '"@ + path + "'"@)
    } else {
        Ok(
            UrlView {
                repo_id: repo,
                revision: if revision.len() == 0 {
                    "main"@
                } else {
                    revision
                },
                path,
                is_folder: path.len() == 0,
            },
        )
    }
}

/// The repository of a place.
pub open spec fn repository(namespace: Seq<char>, name: Seq<char>) -> Seq<char> {
    namespace + "/"@ + name
}

/// How many parts stand before the namespace in the path of an address.
pub open spec fn skipped_parts(parts: Seq<Seq<char>>) -> int {
    if parts.len() > 0 && parts[0] == "models"@ {
        1
    } else {
        0
    }
}

/// The place that the parts of an address behind the server name.
pub open spec fn browser_place(parts: Seq<Seq<char>>) -> Result<UrlView, Seq<char>> {
    let n = skipped_parts(parts);
    if parts.len() < 3 {
        Err("invalid Hugging Face URL: too few path segments"@)
    } else if parts[0] == "datasets"@ || parts[0] == "spaces"@ {
        Err("unsupported URL type: '"@ + parts[0] + "' is not a model repository"@)
    } else {
        let repo_id = repository(parts[n], parts[n + 1]);
        let kind = if n + 2 < parts.len() {
            parts[n + 2]
        } else {
            Seq::empty()
        };
        let rest = parts.skip(n + 3);
        if kind == "blob"@ {
            if rest.len() == 0 {
                Err("blob URL missing revision"@)
            } else if rest.len() == 1 {
                Err("blob URL missing file path"@)
            } else {
                let path = compose::joined(rest.skip(1), "/"@);
                if leads_up(path) || leads_up(rest[0]) {
                    Err("invalid path or revision in blob URL"@)
                } else {
                    Ok(UrlView { repo_id, revision: rest[0], path, is_folder: false })
                }
            }
        } else if kind == "tree"@ {
            let revision = if rest.len() == 0 {
                "main"@
            } else {
                rest[0]
            };
            let path = if rest.len() == 0 {
                Seq::empty()
            } else {
                compose::joined(rest.skip(1), "/"@)
            };
            if leads_up(path) || leads_up(revision) {
                Err("invalid path or revision in tree URL"@)
            } else {
                Ok(UrlView { repo_id, revision, path, is_folder: true })
            }
        } else if kind == "resolve"@ {
            Err("resolve URLs are not supported as input; use blob or tree URLs"@)
        } else {
            Ok(UrlView { repo_id, revision: "main"@, path: Seq::empty(), is_folder: true })
        }
    }
}

/// The place that an address of the server names.
pub open spec fn address_place(s: Seq<char>) -> Result<UrlView, Seq<char>> {
    match behind_host(s) {
        Some(rest) => browser_place(split::pieces(rest, Class::Only('/'))),
        None => Err("invalid Hugging Face URL"@),
    }
}

/// Whether a text is the address of a repository whose name is cut short behind `models/`.
pub open spec fn is_cut_short(s: Seq<char>) -> bool {
    match behind_host(s) {
        Some(rest) => {
            let parts = split::pieces(rest, Class::Only('/'));
            parts.len() == 3 && parts[0] == "models"@
        },
        None => false,
    }
}

/// The repository that a text names.
pub open spec fn plain_place(s: Seq<char>) -> Result<UrlView, Seq<char>> {
    if !s.contains('/') {
        Err("repository ID must be 'namespace/name', got '"@ + s + "'"@)
    } else if !good_path(s) {
        Err("invalid repository ID '"@ + s + "': path traversal detected"@)
    } else {
        Ok(UrlView { repo_id: s, revision: "main"@, path: Seq::empty(), is_folder: true })
    }
}

/// The place that a text names: with a scheme of its own, as an address of the server, or as the
/// bare name of a repository.
pub open spec fn place(input: Seq<char>) -> Result<UrlView, Seq<char>> {
    let s = edge::trimmed(input);
    match edge::after_prefix(s, "hf://"@) {
        Some(rest) => uri_place(rest),
        None => if behind_host(s) is Some {
            address_place(s)
        } else {
            plain_place(s)
        },
    }
}

/// Whether a text is not the address of a repository whose name is cut short behind `models/`.
pub open spec fn complete(input: Seq<char>) -> bool {
    let s = edge::trimmed(input);
    edge::after_prefix(s, "hf://"@) is Some || !is_cut_short(s)
}

fn after_host(s: &str) -> (r: Option<String>)
    ensures
        compose::opt_text(r) == behind_host(s@),
{
    match edge::strip_prefix(s, "https://huggingface.co/") {
        Some(rest) => Some(rest),
        None => edge::strip_prefix(s, "http://huggingface.co/"),
    }
}

/// Whether a text is not the address of a repository whose name is cut short behind `models/`.
pub fn is_complete(input: &str) -> (r: bool)
    ensures
        r == complete(input@),
{
    let s = edge::trim(input);
    if edge::starts_with(s.as_str(), "hf://") {
        return true;
    }
    match after_host(s.as_str()) {
        Some(rest) => {
            let parts = split::split(rest.as_str(), Class::Only('/'));
            assert(compose::texts(parts@).len() == parts@.len());
            assert(compose::texts(parts@)[0] == parts@[0]@);
            !(parts.len() == 3 && compose::same(parts[0].as_str(), "models"))
        },
        None => true,
    }
}

fn split_uri(s: &str) -> (r: (String, String, String))
    ensures
        (r.0@, r.1@, r.2@) == uri_parts(s@),
{
    let (repo, revision, path) = match edge::split_once(s, '@') {
        None => (s.to_owned(), "main".to_owned(), String::new()),
        Some((repo, after)) => match edge::split_once(after.as_str(), '/') {
            None => (repo, after, String::new()),
            Some((revision, path)) => (repo, revision, path),
        },
    };
    let tail = edge::trim_start(path.as_str(), Class::Only('/'));
    (
        edge::trim_end(repo.as_str(), Class::Only('/')),
        edge::trim_end(revision.as_str(), Class::Only('/')),
        edge::trim_end(tail.as_str(), Class::Only('/')),
    )
}

fn parse_hf_uri(s: &str) -> (r: Result<HfUrl, Failure>)
    ensures
        match r {
            Ok(u) => uri_place(s@) == Ok::<UrlView, Seq<char>>(u@),
            Err(e) => uri_place(s@) == Err::<UrlView, Seq<char>>(e@),
        },
{
    let (repo, revision, path) = split_uri(s);
    if repo.as_str().is_empty() {
        return Err(failure::failure("hf:// URI: missing repository ID"));
    }
    if !edge::has_char(repo.as_str(), '/') {
        return Err(
            failure::failed(
                compose::concat3(
                    "hf:// URI: repository ID must be 'namespace/name', got '",
                    repo.as_str(),
                    "'",
                ),
            ),
        );
    }
    if !revision.as_str().is_empty() && is_path_traversal(revision.as_str()) {
        return Err(
            failure::failed(
                compose::concat3("hf:// URI: invalid revision '", revision.as_str(), "'"),
            ),
        );
    }
    if !path.as_str().is_empty() && is_invalid_repo_path(path.as_str()) {
        return Err(
            failure::failed(compose::concat3("hf:// URI: invalid path '", path.as_str(), "'")),
        );
    }
    let is_folder = path.as_str().is_empty();
    let named = if revision.as_str().is_empty() {
        "main".to_owned()
    } else {
        revision
    };
    Ok(HfUrl { repo_id: repo, revision: named, path_in_repo: path, is_folder })
}

fn join_from(parts: &Vec<String>, from: usize) -> (r: String)
    ensures
        r@ == (if from <= parts@.len() {
            compose::joined(compose::texts(parts@).skip(from as int), "/"@)
        } else {
            Seq::empty()
        }),
{
    if from > parts.len() {
        return String::new();
    }
    let ghost all = compose::texts(parts@);
    let mut v = compose::no_texts();
    let mut i: usize = from;
    assert(all.subrange(from as int, from as int) =~= Seq::<Seq<char>>::empty());
    while i < parts.len()
        invariant
            from <= i <= parts@.len(),
            all == compose::texts(parts@),
            compose::texts(v@) == all.subrange(from as int, i as int),
        decreases parts@.len() - i,
    {
        compose::push_text(&mut v, parts[i].as_str());
        i += 1;
        assert(compose::texts(v@) =~= all.subrange(from as int, i as int));
    }
    assert(all.subrange(from as int, i as int) =~= all.skip(from as int));
    compose::join(&v, "/")
}

fn read_parts(parts: &Vec<String>) -> (r: Result<HfUrl, Failure>)
    requires
        !(parts@.len() == 3 && parts@[0]@ == "models"@),
    ensures
        match r {
            Ok(u) => browser_place(compose::texts(parts@)) == Ok::<UrlView, Seq<char>>(u@),
            Err(e) => browser_place(compose::texts(parts@)) == Err::<UrlView, Seq<char>>(e@),
        },
{
    let ghost all = compose::texts(parts@);
    assert(all.len() == parts@.len());
    if parts.len() < 3 {
        return Err(failure::failure("invalid Hugging Face URL: too few path segments"));
    }
    assert(all[0] == parts@[0]@);
    if compose::same(parts[0].as_str(), "datasets") || compose::same(parts[0].as_str(), "spaces") {
        return Err(
            failure::failed(
                compose::concat3(
                    "unsupported URL type: '",
                    parts[0].as_str(),
                    "' is not a model repository",
                ),
            ),
        );
    }
    let n: usize = if compose::same(parts[0].as_str(), "models") {
        1
    } else {
        0
    };
    assert(n == skipped_parts(all));
    assert(all[n as int] == parts@[n as int]@);
    assert(all[n + 1] == parts@[n + 1]@);
    let repo_id = compose::concat3(parts[n].as_str(), "/", parts[n + 1].as_str());
    let kind = if n + 2 < parts.len() {
        assert(all[n + 2] == parts@[n + 2]@);
        parts[n + 2].clone()
    } else {
        String::new()
    };
    let ghost rest = all.skip(n + 3);
    if compose::same(kind.as_str(), "blob") {
        if parts.len() == n + 3 {
            return Err(failure::failure("blob URL missing revision"));
        }
        if parts.len() == n + 4 {
            return Err(failure::failure("blob URL missing file path"));
        }
        assert(rest[0] == parts@[n + 3]@);
        let revision = parts[n + 3].clone();
        let path = join_from(parts, n + 4);
        assert(rest.skip(1) =~= all.skip(n + 4));
        if is_path_traversal(path.as_str()) || is_path_traversal(revision.as_str()) {
            return Err(failure::failure("invalid path or revision in blob URL"));
        }
        return Ok(HfUrl { repo_id, revision, path_in_repo: path, is_folder: false });
    }
    if compose::same(kind.as_str(), "tree") {
        let revision = if parts.len() > n + 3 {
            assert(rest[0] == parts@[n + 3]@);
            parts[n + 3].clone()
        } else {
            "main".to_owned()
        };
        let path = join_from(parts, n + 4);
        assert(rest.len() > 0 ==> rest.skip(1) =~= all.skip(n + 4));
        if is_path_traversal(path.as_str()) || is_path_traversal(revision.as_str()) {
            return Err(failure::failure("invalid path or revision in tree URL"));
        }
        return Ok(HfUrl { repo_id, revision, path_in_repo: path, is_folder: true });
    }
    if compose::same(kind.as_str(), "resolve") {
        return Err(
            failure::failure("resolve URLs are not supported as input; use blob or tree URLs"),
        );
    }
    Ok(
        HfUrl {
            repo_id,
            revision: "main".to_owned(),
            path_in_repo: String::new(),
            is_folder: true,
        },
    )
}

/// The place that an address of the server names.
pub fn parse_browser_url(input: &str) -> (r: Result<HfUrl, Failure>)
    requires
        !is_cut_short(input@),
    ensures
        match r {
            Ok(u) => address_place(input@) == Ok::<UrlView, Seq<char>>(u@),
            Err(e) => address_place(input@) == Err::<UrlView, Seq<char>>(e@),
        },
{
    match after_host(input) {
        Some(rest) => {
            let parts = split::split(rest.as_str(), Class::Only('/'));
            assert(compose::texts(parts@).len() == parts@.len());
            assert(compose::texts(parts@)[0] == parts@[0]@);
            read_parts(&parts)
        },
        None => Err(failure::failure("invalid Hugging Face URL")),
    }
}

fn parse_plain_repo_id(s: &str) -> (r: Result<HfUrl, Failure>)
    ensures
        match r {
            Ok(u) => plain_place(s@) == Ok::<UrlView, Seq<char>>(u@),
            Err(e) => plain_place(s@) == Err::<UrlView, Seq<char>>(e@),
        },
{
    if !edge::has_char(s, '/') {
        return Err(
            failure::failed(
                compose::concat3("repository ID must be 'namespace/name', got '", s, "'"),
            ),
        );
    }
    if is_invalid_repo_path(s) {
        return Err(
            failure::failed(
                compose::concat3("invalid repository ID '", s, "': path traversal detected"),
            ),
        );
    }
    Ok(
        HfUrl {
            repo_id: s.to_owned(),
            revision: "main".to_owned(),
            path_in_repo: String::new(),
            is_folder: true,
        },
    )
}

/// The place that a text names.
pub fn normalize_url(input: &str) -> (r: Result<HfUrl, Failure>)
    requires
        complete(input@),
    ensures
        match r {
            Ok(u) => place(input@) == Ok::<UrlView, Seq<char>>(u@),
            Err(e) => place(input@) == Err::<UrlView, Seq<char>>(e@),
        },
{
    let s = edge::trim(input);
    match edge::strip_prefix(s.as_str(), "hf://") {
        Some(rest) => return parse_hf_uri(rest.as_str()),
        None => {},
    }
    match after_host(s.as_str()) {
        Some(_) => parse_browser_url(s.as_str()),
        None => parse_plain_repo_id(s.as_str()),
    }
}

/// The place that a text names with the revision that is asked for, if one is.
pub fn with_revision(url: HfUrl, revision: Option<String>) -> (r: HfUrl)
    ensures
        r@ == (match revision {
            Some(v) => UrlView { revision: v@, ..url@ },
            None => url@,
        }),
{
    match revision {
        Some(v) => HfUrl { revision: v, ..url },
        None => url,
    }
}

/// An accepted place never leads upwards out of its repository at the beginning of its path or of
/// its revision.
pub proof fn places_do_not_lead_up(input: Seq<char>)
    ensures
        place(input) matches Ok(u) ==> !leads_up(u.path) && !leads_up(u.revision),
{
    reveal_strlit("main");
    reveal_strlit("..");
    reveal_strlit("../");
    assert("main"@.len() != ".."@.len());
    if edge::begins("main"@, "../"@) {
        assert("main"@.subrange(0, 3)[0] == '.');
        assert(false);
    }
    assert(!leads_up("main"@));
    assert(!leads_up(Seq::<char>::empty()));
    let s = edge::trimmed(input);
    if let Some(rest) = edge::after_prefix(s, "hf://"@) {
        let (repo, revision, p) = uri_parts(rest);
        if p.len() > 0 && good_path(p) {
            lemma_good_paths_stay(p);
        }
    }
}

proof fn lemma_behind(scheme: Seq<char>, t: Seq<char>)
    requires
        scheme == "https://huggingface.co/"@ || scheme == "http://huggingface.co/"@,
    ensures
        behind_host(scheme + t) == Some(t),
{
    reveal_strlit("https://huggingface.co/");
    reveal_strlit("http://huggingface.co/");
    let s = scheme + t;
    assert(s.subrange(0, scheme.len() as int) =~= scheme);
    assert(s.skip(scheme.len() as int) =~= t);
    if scheme == "http://huggingface.co/"@ && edge::begins(s, "https://huggingface.co/"@) {
        assert(s[4] == ':');
        assert(s.subrange(0, "https://huggingface.co/"@.len() as int)[4] == 's');
        assert(false);
    }
}

proof fn lemma_place_of_address(scheme: Seq<char>, t: Seq<char>)
    requires
        scheme == "https://huggingface.co/"@ || scheme == "http://huggingface.co/"@,
        t.len() > 0,
        !class::blank(t.last()),
    ensures
        place(scheme + t) == browser_place(split::pieces(t, Class::Only('/'))),
{
    reveal_strlit("https://huggingface.co/");
    reveal_strlit("http://huggingface.co/");
    reveal_strlit("hf://");
    let s = scheme + t;
    lemma_behind(scheme, t);
    assert(s[0] == 'h' && s[1] == 't');
    assert(s.last() == t.last());
    assert(edge::trimmed(s) == s);
    if edge::begins(s, "hf://"@) {
        assert(s.subrange(0, "hf://"@.len() as int)[1] == 'f');
        assert(false);
    }
}

/// An address means the same with either scheme, and with or without `models/` before the
/// repository: whichever of the four is read, the outcome is the same.
pub proof fn schemes_and_models_do_not_matter(t: Seq<char>)
    requires
        split::pieces(t, Class::Only('/')).len() >= 3,
        split::pieces(t, Class::Only('/'))[0] != "datasets"@,
        split::pieces(t, Class::Only('/'))[0] != "spaces"@,
        split::pieces(t, Class::Only('/'))[0] != "models"@,
    ensures
        behind_host("https://huggingface.co/"@ + t) == Some(t),
        !is_cut_short("https://huggingface.co/"@ + t),
        !is_cut_short("http://huggingface.co/"@ + t),
        !is_cut_short("https://huggingface.co/models/"@ + t),
        !is_cut_short("http://huggingface.co/models/"@ + t),
        ({
            let here = address_place("https://huggingface.co/"@ + t);
            &&& here == browser_place(split::pieces(t, Class::Only('/')))
            &&& here == address_place("http://huggingface.co/"@ + t)
            &&& here == address_place("https://huggingface.co/models/"@ + t)
            &&& here == address_place("http://huggingface.co/models/"@ + t)
        }),
        !class::blank(t.last()) ==> {
            let here = place("https://huggingface.co/"@ + t);
            &&& here == place("http://huggingface.co/"@ + t)
            &&& here == place("https://huggingface.co/models/"@ + t)
            &&& here == place("http://huggingface.co/models/"@ + t)
        },
{
    let k = Class::Only('/');
    let parts = split::pieces(t, k);
    let longer = "models/"@ + t;
    lemma_behind("https://huggingface.co/"@, t);
    lemma_behind("http://huggingface.co/"@, t);
    lemma_behind("https://huggingface.co/"@, longer);
    lemma_behind("http://huggingface.co/"@, longer);
    reveal_strlit("models/");
    reveal_strlit("models");
    reveal_strlit("datasets");
    reveal_strlit("spaces");
    reveal_strlit("https://huggingface.co/");
    reveal_strlit("http://huggingface.co/");
    reveal_strlit("https://huggingface.co/models/");
    reveal_strlit("http://huggingface.co/models/");
    assert("https://huggingface.co/models/"@ + t =~= "https://huggingface.co/"@ + longer);
    assert("http://huggingface.co/models/"@ + t =~= "http://huggingface.co/"@ + longer);
    assert("models"@[0] == 'm' && "datasets"@[0] == 'd' && "spaces"@[0] == 's');
    assert(longer =~= "models"@.push('/') + t);
    split::splitting_at_a_mark("models"@, '/', t, k);
    split::lemma_one_piece("models"@, k);
    let all = split::pieces(longer, k);
    assert(all =~= seq!["models"@] + parts);
    assert(all[0] == "models"@);
    assert(all.skip(4) =~= parts.skip(3));
    assert(all[1] == parts[0] && all[2] == parts[1]);
    if parts.len() > 2 {
        assert(all[3] == parts[2]);
    }
    assert(t.len() > 0) by {
        if t.len() == 0 {
            assert(parts.len() == 1);
        }
    }
    if !class::blank(t.last()) {
        assert(longer.last() == t.last());
        lemma_place_of_address("https://huggingface.co/"@, t);
        lemma_place_of_address("http://huggingface.co/"@, t);
        lemma_place_of_address("https://huggingface.co/"@, longer);
        lemma_place_of_address("http://huggingface.co/"@, longer);
    }
}

proof fn lemma_first_piece(s: Seq<char>, c: char, n: int)
    requires
        0 <= n <= s.len(),
        !s.take(n).contains(c),
        n < s.len() ==> s[n] == c,
    ensures
        split::pieces(s, Class::Only(c)).len() >= 1,
        split::pieces(s, Class::Only(c))[0] == s.take(n),
    decreases s.len(),
{
    if s.len() == 0 {
        assert(s.take(n) =~= Seq::<char>::empty());
    } else {
        let t = s.drop_last();
        if n < s.len() {
            if n < t.len() {
                assert(t.take(n) =~= s.take(n));
                lemma_first_piece(t, c, n);
            } else {
                assert(t.take(n) =~= s.take(n));
                lemma_first_piece(t, c, n);
            }
            if s.last() != c {
                assert(n < t.len());
                lemma_two_pieces(t, c, n);
            }
        } else {
            assert(s.take(n) =~= s);
            assert(!t.contains(c)) by {
                if t.contains(c) {
                    let i = choose|i: int| 0 <= i < t.len() && t[i] == c;
                    assert(s[i] == c);
                }
            }
            assert(t.take(n - 1) =~= t);
            lemma_first_piece(t, c, n - 1);
            lemma_one_piece(t, c);
            assert(s.last() != c) by {
                assert(s[s.len() - 1] == s.last());
            }
            assert(t.push(s.last()) =~= s);
        }
    }
}

proof fn lemma_one_piece(s: Seq<char>, c: char)
    requires
        !s.contains(c),
    ensures
        split::pieces(s, Class::Only(c)).len() == 1,
    decreases s.len(),
{
    if s.len() > 0 {
        let t = s.drop_last();
        assert(!t.contains(c)) by {
            if t.contains(c) {
                let i = choose|i: int| 0 <= i < t.len() && t[i] == c;
                assert(s[i] == c);
            }
        }
        lemma_one_piece(t, c);
        assert(s.last() != c) by {
            assert(s[s.len() - 1] == s.last());
        }
    }
}

proof fn lemma_two_pieces(s: Seq<char>, c: char, n: int)
    requires
        0 <= n < s.len(),
        s[n] == c,
    ensures
        split::pieces(s, Class::Only(c)).len() >= 2,
    decreases s.len(),
{
    let t = s.drop_last();
    if n < t.len() {
        lemma_two_pieces(t, c, n);
    } else {
        split::lemma_pieces_len(t, Class::Only(c));
    }
}

proof fn lemma_good_paths_stay(p: Seq<char>)
    requires
        good_path(p),
    ensures
        !leads_up(p),
{
    reveal_strlit("..");
    reveal_strlit("../");
    let segments = split::pieces(p, Class::Only('/'));
    if leads_up(p) {
        if p == ".."@ {
            assert(!p.take(2).contains('/')) by {
                assert(p.take(2) =~= p);
                assert forall|i: int| 0 <= i < 2 implies p[i] != '/' by {}
            }
            lemma_first_piece(p, '/', 2);
            assert(p.take(2) =~= p);
        } else {
            assert(p.subrange(0, 3) == "../"@);
            assert(p[0] == p.subrange(0, 3)[0]);
            assert(p[1] == p.subrange(0, 3)[1]);
            assert(p[2] == p.subrange(0, 3)[2]);
            assert(!p.take(2).contains('/')) by {
                assert forall|i: int| 0 <= i < 2 implies p.take(2)[i] != '/' by {}
            }
            lemma_first_piece(p, '/', 2);
            assert(p.take(2) =~= ".."@);
        }
        assert(segments[0] == ".."@);
        assert(good_segment(segments[0]));
        assert(false);
    }
}

/// The directory that the files of a repository go to.
pub fn resolve_target_dir(repo_id: &str, model_dir: &str) -> (r: String)
    ensures
        r@ == path::below(model_dir@, repo_id@),
{
    path::join_path(model_dir, repo_id)
}

} // verus!
