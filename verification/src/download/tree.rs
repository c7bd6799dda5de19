use crate::download::{FileEntry, HfUrl, UrlView};
use crate::failure;
use crate::failure::Failure;
use crate::text::class::Class;
use crate::text::{compose, edge, path};
use vstd::prelude::*;

verus! {

/// What the repository server says of a large file.
pub struct LfsMeta {
    pub size: i64,
}

/// An entry of the listing that the repository server gives.
pub struct TreeEntry {
    pub entry_type: String,
    pub path: String,
    pub size: i64,
    pub lfs: Option<LfsMeta>,
}

/// An entry of a listing, as mathematical values.
pub struct TreeView {
    pub kind: Seq<char>,
    pub path: Seq<char>,
    pub size: i64,
    pub lfs: Option<i64>,
}

/// A file of a repository, as mathematical values.
pub struct FileView {
    pub path: Seq<char>,
    pub size: u64,
    pub is_lfs: bool,
}

impl View for TreeEntry {
    type V = TreeView;

    open spec fn view(&self) -> TreeView {
        TreeView {
            kind: self.entry_type@,
            path: self.path@,
            size: self.size,
            lfs: match self.lfs {
                Some(m) => Some(m.size),
                None => None,
            },
        }
    }
}

impl View for FileEntry {
    type V = FileView;

    open spec fn view(&self) -> FileView {
        FileView { path: self.path@, size: self.size, is_lfs: self.is_lfs }
    }
}

/// The entries of a listing, as mathematical values.
pub open spec fn tree_views(v: Seq<TreeEntry>) -> Seq<TreeView> {
    Seq::new(v.len(), |i: int| v[i]@)
}

/// The files of a repository, as mathematical values.
pub open spec fn file_views(v: Seq<FileEntry>) -> Seq<FileView> {
    Seq::new(v.len(), |i: int| v[i]@)
}

/// The address of the repository server when none is set.
pub open spec fn endpoint(set: Option<Seq<char>>) -> Seq<char> {
    match set {
        Some(s) => s,
        None => "https://huggingface.co"@,
    }
}

/// The address of the repository server, from what `HF_ENDPOINT` holds.
pub fn hf_base_url(set: Option<String>) -> (r: String)
    ensures
        r@ == endpoint(compose::opt_text(set)),
{
    match set {
        Some(s) => s,
        None => "https://huggingface.co".to_owned(),
    }
}

/// The address of the listing of a place.
pub open spec fn listing(base: Seq<char>, repo_id: Seq<char>, revision: Seq<char>) -> Seq<char> {
    edge::right_trimmed(base, Class::Only('/')) + "/api/models/"@ + repo_id + "/tree/"@ + revision
}

/// The address of the listing of a place.
pub fn tree_url(base: &str, url: &HfUrl) -> (r: String)
    ensures
        r@ == listing(base@, url.repo_id@, url.revision@),
{
    compose::concat5(
        edge::trim_end(base, Class::Only('/')).as_str(),
        "/api/models/",
        url.repo_id.as_str(),
        "/tree/",
        url.revision.as_str(),
    )
}

/// Why a listing was refused.
pub open spec fn listing_refusal(code: u16, shown: Seq<char>, repo_id: Seq<char>) -> Seq<char> {
    if code == 401 {
        "authentication required for '"@ + repo_id + "'. This may be a gated repository."@
    } else if code == 403 {
        "access denied for '"@ + repo_id + "'. This may be a gated repository."@
    } else if code == 404 {
        "repository '"@ + repo_id + "' not found"@
    } else {
        "tree API returned status "@ + shown + " for '"@ + repo_id + "'"@
    }
}

/// Why a listing was refused, from the number and the text of the status.
pub fn tree_refusal(code: u16, shown: &str, repo_id: &str) -> (r: Failure)
    ensures
        r@ == listing_refusal(code, shown@, repo_id@),
{
    let message = if code == 401 {
        compose::concat3(
            "authentication required for '",
            repo_id,
            "'. This may be a gated repository.",
        )
    } else if code == 403 {
        compose::concat3("access denied for '", repo_id, "'. This may be a gated repository.")
    } else if code == 404 {
        compose::concat3("repository '", repo_id, "' not found")
    } else {
        compose::concat5("tree API returned status ", shown, " for '", repo_id, "'")
    };
    failure::failed(message)
}

/// A signed size, read as an unsigned one of the same bits.
pub open spec fn unsigned(n: i64) -> u64 {
    if n >= 0 {
        n as u64
    } else {
        (n + 0x1_0000_0000_0000_0000) as u64
    }
}

/// Whether a path is a place in a repository or lies below it.
pub open spec fn lies_in(path: Seq<char>, place: Seq<char>) -> bool {
    place.len() == 0 || path == place || edge::begins(
        path,
        if edge::ends(place, "/"@) {
            place
        } else {
            place + "/"@
        },
    )
}

/// Whether an entry is a file of a place.
pub open spec fn wanted(e: TreeView, place: Seq<char>) -> bool {
    e.kind == "file"@ && lies_in(e.path, place)
}

/// The file that an entry is.
pub open spec fn file_of(e: TreeView) -> FileView {
    FileView {
        path: e.path,
        size: unsigned(
            match e.lfs {
                Some(n) => n,
                None => e.size,
            },
        ),
        is_lfs: e.lfs is Some,
    }
}

/// The files of a place, in the order of the listing.
pub open spec fn files_of(all: Seq<TreeView>, place: Seq<char>) -> Seq<FileView>
    decreases all.len(),
{
    if all.len() == 0 {
        Seq::empty()
    } else {
        let before = files_of(all.drop_last(), place);
        if wanted(all.last(), place) {
            before.push(file_of(all.last()))
        } else {
            before
        }
    }
}

/// The files of a place, or why there are none.
pub open spec fn listed(url: UrlView, all: Seq<TreeView>) -> Result<Seq<FileView>, Seq<char>> {
    let files = files_of(all, url.path);
    if files.len() == 0 && url.path.len() > 0 {
        Err(
            "path '"@ + url.path + "' not found in '"@ + url.repo_id + "@"@ + url.revision + "'"@,
        )
    } else {
        Ok(files)
    }
}

fn unsigned_of(n: i64) -> (r: u64)
    ensures
        r == unsigned(n),
{
    if n >= 0 {
        n as u64
    } else {
        u64::MAX - (-(n + 1)) as u64
    }
}

fn in_place(path: &str, place: &str) -> (r: bool)
    ensures
        r == lies_in(path@, place@),
{
    if place.is_empty() || compose::same(path, place) {
        return true;
    }
    if edge::ends_with(place, "/") {
        edge::starts_with(path, place)
    } else {
        let prefix = compose::concat(place, "/");
        edge::starts_with(path, prefix.as_str())
    }
}

/// The files of a place, from the listing of its repository.
pub fn list_files(url: &HfUrl, entries: Vec<TreeEntry>) -> (r: Result<Vec<FileEntry>, Failure>)
    ensures
        match r {
            Ok(files) => listed(url@, tree_views(entries@)) == Ok::<Seq<FileView>, Seq<char>>(
                file_views(files@),
            ),
            Err(e) => listed(url@, tree_views(entries@)) == Err::<Seq<FileView>, Seq<char>>(e@),
        },
{
    let ghost all = tree_views(entries@);
    let mut files: Vec<FileEntry> = Vec::new();
    let mut i: usize = 0;
    assert(file_views(files@) =~= files_of(all.take(0), url.path_in_repo@));
    while i < entries.len()
        invariant
            i <= entries@.len(),
            all == tree_views(entries@),
            file_views(files@) == files_of(all.take(i as int), url.path_in_repo@),
        decreases entries@.len() - i,
    {
        let e = &entries[i];
        let ghost before = file_views(files@);
        assert(all.take(i + 1).drop_last() =~= all.take(i as int));
        assert(all.take(i + 1).last() == e@);
        if compose::same(e.entry_type.as_str(), "file") && in_place(
            e.path.as_str(),
            url.path_in_repo.as_str(),
        ) {
            let size: i64 = match &e.lfs {
                Some(m) => m.size,
                None => e.size,
            };
            let f = FileEntry {
                path: e.path.clone(),
                size: unsigned_of(size),
                is_lfs: e.lfs.is_some(),
            };
            assert(f@ == file_of(e@));
            files.push(f);
            assert(file_views(files@) =~= before.push(f@));
        }
        i += 1;
    }
    assert(all.take(i as int) =~= all);
    assert(file_views(files@).len() == files@.len());
    if files.len() == 0 && !url.path_in_repo.as_str().is_empty() {
        let place = compose::concat5(
            "path '",
            url.path_in_repo.as_str(),
            "' not found in '",
            url.repo_id.as_str(),
            "@",
        );
        return Err(
            failure::failed(compose::concat3(place.as_str(), url.revision.as_str(), "'")),
        );
    }
    Ok(files)
}

/// Whether a file is that of an entry of a listing in some place.
pub open spec fn is_listed(all: Seq<TreeView>, place: Seq<char>, file: FileView) -> bool {
    exists|k: int|
        0 <= k < all.len() && wanted(#[trigger] all[k], place) && file_of(all[k]) == file
}

/// Every file of a listing lies in the place that was asked for and comes from an entry of the
/// listing, and every such entry is listed.
pub proof fn listings_are_exact(all: Seq<TreeView>, place: Seq<char>)
    ensures
        forall|i: int|
            0 <= i < files_of(all, place).len() ==> is_listed(
                all,
                place,
                #[trigger] files_of(all, place)[i],
            ),
        forall|k: int|
            0 <= k < all.len() && wanted(#[trigger] all[k], place) ==> files_of(
                all,
                place,
            ).contains(file_of(all[k])),
    decreases all.len(),
{
    if all.len() > 0 {
        let shorter = all.drop_last();
        let before = files_of(shorter, place);
        let now = files_of(all, place);
        listings_are_exact(shorter, place);
        assert forall|k: int| 0 <= k < all.len() && wanted(#[trigger] all[k], place) implies
            now.contains(file_of(all[k])) by {
            if k < shorter.len() {
                assert(shorter[k] == all[k]);
                assert(before.contains(file_of(all[k])));
                let i = choose|i: int| 0 <= i < before.len() && before[i] == file_of(all[k]);
                assert(now[i] == before[i]);
            } else {
                assert(now[now.len() - 1] == file_of(all[k]));
            }
        }
    }
    assert forall|i: int| 0 <= i < files_of(all, place).len() implies is_listed(
        all,
        place,
        #[trigger] files_of(all, place)[i],
    ) by {
        lemma_listed(all, place, i);
    }
}

proof fn lemma_listed(all: Seq<TreeView>, place: Seq<char>, i: int)
    requires
        0 <= i < files_of(all, place).len(),
    ensures
        is_listed(all, place, files_of(all, place)[i]),
    decreases all.len(),
{
    let shorter = all.drop_last();
    let before = files_of(shorter, place);
    if i < before.len() {
        lemma_listed(shorter, place, i);
        let k = choose|k: int|
            0 <= k < shorter.len() && wanted(#[trigger] shorter[k], place) && file_of(shorter[k])
                == before[i];
        assert(all[k] == shorter[k]);
    } else {
        assert(all[all.len() - 1] == all.last());
    }
}

/// The address of a listing leads from the server to the repository and its revision.
pub proof fn listings_are_of_the_repository(
    base: Seq<char>,
    repo_id: Seq<char>,
    revision: Seq<char>,
)
    ensures
        path::directory(listing(base, repo_id, revision)) == path::directory(base) + seq![
            "api"@,
            "models"@,
        ] + path::directory(repo_id) + seq!["tree"@] + path::directory(revision),
{
    let b = edge::right_trimmed(base, Class::Only('/'));
    reveal_strlit("/api/models/");
    reveal_strlit("/tree/");
    reveal_strlit("api");
    reveal_strlit("models");
    reveal_strlit("tree");
    reveal_strlit(".");
    path::trailing_slashes_do_not_count(base);
    assert("api"@.len() == 3 && "models"@.len() == 6 && "tree"@.len() == 4 && "."@.len() == 1);
    assert(!"api"@.contains('/') && !"models"@.contains('/') && !"tree"@.contains('/'));
    path::names_are_steps("api"@);
    path::names_are_steps("models"@);
    path::names_are_steps("tree"@);
    let w = b.push('/') + "api"@;
    let x = w.push('/') + "models"@;
    let y = x.push('/') + repo_id;
    let z = y.push('/') + "tree"@;
    assert(listing(base, repo_id, revision) =~= z.push('/') + revision);
    path::slashes_lead_down(b, "api"@);
    path::slashes_lead_down(w, "models"@);
    path::slashes_lead_down(x, repo_id);
    path::slashes_lead_down(y, "tree"@);
    path::slashes_lead_down(z, revision);
    assert(seq!["api"@] + seq!["models"@] =~= seq!["api"@, "models"@]);
    assert(path::directory(listing(base, repo_id, revision)) =~= path::directory(base) + seq![
        "api"@,
        "models"@,
    ] + path::directory(repo_id) + seq!["tree"@] + path::directory(revision));
}

} // verus!
