use tnk::download::encode::urlencoding_path;
use tnk::download::fetch::{begin_file, download_file, Act, Event, Fetching, Origin};
use tnk::download::job::{
    build_download_jobs, check_status, make_tmp_path, range_header, resolve_url, result_as,
    size_warning, start_offset, write_failure,
};
use tnk::download::report::{
    begin_all, download_all, dry_run_cmd, fetch_size, fetched_size, Fetched,
};
use tnk::download::size::{format_file_name, format_size};
use tnk::download::tree::{hf_base_url, list_files, tree_refusal, tree_url, LfsMeta, TreeEntry};
use tnk::download::url::{
    is_complete, is_invalid_repo_path, normalize_url, parse_browser_url, resolve_target_dir,
    with_revision,
};
use tnk::download::{FileEntry, FileResult, HfUrl};

#[test]
fn normalize_blob_url() {
    let url = normalize_url("https://huggingface.co/unsloth/Qwen3.6-35B-A3B-GGUF/blob/main/Qwen3.6-35B-A3B-UD-Q4_K_XL.gguf").unwrap();
    assert_eq!(url.repo_id, "unsloth/Qwen3.6-35B-A3B-GGUF");
    assert_eq!(url.revision, "main");
    assert_eq!(url.path_in_repo, "Qwen3.6-35B-A3B-UD-Q4_K_XL.gguf");
    assert!(!url.is_folder);
}

#[test]
fn normalize_tree_url() {
    let url = normalize_url("https://huggingface.co/mlx-community/Qwen3.5-9B-MLX-4bit/tree/main")
        .unwrap();
    assert_eq!(url.repo_id, "mlx-community/Qwen3.5-9B-MLX-4bit");
    assert_eq!(url.revision, "main");
    assert_eq!(url.path_in_repo, "");
    assert!(url.is_folder);
}

#[test]
fn normalize_tree_url_with_subdir() {
    let url = normalize_url("https://huggingface.co/unsloth/Qwen3.6-35B-A3B-GGUF/tree/main/BF16")
        .unwrap();
    assert_eq!(url.repo_id, "unsloth/Qwen3.6-35B-A3B-GGUF");
    assert_eq!(url.revision, "main");
    assert_eq!(url.path_in_repo, "BF16");
    assert!(url.is_folder);
}

#[test]
fn normalize_plain_repo_id() {
    let url = normalize_url("unsloth/Qwen3.6-35B-A3B-GGUF").unwrap();
    assert_eq!(url.repo_id, "unsloth/Qwen3.6-35B-A3B-GGUF");
    assert_eq!(url.revision, "main");
    assert_eq!(url.path_in_repo, "");
    assert!(url.is_folder);
}

#[test]
fn normalize_hf_uri() {
    let url =
        normalize_url("hf://unsloth/Qwen3.6-35B-A3B-GGUF@main/Qwen3.6-35B-A3B-UD-Q4_K_XL.gguf")
            .unwrap();
    assert_eq!(url.repo_id, "unsloth/Qwen3.6-35B-A3B-GGUF");
    assert_eq!(url.revision, "main");
    assert_eq!(url.path_in_repo, "Qwen3.6-35B-A3B-UD-Q4_K_XL.gguf");
    assert!(!url.is_folder);
}

#[test]
fn reject_dataset_url() {
    assert!(normalize_url(
        "https://huggingface.co/datasets/HuggingFaceH4/ultrachat_200k/blob/main/data.json"
    )
    .is_err());
}

#[test]
fn reject_malformed_url() {
    assert!(normalize_url("https://example.com/something").is_err());
}

#[test]
fn test_resolve_target_dir() {
    assert_eq!(
        resolve_target_dir("unsloth/Qwen3.6-35B-A3B-GGUF", "/models"),
        "/models/unsloth/Qwen3.6-35B-A3B-GGUF"
    );
}

#[test]
fn validate_path_no_traversal() {
    assert!(normalize_url("https://huggingface.co/x/y/blob/main/../etc/passwd").is_err());
}

#[test]
fn format_size_human_readable() {
    assert_eq!(format_size(0), "0 B");
    assert_eq!(format_size(512), "512 B");
    assert_eq!(format_size(1024), "1.0 KB");
    assert_eq!(format_size(1_048_576), "1.0 MiB");
    assert_eq!(format_size(1_073_741_824), "1.0 GiB");
}

#[test]
fn format_file_name_strips_directory() {
    assert_eq!(
        format_file_name("model-0001.safetensors"),
        "model-0001.safetensors"
    );
    assert_eq!(
        format_file_name("subdir/model-0001.safetensors"),
        "model-0001.safetensors"
    );
    assert_eq!(format_file_name("a/b/c/file.gguf"), "file.gguf");
}

#[test]
fn sizes_are_printed_like_floating_point_numbers() {
    let sizes: [u64; 14] = [
        1023,
        1280,
        1536,
        1638,
        1_048_575,
        1_310_720,
        1_342_177_280,
        1_879_048_192,
        (1 << 53) + 1,
        (1 << 63) + (1 << 28) + 500,
        (1 << 63) + (1 << 28) + 1500,
        u64::MAX,
        u64::MAX - 1023,
        123_456_789_012_345,
    ];
    for n in sizes {
        let expected = if n >= 1_073_741_824 {
            format!("{:.1} GiB", n as f64 / 1_073_741_824.0)
        } else if n >= 1_048_576 {
            format!("{:.1} MiB", n as f64 / 1_048_576.0)
        } else if n >= 1_024 {
            format!("{:.1} KB", n as f64 / 1_024.0)
        } else {
            format!("{} B", n)
        };
        assert_eq!(format_size(n), expected);
    }
}

fn refusal(input: &str) -> String {
    normalize_url(input).unwrap_err().message
}

#[test]
fn refused_places_say_why() {
    assert_eq!(refusal("hf:///"), "hf:// URI: missing repository ID");
    assert_eq!(
        refusal("hf://gpt2"),
        "hf:// URI: repository ID must be 'namespace/name', got 'gpt2'"
    );
    assert_eq!(refusal("hf://a/b@.."), "hf:// URI: invalid revision '..'");
    assert_eq!(
        refusal("hf://a/b@main/../x"),
        "hf:// URI: invalid path '../x'"
    );
    assert_eq!(
        refusal("https://huggingface.co/a/b"),
        "invalid Hugging Face URL: too few path segments"
    );
    assert_eq!(
        refusal("https://huggingface.co/spaces/a/b"),
        "unsupported URL type: 'spaces' is not a model repository"
    );
    assert_eq!(
        refusal("https://huggingface.co/a/b/blob"),
        "blob URL missing revision"
    );
    assert_eq!(
        refusal("https://huggingface.co/a/b/blob/main"),
        "blob URL missing file path"
    );
    assert_eq!(
        refusal("https://huggingface.co/a/b/blob/main/../x"),
        "invalid path or revision in blob URL"
    );
    assert_eq!(
        refusal("https://huggingface.co/a/b/tree/.."),
        "invalid path or revision in tree URL"
    );
    assert_eq!(
        refusal("https://huggingface.co/a/b/resolve/main/x"),
        "resolve URLs are not supported as input; use blob or tree URLs"
    );
    assert_eq!(
        refusal("gpt2"),
        "repository ID must be 'namespace/name', got 'gpt2'"
    );
    assert_eq!(
        refusal("a/../b"),
        "invalid repository ID 'a/../b': path traversal detected"
    );
}

#[test]
fn places_are_read_in_all_forms() {
    let u = normalize_url("  hf://a/b/  ").unwrap();
    assert_eq!((u.repo_id.as_str(), u.revision.as_str()), ("a/b", "main"));
    assert!(u.is_folder);
    let u = normalize_url("hf://a/b@v1").unwrap();
    assert_eq!(u.revision, "v1");
    let u = normalize_url("hf://a/b@/sub/").unwrap();
    assert_eq!((u.revision.as_str(), u.path_in_repo.as_str()), ("main", "sub"));
    let u = normalize_url("http://huggingface.co/models/a/b/tree/dev").unwrap();
    assert_eq!((u.repo_id.as_str(), u.revision.as_str()), ("a/b", "dev"));
    let u = normalize_url("https://huggingface.co/a/b/").unwrap();
    assert_eq!((u.repo_id.as_str(), u.revision.as_str()), ("a/b", "main"));
    let u = normalize_url("a/b/ü").unwrap();
    assert_eq!(u.repo_id, "a/b/ü");
}

#[test]
fn schemes_and_a_leading_models_do_not_matter() {
    let told = |input: String| match normalize_url(&input) {
        Ok(u) => (u.repo_id, u.revision, u.path_in_repo, u.is_folder),
        Err(e) => (e.message, String::new(), String::new(), false),
    };
    for t in ["a/b/tree/v1/sub/x", "a/b/blob/main/f.gguf", "a/b/c", "a/b/resolve/main/f"] {
        let here = told(format!("https://huggingface.co/{t}"));
        assert_eq!(told(format!("http://huggingface.co/{t}")), here);
        assert_eq!(told(format!("https://huggingface.co/models/{t}")), here);
        assert_eq!(told(format!("http://huggingface.co/models/{t}")), here);
    }
    let read = |input: &str| parse_browser_url(input).ok().map(|u| (u.repo_id, u.revision));
    assert_eq!(
        read("http://huggingface.co/models/a/b/tree/v1"),
        Some(("a/b".to_string(), "v1".to_string()))
    );
    assert_eq!(read("https://huggingface.co/a/b/tree/v1"), read("http://huggingface.co/a/b/tree/v1"));
    assert_eq!(
        parse_browser_url("https://example.com/a/b/c").unwrap_err().message,
        "invalid Hugging Face URL"
    );
    assert_eq!(
        told("https://huggingface.co/models/a/b/tree/v1/sub".to_string()),
        ("a/b".to_string(), "v1".to_string(), "sub".to_string(), true)
    );
}

#[test]
fn incomplete_addresses_are_told_apart() {
    assert!(!is_complete("https://huggingface.co/models/a/b"));
    assert!(is_complete("https://huggingface.co/models/a/b/"));
    assert!(is_complete("models/a/b"));
}

#[test]
fn repository_paths_are_checked_part_by_part() {
    assert!(is_invalid_repo_path(""));
    assert!(is_invalid_repo_path("/a"));
    assert!(is_invalid_repo_path("a//b"));
    assert!(is_invalid_repo_path("a/.."));
    assert!(is_invalid_repo_path("a b"));
    assert!(!is_invalid_repo_path("a/b.c-d_e/9"));
}

#[test]
fn asked_revision_replaces_the_one_of_the_place() {
    let u = with_revision(
        normalize_url("a/b").unwrap(),
        Some("refs/pr/1".to_string()),
    );
    assert_eq!(u.revision, "refs/pr/1");
}

fn url(path: &str) -> HfUrl {
    HfUrl {
        repo_id: "a/b".to_string(),
        revision: "main".to_string(),
        path_in_repo: path.to_string(),
        is_folder: true,
    }
}

fn entry(kind: &str, path: &str, size: i64, lfs: Option<i64>) -> TreeEntry {
    TreeEntry {
        entry_type: kind.to_string(),
        path: path.to_string(),
        size,
        lfs: lfs.map(|size| LfsMeta { size }),
    }
}

#[test]
fn listings_hold_the_files_of_the_place() {
    let entries = vec![
        entry("directory", "BF16", 0, None),
        entry("file", "BF16/a.gguf", 130, Some(5_000)),
        entry("file", "BF160/b.gguf", 7, None),
        entry("file", "README.md", 9, None),
    ];
    let files = list_files(&url("BF16"), entries).unwrap();
    assert_eq!(files.len(), 1);
    assert_eq!(files[0].path, "BF16/a.gguf");
    assert_eq!(files[0].size, 5_000);
    assert!(files[0].is_lfs);
}

#[test]
fn whole_repositories_can_be_empty_but_places_cannot() {
    assert!(list_files(&url(""), Vec::new()).unwrap().is_empty());
    let e = list_files(&url("x"), vec![entry("file", "y", 1, None)]).unwrap_err();
    assert_eq!(e.message, "path 'x' not found in 'a/b@main'");
}

#[test]
fn negative_sizes_keep_their_bits() {
    let files = list_files(&url(""), vec![entry("file", "y", -1, None)]).unwrap();
    assert_eq!(files[0].size, u64::MAX);
}

#[test]
fn listing_addresses_and_refusals() {
    assert_eq!(hf_base_url(None), "https://huggingface.co");
    assert_eq!(
        tree_url("https://hub.example//", &url("")),
        "https://hub.example/api/models/a/b/tree/main"
    );
    assert_eq!(
        tree_refusal(401, "401 Unauthorized", "a/b").message,
        "authentication required for 'a/b'. This may be a gated repository."
    );
    assert_eq!(
        tree_refusal(403, "403 Forbidden", "a/b").message,
        "access denied for 'a/b'. This may be a gated repository."
    );
    assert_eq!(
        tree_refusal(404, "404 Not Found", "a/b").message,
        "repository 'a/b' not found"
    );
    assert_eq!(
        tree_refusal(500, "500 Internal Server Error", "a/b").message,
        "tree API returned status 500 Internal Server Error for 'a/b'"
    );
}

#[test]
fn paths_are_encoded_byte_by_byte() {
    assert_eq!(urlencoding_path("a b/ü~x.gguf"), "a%20b/%C3%BC~x.gguf");
    assert_eq!(
        urlencoding_path("100%/é+€😀"),
        "100%25/%C3%A9%2B%E2%82%AC%F0%9F%98%80"
    );
    assert_eq!(
        resolve_url("https://huggingface.co/", "a/b", "main", "x y"),
        "https://huggingface.co/a/b/resolve/main/x%20y"
    );
}

#[test]
fn encoded_paths_decode_to_their_bytes() {
    let path = "dir/ä ö%2F€.bin";
    let text = urlencoding_path(path);
    let bytes = text.as_bytes();
    let mut out = Vec::new();
    let mut i = 0;
    while i < bytes.len() {
        if bytes[i] == b'%' {
            out.push(u8::from_str_radix(&text[i + 1..i + 3], 16).unwrap());
            i += 3;
        } else {
            out.push(bytes[i]);
            i += 1;
        }
    }
    assert_eq!(out, path.as_bytes());
}

fn file(path: &str, size: u64) -> FileEntry {
    FileEntry {
        path: path.to_string(),
        size,
        is_lfs: false,
    }
}

#[test]
fn files_of_the_right_size_are_not_fetched_again() {
    let entries = vec![file("a", 10), file("d/b", 20), file("c", 30)];
    let found = vec![Some(10), Some(19), None];
    let jobs = build_download_jobs("/m", &entries, false, &found);
    assert_eq!(
        jobs.iter().map(|j| j.new).collect::<Vec<_>>(),
        vec![false, true, true]
    );
    assert_eq!(jobs[1].local_path, "/m/d/b");
    assert_eq!(jobs[0].total_files, 3);
    let jobs = build_download_jobs("/m", &entries, true, &found);
    assert!(jobs.iter().all(|j| j.new));
}

#[test]
fn new_files_are_fetched_from_the_start() {
    let mut job = build_download_jobs("/m", &vec![file("a", 10)], true, &vec![None]).remove(0);
    assert_eq!(start_offset(&job, Some(4)), 0);
    assert_eq!(range_header(0), None);
    job.new = false;
    assert_eq!(start_offset(&job, Some(4)), 4);
    assert_eq!(start_offset(&job, None), 0);
    assert_eq!(range_header(4).as_deref(), Some("bytes=4-"));
    assert_eq!(make_tmp_path("/m/a"), "/m/a.tmp");
}

#[test]
fn refused_files_say_why() {
    assert!(check_status(200, "200 OK", "f", "a/b", "main").is_ok());
    assert!(check_status(206, "206 Partial Content", "f", "a/b", "main").is_ok());
    let say = |code: u16, shown: &str| {
        check_status(code, shown, "f", "a/b", "main")
            .unwrap_err()
            .message
    };
    assert_eq!(
        say(401, ""),
        "authentication required for 'a/b'. This may be a gated repository."
    );
    assert_eq!(say(403, ""), "access denied for 'a/b'");
    assert_eq!(say(404, ""), "file 'f' not found in 'a/b@main'");
    assert_eq!(
        say(503, "503 Service Unavailable"),
        "download failed for 'f': HTTP 503 Service Unavailable"
    );
    assert_eq!(
        write_failure("f", true, "x").message,
        "disk full while writing 'f' — delete temporary files and retry"
    );
    assert_eq!(
        write_failure("f", false, "x").message,
        "failed to write 'f': x"
    );
}

fn origin() -> Origin {
    Origin {
        base: "https://hub/".to_string(),
        repo_id: "a/b".to_string(),
        revision: "main".to_string(),
    }
}

#[test]
fn whole_files_are_put_in_their_place() {
    let o = origin();
    let job = build_download_jobs("/m", &vec![file("d/a", 10)], true, &vec![None]).remove(0);
    let (s, act) = begin_file(&job, &o);
    assert_eq!(s, Fetching::Asked(0));
    match act {
        Act::Ask { url, range } => {
            assert_eq!(url, "https://hub/a/b/resolve/main/d/a");
            assert_eq!(range, None);
        }
        _ => panic!("the file is asked for"),
    }
    let answer = Event::Answered { code: 200, shown: "200 OK".to_string() };
    let (s, act) = download_file(&job, &o, s, answer);
    assert!(matches!(act, Act::Open { path, append: false } if path == "/m/d/a.tmp"));
    let (s, act) = download_file(&job, &o, s, Event::Done);
    assert!(matches!(act, Act::Write));
    let (s, act) = download_file(&job, &o, s, Event::Written);
    assert!(matches!(act, Act::Write));
    let (s, act) = download_file(&job, &o, s, Event::Drained);
    assert!(matches!(act, Act::Weigh(path) if path == "/m/d/a.tmp"));
    let (s, act) = download_file(&job, &o, s, Event::Size(10));
    assert!(matches!(act, Act::Move { from, to } if from == "/m/d/a.tmp" && to == "/m/d/a"));
    let (s, act) = download_file(&job, &o, s, Event::Done);
    assert_eq!(s, Fetching::Over);
    match act {
        Act::Finish(r) => {
            assert_eq!(r.status, "downloaded");
            assert_eq!(r.size, 10);
            assert_eq!(r.local_path.as_deref(), Some("/m/d/a"));
        }
        _ => panic!("the file is fetched"),
    }
    let (s, act) = download_file(&job, &o, s, Event::Done);
    assert_eq!(s, Fetching::Over);
    assert!(matches!(act, Act::Nothing));
}

#[test]
fn files_of_the_wrong_size_are_thrown_away() {
    let o = origin();
    let job = build_download_jobs("/m", &vec![file("a", 10)], true, &vec![None]).remove(0);
    assert_eq!(size_warning(&job, 10), None);
    let (s, act) = download_file(&job, &o, Fetching::Complete, Event::Size(9));
    assert_eq!(s, Fetching::Removing);
    match act {
        Act::Discard { warning, path } => {
            assert_eq!(path, "/m/a.tmp");
            assert_eq!(
                warning,
                "warning: size mismatch for 'a' (expected 10, got 9) — cleaning up partial file"
            );
        }
        _ => panic!("the file is removed"),
    }
    let (_, act) = download_file(&job, &o, s, Event::Done);
    assert!(matches!(act, Act::Finish(r) if r.status == "error"));
}

#[test]
fn failed_fetches_tell_why() {
    let o = origin();
    let job = build_download_jobs("/m", &vec![file("a", 10)], false, &vec![Some(10)]).remove(0);
    let (s, act) = begin_file(&job, &o);
    assert_eq!(s, Fetching::Begun);
    assert!(matches!(act, Act::Measure(path) if path == "/m/a.tmp"));
    let (s, act) = download_file(&job, &o, s, Event::Left(Some(4)));
    assert_eq!(s, Fetching::Asked(4));
    assert!(matches!(act, Act::Ask { range: Some(r), .. } if r == "bytes=4-"));
    let why = |s: Fetching, e: Event<String>| match download_file(&job, &o, s, e) {
        (Fetching::Over, Act::Fail(m)) => m,
        _ => panic!("a failure is expected"),
    };
    assert_eq!(why(s, Event::Unanswered("no route".to_string())), "request failed: no route");
    assert_eq!(
        why(s, Event::Answered { code: 404, shown: "404 Not Found".to_string() }),
        "file 'a' not found in 'a/b@main'"
    );
    assert_eq!(
        why(Fetching::Open, Event::Torn("reset".to_string())),
        "download stream error for 'a': reset"
    );
    assert_eq!(
        why(Fetching::Open, Event::Unwritten { full: false, cause: "x".to_string() }),
        "failed to write 'a': x"
    );
    assert_eq!(why(Fetching::Granted, Event::Trouble("denied".to_string())), "denied");
}

#[test]
fn downloads_account_for_every_file() {
    let entries = vec![file("a", 10), file("b", 2048), file("c", 5), file("d", 6)];
    let found = vec![Some(10), None, None, None];
    let jobs = build_download_jobs("/m", &entries, false, &found);
    let begun = begin_all(&jobs, true);
    assert_eq!(
        begun.lines,
        vec![
            "info: a 10 B cached",
            "info: b 2.0 KB downloading...",
            "info: c 5 B downloading...",
            "info: d 6 B downloading..."
        ]
    );
    assert_eq!(begun.left, vec![1, 2, 3]);
    let fetched = vec![
        Fetched::Done(result_as(&jobs[1], "downloaded")),
        Fetched::Failed {
            path: "c".to_string(),
            message: "no".to_string(),
        },
        Fetched::Lost {
            message: "gone".to_string(),
        },
    ];
    assert_eq!(fetched_size(&fetched), Some(2048));
    let end = download_all(begun.cached, fetched, "a/b", "main", true);
    assert_eq!(end.result.files.len(), jobs.len());
    assert_eq!(
        end.result
            .files
            .iter()
            .map(|f| f.status.as_str())
            .collect::<Vec<_>>(),
        vec!["cached", "downloaded", "error", "error"]
    );
    assert_eq!(
        end.errors,
        vec![
            "error: download failed for 'c': no",
            "error: task panicked: gone"
        ]
    );
    assert_eq!(
        end.summary,
        vec!["", "info: downloaded 1 file (2.0 KB), 1 cached"]
    );
}

#[test]
fn downloads_without_news_say_so() {
    let entries = vec![file("a", 10), file("b", 20)];
    let jobs = build_download_jobs("/m", &entries, false, &vec![Some(10), Some(20)]);
    let begun = begin_all(&jobs, false);
    assert!(begun.lines.is_empty());
    let end = download_all(begun.cached, Vec::new(), "a/b", "main", true);
    assert_eq!(end.summary, vec!["", "info: all 2 files already cached"]);
    let silent = download_all(Vec::new(), Vec::new(), "a/b", "main", false);
    assert!(silent.summary.is_empty());
}

#[test]
fn sizes_that_do_not_fit_are_told() {
    let big = |n: u64| {
        Fetched::Done(FileResult {
            path: "p".to_string(),
            size: n,
            status: "downloaded".to_string(),
            local_path: None,
        })
    };
    assert_eq!(fetched_size(&vec![big(u64::MAX), big(1)]), None);
    assert_eq!(
        fetch_size(&vec![file("a", u64::MAX), file("b", 1)], &vec![None, None]),
        None
    );
}

#[test]
fn trials_foretell_downloads() {
    let entries = vec![file("x/a", 10), file("b", 1024), file("c", 1024)];
    let found = vec![Some(10), Some(3), None];
    let t = dry_run_cmd(&url(""), "/m", &entries, &found).unwrap();
    assert_eq!(
        t.lines,
        vec![
            "3 files",
            "  2 new, 1 cached, 2.0 KB total",
            "  a cached",
            "  b redownload",
            "  c new"
        ]
    );
    assert_eq!(t.result.target_dir, "/m");
    assert_eq!(t.result.files[0].local_path.as_deref(), Some("/m/x/a"));
    assert_eq!(t.result.files[1].local_path, None);
    let jobs = build_download_jobs("/m", &entries, false, &found);
    for (f, j) in t.result.files.iter().zip(&jobs) {
        assert_eq!(f.status == "cached", !j.new);
    }
    let all = dry_run_cmd(&url(""), "/m", &vec![file("a", 1)], &vec![Some(1)]).unwrap();
    assert_eq!(all.lines, vec!["1 file", "  all 1 cached", "  a cached"]);
    let none = dry_run_cmd(&url(""), "/m", &Vec::new(), &Vec::new());
    assert_eq!(none.err().unwrap().message, "no files to download");
}
