use larql_cache::hub::{
    bearer, head_etag_and_size, head_url, header_text, list_repo_files, open_repo, parse_hf_path,
    strip_etag_quoting, tree_files, tree_url, HeadReply, HfRef, TreeReply, VindexError,
};
use larql_cache::trusted::JsonRow;

fn wording(e: VindexError) -> String {
    match e {
        VindexError::Parse(text) => text,
    }
}

fn bytes(s: &str) -> Option<Vec<u8>> {
    Some(s.as_bytes().to_vec())
}

fn answer(status: u16, body: &str) -> TreeReply {
    TreeReply::Answer {
        status,
        body: Ok(body.as_bytes().to_vec()),
    }
}

#[test]
fn hf_paths_name_repo_and_revision() {
    let hf = parse_hf_path("hf://user/repo").unwrap();
    assert_eq!((hf.repo_id.as_str(), hf.revision.as_deref()), ("user/repo", None));
    let hf = parse_hf_path("hf://user/repo@v1@x").unwrap();
    assert_eq!((hf.repo_id.as_str(), hf.revision.as_deref()), ("user/repo", Some("v1@x")));
    let hf = parse_hf_path("hf://@").unwrap();
    assert_eq!((hf.repo_id.as_str(), hf.revision.as_deref()), ("", Some("")));
    assert_eq!(wording(parse_hf_path("user/repo").unwrap_err()), "not an hf:// path: user/repo");
}

#[test]
fn repos_are_opened_at_their_revision() {
    let at = |revision: Option<&str>| {
        open_repo(&HfRef { repo_id: "o/n".to_string(), revision: revision.map(|r| r.to_string()) })
    };
    let repo = at(Some("v2"));
    assert_eq!(repo.revision(), "v2");
    assert_eq!(repo.url(), "o/n");
    assert_eq!(repo.folder_name(), "models--o--n");
    assert_eq!(at(None).revision(), "main");
    assert_eq!(at(None).api_url(), at(Some("main")).api_url());
}

#[test]
fn addresses_default_to_main() {
    assert_eq!(head_url("o/n", None, "a/b.bin"), "https://huggingface.co/o/n/resolve/main/a/b.bin");
    assert_eq!(head_url("o/n", Some("v1"), "x"), "https://huggingface.co/o/n/resolve/v1/x");
    assert_eq!(tree_url("o/n", None), "https://huggingface.co/api/models/o/n/tree/main?recursive=true");
    assert_eq!(tree_url("o/n", Some("v1")), "https://huggingface.co/api/models/o/n/tree/v1?recursive=true");
    assert_eq!(bearer("t"), "Bearer t");
}

#[test]
fn etags_are_unquoted() {
    assert_eq!(strip_etag_quoting("\"abc123\""), "abc123");
    assert_eq!(strip_etag_quoting("W/\"abc123\""), "abc123");
    assert_eq!(strip_etag_quoting("  W/\"abc123\" "), "abc123");
    assert_eq!(strip_etag_quoting("abc123"), "abc123");
    assert_eq!(strip_etag_quoting("\"\""), "");
    assert_eq!(strip_etag_quoting(""), "");
}

#[test]
fn header_values_are_text_or_refused() {
    assert_eq!(header_text(&b"a b\t~".to_vec()).as_deref(), Some("a b\t~"));
    assert_eq!(header_text(&Vec::new()).as_deref(), Some(""));
    for b in 0..=255u8 {
        let want = (32..127).contains(&b) || b == 9;
        assert_eq!(header_text(&vec![b]).is_some(), want);
    }
}

#[test]
fn head_prefers_the_linked_headers() {
    let reply = |status: u16| HeadReply {
        status,
        linked_etag: bytes("\"lfs\""),
        etag: bytes("\"s3\""),
        linked_size: bytes("10"),
        content_length: bytes("99"),
    };
    assert_eq!(head_etag_and_size(&reply(302)), Some(("lfs".to_string(), 10)));
    assert_eq!(head_etag_and_size(&reply(200)), Some(("lfs".to_string(), 10)));
    for status in [100u16, 199, 400, 404, 500] {
        assert_eq!(head_etag_and_size(&reply(status)), None);
    }
    let plain = HeadReply { linked_etag: None, linked_size: None, ..reply(200) };
    assert_eq!(head_etag_and_size(&plain), Some(("s3".to_string(), 99)));
    // A linked header that is no text is not made up for by the other.
    assert_eq!(head_etag_and_size(&HeadReply { linked_etag: Some(vec![200]), ..reply(200) }), None);
    assert_eq!(head_etag_and_size(&HeadReply { linked_size: bytes("ten"), ..reply(200) }), None);
    let bare = HeadReply { linked_etag: None, etag: None, ..reply(200) };
    assert_eq!(head_etag_and_size(&bare), None);
    let unsized_reply = HeadReply { linked_size: None, content_length: None, ..reply(200) };
    assert_eq!(head_etag_and_size(&unsized_reply), None);
}

#[test]
fn trees_list_their_files() {
    let body = r#"[
        {"type": "directory", "path": "layers"},
        {"type": "file", "path": "index.json", "size": 3},
        {"type": "file"},
        {"type": 1, "path": "odd"},
        {"path": "untyped"},
        "text",
        {"type": "file", "path": "layers/layer_00.weights"}
    ]"#;
    let files = list_repo_files("o/n", None, &answer(200, body)).unwrap();
    assert_eq!(files, vec!["index.json", "layers/layer_00.weights"]);
    assert!(list_repo_files("o/n", None, &answer(299, "[]")).unwrap().is_empty());
}

#[test]
fn tree_failures_say_why() {
    let why = |reply: TreeReply| wording(list_repo_files("o/n", Some("r"), &reply).unwrap_err());
    assert_eq!(why(TreeReply::NoClient("c".to_string())), "HF tree client init: c");
    assert_eq!(why(TreeReply::NoAnswer("n".to_string())), "HF tree fetch failed: n");
    assert_eq!(
        why(answer(404, "[]")),
        "HF tree https://huggingface.co/api/models/o/n/tree/r?recursive=true -> HTTP 404 Not Found"
    );
    assert!(why(answer(301, "[]")).ends_with(" -> HTTP 301 Moved Permanently"));
    assert!(why(answer(199, "[]")).ends_with(" -> HTTP 199 <unknown status code>"));
    assert!(why(answer(300, "[]")).ends_with(" -> HTTP 300 Multiple Choices"));
    assert!(why(answer(999, "[]")).ends_with(" -> HTTP 999 <unknown status code>"));
    assert_eq!(why(answer(200, "{\"a\": 1}")), "HF tree response not an array: {\"a\":1}");
    assert_eq!(why(answer(200, "nope")), "HF tree JSON: error decoding response body");
    assert_eq!(why(answer(200, "[] []")), "HF tree JSON: error decoding response body");
    let cut = TreeReply::Answer { status: 200, body: Err("cut".to_string()) };
    assert_eq!(why(cut), "HF tree JSON: cut");
}

#[test]
fn rows_of_files_give_their_paths() {
    let row = |kind: Option<&str>, path: Option<&str>| JsonRow {
        first: kind.map(|s| s.to_string()),
        second: path.map(|s| s.to_string()),
    };
    let rows = vec![
        row(Some("file"), Some("a")),
        row(Some("files"), Some("b")),
        row(None, Some("c")),
        row(Some("file"), None),
        row(Some("file"), Some("a")),
    ];
    assert_eq!(tree_files(&rows), vec!["a", "a"]);
}
