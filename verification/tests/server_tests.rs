use github_cli::deps::{deps_data, deps_from_package_json};
use github_cli::git::{branch_args, log_args, status_args};
use github_cli::listing::list_entries;
use github_cli::server::{
    check_readable, classify_text_message, decide_text_message, pong_message, read_reply, write_reply, ControlFields,
    FileReply, GitResponse, LogQuery, LsQuery, PathQuery, SearchRequest, SocketAction,
};

#[test]
fn query_defaults() {
    assert_eq!(LsQuery { path: None }.sub_path(), ".");
    assert_eq!(LsQuery { path: Some("src".to_string()) }.sub_path(), "src");
    assert_eq!(LogQuery { n: None }.count(), "5");
    assert_eq!(LogQuery { n: Some("20".to_string()) }.count(), "20");
    let q = PathQuery { path: Some("x".to_string()) };
    assert_eq!(q.path, Some("x".to_string()));
    let r = SearchRequest { query: "k".to_string() };
    assert_eq!(r.query, "k");
}

#[test]
fn file_requests() {
    assert_eq!(
        check_readable("nope.txt", false, false),
        Some(FileReply::Error { message: "Path does not exist: nope.txt".to_string() })
    );
    assert_eq!(
        check_readable("src", true, true),
        Some(FileReply::Error { message: "Path is a directory, not a file: src".to_string() })
    );
    assert_eq!(check_readable("a.txt", true, false), None);
    assert_eq!(read_reply(Ok("hi".to_string())), FileReply::Content { content: "hi".to_string() });
    assert_eq!(read_reply(Err("bad".to_string())), FileReply::Error { message: "bad".to_string() });
    assert_eq!(write_reply(Ok(())), GitResponse { output: "File saved successfully".to_string() });
    assert_eq!(write_reply(Err("disk full".to_string())), GitResponse { output: "Error: disk full".to_string() });
}

#[test]
fn socket_messages() {
    let ping = ControlFields { kind: Some("ping".to_string()), size: None };
    assert_eq!(decide_text_message(Some(ping)), SocketAction::SendPong);
    let resize = ControlFields { kind: Some("resize".to_string()), size: Some((Some(80), Some(24))) };
    assert_eq!(decide_text_message(Some(resize)), SocketAction::Resize { cols: 80, rows: 24 });
    let half = ControlFields { kind: Some("resize".to_string()), size: Some((Some(80), None)) };
    assert_eq!(decide_text_message(Some(half)), SocketAction::Ignore);
    let bad = ControlFields { kind: Some("resize".to_string()), size: None };
    assert_eq!(decide_text_message(Some(bad)), SocketAction::Ignore);
    let other = ControlFields { kind: Some("hello".to_string()), size: None };
    assert_eq!(decide_text_message(Some(other)), SocketAction::WriteToTerminal);
    let untyped = ControlFields { kind: None, size: None };
    assert_eq!(decide_text_message(Some(untyped)), SocketAction::WriteToTerminal);
    assert_eq!(decide_text_message(None), SocketAction::WriteToTerminal);
    assert_eq!(pong_message(), "{\"type\":\"pong\"}");
}

#[test]
fn git_arguments() {
    assert_eq!(status_args(), vec!["status".to_string()]);
    assert_eq!(branch_args(), vec!["branch".to_string(), "-a".to_string()]);
    assert_eq!(
        log_args("3"),
        vec!["log", "-n", "3", "--oneline", "--graph", "--decorate"]
            .into_iter()
            .map(|s| s.to_string())
            .collect::<Vec<String>>()
    );
}

#[test]
fn folder_listing_sorted_by_kind() {
    let entries = vec![
        ("zeta.txt".to_string(), false),
        ("src".to_string(), true),
        ("a.b".to_string(), true),
        ("a".to_string(), true),
        ("Alpha.md".to_string(), false),
        ("beta".to_string(), false),
    ];
    let l = list_entries(&entries);
    assert_eq!(l.dirs, vec!["📁 a.b/".to_string(), "📁 a/".to_string(), "📁 src/".to_string()]);
    assert_eq!(l.files, vec!["📄 Alpha.md".to_string(), "📄 beta".to_string(), "📄 zeta.txt".to_string()]);
}

#[test]
fn dependencies_from_sections() {
    let d = deps_data(
        Some(vec![("react".to_string(), Some("^18.0.0".to_string())), ("odd".to_string(), None)]),
        None,
    );
    assert_eq!(d.dependencies, vec![
        ("react".to_string(), "^18.0.0".to_string()),
        ("odd".to_string(), "".to_string()),
    ]);
    assert!(d.dev_dependencies.is_empty());
}

#[test]
fn socket_text_messages() {
    assert_eq!(classify_text_message("{\"type\":\"ping\"}", None), SocketAction::SendPong);
    assert_eq!(
        classify_text_message("{\"type\":\"resize\",\"cols\":100,\"rows\":30}", Some((Some(100), Some(30)))),
        SocketAction::Resize { cols: 100, rows: 30 }
    );
    assert_eq!(classify_text_message("{\"type\":\"resize\"}", Some((None, None))), SocketAction::Ignore);
    assert_eq!(classify_text_message("ls -la\n", None), SocketAction::WriteToTerminal);
    assert_eq!(classify_text_message("{\"type\":3}", None), SocketAction::WriteToTerminal);
    assert_eq!(classify_text_message("\"ping\"", None), SocketAction::WriteToTerminal);
}

#[test]
fn dependencies_from_package_json() {
    let text = "{\"name\":\"app\",\"dependencies\":{\"vite\":\"^5\",\"local\":{\"path\":\"x\"}},\"devDependencies\":{}}";
    let d = deps_from_package_json(text).unwrap();
    assert_eq!(d.dependencies, vec![
        ("local".to_string(), "".to_string()),
        ("vite".to_string(), "^5".to_string()),
    ]);
    assert!(d.dev_dependencies.is_empty());
    assert_eq!(deps_from_package_json("not json"), None);
    let none = deps_from_package_json("{}").unwrap();
    assert!(none.dependencies.is_empty() && none.dev_dependencies.is_empty());
}
