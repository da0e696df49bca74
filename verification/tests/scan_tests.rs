use github_cli::scan::{
    extension_of, find_matches, find_skips, is_generated, is_search_skipped, project_stats,
    recent_files, search_matches, FileRecord, SearchFile, SearchMatch, TimedFile,
};

fn rec(path: &str, name: &str, size: Option<u64>, lines: Option<usize>) -> FileRecord {
    FileRecord { path: path.to_string(), name: name.to_string(), size, lines }
}

#[test]
fn generated_paths() {
    assert!(is_generated("./node_modules/x/index.js"));
    assert!(is_generated("./.git/HEAD"));
    assert!(is_generated("./target/debug/app"));
    assert!(is_generated("./web/dist/app.js"));
    assert!(is_generated("./rebuild.sh"));
    assert!(!is_generated("./src/main.rs"));
    assert!(is_search_skipped("./img/logo.png"));
    assert!(is_search_skipped("./a.jpg"));
    assert!(!is_search_skipped("./src/main.rs"));
}

#[test]
fn extensions_follow_path_rules() {
    assert_eq!(extension_of("main.rs"), Some("rs".to_string()));
    assert_eq!(extension_of("archive.tar.gz"), Some("gz".to_string()));
    assert_eq!(extension_of(".bashrc"), None);
    assert_eq!(extension_of(".config.toml"), Some("toml".to_string()));
    assert_eq!(extension_of("Makefile"), None);
    assert_eq!(extension_of("trailing."), Some("".to_string()));
    assert_eq!(extension_of(".."), None);
}

#[test]
fn stats_count_tally_and_order() {
    let files = vec![
        rec("./src/a.rs", "a.rs", Some(100), Some(10)),
        rec("./README.md", "README.md", Some(300), Some(5)),
        rec("./target/x.rs", "x.rs", Some(999), Some(1000)),
        rec("./src/b.rs", "b.rs", Some(300), None),
        rec("./Makefile", "Makefile", None, Some(2)),
    ];
    let st = project_stats(&files).unwrap();
    assert_eq!(st.total_files, 4);
    assert_eq!(st.total_lines, 17);
    assert_eq!(st.file_types, vec![("rs".to_string(), 2), ("md".to_string(), 1)]);
    assert!(st.file_types.iter().map(|e| e.1).sum::<usize>() <= st.total_files);
    assert_eq!(
        st.largest_files,
        vec![
            ("./README.md".to_string(), 300),
            ("./src/b.rs".to_string(), 300),
            ("./src/a.rs".to_string(), 100)
        ]
    );
}

#[test]
fn stats_of_nothing() {
    let st = project_stats(&Vec::new()).unwrap();
    assert_eq!(st.total_files, 0);
    assert_eq!(st.total_lines, 0);
    assert!(st.file_types.is_empty());
    assert!(st.largest_files.is_empty());
}

#[test]
fn stats_line_total_that_overflows() {
    let files = vec![rec("./a", "a", None, Some(usize::MAX)), rec("./b", "b", None, Some(1))];
    assert_eq!(project_stats(&files), None);
}

#[test]
fn recent_keeps_ten_latest_in_order() {
    let mut files = Vec::new();
    for i in 0..15i128 {
        files.push(TimedFile { path: format!("./f{}", i), modified: i * 10 });
    }
    files.push(TimedFile { path: "./dist/new.js".to_string(), modified: 10_000 });
    files.push(TimedFile { path: "./tie".to_string(), modified: 140 });
    let got = recent_files(&files);
    assert_eq!(got.len(), 10);
    assert_eq!(got[0], TimedFile { path: "./f14".to_string(), modified: 140 });
    assert_eq!(got[1], TimedFile { path: "./tie".to_string(), modified: 140 });
    assert_eq!(got[2].path, "./f13");
    assert_eq!(got[9].path, "./f6");
    for w in got.windows(2) {
        assert!(w[0].modified >= w[1].modified);
    }
}

#[test]
fn recent_with_few_files() {
    let files = vec![
        TimedFile { path: "./old".to_string(), modified: -5 },
        TimedFile { path: "./new".to_string(), modified: 7 },
    ];
    let got = recent_files(&files);
    assert_eq!(got, vec![
        TimedFile { path: "./new".to_string(), modified: 7 },
        TimedFile { path: "./old".to_string(), modified: -5 },
    ]);
}

#[test]
fn search_finds_numbered_trimmed_lines() {
    let files = vec![
        SearchFile {
            path: "./src/a.rs".to_string(),
            lines: Some(vec![
                Some("fn main() {".to_string()),
                None,
                Some("    // TODO: fix   ".to_string()),
                Some("todo lower".to_string()),
            ]),
        },
        SearchFile { path: "./logo.png".to_string(), lines: Some(vec![Some("TODO".to_string())]) },
        SearchFile { path: "./b.txt".to_string(), lines: None },
        SearchFile { path: "./c.txt".to_string(), lines: Some(vec![Some("TODO".to_string())]) },
    ];
    let got = search_matches(&files, "TODO");
    assert_eq!(got, vec![
        SearchMatch { file: "./src/a.rs".to_string(), line: 3, content: "// TODO: fix".to_string() },
        SearchMatch { file: "./c.txt".to_string(), line: 1, content: "TODO".to_string() },
    ]);
}

#[test]
fn file_search_predicates() {
    assert!(find_skips("node_modules"));
    assert!(find_skips(".git"));
    assert!(find_skips("target"));
    assert!(!find_skips("targets"));
    assert!(find_matches("ReadMe.MD", "readme"));
    assert!(find_matches("main.rs", "MAIN"));
    assert!(!find_matches("lib.rs", "main"));
    assert!(find_matches("anything", ""));
}
