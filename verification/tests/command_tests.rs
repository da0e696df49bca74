use github_cli::command::{parse_command, Command};

fn s(x: &str) -> String {
    x.to_string()
}

#[test]
fn blank_line_is_empty() {
    assert_eq!(parse_command(""), Command::Empty);
    assert_eq!(parse_command("   \t  "), Command::Empty);
}

#[test]
fn simple_commands() {
    assert_eq!(parse_command("help"), Command::Help);
    assert_eq!(parse_command("  serve  "), Command::Serve);
    assert_eq!(parse_command("about"), Command::About);
    assert_eq!(parse_command("pwd"), Command::Pwd);
    assert_eq!(parse_command("stats"), Command::Stats);
    assert_eq!(parse_command("deps"), Command::Deps);
    assert_eq!(parse_command("recent"), Command::Recent);
    assert_eq!(parse_command("git-status"), Command::GitStatus);
    assert_eq!(parse_command("git-branch"), Command::GitBranch);
    assert_eq!(parse_command("remote-pull"), Command::RemotePull);
    assert_eq!(parse_command("remote-push"), Command::RemotePush);
    assert_eq!(parse_command("secret-list"), Command::SecretList);
    assert_eq!(parse_command("remote-pull-wiki"), Command::RemotePullWiki);
    assert_eq!(parse_command("remote-push-wiki"), Command::RemotePushWiki);
    assert_eq!(parse_command("exit"), Command::Exit);
}

#[test]
fn exit_ignores_arguments() {
    assert_eq!(parse_command("exit now please"), Command::Exit);
}

#[test]
fn ls_and_open_default_to_current_folder() {
    assert_eq!(parse_command("ls"), Command::Ls { path: s(".") });
    assert_eq!(parse_command("ls src"), Command::Ls { path: s("src") });
    assert_eq!(parse_command("open"), Command::Open { path: s(".") });
    assert_eq!(parse_command("open a/b.txt"), Command::Open { path: s("a/b.txt") });
}

#[test]
fn commands_with_required_arguments() {
    assert_eq!(parse_command("cat"), Command::Usage { message: s("Usage: cat <filepath>") });
    assert_eq!(parse_command("cat x.rs"), Command::Cat { file: s("x.rs") });
    assert_eq!(parse_command("find src"), Command::Usage { message: s("Usage: find <path> <filename>") });
    assert_eq!(parse_command("find src main"), Command::Find { root: s("src"), name: s("main") });
    assert_eq!(parse_command("search"), Command::Usage { message: s("Usage: search <keyword>") });
    assert_eq!(parse_command("search TODO"), Command::Search { keyword: s("TODO") });
    assert_eq!(parse_command("login a@b.c"), Command::Usage { message: s("Usage: login <email> <password>") });
    assert_eq!(
        parse_command("login a@b.c hunter2"),
        Command::Login { email: s("a@b.c"), password: s("hunter2") }
    );
    assert_eq!(
        parse_command("remote-create"),
        Command::Usage { message: s("Usage: remote-create <repo_name> [description]") }
    );
    assert_eq!(
        parse_command("remote-create web"),
        Command::RemoteCreate { name: s("web"), description: s("") }
    );
    assert_eq!(
        parse_command("remote-create web my-site"),
        Command::RemoteCreate { name: s("web"), description: s("my-site") }
    );
    assert_eq!(parse_command("remote-link"), Command::Usage { message: s("Usage: remote-link <repo_id>") });
    assert_eq!(parse_command("remote-link 42"), Command::RemoteLink { id: s("42") });
    assert_eq!(parse_command("secret-delete"), Command::Usage { message: s("Usage: secret-delete <NAME>") });
    assert_eq!(parse_command("secret-delete api_key"), Command::SecretDelete { name: s("api_key") });
}

#[test]
fn git_log_defaults_to_five() {
    assert_eq!(parse_command("git-log"), Command::GitLog { count: s("5") });
    assert_eq!(parse_command("git-log 12"), Command::GitLog { count: s("12") });
}

#[test]
fn secret_set_joins_and_unquotes_the_value() {
    assert_eq!(parse_command("secret-set KEY"), Command::Usage { message: s("Usage: secret-set <NAME> <VALUE>") });
    assert_eq!(
        parse_command("secret-set KEY \"hello   big world\""),
        Command::SecretSet { name: s("KEY"), value: s("hello big world") }
    );
    assert_eq!(
        parse_command("secret-set KEY 'abc'"),
        Command::SecretSet { name: s("KEY"), value: s("abc") }
    );
    assert_eq!(
        parse_command("secret-set KEY \"'\""),
        Command::SecretSet { name: s("KEY"), value: s("") }
    );
}

#[test]
fn unknown_command_names_its_word() {
    assert_eq!(parse_command("frobnicate now"), Command::Unknown { word: s("frobnicate") });
    assert_eq!(parse_command("HELP"), Command::Unknown { word: s("HELP") });
}
