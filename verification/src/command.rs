use vstd::prelude::*;

use crate::text::{
    is_ws, chars_of, join, join_from, spells, string_of, text, trim_quotes, trim_quotes_exec, views, words,
    words_of,
};

verus! {

/// One line typed at the prompt, read as a command.
#[derive(Debug, PartialEq, Eq)]
pub enum Command {
    /// Nothing but whitespace: prompt again.
    Empty,
    Help,
    Serve,
    About,
    Pwd,
    Ls { path: String },
    Cat { file: String },
    Find { root: String, name: String },
    Open { path: String },
    Stats,
    Deps,
    Search { keyword: String },
    Recent,
    GitStatus,
    GitLog { count: String },
    GitBranch,
    Login { email: String, password: String },
    RemoteCreate { name: String, description: String },
    RemoteLink { id: String },
    RemotePull,
    RemotePush,
    SecretSet { name: String, value: String },
    SecretList,
    SecretDelete { name: String },
    RemotePullWiki,
    RemotePushWiki,
    Exit,
    /// A known command with too few arguments: the usage line to show.
    Usage { message: String },
    /// A first word that names no command.
    Unknown { word: String },
}

/// A command with its texts as plain character sequences.
pub enum CommandView {
    Empty,
    Help,
    Serve,
    About,
    Pwd,
    Ls { path: Seq<char> },
    Cat { file: Seq<char> },
    Find { root: Seq<char>, name: Seq<char> },
    Open { path: Seq<char> },
    Stats,
    Deps,
    Search { keyword: Seq<char> },
    Recent,
    GitStatus,
    GitLog { count: Seq<char> },
    GitBranch,
    Login { email: Seq<char>, password: Seq<char> },
    RemoteCreate { name: Seq<char>, description: Seq<char> },
    RemoteLink { id: Seq<char> },
    RemotePull,
    RemotePush,
    SecretSet { name: Seq<char>, value: Seq<char> },
    SecretList,
    SecretDelete { name: Seq<char> },
    RemotePullWiki,
    RemotePushWiki,
    Exit,
    Usage { message: Seq<char> },
    Unknown { word: Seq<char> },
}

impl View for Command {
    type V = CommandView;

    open spec fn view(&self) -> CommandView {
        match self {
            Command::Empty => CommandView::Empty,
            Command::Help => CommandView::Help,
            Command::Serve => CommandView::Serve,
            Command::About => CommandView::About,
            Command::Pwd => CommandView::Pwd,
            Command::Ls { path } => CommandView::Ls { path: path@ },
            Command::Cat { file } => CommandView::Cat { file: file@ },
            Command::Find { root, name } => CommandView::Find { root: root@, name: name@ },
            Command::Open { path } => CommandView::Open { path: path@ },
            Command::Stats => CommandView::Stats,
            Command::Deps => CommandView::Deps,
            Command::Search { keyword } => CommandView::Search { keyword: keyword@ },
            Command::Recent => CommandView::Recent,
            Command::GitStatus => CommandView::GitStatus,
            Command::GitLog { count } => CommandView::GitLog { count: count@ },
            Command::GitBranch => CommandView::GitBranch,
            Command::Login { email, password } => CommandView::Login {
                email: email@,
                password: password@,
            },
            Command::RemoteCreate { name, description } => CommandView::RemoteCreate {
                name: name@,
                description: description@,
            },
            Command::RemoteLink { id } => CommandView::RemoteLink { id: id@ },
            Command::RemotePull => CommandView::RemotePull,
            Command::RemotePush => CommandView::RemotePush,
            Command::SecretSet { name, value } => CommandView::SecretSet {
                name: name@,
                value: value@,
            },
            Command::SecretList => CommandView::SecretList,
            Command::SecretDelete { name } => CommandView::SecretDelete { name: name@ },
            Command::RemotePullWiki => CommandView::RemotePullWiki,
            Command::RemotePushWiki => CommandView::RemotePushWiki,
            Command::Exit => CommandView::Exit,
            Command::Usage { message } => CommandView::Usage { message: message@ },
            Command::Unknown { word } => CommandView::Unknown { word: word@ },
        }
    }
}

/// The command that the words of a prompt line ask for.
pub open spec fn command_of(ws: Seq<Seq<char>>) -> CommandView {
    if ws.len() == 0 {
        CommandView::Empty
    } else {
        let w = ws[0];
        let n = ws.len();
        if w == "help"@ {
            CommandView::Help
        } else if w == "serve"@ {
            CommandView::Serve
        } else if w == "about"@ {
            CommandView::About
        } else if w == "pwd"@ {
            CommandView::Pwd
        } else if w == "ls"@ {
            CommandView::Ls { path: if n > 1 { ws[1] } else { "."@ } }
        } else if w == "cat"@ {
            if n < 2 {
                CommandView::Usage { message: "Usage: cat <filepath>"@ }
            } else {
                CommandView::Cat { file: ws[1] }
            }
        } else if w == "find"@ {
            if n < 3 {
                CommandView::Usage { message: "Usage: find <path> <filename>"@ }
            } else {
                CommandView::Find { root: ws[1], name: ws[2] }
            }
        } else if w == "open"@ {
            CommandView::Open { path: if n > 1 { ws[1] } else { "."@ } }
        } else if w == "stats"@ {
            CommandView::Stats
        } else if w == "deps"@ {
            CommandView::Deps
        } else if w == "search"@ {
            if n < 2 {
                CommandView::Usage { message: "Usage: search <keyword>"@ }
            } else {
                CommandView::Search { keyword: ws[1] }
            }
        } else if w == "recent"@ {
            CommandView::Recent
        } else if w == "git-status"@ {
            CommandView::GitStatus
        } else if w == "git-log"@ {
            CommandView::GitLog { count: if n > 1 { ws[1] } else { "5"@ } }
        } else if w == "git-branch"@ {
            CommandView::GitBranch
        } else if w == "login"@ {
            if n < 3 {
                CommandView::Usage { message: "Usage: login <email> <password>"@ }
            } else {
                CommandView::Login { email: ws[1], password: ws[2] }
            }
        } else if w == "remote-create"@ {
            if n < 2 {
                CommandView::Usage { message: "Usage: remote-create <repo_name> [description]"@ }
            } else {
                CommandView::RemoteCreate {
                    name: ws[1],
                    description: if n > 2 { ws[2] } else { ""@ },
                }
            }
        } else if w == "remote-link"@ {
            if n < 2 {
                CommandView::Usage { message: "Usage: remote-link <repo_id>"@ }
            } else {
                CommandView::RemoteLink { id: ws[1] }
            }
        } else if w == "remote-pull"@ {
            CommandView::RemotePull
        } else if w == "remote-push"@ {
            CommandView::RemotePush
        } else if w == "secret-set"@ {
            if n < 3 {
                CommandView::Usage { message: "Usage: secret-set <NAME> <VALUE>"@ }
            } else {
                CommandView::SecretSet { name: ws[1], value: trim_quotes(join(ws.skip(2), ' ')) }
            }
        } else if w == "secret-list"@ {
            CommandView::SecretList
        } else if w == "secret-delete"@ {
            if n < 2 {
                CommandView::Usage { message: "Usage: secret-delete <NAME>"@ }
            } else {
                CommandView::SecretDelete { name: ws[1] }
            }
        } else if w == "remote-pull-wiki"@ {
            CommandView::RemotePullWiki
        } else if w == "remote-push-wiki"@ {
            CommandView::RemotePushWiki
        } else if w == "exit"@ {
            CommandView::Exit
        } else {
            CommandView::Unknown { word: w }
        }
    }
}

fn usage(s: &str) -> (r: Command)
    ensures
        r@ == (CommandView::Usage { message: s@ }),
{
    Command::Usage { message: text(s) }
}

/// Reads one prompt line as a command: the line is split into whitespace-separated
/// words, the first word names the command, and the others are its arguments.
pub fn parse_command(line: &str) -> (r: Command)
    ensures
        r@ == command_of(words(line@)),
{
    let chars = chars_of(line);
    let parts = words_of(&chars);
    let ghost ws = views(parts@);
    let n = parts.len();
    if n == 0 {
        return Command::Empty;
    }
    proof {
        assert(ws[0] == parts@[0]@);
        if n > 1 {
            assert(ws[1] == parts@[1]@);
        }
        if n > 2 {
            assert(ws[2] == parts@[2]@);
        }
    }
    let w = &parts[0];
    if spells(w, "help") {
        Command::Help
    } else if spells(w, "serve") {
        Command::Serve
    } else if spells(w, "about") {
        Command::About
    } else if spells(w, "pwd") {
        Command::Pwd
    } else if spells(w, "ls") {
        let path = if n > 1 {
            string_of(&parts[1])
        } else {
            text(".")
        };
        Command::Ls { path }
    } else if spells(w, "cat") {
        if n < 2 {
            usage("Usage: cat <filepath>")
        } else {
            Command::Cat { file: string_of(&parts[1]) }
        }
    } else if spells(w, "find") {
        if n < 3 {
            usage("Usage: find <path> <filename>")
        } else {
            Command::Find { root: string_of(&parts[1]), name: string_of(&parts[2]) }
        }
    } else if spells(w, "open") {
        let path = if n > 1 {
            string_of(&parts[1])
        } else {
            text(".")
        };
        Command::Open { path }
    } else if spells(w, "stats") {
        Command::Stats
    } else if spells(w, "deps") {
        Command::Deps
    } else if spells(w, "search") {
        if n < 2 {
            usage("Usage: search <keyword>")
        } else {
            Command::Search { keyword: string_of(&parts[1]) }
        }
    } else if spells(w, "recent") {
        Command::Recent
    } else if spells(w, "git-status") {
        Command::GitStatus
    } else if spells(w, "git-log") {
        let count = if n > 1 {
            string_of(&parts[1])
        } else {
            text("5")
        };
        Command::GitLog { count }
    } else if spells(w, "git-branch") {
        Command::GitBranch
    } else if spells(w, "login") {
        if n < 3 {
            usage("Usage: login <email> <password>")
        } else {
            Command::Login { email: string_of(&parts[1]), password: string_of(&parts[2]) }
        }
    } else if spells(w, "remote-create") {
        if n < 2 {
            usage("Usage: remote-create <repo_name> [description]")
        } else {
            let description = if n > 2 {
                string_of(&parts[2])
            } else {
                text("")
            };
            Command::RemoteCreate { name: string_of(&parts[1]), description }
        }
    } else if spells(w, "remote-link") {
        if n < 2 {
            usage("Usage: remote-link <repo_id>")
        } else {
            Command::RemoteLink { id: string_of(&parts[1]) }
        }
    } else if spells(w, "remote-pull") {
        Command::RemotePull
    } else if spells(w, "remote-push") {
        Command::RemotePush
    } else if spells(w, "secret-set") {
        if n < 3 {
            usage("Usage: secret-set <NAME> <VALUE>")
        } else {
            let joined = join_from(&parts, 2, ' ');
            let value = trim_quotes_exec(&joined);
            Command::SecretSet { name: string_of(&parts[1]), value: string_of(&value) }
        }
    } else if spells(w, "secret-list") {
        Command::SecretList
    } else if spells(w, "secret-delete") {
        if n < 2 {
            usage("Usage: secret-delete <NAME>")
        } else {
            Command::SecretDelete { name: string_of(&parts[1]) }
        }
    } else if spells(w, "remote-pull-wiki") {
        Command::RemotePullWiki
    } else if spells(w, "remote-push-wiki") {
        Command::RemotePushWiki
    } else if spells(w, "exit") {
        Command::Exit
    } else {
        Command::Unknown { word: string_of(w) }
    }
}


proof fn lemma_blank_has_no_words(s: Seq<char>)
    requires
        forall|i: int| 0 <= i < s.len() ==> is_ws(#[trigger] s[i]),
    ensures
        words(s).len() == 0,
    decreases s.len(),
{
    if s.len() > 0 {
        assert forall|i: int| 0 <= i < s.drop_first().len() implies is_ws(#[trigger] s.drop_first()[i]) by {
            assert(s.drop_first()[i] == s[i + 1]);
        }
        lemma_blank_has_no_words(s.drop_first());
    }
}

/// A line of nothing but whitespace asks for nothing: the prompt is shown again.
pub proof fn law_blank_line_is_empty(line: Seq<char>)
    requires
        forall|i: int| 0 <= i < line.len() ==> is_ws(#[trigger] line[i]),
    ensures
        command_of(words(line)) == CommandView::Empty,
{
    lemma_blank_has_no_words(line);
}

/// A line whose first word is `exit` ends the session, whatever words follow it.
pub proof fn law_exit_ignores_arguments(ws: Seq<Seq<char>>)
    requires
        ws.len() > 0,
        ws[0] == "exit"@,
    ensures
        command_of(ws) == CommandView::Exit,
{
    reveal_strlit("exit");
    reveal_strlit("help");
    reveal_strlit("serve");
    reveal_strlit("about");
    reveal_strlit("pwd");
    reveal_strlit("ls");
    reveal_strlit("cat");
    reveal_strlit("find");
    reveal_strlit("open");
    reveal_strlit("stats");
    reveal_strlit("deps");
    reveal_strlit("search");
    reveal_strlit("recent");
    reveal_strlit("git-status");
    reveal_strlit("git-log");
    reveal_strlit("git-branch");
    reveal_strlit("login");
    reveal_strlit("remote-create");
    reveal_strlit("remote-link");
    reveal_strlit("remote-pull");
    reveal_strlit("remote-push");
    reveal_strlit("secret-set");
    reveal_strlit("secret-list");
    reveal_strlit("secret-delete");
    reveal_strlit("remote-pull-wiki");
    reveal_strlit("remote-push-wiki");
    assert("exit"@ != "help"@) by { assert("exit"@[0] != "help"@[0]); }
    assert("exit"@ != "serve"@) by { assert("exit"@[0] != "serve"@[0]); }
    assert("exit"@ != "about"@) by { assert("exit"@[0] != "about"@[0]); }
    assert("exit"@ != "pwd"@) by { assert("exit"@[0] != "pwd"@[0]); }
    assert("exit"@ != "ls"@) by { assert("exit"@[0] != "ls"@[0]); }
    assert("exit"@ != "cat"@) by { assert("exit"@[0] != "cat"@[0]); }
    assert("exit"@ != "find"@) by { assert("exit"@[0] != "find"@[0]); }
    assert("exit"@ != "open"@) by { assert("exit"@[0] != "open"@[0]); }
    assert("exit"@ != "stats"@) by { assert("exit"@[0] != "stats"@[0]); }
    assert("exit"@ != "deps"@) by { assert("exit"@[0] != "deps"@[0]); }
    assert("exit"@ != "search"@) by { assert("exit"@[0] != "search"@[0]); }
    assert("exit"@ != "recent"@) by { assert("exit"@[0] != "recent"@[0]); }
    assert("exit"@ != "git-status"@) by { assert("exit"@[0] != "git-status"@[0]); }
    assert("exit"@ != "git-log"@) by { assert("exit"@[0] != "git-log"@[0]); }
    assert("exit"@ != "git-branch"@) by { assert("exit"@[0] != "git-branch"@[0]); }
    assert("exit"@ != "login"@) by { assert("exit"@[0] != "login"@[0]); }
    assert("exit"@ != "remote-create"@) by { assert("exit"@[0] != "remote-create"@[0]); }
    assert("exit"@ != "remote-link"@) by { assert("exit"@[0] != "remote-link"@[0]); }
    assert("exit"@ != "remote-pull"@) by { assert("exit"@[0] != "remote-pull"@[0]); }
    assert("exit"@ != "remote-push"@) by { assert("exit"@[0] != "remote-push"@[0]); }
    assert("exit"@ != "secret-set"@) by { assert("exit"@[0] != "secret-set"@[0]); }
    assert("exit"@ != "secret-list"@) by { assert("exit"@[0] != "secret-list"@[0]); }
    assert("exit"@ != "secret-delete"@) by { assert("exit"@[0] != "secret-delete"@[0]); }
    assert("exit"@ != "remote-pull-wiki"@) by { assert("exit"@[0] != "remote-pull-wiki"@[0]); }
    assert("exit"@ != "remote-push-wiki"@) by { assert("exit"@[0] != "remote-push-wiki"@[0]); }
}

} // verus!
