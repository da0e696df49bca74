use vstd::prelude::*;

use crate::json::{json_error_of, json_parse_error, json_string_member, json_string_member_of};
use crate::text::{chars_of, join2, spells, text};

verus! {

/// The reply of the endpoints that run a command and show its output.
#[derive(Debug, PartialEq, Eq)]
pub struct GitResponse {
    pub output: String,
}

/// The body of a content search request.
#[derive(Debug, PartialEq, Eq)]
pub struct SearchRequest {
    pub query: String,
}

/// The query of a folder listing request.
#[derive(Debug, PartialEq, Eq)]
pub struct LsQuery {
    pub path: Option<String>,
}

/// The query of a commit log request.
#[derive(Debug, PartialEq, Eq)]
pub struct LogQuery {
    pub n: Option<String>,
}

/// A query that names a path.
#[derive(Debug, PartialEq, Eq)]
pub struct PathQuery {
    pub path: Option<String>,
}

impl LsQuery {
    /// The folder to list, relative to the project: `.` when none is given.
    pub fn sub_path(&self) -> (r: String)
        ensures
            match self.path {
                Some(p) => r@ == p@,
                None => r@ == "."@,
            },
    {
        match &self.path {
            Some(p) => p.clone(),
            None => text("."),
        }
    }
}

impl LogQuery {
    /// How many commits to show: `5` when no number is given.
    pub fn count(&self) -> (r: String)
        ensures
            match self.n {
                Some(n) => r@ == n@,
                None => r@ == "5"@,
            },
    {
        match &self.n {
            Some(n) => n.clone(),
            None => text("5"),
        }
    }
}

/// The reply to a file request whose path cannot be read as a file.
#[derive(Debug, PartialEq, Eq)]
pub enum FileReply {
    Content { content: String },
    Error { message: String },
}

/// Checks a path before a file request reads it: an error reply when nothing is
/// there or when it is a directory, `None` when the file may be read.
pub fn check_readable(path: &str, exists: bool, is_dir: bool) -> (r: Option<FileReply>)
    ensures
        !exists ==> (r matches Some(FileReply::Error { message }) && message@
            == "Path does not exist: "@ + path@),
        exists && is_dir ==> (r matches Some(FileReply::Error { message }) && message@
            == "Path is a directory, not a file: "@ + path@),
        exists && !is_dir ==> r is None,
{
    if !exists {
        Some(FileReply::Error { message: join2("Path does not exist: ", path) })
    } else if is_dir {
        Some(FileReply::Error { message: join2("Path is a directory, not a file: ", path) })
    } else {
        None
    }
}

/// The reply to a file read, from what the read gave.
pub fn read_reply(result: Result<String, String>) -> (r: FileReply)
    ensures
        match result {
            Ok(c) => r matches FileReply::Content { content } && content@ == c@,
            Err(e) => r matches FileReply::Error { message } && message@ == e@,
        },
{
    match result {
        Ok(content) => FileReply::Content { content },
        Err(message) => FileReply::Error { message },
    }
}

/// The reply to a file write, from what the write gave.
pub fn write_reply(result: Result<(), String>) -> (r: GitResponse)
    ensures
        match result {
            Ok(_) => r.output@ == "File saved successfully"@,
            Err(e) => r.output@ == "Error: "@ + e@,
        },
{
    match result {
        Ok(_) => GitResponse { output: text("File saved successfully") },
        Err(e) => GitResponse { output: join2("Error: ", e.as_str()) },
    }
}

/// What a text message from the terminal socket held, when it was JSON: its
/// `type` member (when a string), and its `cols` and `rows` members when the
/// message reads as a resize request.
#[derive(Debug, PartialEq, Eq)]
pub struct ControlFields {
    pub kind: Option<String>,
    pub size: Option<(Option<u16>, Option<u16>)>,
}

/// What the terminal socket does with a text message.
#[derive(Debug, PartialEq, Eq)]
pub enum SocketAction {
    /// Answer with a pong message.
    SendPong,
    /// Resize the terminal.
    Resize { cols: u16, rows: u16 },
    /// Do nothing.
    Ignore,
    /// Pass the text to the terminal.
    WriteToTerminal,
}

/// Decides what to do with a text message: a `ping` is answered with a pong; a
/// `resize` resizes the terminal when it gives both columns and rows, and is
/// otherwise dropped; anything else (JSON or not) is typed into the terminal.
pub fn decide_text_message(fields: Option<ControlFields>) -> (r: SocketAction)
    ensures
        match fields {
            None => r is WriteToTerminal,
            Some(f) => match f.kind {
                Some(k) => if k@ == "ping"@ {
                    r is SendPong
                } else if k@ == "resize"@ {
                    match f.size {
                        Some((Some(c), Some(w))) => r == (SocketAction::Resize { cols: c, rows: w }),
                        _ => r is Ignore,
                    }
                } else {
                    r is WriteToTerminal
                },
                None => r is WriteToTerminal,
            },
        },
{
    match fields {
        None => SocketAction::WriteToTerminal,
        Some(f) => match &f.kind {
            Some(k) => {
                let kc = chars_of(k.as_str());
                if spells(&kc, "ping") {
                    SocketAction::SendPong
                } else if spells(&kc, "resize") {
                    match f.size {
                        Some((Some(c), Some(w))) => SocketAction::Resize { cols: c, rows: w },
                        _ => SocketAction::Ignore,
                    }
                } else {
                    SocketAction::WriteToTerminal
                }
            },
            None => SocketAction::WriteToTerminal,
        },
    }
}

/// The answer to a ping.
pub fn pong_message() -> (r: String)
    ensures
        r@ == "{\"type\":\"pong\"}"@,
{
    text("{\"type\":\"pong\"}")
}


/// Decides what to do with a text message from the terminal socket, given the
/// message and, when it reads as a resize request, its columns and rows: the
/// message is read as JSON, and its `type` member picks the action.
pub fn classify_text_message(text: &str, size: Option<(Option<u16>, Option<u16>)>) -> (r: SocketAction)
    ensures
        match json_parse_error(text@) {
            Some(_) => r is WriteToTerminal,
            None => match json_string_member(text@, "type"@) {
                Some(k) => if k == "ping"@ {
                    r is SendPong
                } else if k == "resize"@ {
                    match size {
                        Some((Some(c), Some(w))) => r == (SocketAction::Resize { cols: c, rows: w }),
                        _ => r is Ignore,
                    }
                } else {
                    r is WriteToTerminal
                },
                None => r is WriteToTerminal,
            },
        },
{
    match json_error_of(text) {
        Some(_) => decide_text_message(None),
        None => {
            let kind = json_string_member_of(text, "type");
            decide_text_message(Some(ControlFields { kind, size }))
        },
    }
}

} // verus!
