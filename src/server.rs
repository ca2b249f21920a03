//! Responses and their wire form, the decisions of a connection session, and the state
//! that all sessions share.
use vstd::prelude::*;

use std::sync::atomic::{AtomicUsize, Ordering};
use std::sync::Arc;

use vstd::rwlock::RwLock;

use crate::commands::{resolve, resolve_command, run, CommandError};
use crate::config::{Config, Settings};
use crate::database::{Database, Value};
use crate::text::{lower_of, lowercase, same_text, split_tokens, tokens, views};

verus! {

/// The line terminator of the wire protocol.
pub const ARC_CRLF: &'static str = "\r\n";

/// The status line of a success.
pub const ARC_OK: &'static str = "+OK";

/// The status line of a failure.
pub const ARC_ERR: &'static str = "-ERR";

/// A response as it is seen: a success with a body, which may be empty, or a failure
/// with a message.
pub enum Reply {
    Success(Seq<char>),
    Failure(Seq<char>),
}

/// The response to one command.
pub enum ClientResponse {
    Success(String),
    Failure(String),
}

impl View for ClientResponse {
    type V = Reply;

    open spec fn view(&self) -> Reply {
        match self {
            ClientResponse::Success(m) => Reply::Success(m@),
            ClientResponse::Failure(m) => Reply::Failure(m@),
        }
    }
}

/// The text of a response without its final terminator: the status line, then the body
/// or message on a line of its own unless a success has an empty body.
pub open spec fn reply_text(r: Reply) -> Seq<char> {
    match r {
        Reply::Success(m) => if m.len() == 0 {
            ARC_OK@
        } else {
            ARC_OK@ + ARC_CRLF@ + m
        },
        Reply::Failure(m) => ARC_ERR@ + ARC_CRLF@ + m,
    }
}

/// The bytes a response is sent as: its text and a terminator.
pub open spec fn wire_text(r: Reply) -> Seq<char> {
    reply_text(r) + ARC_CRLF@
}

impl ClientResponse {
    /// The response's text without its final terminator.
    pub fn to_string(&self) -> (r: String)
        ensures
            r@ == reply_text(self@),
    {
        match self {
            ClientResponse::Success(m) => {
                if m.as_str().is_empty() {
                    ARC_OK.to_owned()
                } else {
                    let mut out = ARC_OK.to_owned();
                    out.append(ARC_CRLF);
                    out.append(m.as_str());
                    out
                }
            },
            ClientResponse::Failure(m) => {
                let mut out = ARC_ERR.to_owned();
                out.append(ARC_CRLF);
                out.append(m.as_str());
                out
            },
        }
    }

    /// The response as it is written to the client.
    pub fn to_wire(&self) -> (r: String)
        ensures
            r@ == wire_text(self@),
    {
        let mut out = self.to_string();
        out.append(ARC_CRLF);
        out
    }
}

/// What a session does with the outcome of reading one line.
pub enum SessionAction {
    /// Write this response and read the next line.
    Respond(ClientResponse),
    /// Hand this normalized line to the dispatcher, write its response, read the next line.
    Dispatch(String),
    /// Write this response, then shut the connection down.
    Close(ClientResponse),
}

/// The view of a session action.
pub enum ActionView {
    Respond(Reply),
    Dispatch(Seq<char>),
    Close(Reply),
}

impl View for SessionAction {
    type V = ActionView;

    open spec fn view(&self) -> ActionView {
        match self {
            SessionAction::Respond(r) => ActionView::Respond(r@),
            SessionAction::Dispatch(l) => ActionView::Dispatch(l@),
            SessionAction::Close(r) => ActionView::Close(r@),
        }
    }
}

/// What a session does after a read: `None` stands for a failed read. A line is
/// case-folded; one that is `quit` apart from surrounding whitespace closes the session.
pub open spec fn session_step(read: Option<Seq<char>>) -> ActionView {
    match read {
        None => ActionView::Respond(Reply::Failure("invalid input"@)),
        Some(line) => if tokens(lower_of(line)) == seq!["quit"@] {
            ActionView::Close(Reply::Success("disconnecting. bye!"@))
        } else {
            ActionView::Dispatch(lower_of(line))
        },
    }
}

/// Decides what a session does with the outcome of a read; `None` stands for a read
/// that failed.
pub fn next_action(read: Option<&str>) -> (r: SessionAction)
    ensures
        r@ == session_step(
            match read {
                Some(l) => Some(l@),
                None => None,
            },
        ),
{
    match read {
        None => SessionAction::Respond(ClientResponse::Failure("invalid input".to_owned())),
        Some(line) => {
            let folded = lowercase(line);
            let words = split_tokens(folded.as_str());
            if words.len() == 1 && same_text(words[0], "quit") {
                proof {
                    assert(tokens(lower_of(line@)) =~= seq!["quit"@]);
                }
                SessionAction::Close(ClientResponse::Success("disconnecting. bye!".to_owned()))
            } else {
                proof {
                    if tokens(lower_of(line@)) == seq!["quit"@] {
                        assert(views(words@).len() == 1);
                        assert(views(words@)[0] == words@[0]@);
                    }
                }
                SessionAction::Dispatch(folded)
            }
        },
    }
}

/// What every connection shares: the settings, and the store behind one reader-writer
/// lock that each command holds for its own duration only.
pub struct ArcServer {
    config: Config,
    db: RwLock<Database, spec_fn(Database) -> bool>,
    key_count: Arc<AtomicUsize>,
}

impl View for ArcServer {
    type V = Settings;

    closed spec fn view(&self) -> Settings {
        self.config@
    }
}

impl ArcServer {
    #[verifier::type_invariant]
    spec fn lock_takes_any_store(&self) -> bool {
        forall|d: Database| #[trigger] self.db.inv(d)
    }

    pub fn new(config: Config, database: Database) -> (r: Arc<Self>)
        ensures
            (*r)@ == config@,
    {
        let db = RwLock::new(database, Ghost(|d: Database| true));
        Arc::new(ArcServer { config, db, key_count: Arc::new(AtomicUsize::new(0)) })
    }

    pub fn inc_key_count(&self) {
        let _old = self.key_count.fetch_add(1, Ordering::Relaxed);
    }

    pub fn dec_key_count(&self) {
        let _old = self.key_count.fetch_sub(1, Ordering::Relaxed);
    }

    /// Runs one command line: a command that only reads holds the reader lock, any
    /// other the writer lock. Its reply is the one the command gives on the store as
    /// it stood under the lock, whatever other connections did before or after.
    pub fn run_line(&self, line: &str) -> (r: Result<ClientResponse, CommandError>)
        ensures
            match resolve(tokens(line@)) {
                Err(m) => r matches Err(e) && e@ == m,
                Ok((k, args)) => r matches Ok(c) && exists|db: Map<Seq<char>, Value>|
                    c@ == #[trigger] run(k, db, self@, args).1,
            },
    {
        match resolve_command(line) {
            Err(e) => Err(e),
            Ok(request) => {
                proof {
                    use_type_invariant(self);
                }
                if request.is_read_only() {
                    let handle = self.db.acquire_read();
                    let db = handle.borrow();
                    let reply = request.execute_read(db, &self.config);
                    assert(reply@ == run(request@.0, db@, self@, request@.1).1);
                    handle.release_read();
                    Ok(reply)
                } else {
                    let (mut db, handle) = self.db.acquire_write();
                    let ghost before = db@;
                    let reply = request.execute(&mut db, &self.config);
                    assert(reply@ == run(request@.0, before, self@, request@.1).1);
                    assert(self.db.inv(db));
                    handle.release_write(db);
                    Ok(reply)
                }
            },
        }
    }
}

} // verus!
