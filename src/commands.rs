//! The command table, the dispatcher, and the command handlers.
use vstd::prelude::*;

use crate::config::{setting_text, Config, Settings};
use crate::database::{render, set_after_add, Database, Value};
use crate::server::{ClientResponse, Reply};
use crate::text::{lower_of, lowercase, same_text, split_tokens, tokens, views};

verus! {

/// The commands the server knows.
#[derive(Clone, Copy, Debug, PartialEq, Eq, Structural)]
pub enum CommandKind {
    Config,
    Ping,
    SetString,
    Get,
    Del,
    Sadd,
}

/// The command that a (case-folded) command word names, if any.
pub open spec fn command_named(word: Seq<char>) -> Option<CommandKind> {
    if word == "config"@ {
        Some(CommandKind::Config)
    } else if word == "ping"@ {
        Some(CommandKind::Ping)
    } else if word == "set"@ {
        Some(CommandKind::SetString)
    } else if word == "get"@ {
        Some(CommandKind::Get)
    } else if word == "del"@ {
        Some(CommandKind::Del)
    } else if word == "sadd"@ {
        Some(CommandKind::Sadd)
    } else {
        None
    }
}

/// The name of a command.
pub open spec fn command_name(k: CommandKind) -> Seq<char> {
    match k {
        CommandKind::Config => "config"@,
        CommandKind::Ping => "ping"@,
        CommandKind::SetString => "set"@,
        CommandKind::Get => "get"@,
        CommandKind::Del => "del"@,
        CommandKind::Sadd => "sadd"@,
    }
}

/// The fewest tokens a line of the command has, the command word included.
pub open spec fn min_tokens(k: CommandKind) -> nat {
    match k {
        CommandKind::Config => 3,
        CommandKind::Ping => 1,
        CommandKind::SetString => 3,
        CommandKind::Get => 2,
        CommandKind::Del => 2,
        CommandKind::Sadd => 3,
    }
}

/// Whether a command only reads the store.
pub open spec fn reads_only(k: CommandKind) -> bool {
    k is Config || k is Ping || k is Get
}

/// An entry of the command table.
pub struct Command {
    name: &'static str,
    arity: usize,
    kind: CommandKind,
}

impl View for Command {
    type V = CommandKind;

    closed spec fn view(&self) -> CommandKind {
        self.kind
    }
}

impl Command {
    #[verifier::type_invariant]
    spec fn matches_kind(&self) -> bool {
        self.name@ == command_name(self.kind) && self.arity == min_tokens(self.kind)
    }

    /// The command this entry stands for.
    pub fn kind(&self) -> (r: CommandKind)
        ensures
            r == self@,
    {
        self.kind
    }
}

/// Looks a case-folded command word up in the command table.
pub fn lookup_command(word: &str) -> (r: Option<Command>)
    ensures
        match r {
            Some(c) => command_named(word@) == Some(c@),
            None => command_named(word@) is None,
        },
{
    if same_text(word, "config") {
        Some(Command { name: "config", arity: 3, kind: CommandKind::Config })
    } else if same_text(word, "ping") {
        Some(Command { name: "ping", arity: 1, kind: CommandKind::Ping })
    } else if same_text(word, "set") {
        Some(Command { name: "set", arity: 3, kind: CommandKind::SetString })
    } else if same_text(word, "get") {
        Some(Command { name: "get", arity: 2, kind: CommandKind::Get })
    } else if same_text(word, "del") {
        Some(Command { name: "del", arity: 2, kind: CommandKind::Del })
    } else if same_text(word, "sadd") {
        Some(Command { name: "sadd", arity: 3, kind: CommandKind::Sadd })
    } else {
        None
    }
}

/// The error of a line that names no command it can run.
pub struct CommandError(String);

impl View for CommandError {
    type V = Seq<char>;

    closed spec fn view(&self) -> Seq<char> {
        self.0@
    }
}

impl CommandError {
    /// The message of the error.
    pub fn to_string(&self) -> (r: String)
        ensures
            r@ == self@,
    {
        self.0.clone()
    }
}

/// What a line's tokens ask for: a command and its arguments, or the error message.
pub open spec fn resolve(toks: Seq<Seq<char>>) -> Result<(CommandKind, Seq<Seq<char>>), Seq<char>> {
    if toks.len() == 0 {
        Err("empty command"@)
    } else {
        match command_named(lower_of(toks[0])) {
            None => Err("unknown command"@),
            Some(k) => if toks.len() < min_tokens(k) {
                Err("not enough arguments for command "@ + command_name(k))
            } else {
                Ok((k, toks.drop_first()))
            },
        }
    }
}

/// The reply of `config`: `get <name>` looks a setting up.
pub open spec fn config_reply(cfg: Settings, args: Seq<Seq<char>>) -> Reply {
    if args[0] == "get"@ {
        match setting_text(cfg, lower_of(args[1])) {
            Some(v) => Reply::Success(v),
            None => Reply::Failure("unknown config key"@),
        }
    } else {
        Reply::Failure("unknown arg `"@ + args[0] + "`"@)
    }
}

/// The reply of `get`.
pub open spec fn get_reply(db: Map<Seq<char>, Value>, args: Seq<Seq<char>>) -> Reply {
    if db.contains_key(args[0]) {
        Reply::Success(render(db[args[0]]))
    } else {
        Reply::Failure("key not found"@)
    }
}

/// The store and the reply after running command `k` with arguments `args`.
pub open spec fn run(
    k: CommandKind,
    db: Map<Seq<char>, Value>,
    cfg: Settings,
    args: Seq<Seq<char>>,
) -> (Map<Seq<char>, Value>, Reply) {
    match k {
        CommandKind::Ping => (db, Reply::Success("pong"@)),
        CommandKind::Config => (db, config_reply(cfg, args)),
        CommandKind::Get => (db, get_reply(db, args)),
        CommandKind::SetString => (
            db.insert(args[0], Value::Text(args[1])),
            Reply::Success(Seq::empty()),
        ),
        CommandKind::Del => if db.contains_key(args[0]) {
            (db.remove(args[0]), Reply::Success(Seq::empty()))
        } else {
            (db, Reply::Failure("key not found"@))
        },
        CommandKind::Sadd => (
            db.insert(args[0], Value::Members(set_after_add(db, args[0], args.drop_first()))),
            Reply::Success(Seq::empty()),
        ),
    }
}

/// The store and the outcome after the line whose tokens are `toks`.
pub open spec fn dispatch(
    db: Map<Seq<char>, Value>,
    cfg: Settings,
    toks: Seq<Seq<char>>,
) -> (Map<Seq<char>, Value>, Result<Reply, Seq<char>>) {
    match resolve(toks) {
        Err(m) => (db, Err(m)),
        Ok((k, args)) => (run(k, db, cfg, args).0, Ok(run(k, db, cfg, args).1)),
    }
}

/// The view of the outcome of a line.
pub open spec fn outcome_view(r: Result<ClientResponse, CommandError>) -> Result<Reply, Seq<char>> {
    match r {
        Ok(c) => Ok(c@),
        Err(e) => Err(e@),
    }
}

/// A command with arguments enough to run it.
pub struct Request<'a> {
    command: Command,
    args: Vec<&'a str>,
}

impl<'a> View for Request<'a> {
    type V = (CommandKind, Seq<Seq<char>>);

    closed spec fn view(&self) -> (CommandKind, Seq<Seq<char>>) {
        (self.command.kind, views(self.args@))
    }
}

/// The arguments after the first.
fn rest_of<'a>(v: &Vec<&'a str>) -> (r: Vec<&'a str>)
    requires
        v.len() >= 1,
    ensures
        views(r@) == views(v@).drop_first(),
{
    let mut out: Vec<&'a str> = Vec::new();
    let mut i: usize = 1;
    while i < v.len()
        invariant
            1 <= i <= v.len(),
            views(out@) == views(v@).subrange(1, i as int),
        decreases v.len() - i,
    {
        let ghost before = out@;
        out.push(v[i]);
        assert(views(out@) =~= views(before).push(v@[i as int]@));
        assert(views(v@).subrange(1, i + 1) =~= views(v@).subrange(1, i as int).push(
            v@[i as int]@,
        ));
        i = i + 1;
    }
    assert(views(v@).subrange(1, v.len() as int) =~= views(v@).drop_first());
    out
}

/// Splits a line into tokens, case-folds the command word and looks it up, and checks
/// that the line has the tokens the command needs.
pub fn resolve_command<'a>(input: &'a str) -> (r: Result<Request<'a>, CommandError>)
    ensures
        match resolve(tokens(input@)) {
            Ok(req) => r matches Ok(q) && q@ == req,
            Err(m) => r matches Err(e) && e@ == m,
        },
{
    let toks = split_tokens(input);
    if toks.len() == 0 {
        return Err(CommandError("empty command".to_owned()));
    }
    assert(views(toks@)[0] == toks@[0]@);
    let word = lowercase(toks[0]);
    match lookup_command(word.as_str()) {
        None => Err(CommandError("unknown command".to_owned())),
        Some(command) => {
            proof {
                use_type_invariant(&command);
            }
            if toks.len() < command.arity {
                let mut m = "not enough arguments for command ".to_owned();
                m.append(command.name);
                Err(CommandError(m))
            } else {
                let args = rest_of(&toks);
                assert(views(args@).len() == args@.len() && views(toks@).len() == toks@.len());
                Ok(Request { command, args })
            }
        },
    }
}

impl<'a> Request<'a> {
    #[verifier::type_invariant]
    spec fn has_arguments(&self) -> bool {
        self.args.len() + 1 >= min_tokens(self.command.kind)
    }

    /// Whether running the request only reads the store.
    pub fn is_read_only(&self) -> (r: bool)
        ensures
            r == reads_only(self@.0),
    {
        match self.command.kind {
            CommandKind::Config | CommandKind::Ping | CommandKind::Get => true,
            _ => false,
        }
    }

    /// Runs a request that only reads the store.
    pub fn execute_read(&self, db: &Database, config: &Config) -> (r: ClientResponse)
        requires
            reads_only(self@.0),
        ensures
            r@ == run(self@.0, db@, config@, self@.1).1,
            run(self@.0, db@, config@, self@.1).0 == db@,
    {
        proof {
            use_type_invariant(self);
        }
        let args = &self.args;
        match self.command.kind {
            CommandKind::Ping => ping_command(args),
            CommandKind::Config => config_command(config, args),
            _ => get_command(db, args),
        }
    }

    /// Runs the request.
    pub fn execute(&self, db: &mut Database, config: &Config) -> (r: ClientResponse)
        ensures
            (final(db)@, r@) == run(self@.0, old(db)@, config@, self@.1),
    {
        proof {
            use_type_invariant(self);
        }
        let args = &self.args;
        match self.command.kind {
            CommandKind::SetString => set_command(db, args),
            CommandKind::Del => del_command(db, args),
            CommandKind::Sadd => sadd_command(db, args),
            _ => self.execute_read(db, config),
        }
    }
}

/// Runs one command line against the store: splits it into tokens, looks the command
/// up, checks its arity, and runs it.
pub fn process_command(db: &mut Database, config: &Config, input: &str) -> (r: Result<
    ClientResponse,
    CommandError,
>)
    ensures
        final(db)@ == dispatch(old(db)@, config@, tokens(input@)).0,
        outcome_view(r) == dispatch(old(db)@, config@, tokens(input@)).1,
{
    match resolve_command(input) {
        Ok(request) => Ok(request.execute(db, config)),
        Err(e) => Err(e),
    }
}

/// `ping`: answers "pong", whatever the arguments.
pub fn ping_command(_args: &Vec<&str>) -> (r: ClientResponse)
    ensures
        r@ == Reply::Success("pong"@),
{
    ClientResponse::Success("pong".to_owned())
}

/// `config get <name>`: the text of a setting.
pub fn config_command(config: &Config, args: &Vec<&str>) -> (r: ClientResponse)
    requires
        args.len() >= 2,
    ensures
        r@ == config_reply(config@, views(args@)),
{
    assert(views(args@)[0] == args@[0]@ && views(args@)[1] == args@[1]@);
    if same_text(args[0], "get") {
        config_get_command(config, args[1])
    } else {
        let mut m = "unknown arg `".to_owned();
        m.append(args[0]);
        m.append("`");
        ClientResponse::Failure(m)
    }
}

fn config_get_command(config: &Config, key: &str) -> (r: ClientResponse)
    ensures
        r@ == match setting_text(config@, lower_of(key@)) {
            Some(v) => Reply::Success(v),
            None => Reply::Failure("unknown config key"@),
        },
{
    match config.get(key) {
        Some(val) => ClientResponse::Success(val),
        None => ClientResponse::Failure("unknown config key".to_owned()),
    }
}

/// `set <key> <value>`: makes the key hold the text, whatever it held before.
pub fn set_command(db: &mut Database, args: &Vec<&str>) -> (r: ClientResponse)
    requires
        args.len() >= 2,
    ensures
        final(db)@ == old(db)@.insert(args@[0]@, Value::Text(args@[1]@)),
        r@ == Reply::Success(Seq::empty()),
{
    db.update_string(args[0], args[1]);
    ClientResponse::Success(String::new())
}

/// `get <key>`: the rendered value of the key.
pub fn get_command(db: &Database, args: &Vec<&str>) -> (r: ClientResponse)
    requires
        args.len() >= 1,
    ensures
        r@ == get_reply(db@, views(args@)),
{
    assert(views(args@)[0] == args@[0]@);
    match db.get(args[0]) {
        Some(val) => ClientResponse::Success(val.to_string()),
        None => ClientResponse::Failure("key not found".to_owned()),
    }
}

/// `del <key>`: removes the key.
pub fn del_command(db: &mut Database, args: &Vec<&str>) -> (r: ClientResponse)
    requires
        args.len() >= 1,
    ensures
        old(db)@.contains_key(args@[0]@) ==> final(db)@ == old(db)@.remove(args@[0]@) && r@
            == Reply::Success(Seq::empty()),
        !old(db)@.contains_key(args@[0]@) ==> final(db)@ == old(db)@ && r@ == Reply::Failure(
            "key not found"@,
        ),
{
    match db.delete(args[0]) {
        Ok(()) => ClientResponse::Success(String::new()),
        Err(err) => ClientResponse::Failure(err.to_string()),
    }
}

/// `sadd <key> <member>...`: adds the members to the set at the key; a key that is
/// absent or holds a text becomes a set of the members.
pub fn sadd_command(db: &mut Database, args: &Vec<&str>) -> (r: ClientResponse)
    requires
        args.len() >= 2,
    ensures
        final(db)@ == old(db)@.insert(
            args@[0]@,
            Value::Members(set_after_add(old(db)@, args@[0]@, views(args@).drop_first())),
        ),
        r@ == Reply::Success(Seq::empty()),
{
    let set = rest_of(args);
    db.update_or_insert_set(args[0], &set);
    ClientResponse::Success(String::new())
}

} // verus!
