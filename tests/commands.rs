use arcdb::commands::{
    del_command, get_command, lookup_command, ping_command, process_command, resolve_command,
    sadd_command, set_command, CommandKind,
};
use arcdb::config::Config;
use arcdb::database::Database;
use arcdb::server::ClientResponse;

fn reply(r: &ClientResponse) -> String {
    r.to_string()
}

fn run(db: &mut Database, cfg: &Config, line: &str) -> String {
    match process_command(db, cfg, line) {
        Ok(r) => reply(&r),
        Err(e) => format!("error: {}", e.to_string()),
    }
}

fn members(rendered: &str) -> Vec<String> {
    let mut v: Vec<String> = rendered.split(' ').map(|s| s.to_string()).collect();
    v.sort();
    v
}

#[test]
fn set_then_get_returns_value() {
    let mut db = Database::init();
    let cfg = Config::defaults();
    assert_eq!(run(&mut db, &cfg, "set k v"), "+OK");
    assert_eq!(run(&mut db, &cfg, "get k"), "+OK\r\nv");
}

#[test]
fn set_overwrites_previous_value() {
    let mut db = Database::init();
    let cfg = Config::defaults();
    run(&mut db, &cfg, "set k one");
    run(&mut db, &cfg, "set k two");
    assert_eq!(run(&mut db, &cfg, "get k"), "+OK\r\ntwo");
}

#[test]
fn set_ignores_extra_tokens() {
    let mut db = Database::init();
    let cfg = Config::defaults();
    assert_eq!(run(&mut db, &cfg, "set k v extra"), "+OK");
    assert_eq!(run(&mut db, &cfg, "get k"), "+OK\r\nv");
}

#[test]
fn del_absent_key_fails() {
    let mut db = Database::init();
    let cfg = Config::defaults();
    assert_eq!(run(&mut db, &cfg, "del nothing"), "-ERR\r\nkey not found");
}

#[test]
fn del_present_key_then_get_fails() {
    let mut db = Database::init();
    let cfg = Config::defaults();
    run(&mut db, &cfg, "set k v");
    assert_eq!(run(&mut db, &cfg, "del k"), "+OK");
    assert_eq!(run(&mut db, &cfg, "get k"), "-ERR\r\nkey not found");
    assert_eq!(run(&mut db, &cfg, "del k"), "-ERR\r\nkey not found");
}

#[test]
fn sadd_twice_unions_without_duplicates() {
    let mut db = Database::init();
    let cfg = Config::defaults();
    assert_eq!(run(&mut db, &cfg, "sadd s a b"), "+OK");
    assert_eq!(run(&mut db, &cfg, "sadd s b c"), "+OK");
    let got = run(&mut db, &cfg, "get s");
    let body = got.strip_prefix("+OK\r\n").unwrap();
    assert_eq!(members(body), vec!["a", "b", "c"]);
    assert_eq!(body, "a b c");
}

#[test]
fn sadd_repeated_member_in_one_call() {
    let mut db = Database::init();
    let cfg = Config::defaults();
    run(&mut db, &cfg, "sadd s x x y x");
    assert_eq!(run(&mut db, &cfg, "get s"), "+OK\r\nx y");
}

#[test]
fn sadd_on_text_key_replaces_it_with_set() {
    let mut db = Database::init();
    let cfg = Config::defaults();
    run(&mut db, &cfg, "set x hello");
    assert_eq!(run(&mut db, &cfg, "sadd x m"), "+OK");
    assert_eq!(run(&mut db, &cfg, "get x"), "+OK\r\nm");
}

#[test]
fn set_on_set_key_replaces_it_with_text() {
    let mut db = Database::init();
    let cfg = Config::defaults();
    run(&mut db, &cfg, "sadd x a b");
    run(&mut db, &cfg, "set x plain");
    assert_eq!(run(&mut db, &cfg, "get x"), "+OK\r\nplain");
    run(&mut db, &cfg, "sadd x c");
    assert_eq!(run(&mut db, &cfg, "get x"), "+OK\r\nc");
}

#[test]
fn ping_ignores_arguments() {
    let mut db = Database::init();
    let cfg = Config::defaults();
    assert_eq!(run(&mut db, &cfg, "ping"), "+OK\r\npong");
    assert_eq!(run(&mut db, &cfg, "ping a b c"), "+OK\r\npong");
}

#[test]
fn unknown_command_changes_nothing() {
    let mut db = Database::init();
    let cfg = Config::defaults();
    run(&mut db, &cfg, "set k v");
    assert_eq!(run(&mut db, &cfg, "frobnicate k w"), "error: unknown command");
    assert_eq!(run(&mut db, &cfg, "get k"), "+OK\r\nv");
}

#[test]
fn empty_line_is_an_error() {
    let mut db = Database::init();
    let cfg = Config::defaults();
    assert_eq!(run(&mut db, &cfg, ""), "error: empty command");
    assert_eq!(run(&mut db, &cfg, "  \t "), "error: empty command");
}

#[test]
fn set_without_value_fails_on_arity() {
    let mut db = Database::init();
    let cfg = Config::defaults();
    assert_eq!(run(&mut db, &cfg, "set k"), "error: not enough arguments for command set");
    assert_eq!(run(&mut db, &cfg, "get k"), "-ERR\r\nkey not found");
}

#[test]
fn arity_errors_of_each_command() {
    let mut db = Database::init();
    let cfg = Config::defaults();
    assert_eq!(run(&mut db, &cfg, "get"), "error: not enough arguments for command get");
    assert_eq!(run(&mut db, &cfg, "del"), "error: not enough arguments for command del");
    assert_eq!(run(&mut db, &cfg, "sadd s"), "error: not enough arguments for command sadd");
    assert_eq!(run(&mut db, &cfg, "config get"), "error: not enough arguments for command config");
}

#[test]
fn writes_to_distinct_keys_are_both_kept() {
    let cfg = Config::defaults();
    let mut one = Database::init();
    run(&mut one, &cfg, "set a 1");
    run(&mut one, &cfg, "set b 2");
    let mut other = Database::init();
    run(&mut other, &cfg, "set b 2");
    run(&mut other, &cfg, "set a 1");
    for db in [&mut one, &mut other] {
        assert_eq!(run(db, &cfg, "get a"), "+OK\r\n1");
        assert_eq!(run(db, &cfg, "get b"), "+OK\r\n2");
    }
}

#[test]
fn command_word_is_case_folded() {
    let mut db = Database::init();
    let cfg = Config::defaults();
    assert_eq!(run(&mut db, &cfg, "SET Key Value"), "+OK");
    assert_eq!(run(&mut db, &cfg, "Get Key"), "+OK\r\nValue");
    assert_eq!(run(&mut db, &cfg, "get key"), "-ERR\r\nkey not found");
}

#[test]
fn tokens_split_on_any_whitespace() {
    let mut db = Database::init();
    let cfg = Config::defaults();
    assert_eq!(run(&mut db, &cfg, "  set\tk \u{3000} v \r\n"), "+OK");
    assert_eq!(run(&mut db, &cfg, "get k"), "+OK\r\nv");
}

#[test]
fn config_get_known_and_unknown_keys() {
    let mut db = Database::init();
    let cfg = Config::defaults();
    assert_eq!(run(&mut db, &cfg, "config get port"), "+OK\r\n7878");
    assert_eq!(run(&mut db, &cfg, "config get BIND_ADDRESS"), "+OK\r\n127.0.0.1");
    assert_eq!(run(&mut db, &cfg, "config get cache_write_through"), "+OK\r\n1");
    assert_eq!(run(&mut db, &cfg, "config get debug"), "+OK\r\ntrue");
    assert_eq!(run(&mut db, &cfg, "config get nope"), "-ERR\r\nunknown config key");
    assert_eq!(run(&mut db, &cfg, "config set port"), "-ERR\r\nunknown arg `set`");
}

#[test]
fn lookup_covers_the_table() {
    assert_eq!(lookup_command("ping").map(|c| c.kind()), Some(CommandKind::Ping));
    assert_eq!(lookup_command("config").map(|c| c.kind()), Some(CommandKind::Config));
    assert_eq!(lookup_command("set").map(|c| c.kind()), Some(CommandKind::SetString));
    assert_eq!(lookup_command("get").map(|c| c.kind()), Some(CommandKind::Get));
    assert_eq!(lookup_command("del").map(|c| c.kind()), Some(CommandKind::Del));
    assert_eq!(lookup_command("sadd").map(|c| c.kind()), Some(CommandKind::Sadd));
    assert!(lookup_command("quit").is_none());
    assert!(lookup_command("SET").is_none());
}

#[test]
fn read_only_requests_run_on_shared_store() {
    let mut db = Database::init();
    let cfg = Config::defaults();
    let w = resolve_command("set k v").ok().unwrap();
    assert!(!w.is_read_only());
    w.execute(&mut db, &cfg);
    let r = resolve_command("get k").ok().unwrap();
    assert!(r.is_read_only());
    assert_eq!(reply(&r.execute_read(&db, &cfg)), "+OK\r\nv");
    assert!(resolve_command("ping").ok().unwrap().is_read_only());
    assert!(!resolve_command("del k").ok().unwrap().is_read_only());
    assert!(!resolve_command("sadd k a").ok().unwrap().is_read_only());
}

#[test]
fn handlers_called_directly() {
    let mut db = Database::init();
    assert_eq!(reply(&ping_command(&vec![])), "+OK\r\npong");
    assert_eq!(reply(&set_command(&mut db, &vec!["k", "v"])), "+OK");
    assert_eq!(reply(&get_command(&db, &vec!["k"])), "+OK\r\nv");
    assert_eq!(reply(&sadd_command(&mut db, &vec!["s", "a", "b", "a"])), "+OK");
    assert_eq!(reply(&get_command(&db, &vec!["s"])), "+OK\r\na b");
    assert_eq!(reply(&del_command(&mut db, &vec!["k"])), "+OK");
    assert_eq!(reply(&del_command(&mut db, &vec!["k"])), "-ERR\r\nkey not found");
}
