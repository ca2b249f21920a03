//! What holds of sequences of command lines, stated over the dispatcher's model.
use vstd::prelude::*;

use crate::commands::{command_named, dispatch, CommandKind};
use crate::config::Settings;
use crate::database::{add_members, join_words, lemma_add_members, Value};
use crate::server::Reply;
use crate::text::lower_of;

verus! {

/// Whether `w` is a command word that names command `k`.
pub open spec fn names(w: Seq<char>, k: CommandKind) -> bool {
    command_named(lower_of(w)) == Some(k)
}

/// After `set k v`, `get k` answers `v`.
pub proof fn lemma_set_then_get(
    db: Map<Seq<char>, Value>,
    cfg: Settings,
    set_word: Seq<char>,
    get_word: Seq<char>,
    k: Seq<char>,
    v: Seq<char>,
)
    requires
        names(set_word, CommandKind::SetString),
        names(get_word, CommandKind::Get),
    ensures
        dispatch(db, cfg, seq![set_word, k, v]).1 == Ok::<Reply, Seq<char>>(
            Reply::Success(Seq::empty()),
        ),
        dispatch(dispatch(db, cfg, seq![set_word, k, v]).0, cfg, seq![get_word, k]).1 == Ok::<
            Reply,
            Seq<char>,
        >(Reply::Success(v)),
{
    assert(seq![set_word, k, v].drop_first() =~= seq![k, v]);
    assert(seq![get_word, k].drop_first() =~= seq![k]);
}

/// `del k` fails with "key not found", changing nothing, where `k` is absent; where it
/// is present it succeeds, and a `get k` after it fails with "key not found".
pub proof fn lemma_del(
    db: Map<Seq<char>, Value>,
    cfg: Settings,
    del_word: Seq<char>,
    get_word: Seq<char>,
    k: Seq<char>,
)
    requires
        names(del_word, CommandKind::Del),
        names(get_word, CommandKind::Get),
    ensures
        !db.contains_key(k) ==> dispatch(db, cfg, seq![del_word, k]) == (
            db,
            Ok::<Reply, Seq<char>>(Reply::Failure("key not found"@)),
        ),
        db.contains_key(k) ==> dispatch(db, cfg, seq![del_word, k]).1 == Ok::<Reply, Seq<char>>(
            Reply::Success(Seq::empty()),
        ) && dispatch(dispatch(db, cfg, seq![del_word, k]).0, cfg, seq![get_word, k]).1 == Ok::<
            Reply,
            Seq<char>,
        >(Reply::Failure("key not found"@)),
{
    assert(seq![del_word, k].drop_first() =~= seq![k]);
    assert(seq![get_word, k].drop_first() =~= seq![k]);
}

/// `sadd s a b` on an absent key, then `sadd s b c`, leaves at `s` a set of exactly
/// `a`, `b` and `c`, each once, and `get s` renders those members.
pub proof fn lemma_sadd_twice(
    db: Map<Seq<char>, Value>,
    cfg: Settings,
    first_word: Seq<char>,
    second_word: Seq<char>,
    get_word: Seq<char>,
    s: Seq<char>,
    a: Seq<char>,
    b: Seq<char>,
    c: Seq<char>,
)
    requires
        names(first_word, CommandKind::Sadd),
        names(second_word, CommandKind::Sadd),
        names(get_word, CommandKind::Get),
        !db.contains_key(s),
    ensures
        ({
            let d1 = dispatch(db, cfg, seq![first_word, s, a, b]).0;
            let d2 = dispatch(d1, cfg, seq![second_word, s, b, c]).0;
            &&& d2.contains_key(s)
            &&& d2[s] is Members
            &&& d2[s]->Members_0.no_duplicates()
            &&& d2[s]->Members_0.to_set() == set![a, b, c]
            &&& dispatch(d2, cfg, seq![get_word, s]).1 == Ok::<Reply, Seq<char>>(
                Reply::Success(join_words(d2[s]->Members_0)),
            )
        }),
{
    let first = seq![first_word, s, a, b];
    let second = seq![second_word, s, b, c];
    assert(first.drop_first() =~= seq![s, a, b]);
    assert(second.drop_first() =~= seq![s, b, c]);
    assert(seq![s, a, b].drop_first() =~= seq![a, b]);
    assert(seq![s, b, c].drop_first() =~= seq![b, c]);
    assert(seq![get_word, s].drop_first() =~= seq![s]);
    let m1 = add_members(Seq::empty(), seq![a, b]);
    let m2 = add_members(m1, seq![b, c]);
    lemma_add_members(Seq::empty(), seq![a, b]);
    lemma_add_members(m1, seq![b, c]);
    assert(Seq::<Seq<char>>::empty().to_set() =~= Set::empty());
    assert(seq![a, b].to_set() =~= set![a, b]) by {
        assert(seq![a, b][0] == a && seq![a, b][1] == b);
    }
    assert(seq![b, c].to_set() =~= set![b, c]) by {
        assert(seq![b, c][0] == b && seq![b, c][1] == c);
    }
    assert(m2.to_set() =~= set![a, b, c]);
}

/// `set x v` then `sadd x m` turns `x` into a set of `m` alone, and `get x` then
/// renders `m`, no longer `v` where the two differ.
pub proof fn lemma_sadd_replaces_text(
    db: Map<Seq<char>, Value>,
    cfg: Settings,
    set_word: Seq<char>,
    sadd_word: Seq<char>,
    get_word: Seq<char>,
    x: Seq<char>,
    v: Seq<char>,
    m: Seq<char>,
)
    requires
        names(set_word, CommandKind::SetString),
        names(sadd_word, CommandKind::Sadd),
        names(get_word, CommandKind::Get),
    ensures
        ({
            let d1 = dispatch(db, cfg, seq![set_word, x, v]).0;
            let d2 = dispatch(d1, cfg, seq![sadd_word, x, m]).0;
            let got = dispatch(d2, cfg, seq![get_word, x]).1;
            &&& d2[x] == Value::Members(seq![m])
            &&& got == Ok::<Reply, Seq<char>>(Reply::Success(m))
            &&& m != v ==> got != Ok::<Reply, Seq<char>>(Reply::Success(v))
        }),
{
    assert(seq![set_word, x, v].drop_first() =~= seq![x, v]);
    assert(seq![sadd_word, x, m].drop_first() =~= seq![x, m]);
    assert(seq![x, m].drop_first() =~= seq![m]);
    assert(seq![get_word, x].drop_first() =~= seq![x]);
    assert(seq![m].drop_last() =~= Seq::<Seq<char>>::empty());
    assert(add_members(Seq::empty(), seq![m].drop_last()) == Seq::<Seq<char>>::empty());
    assert(!Seq::<Seq<char>>::empty().contains(m));
    assert(Seq::<Seq<char>>::empty().push(m) =~= seq![m]);
}

/// `ping` answers "pong", whatever tokens follow it, and changes nothing.
pub proof fn lemma_ping(db: Map<Seq<char>, Value>, cfg: Settings, toks: Seq<Seq<char>>)
    requires
        toks.len() >= 1,
        names(toks[0], CommandKind::Ping),
    ensures
        dispatch(db, cfg, toks) == (db, Ok::<Reply, Seq<char>>(Reply::Success("pong"@))),
{
}

/// A line whose first word names no command fails with "unknown command" and changes
/// nothing.
pub proof fn lemma_unknown_command(db: Map<Seq<char>, Value>, cfg: Settings, toks: Seq<Seq<char>>)
    requires
        toks.len() >= 1,
        command_named(lower_of(toks[0])) is None,
    ensures
        dispatch(db, cfg, toks) == (db, Err::<Reply, Seq<char>>("unknown command"@)),
{
}

/// `set k` without a value fails on its arity and changes nothing.
pub proof fn lemma_set_without_value(
    db: Map<Seq<char>, Value>,
    cfg: Settings,
    set_word: Seq<char>,
    k: Seq<char>,
)
    requires
        names(set_word, CommandKind::SetString),
    ensures
        dispatch(db, cfg, seq![set_word, k]) == (
            db,
            Err::<Reply, Seq<char>>("not enough arguments for command "@ + "set"@),
        ),
{
}

/// `set a x` and `set b y` on distinct keys, in either order, give the same store, in
/// which `get a` answers `x` and `get b` answers `y`: neither write is lost.
pub proof fn lemma_distinct_sets(
    db: Map<Seq<char>, Value>,
    cfg: Settings,
    set_word: Seq<char>,
    get_word: Seq<char>,
    a: Seq<char>,
    x: Seq<char>,
    b: Seq<char>,
    y: Seq<char>,
)
    requires
        names(set_word, CommandKind::SetString),
        names(get_word, CommandKind::Get),
        a != b,
    ensures
        ({
            let one = dispatch(dispatch(db, cfg, seq![set_word, a, x]).0, cfg, seq![set_word, b, y]).0;
            let other = dispatch(dispatch(db, cfg, seq![set_word, b, y]).0, cfg, seq![set_word, a, x]).0;
            &&& one == other
            &&& dispatch(one, cfg, seq![get_word, a]).1 == Ok::<Reply, Seq<char>>(Reply::Success(x))
            &&& dispatch(one, cfg, seq![get_word, b]).1 == Ok::<Reply, Seq<char>>(Reply::Success(y))
        }),
{
    assert(seq![set_word, a, x].drop_first() =~= seq![a, x]);
    assert(seq![set_word, b, y].drop_first() =~= seq![b, y]);
    assert(seq![get_word, a].drop_first() =~= seq![a]);
    assert(seq![get_word, b].drop_first() =~= seq![b]);
    assert(db.insert(a, Value::Text(x)).insert(b, Value::Text(y)) =~= db.insert(b, Value::Text(y)).insert(a, Value::Text(x)));
}

} // verus!
