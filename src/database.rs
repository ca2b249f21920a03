//! The value model and the key-value store.
use vstd::prelude::*;

use crate::text::{same_text, views};

verus! {

/// What a stored value is: a text, or set members in the order they were first added.
pub enum Value {
    Text(Seq<char>),
    Members(Seq<Seq<char>>),
}

/// The views of a sequence of strings.
pub open spec fn string_views(v: Seq<String>) -> Seq<Seq<char>> {
    v.map_values(|s: String| s@)
}

/// `members` after adding each of `added` in turn, skipping those already present.
pub open spec fn add_members(members: Seq<Seq<char>>, added: Seq<Seq<char>>) -> Seq<Seq<char>>
    decreases added.len(),
{
    if added.len() == 0 {
        members
    } else {
        let prev = add_members(members, added.drop_last());
        if prev.contains(added.last()) {
            prev
        } else {
            prev.push(added.last())
        }
    }
}

/// The words of `words` joined by single spaces.
pub open spec fn join_words(words: Seq<Seq<char>>) -> Seq<char>
    decreases words.len(),
{
    if words.len() == 0 {
        Seq::empty()
    } else if words.len() == 1 {
        words[0]
    } else {
        join_words(words.drop_last()) + seq![' '] + words.last()
    }
}

/// How a value is rendered: a text as itself, a set as its members joined by spaces.
pub open spec fn render(v: Value) -> Seq<char> {
    match v {
        Value::Text(t) => t,
        Value::Members(m) => join_words(m),
    }
}

/// Adding members keeps a member list free of duplicates and unions the sets.
pub proof fn lemma_add_members(members: Seq<Seq<char>>, added: Seq<Seq<char>>)
    requires
        members.no_duplicates(),
    ensures
        add_members(members, added).no_duplicates(),
        add_members(members, added).to_set() == members.to_set() + added.to_set(),
    decreases added.len(),
{
    if added.len() > 0 {
        let prev = add_members(members, added.drop_last());
        lemma_add_members(members, added.drop_last());
        let x = added.last();
        assert(added.to_set() =~= added.drop_last().to_set().insert(x)) by {
            assert forall|y| added.to_set().contains(y) implies added.drop_last().to_set().insert(
                x,
            ).contains(y) by {
                let i = choose|i: int| 0 <= i < added.len() && added[i] == y;
                if i < added.len() - 1 {
                    assert(added.drop_last()[i] == y);
                }
            }
            assert forall|y| added.drop_last().to_set().contains(y) implies added.to_set().contains(
                y,
            ) by {
                let i = choose|i: int| 0 <= i < added.len() - 1 && added.drop_last()[i] == y;
                assert(added[i] == y);
            }
            assert(added[added.len() - 1] == x);
        }
        if !prev.contains(x) {
            assert(prev.push(x).to_set() =~= prev.to_set().insert(x)) by {
                assert forall|y| prev.push(x).to_set().contains(y) implies prev.to_set().insert(
                    x,
                ).contains(y) by {
                    let i = choose|i: int| 0 <= i < prev.len() + 1 && prev.push(x)[i] == y;
                    if i < prev.len() {
                        assert(prev[i] == y);
                    }
                }
                assert forall|y| prev.to_set().insert(x).contains(y) implies prev.push(
                    x,
                ).to_set().contains(y) by {
                    if y == x {
                        assert(prev.push(x)[prev.len() as int] == x);
                    } else {
                        let i = choose|i: int| 0 <= i < prev.len() && prev[i] == y;
                        assert(prev.push(x)[i] == y);
                    }
                }
            }
        } else {
            assert(prev.to_set().contains(x));
        }
        assert(add_members(members, added).to_set() =~= members.to_set() + added.to_set());
    }
}

/// A text value.
pub struct StringValType {
    inner: String,
}

impl View for StringValType {
    type V = Seq<char>;

    closed spec fn view(&self) -> Seq<char> {
        self.inner@
    }
}

impl StringValType {
    pub fn from(val: &str) -> (r: Self)
        ensures
            r@ == val@,
    {
        StringValType { inner: val.to_owned() }
    }

    pub fn to_string(&self) -> (r: String)
        ensures
            r@ == self@,
    {
        self.inner.clone()
    }
}

/// A set value: distinct members, kept in the order they were first added.
pub struct SetValType {
    inner: Vec<String>,
}

impl View for SetValType {
    type V = Seq<Seq<char>>;

    closed spec fn view(&self) -> Seq<Seq<char>> {
        string_views(self.inner@)
    }
}

/// Whether `x` is one of the strings of `v`.
fn holds_member(v: &Vec<String>, x: &str) -> (r: bool)
    ensures
        r == string_views(v@).contains(x@),
{
    let mut i: usize = 0;
    while i < v.len()
        invariant
            i <= v.len(),
            forall|j: int| 0 <= j < i ==> v@[j]@ != x@,
        decreases v.len() - i,
    {
        if same_text(v[i].as_str(), x) {
            assert(string_views(v@)[i as int] == x@);
            return true;
        }
        i = i + 1;
    }
    proof {
        if string_views(v@).contains(x@) {
            let j = choose|j: int| 0 <= j < v@.len() && string_views(v@)[j] == x@;
            assert(v@[j]@ == x@);
        }
    }
    false
}

/// Adds each of `vals` to `members`, skipping those already there.
fn add_to_members(members: &mut Vec<String>, vals: &Vec<&str>)
    ensures
        string_views(final(members)@) == add_members(string_views(old(members)@), views(vals@)),
{
    let mut i: usize = 0;
    while i < vals.len()
        invariant
            i <= vals.len(),
            string_views(members@) == add_members(
                string_views(old(members)@),
                views(vals@).subrange(0, i as int),
            ),
        decreases vals.len() - i,
    {
        let ghost before = string_views(members@);
        let ghost added = views(vals@).subrange(0, i + 1);
        assert(added.drop_last() =~= views(vals@).subrange(0, i as int));
        assert(added.last() == vals@[i as int]@);
        if !holds_member(members, vals[i]) {
            members.push(vals[i].to_owned());
            assert(string_views(members@) =~= before.push(vals@[i as int]@));
        }
        i = i + 1;
    }
    assert(views(vals@).subrange(0, vals.len() as int) =~= views(vals@));
}

impl SetValType {
    #[verifier::type_invariant]
    spec fn distinct(&self) -> bool {
        string_views(self.inner@).no_duplicates()
    }

    pub fn from(vals: &Vec<&str>) -> (r: Self)
        ensures
            r@ == add_members(Seq::empty(), views(vals@)),
    {
        let mut members: Vec<String> = Vec::new();
        add_to_members(&mut members, vals);
        proof {
            assert(string_views(Seq::<String>::empty()) =~= Seq::<Seq<char>>::empty());
            lemma_add_members(Seq::empty(), views(vals@));
        }
        SetValType { inner: members }
    }

    pub fn add(&mut self, vals: &Vec<&str>)
        ensures
            final(self)@ == add_members(old(self)@, views(vals@)),
    {
        proof {
            use_type_invariant(&*self);
        }
        let mut members: Vec<String> = Vec::new();
        std::mem::swap(&mut members, &mut self.inner);
        add_to_members(&mut members, vals);
        proof {
            lemma_add_members(old(self)@, views(vals@));
        }
        *self = SetValType { inner: members };
    }

    /// The members joined by single spaces.
    pub fn to_string(&self) -> (r: String)
        ensures
            r@ == join_words(self@),
    {
        let mut out = String::new();
        let mut i: usize = 0;
        while i < self.inner.len()
            invariant
                i <= self.inner.len(),
                out@ == join_words(self@.subrange(0, i as int)),
            decreases self.inner.len() - i,
        {
            let ghost words = self@.subrange(0, i + 1);
            assert(words.drop_last() =~= self@.subrange(0, i as int));
            assert(words.last() == self.inner@[i as int]@);
            if i > 0 {
                out.append(" ");
                proof {
                    reveal_strlit(" ");
                }
            } else {
                assert(self@.subrange(0, i as int) =~= Seq::<Seq<char>>::empty());
            }
            out.append(self.inner[i].as_str());
            i = i + 1;
        }
        assert(self@.subrange(0, i as int) =~= self@);
        out
    }
}

/// A stored value: a text or a set of texts.
pub enum DatabaseVal {
    StringVal(StringValType),
    SetVal(SetValType),
}

impl View for DatabaseVal {
    type V = Value;

    open spec fn view(&self) -> Value {
        match self {
            DatabaseVal::StringVal(t) => Value::Text(t@),
            DatabaseVal::SetVal(m) => Value::Members(m@),
        }
    }
}

impl DatabaseVal {
    pub fn to_string(&self) -> (r: String)
        ensures
            r@ == render(self@),
    {
        match self {
            DatabaseVal::StringVal(t) => t.to_string(),
            DatabaseVal::SetVal(t) => t.to_string(),
        }
    }
}

/// One entry of the store, as keys and values are seen.
pub type Entry = (Seq<char>, Value);

/// No two entries have the same key.
pub open spec fn unique_keys(s: Seq<Entry>) -> bool {
    forall|i: int, j: int| 0 <= i < s.len() && 0 <= j < s.len() && i != j ==> s[i].0 != s[j].0
}

/// Whether some entry has key `k`.
pub open spec fn has_key(s: Seq<Entry>, k: Seq<char>) -> bool {
    exists|i: int| 0 <= i < s.len() && #[trigger] s[i].0 == k
}

/// The map from each key of `s` to its value.
pub open spec fn entries_map(s: Seq<Entry>) -> Map<Seq<char>, Value> {
    Map::new(
        |k: Seq<char>| has_key(s, k),
        |k: Seq<char>| s[choose|i: int| 0 <= i < s.len() && #[trigger] s[i].0 == k].1,
    )
}

proof fn lemma_entries_map(s: Seq<Entry>)
    requires
        unique_keys(s),
    ensures
        forall|i: int|
            0 <= i < s.len() ==> #[trigger] entries_map(s).contains_key(s[i].0) && entries_map(
                s,
            )[s[i].0] == s[i].1,
        forall|k: Seq<char>| #[trigger] entries_map(s).contains_key(k) <==> has_key(s, k),
{
    assert forall|i: int| 0 <= i < s.len() implies #[trigger] entries_map(s).contains_key(s[i].0)
        && entries_map(s)[s[i].0] == s[i].1 by {
        assert(has_key(s, s[i].0));
        let j = choose|j: int| 0 <= j < s.len() && #[trigger] s[j].0 == s[i].0;
        assert(j == i);
    }
}

proof fn lemma_entries_update(s: Seq<Entry>, i: int, v: Value)
    requires
        unique_keys(s),
        0 <= i < s.len(),
    ensures
        unique_keys(s.update(i, (s[i].0, v))),
        entries_map(s.update(i, (s[i].0, v))) == entries_map(s).insert(s[i].0, v),
{
    let t = s.update(i, (s[i].0, v));
    lemma_entries_map(s);
    lemma_entries_map(t);
    assert forall|k: Seq<char>| has_key(t, k) <==> has_key(s, k) by {
        if has_key(t, k) {
            let j = choose|j: int| 0 <= j < t.len() && #[trigger] t[j].0 == k;
            assert(s[j].0 == k);
        }
        if has_key(s, k) {
            let j = choose|j: int| 0 <= j < s.len() && #[trigger] s[j].0 == k;
            assert(t[j].0 == k);
        }
    }
    assert forall|k: Seq<char>| #[trigger] entries_map(t).contains_key(k) && k != s[i].0 implies
        entries_map(t)[k] == entries_map(s)[k] by {
        let j = choose|j: int| 0 <= j < t.len() && #[trigger] t[j].0 == k;
        assert(t[j] == s[j]);
    }
    assert(entries_map(t) =~= entries_map(s).insert(s[i].0, v));
}

proof fn lemma_entries_push(s: Seq<Entry>, k: Seq<char>, v: Value)
    requires
        unique_keys(s),
        !has_key(s, k),
    ensures
        unique_keys(s.push((k, v))),
        entries_map(s.push((k, v))) == entries_map(s).insert(k, v),
{
    let t = s.push((k, v));
    assert(unique_keys(t)) by {
        assert forall|i: int, j: int|
            0 <= i < t.len() && 0 <= j < t.len() && i != j implies t[i].0 != t[j].0 by {
            if i == s.len() {
                assert(s[j].0 == t[j].0);
            } else if j == s.len() {
                assert(s[i].0 == t[i].0);
            }
        }
    }
    lemma_entries_map(s);
    lemma_entries_map(t);
    assert(t[s.len() as int] == (k, v));
    assert forall|q: Seq<char>| has_key(t, q) <==> (has_key(s, q) || q == k) by {
        if q == k {
            assert(t[s.len() as int].0 == k);
        }
        if has_key(t, q) && q != k {
            let j = choose|j: int| 0 <= j < t.len() && #[trigger] t[j].0 == q;
            assert(s[j].0 == q);
        }
        if has_key(s, q) {
            let j = choose|j: int| 0 <= j < s.len() && #[trigger] s[j].0 == q;
            assert(t[j].0 == q);
        }
    }
    assert forall|q: Seq<char>| #[trigger] entries_map(t).contains_key(q) && q != k implies
        entries_map(t)[q] == entries_map(s)[q] by {
        let j = choose|j: int| 0 <= j < t.len() && #[trigger] t[j].0 == q;
        assert(t[j] == s[j]);
    }
    assert(entries_map(t) =~= entries_map(s).insert(k, v));
}

proof fn lemma_entries_remove(s: Seq<Entry>, i: int)
    requires
        unique_keys(s),
        0 <= i < s.len(),
    ensures
        unique_keys(s.remove(i)),
        entries_map(s.remove(i)) == entries_map(s).remove(s[i].0),
{
    let t = s.remove(i);
    let k = s[i].0;
    assert forall|j: int| 0 <= j < t.len() implies #[trigger] t[j] == if j < i {
        s[j]
    } else {
        s[j + 1]
    } by {}
    assert(unique_keys(t)) by {
        assert forall|a: int, b: int|
            0 <= a < t.len() && 0 <= b < t.len() && a != b implies t[a].0 != t[b].0 by {
            let a1 = if a < i { a } else { a + 1 };
            let b1 = if b < i { b } else { b + 1 };
            assert(t[a] == s[a1]);
            assert(t[b] == s[b1]);
        }
    }
    lemma_entries_map(s);
    lemma_entries_map(t);
    assert forall|q: Seq<char>| has_key(t, q) <==> (has_key(s, q) && q != k) by {
        if has_key(t, q) {
            let j = choose|j: int| 0 <= j < t.len() && #[trigger] t[j].0 == q;
            let j1 = if j < i { j } else { j + 1 };
            assert(s[j1].0 == q);
        }
        if has_key(s, q) && q != k {
            let j = choose|j: int| 0 <= j < s.len() && #[trigger] s[j].0 == q;
            assert(j != i);
            let j0 = if j < i { j } else { j - 1 };
            assert(t[j0].0 == q);
        }
    }
    assert forall|q: Seq<char>| #[trigger] entries_map(t).contains_key(q) implies entries_map(t)[q]
        == entries_map(s)[q] by {
        let j = choose|j: int| 0 <= j < t.len() && #[trigger] t[j].0 == q;
        let j1 = if j < i { j } else { j + 1 };
        assert(t[j] == s[j1]);
    }
    assert(entries_map(t) =~= entries_map(s).remove(k));
}

/// The entries of a vector of stored pairs, as keys and values are seen.
pub open spec fn entry_views(v: Seq<(String, DatabaseVal)>) -> Seq<Entry> {
    v.map_values(|e: (String, DatabaseVal)| (e.0@, e.1@))
}

/// The members that key `key` of `db` holds after adding `added` to it: the old members
/// where it held a set, else none.
pub open spec fn set_after_add(
    db: Map<Seq<char>, Value>,
    key: Seq<char>,
    added: Seq<Seq<char>>,
) -> Seq<Seq<char>> {
    if db.contains_key(key) && db[key] is Members {
        add_members(db[key]->Members_0, added)
    } else {
        add_members(Seq::empty(), added)
    }
}

/// The index of the entry with key `key`, if there is one.
fn position(entries: &Vec<(String, DatabaseVal)>, key: &str) -> (r: Option<usize>)
    ensures
        match r {
            Some(i) => i < entries.len() && entries@[i as int].0@ == key@,
            None => !has_key(entry_views(entries@), key@),
        },
{
    let mut i: usize = 0;
    while i < entries.len()
        invariant
            i <= entries.len(),
            forall|j: int| 0 <= j < i ==> entries@[j].0@ != key@,
        decreases entries.len() - i,
    {
        if same_text(entries[i].0.as_str(), key) {
            return Some(i);
        }
        i = i + 1;
    }
    proof {
        if has_key(entry_views(entries@), key@) {
            let j = choose|j: int|
                0 <= j < entries@.len() && #[trigger] entry_views(entries@)[j].0 == key@;
            assert(entries@[j].0@ == key@);
        }
    }
    None
}

/// The error that a failed store operation reports.
pub struct DatabaseError(String);

impl View for DatabaseError {
    type V = Seq<char>;

    closed spec fn view(&self) -> Seq<char> {
        self.0@
    }
}

impl DatabaseError {
    /// The message of the error.
    pub fn to_string(&self) -> (r: String)
        ensures
            r@ == self@,
    {
        self.0.clone()
    }
}

/// The store: a map from keys to values, each key held once.
pub struct Database {
    db: Vec<(String, DatabaseVal)>,
}

impl View for Database {
    type V = Map<Seq<char>, Value>;

    closed spec fn view(&self) -> Map<Seq<char>, Value> {
        entries_map(entry_views(self.db@))
    }
}

impl Database {
    #[verifier::type_invariant]
    spec fn keys_distinct(&self) -> bool {
        unique_keys(entry_views(self.db@))
    }

    /// An empty store.
    pub fn init() -> (r: Self)
        ensures
            r@ == Map::<Seq<char>, Value>::empty(),
    {
        let r = Database { db: Vec::new() };
        assert(r@ =~= Map::<Seq<char>, Value>::empty());
        r
    }

    /// Replaces whatever `key` held with `val`.
    pub fn update(&mut self, key: &str, val: DatabaseVal)
        ensures
            final(self)@ == old(self)@.insert(key@, val@),
    {
        proof {
            use_type_invariant(&*self);
        }
        let mut entries: Vec<(String, DatabaseVal)> = Vec::new();
        std::mem::swap(&mut entries, &mut self.db);
        let ghost before = entries@;
        let ghost val_view = val@;
        match position(&entries, key) {
            Some(i) => {
                let (k, _) = entries.remove(i);
                entries.insert(i, (k, val));
                proof {
                    assert(entries@ =~= before.update(i as int, entries@[i as int]));
                    assert(entry_views(entries@) =~= entry_views(before).update(
                        i as int,
                        (entry_views(before)[i as int].0, val_view),
                    ));
                    lemma_entries_update(entry_views(before), i as int, val_view);
                }
            },
            None => {
                entries.push((key.to_owned(), val));
                proof {
                    assert(entry_views(entries@) =~= entry_views(before).push((key@, val_view)));
                    lemma_entries_push(entry_views(before), key@, val_view);
                }
            },
        }
        *self = Database { db: entries };
    }

    /// Makes `key` hold the text `val`, whatever it held before.
    pub fn update_string(&mut self, key: &str, val: &str)
        ensures
            final(self)@ == old(self)@.insert(key@, Value::Text(val@)),
    {
        let v = DatabaseVal::StringVal(StringValType::from(val));
        self.update(key, v)
    }

    /// Adds `vals` to the set at `key`; where `key` is absent or holds a text, it is
    /// replaced by a new set of `vals`.
    pub fn update_or_insert_set(&mut self, key: &str, vals: &Vec<&str>)
        ensures
            final(self)@ == old(self)@.insert(
                key@,
                Value::Members(set_after_add(old(self)@, key@, views(vals@))),
            ),
    {
        match self.try_update_set(key, vals) {
            Ok(()) => (),
            Err(()) => {
                let v = DatabaseVal::SetVal(SetValType::from(vals));
                self.update(key, v)
            },
        }
    }

    /// Adds `vals` to the set at `key` where `key` holds a set; fails, changing nothing,
    /// where it does not.
    fn try_update_set(&mut self, key: &str, vals: &Vec<&str>) -> (r: Result<(), ()>)
        ensures
            r is Ok <==> (old(self)@.contains_key(key@) && old(self)@[key@] is Members),
            r is Ok ==> final(self)@ == old(self)@.insert(
                key@,
                Value::Members(set_after_add(old(self)@, key@, views(vals@))),
            ),
            r is Err ==> final(self)@ == old(self)@,
    {
        proof {
            use_type_invariant(&*self);
            lemma_entries_map(entry_views(self.db@));
        }
        let mut entries: Vec<(String, DatabaseVal)> = Vec::new();
        std::mem::swap(&mut entries, &mut self.db);
        let ghost before = entries@;
        let r = match position(&entries, key) {
            Some(i) => {
                assert(entry_views(before)[i as int].0 == key@);
                let (k, v) = entries.remove(i);
                match v {
                    DatabaseVal::SetVal(set) => {
                        let mut set = set;
                        set.add(vals);
                        let ghost new_view = Value::Members(set@);
                        entries.insert(i, (k, DatabaseVal::SetVal(set)));
                        proof {
                            assert(entries@ =~= before.update(i as int, entries@[i as int]));
                            assert(entry_views(entries@) =~= entry_views(before).update(
                                i as int,
                                (key@, new_view),
                            ));
                            lemma_entries_update(entry_views(before), i as int, new_view);
                        }
                        Ok(())
                    },
                    DatabaseVal::StringVal(t) => {
                        entries.insert(i, (k, DatabaseVal::StringVal(t)));
                        assert(entries@ =~= before);
                        Err(())
                    },
                }
            },
            None => Err(()),
        };
        *self = Database { db: entries };
        r
    }

    /// The value at `key`, if any.
    pub fn get(&self, key: &str) -> (r: Option<&DatabaseVal>)
        ensures
            match r {
                Some(v) => self@.contains_key(key@) && v@ == self@[key@],
                None => !self@.contains_key(key@),
            },
    {
        proof {
            use_type_invariant(&*self);
            lemma_entries_map(entry_views(self.db@));
        }
        match position(&self.db, key) {
            Some(i) => {
                assert(entry_views(self.db@)[i as int].0 == key@);
                Some(&self.db[i].1)
            },
            None => None,
        }
    }

    /// Removes `key`; fails with "key not found", changing nothing, where it is absent.
    pub fn delete(&mut self, key: &str) -> (r: Result<(), DatabaseError>)
        ensures
            r is Ok <==> old(self)@.contains_key(key@),
            r is Ok ==> final(self)@ == old(self)@.remove(key@),
            r matches Err(e) ==> e@ == "key not found"@ && final(self)@ == old(self)@,
    {
        proof {
            use_type_invariant(&*self);
            lemma_entries_map(entry_views(self.db@));
        }
        let mut entries: Vec<(String, DatabaseVal)> = Vec::new();
        std::mem::swap(&mut entries, &mut self.db);
        let ghost before = entries@;
        let r = match position(&entries, key) {
            Some(i) => {
                assert(entry_views(before)[i as int].0 == key@);
                entries.remove(i);
                proof {
                    assert(entry_views(entries@) =~= entry_views(before).remove(i as int));
                    lemma_entries_remove(entry_views(before), i as int);
                }
                Ok(())
            },
            None => Err(DatabaseError("key not found".to_owned())),
        };
        *self = Database { db: entries };
        r
    }
}

} // verus!
