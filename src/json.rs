use vstd::prelude::*;

verus! {

/// A JSON value held as plain data: what the catalog API returns and what the
/// search index receives.
///
/// Integers that fit in an `i64` are held as `Int`; any other number keeps
/// its JSON text in `Number`. An object is an ordered list of key/value
/// entries.
#[derive(Debug)]
pub enum JsonValue {
    Null,
    Bool(bool),
    Int(i64),
    Number(String),
    Str(String),
    Array(Vec<JsonValue>),
    Object(Vec<(String, JsonValue)>),
}

/// The mathematical form of a JSON value: strings as character sequences,
/// arrays and objects as sequences.
pub ghost enum Json {
    Null,
    Bool(bool),
    Int(int),
    Number(Seq<char>),
    Str(Seq<char>),
    Array(Seq<Json>),
    Object(Seq<(Seq<char>, Json)>),
}

impl View for JsonValue {
    type V = Json;

    open spec fn view(&self) -> Json
        decreases self, 1nat,
    {
        match self {
            JsonValue::Null => Json::Null,
            JsonValue::Bool(b) => Json::Bool(*b),
            JsonValue::Int(n) => Json::Int(*n as int),
            JsonValue::Number(t) => Json::Number(t@),
            JsonValue::Str(s) => Json::Str(s@),
            JsonValue::Array(items) => Json::Array(view_items(*self, items@)),
            JsonValue::Object(entries) => Json::Object(view_entries(*self, entries@)),
        }
    }
}

/// The views of the items of an array.
pub open spec fn view_items(owner: JsonValue, items: Seq<JsonValue>) -> Seq<Json>
    decreases owner, 0nat, items.len(),
    when owner matches JsonValue::Array(v) && items.len() <= v@.len() && items == v@.subrange(0, items.len() as int)
    via view_items_decreases
{
    if items.len() == 0 {
        Seq::empty()
    } else {
        view_items(owner, items.drop_last()).push(items.last().view())
    }
}

#[via_fn]
proof fn view_items_decreases(owner: JsonValue, items: Seq<JsonValue>) {
    broadcast use vstd::std_specs::vec::group_vec_axioms;

    if items.len() > 0 {
        let v = owner->Array_0;
        assert(items.drop_last() == v@.subrange(0, items.len() - 1));
        assert(items.last() == v[items.len() - 1]);
        assert(decreases_to!(v => v[items.len() - 1]));
    }
}

/// The views of the entries of an object.
pub open spec fn view_entries(owner: JsonValue, entries: Seq<(String, JsonValue)>) -> Seq<(Seq<char>, Json)>
    decreases owner, 0nat, entries.len(),
    when owner matches JsonValue::Object(v) && entries.len() <= v@.len() && entries == v@.subrange(0, entries.len() as int)
    via view_entries_decreases
{
    if entries.len() == 0 {
        Seq::empty()
    } else {
        view_entries(owner, entries.drop_last()).push((entries.last().0@, entries.last().1.view()))
    }
}

#[via_fn]
proof fn view_entries_decreases(owner: JsonValue, entries: Seq<(String, JsonValue)>) {
    broadcast use vstd::std_specs::vec::group_vec_axioms;

    if entries.len() > 0 {
        let v = owner->Object_0;
        assert(entries.drop_last() == v@.subrange(0, entries.len() - 1));
        assert(entries.last() == v[entries.len() - 1]);
        assert(decreases_to!(v => v[entries.len() - 1]));
    }
}

/// The entries of an object, as key/value pairs of views.
pub open spec fn entries_view(entries: Seq<(String, JsonValue)>) -> Seq<(Seq<char>, Json)> {
    Seq::new(entries.len(), |i: int| (entries[i].0@, entries[i].1@))
}

/// An optional value, viewed.
pub open spec fn opt_view(o: Option<JsonValue>) -> Option<Json> {
    match o {
        Some(v) => Some(v@),
        None => None,
    }
}

/// The value stored under `key` in an entry list: the first entry with that key.
pub open spec fn lookup(entries: Seq<(Seq<char>, Json)>, key: Seq<char>) -> Option<Json>
    decreases entries.len(),
{
    if entries.len() == 0 {
        None
    } else if entries[0].0 == key {
        Some(entries[0].1)
    } else {
        lookup(entries.drop_first(), key)
    }
}

/// The member `key` of a value; only an object has members.
pub open spec fn member(v: Json, key: Seq<char>) -> Option<Json> {
    match v {
        Json::Object(entries) => lookup(entries, key),
        _ => None,
    }
}

/// The member `key` of a value, `Null` where there is none (JSON indexing).
pub open spec fn member_or_null(v: Json, key: Seq<char>) -> Json {
    match member(v, key) {
        Some(x) => x,
        None => Json::Null,
    }
}

/// Sets `key` to `val`: the first entry with that key is replaced in place,
/// otherwise a new entry is appended.
pub open spec fn put(entries: Seq<(Seq<char>, Json)>, key: Seq<char>, val: Json) -> Seq<(Seq<char>, Json)>
    decreases entries.len(),
{
    if entries.len() == 0 {
        seq![(key, val)]
    } else if entries[0].0 == key {
        seq![(key, val)] + entries.drop_first()
    } else {
        seq![entries[0]] + put(entries.drop_first(), key, val)
    }
}

/// Removes the first entry whose key is `key`, if there is one.
pub open spec fn remove_key(entries: Seq<(Seq<char>, Json)>, key: Seq<char>) -> Seq<(Seq<char>, Json)>
    decreases entries.len(),
{
    if entries.len() == 0 {
        entries
    } else if entries[0].0 == key {
        entries.drop_first()
    } else {
        seq![entries[0]] + remove_key(entries.drop_first(), key)
    }
}

/// True iff some entry has the key `key`.
pub open spec fn has_key(entries: Seq<(Seq<char>, Json)>, key: Seq<char>) -> bool {
    exists|i: int| 0 <= i < entries.len() && #[trigger] entries[i].0 == key
}

proof fn lemma_view_entries(owner: JsonValue, entries: Seq<(String, JsonValue)>)
    requires
        owner matches JsonValue::Object(v) && entries.len() <= v@.len() && entries == v@.subrange(0, entries.len() as int),
    ensures
        view_entries(owner, entries) == entries_view(entries),
    decreases entries.len(),
{
    if entries.len() > 0 {
        let v = owner->Object_0;
        assert(entries.drop_last() == v@.subrange(0, entries.len() - 1));
        lemma_view_entries(owner, entries.drop_last());
        assert(view_entries(owner, entries) == view_entries(owner, entries.drop_last()).push((entries.last().0@, entries.last().1@)));
        assert(view_entries(owner, entries) =~= entries_view(entries));
    } else {
        assert(view_entries(owner, entries) =~= entries_view(entries));
    }
}

proof fn lemma_view_items(owner: JsonValue, items: Seq<JsonValue>)
    requires
        owner matches JsonValue::Array(v) && items.len() <= v@.len() && items == v@.subrange(0, items.len() as int),
    ensures
        view_items(owner, items) == Seq::new(items.len(), |i: int| items[i]@),
    decreases items.len(),
{
    if items.len() > 0 {
        let v = owner->Array_0;
        assert(items.drop_last() == v@.subrange(0, items.len() - 1));
        lemma_view_items(owner, items.drop_last());
        assert(view_items(owner, items) == view_items(owner, items.drop_last()).push(items.last()@));
        assert(view_items(owner, items) =~= Seq::new(items.len(), |i: int| items[i]@));
    } else {
        assert(view_items(owner, items) =~= Seq::new(items.len(), |i: int| items[i]@));
    }
}

/// The view of an array holds the views of its items.
pub proof fn lemma_array_view(items: Vec<JsonValue>)
    ensures
        JsonValue::Array(items)@ == Json::Array(Seq::new(items.len() as nat, |i: int| items[i]@)),
{
    let o = JsonValue::Array(items);
    assert(items@ == items@.subrange(0, items@.len() as int));
    lemma_view_items(o, items@);
}

/// The view of an object holds the views of its entries.
pub proof fn lemma_object_view(entries: Vec<(String, JsonValue)>)
    ensures
        JsonValue::Object(entries)@ == Json::Object(entries_view(entries@)),
{
    let o = JsonValue::Object(entries);
    assert(entries@ == entries@.subrange(0, entries@.len() as int));
    lemma_view_entries(o, entries@);
}

pub proof fn lemma_lookup_none(entries: Seq<(Seq<char>, Json)>, key: Seq<char>)
    ensures
        lookup(entries, key) is None <==> !has_key(entries, key),
    decreases entries.len(),
{
    if entries.len() > 0 {
        lemma_lookup_none(entries.drop_first(), key);
        if has_key(entries, key) && entries[0].0 != key {
            let i = choose|i: int| 0 <= i < entries.len() && #[trigger] entries[i].0 == key;
            assert(entries.drop_first()[i - 1].0 == key);
        }
        if has_key(entries.drop_first(), key) {
            let i = choose|i: int| 0 <= i < entries.drop_first().len() && #[trigger] entries.drop_first()[i].0 == key;
            assert(entries[i + 1].0 == key);
        }
    }
}

/// After `put`, the key holds the value that was put.
pub proof fn lemma_put_same(entries: Seq<(Seq<char>, Json)>, key: Seq<char>, val: Json)
    ensures
        lookup(put(entries, key, val), key) == Some(val),
    decreases entries.len(),
{
    if entries.len() > 0 && entries[0].0 != key {
        lemma_put_same(entries.drop_first(), key, val);
        assert((seq![entries[0]] + put(entries.drop_first(), key, val)).drop_first()
            =~= put(entries.drop_first(), key, val));
    }
}

/// `put` leaves every other key as it was.
pub proof fn lemma_put_other(entries: Seq<(Seq<char>, Json)>, key: Seq<char>, val: Json, other: Seq<char>)
    requires
        other != key,
    ensures
        lookup(put(entries, key, val), other) == lookup(entries, other),
    decreases entries.len(),
{
    reveal_with_fuel(lookup, 2);
    if entries.len() == 0 {
        assert(seq![(key, val)].drop_first() =~= Seq::<(Seq<char>, Json)>::empty());
    } else if entries[0].0 == key {
        assert((seq![(key, val)] + entries.drop_first()).drop_first() =~= entries.drop_first());
    } else {
        lemma_put_other(entries.drop_first(), key, val, other);
        assert((seq![entries[0]] + put(entries.drop_first(), key, val)).drop_first()
            =~= put(entries.drop_first(), key, val));
    }
}

/// `remove_key` leaves every other key as it was.
pub proof fn lemma_remove_other(entries: Seq<(Seq<char>, Json)>, key: Seq<char>, other: Seq<char>)
    requires
        other != key,
    ensures
        lookup(remove_key(entries, key), other) == lookup(entries, other),
    decreases entries.len(),
{
    if entries.len() > 0 && entries[0].0 != key {
        lemma_remove_other(entries.drop_first(), key, other);
        assert((seq![entries[0]] + remove_key(entries.drop_first(), key)).drop_first()
            =~= remove_key(entries.drop_first(), key));
    }
}

/// `lookup` finds the first entry with the key.
pub proof fn lemma_lookup_index(entries: Seq<(Seq<char>, Json)>, key: Seq<char>, i: int)
    requires
        0 <= i < entries.len(),
        forall|j: int| 0 <= j < i ==> #[trigger] entries[j].0 != key,
        entries[i].0 == key,
    ensures
        lookup(entries, key) == Some(entries[i].1),
    decreases entries.len(),
{
    if i > 0 {
        let rest = entries.drop_first();
        assert forall|j: int| 0 <= j < i - 1 implies #[trigger] rest[j].0 != key by {
            assert(rest[j] == entries[j + 1]);
        }
        lemma_lookup_index(rest, key, i - 1);
    }
}

pub proof fn lemma_put_index(entries: Seq<(Seq<char>, Json)>, key: Seq<char>, val: Json, i: int)
    requires
        0 <= i <= entries.len(),
        forall|j: int| 0 <= j < i ==> #[trigger] entries[j].0 != key,
        i < entries.len() ==> entries[i].0 == key,
    ensures
        put(entries, key, val) == (if i < entries.len() {
            entries.update(i, (key, val))
        } else {
            entries.push((key, val))
        }),
    decreases entries.len(),
{
    if entries.len() == 0 {
        assert(seq![(key, val)] =~= entries.push((key, val)));
    } else if i == 0 {
        assert(seq![(key, val)] + entries.drop_first() =~= entries.update(0, (key, val)));
    } else {
        let rest = entries.drop_first();
        assert forall|j: int| 0 <= j < i - 1 implies #[trigger] rest[j].0 != key by {
            assert(rest[j] == entries[j + 1]);
        }
        lemma_put_index(rest, key, val, i - 1);
        if i < entries.len() {
            assert(seq![entries[0]] + rest.update(i - 1, (key, val)) =~= entries.update(i, (key, val)));
        } else {
            assert(seq![entries[0]] + rest.push((key, val)) =~= entries.push((key, val)));
        }
    }
}

pub proof fn lemma_remove_index(entries: Seq<(Seq<char>, Json)>, key: Seq<char>, i: int)
    requires
        0 <= i <= entries.len(),
        forall|j: int| 0 <= j < i ==> #[trigger] entries[j].0 != key,
        i < entries.len() ==> entries[i].0 == key,
    ensures
        remove_key(entries, key) == (if i < entries.len() {
            entries.remove(i)
        } else {
            entries
        }),
    decreases entries.len(),
{
    if entries.len() == 0 {
    } else if i == 0 {
        assert(entries.drop_first() =~= entries.remove(0));
    } else {
        let rest = entries.drop_first();
        assert forall|j: int| 0 <= j < i - 1 implies #[trigger] rest[j].0 != key by {
            assert(rest[j] == entries[j + 1]);
        }
        lemma_remove_index(rest, key, i - 1);
        if i < entries.len() {
            assert(seq![entries[0]] + rest.remove(i - 1) =~= entries.remove(i));
        } else {
            assert(seq![entries[0]] + rest =~= entries);
        }
    }
}

/// Whether a string's characters equal those of a literal.
pub fn text_is(s: &String, lit: &str) -> (r: bool)
    ensures
        r == (s@ == lit@),
{
    let t = String::from_str(lit);
    *s == t
}

/// The index of the first entry with key `key`, if any.
pub fn find_key(entries: &Vec<(String, JsonValue)>, key: &str) -> (r: Option<usize>)
    ensures
        match r {
            Some(i) => i < entries.len() && entries[i as int].0@ == key@
                && forall|j: int| 0 <= j < i ==> #[trigger] entries[j].0@ != key@,
            None => forall|j: int| 0 <= j < entries.len() ==> #[trigger] entries[j].0@ != key@,
        },
{
    let mut i: usize = 0;
    while i < entries.len()
        invariant
            i <= entries.len(),
            forall|j: int| 0 <= j < i ==> #[trigger] entries[j].0@ != key@,
        decreases entries.len() - i,
    {
        if text_is(&entries[i].0, key) {
            return Some(i);
        }
        i += 1;
    }
    None
}

/// Sets `key` to `val` in an entry list (see `put`).
pub fn put_entry(entries: &mut Vec<(String, JsonValue)>, key: String, val: JsonValue)
    ensures
        entries_view(final(entries)@) == put(entries_view(old(entries)@), key@, val@),
{
    let ghost before = entries_view(entries@);
    let i: usize = match find_key(entries, key.as_str()) {
        Some(i) => i,
        None => entries.len(),
    };
    proof {
        assert forall|j: int| 0 <= j < i implies #[trigger] before[j].0 != key@ by {
            assert(entries[j].0@ != key@);
        }
        lemma_put_index(before, key@, val@, i as int);
    }
    let ghost kv = key@;
    let ghost vv = val@;
    if i < entries.len() {
        entries.set(i, (key, val));
        assert(entries_view(entries@) =~= before.update(i as int, (kv, vv)));
    } else {
        entries.push((key, val));
        assert(entries_view(entries@) =~= before.push((kv, vv)));
    }
}

/// Removes the first entry with key `key` and returns its value.
pub fn take_entry(entries: &mut Vec<(String, JsonValue)>, key: &str) -> (r: Option<JsonValue>)
    ensures
        entries_view(final(entries)@) == remove_key(entries_view(old(entries)@), key@),
        opt_view(r) == lookup(entries_view(old(entries)@), key@),
{
    let ghost before = entries_view(entries@);
    match find_key(entries, key) {
        Some(i) => {
            proof {
                assert forall|j: int| 0 <= j < i implies #[trigger] before[j].0 != key@ by {
                    assert(entries[j].0@ != key@);
                }
                lemma_remove_index(before, key@, i as int);
                lemma_lookup_index(before, key@, i as int);
            }
            let (_, v) = entries.remove(i);
            assert(entries_view(entries@) =~= before.remove(i as int));
            Some(v)
        },
        None => {
            proof {
                assert forall|j: int| 0 <= j < entries.len() implies #[trigger] before[j].0 != key@ by {
                    assert(entries[j].0@ != key@);
                }
                lemma_remove_index(before, key@, before.len() as int);
                lemma_lookup_none(before, key@);
            }
            None
        },
    }
}

impl JsonValue {
    /// The member `key`, where this is an object whose member `key` is an
    /// integer.
    pub fn get_int(&self, key: &str) -> (r: Option<i64>)
        ensures
            match member(self@, key@) {
                Some(Json::Int(n)) => r matches Some(x) && x as int == n,
                _ => r is None,
            },
    {
        match self {
            JsonValue::Object(entries) => {
                proof {
                    lemma_object_view(*entries);
                }
                match find_key(entries, key) {
                    Some(i) => {
                        proof {
                            lemma_lookup_index(entries_view(entries@), key@, i as int);
                        }
                        match &entries[i].1 {
                            JsonValue::Int(n) => Some(*n),
                            _ => None,
                        }
                    },
                    None => {
                        proof {
                            lemma_lookup_none(entries_view(entries@), key@);
                        }
                        None
                    },
                }
            },
            _ => None,
        }
    }

    /// The text of the member `key`, where this is an object whose member
    /// `key` is a string.
    pub fn get_str(&self, key: &str) -> (r: Option<String>)
        ensures
            match member(self@, key@) {
                Some(Json::Str(t)) => r matches Some(x) && x@ == t,
                _ => r is None,
            },
    {
        match self {
            JsonValue::Object(entries) => {
                proof {
                    lemma_object_view(*entries);
                }
                match find_key(entries, key) {
                    Some(i) => {
                        proof {
                            lemma_lookup_index(entries_view(entries@), key@, i as int);
                        }
                        match &entries[i].1 {
                            JsonValue::Str(t) => Some(t.clone()),
                            _ => None,
                        }
                    },
                    None => {
                        proof {
                            lemma_lookup_none(entries_view(entries@), key@);
                        }
                        None
                    },
                }
            },
            _ => None,
        }
    }
}

/// `lookup` on an extended list: an earlier entry wins.
pub proof fn lemma_lookup_push(entries: Seq<(Seq<char>, Json)>, x: (Seq<char>, Json), key: Seq<char>)
    ensures
        lookup(entries.push(x), key) == (match lookup(entries, key) {
            Some(v) => Some(v),
            None => if x.0 == key {
                Some(x.1)
            } else {
                None::<Json>
            },
        }),
    decreases entries.len(),
{
    reveal_with_fuel(lookup, 2);
    if entries.len() > 0 {
        assert(entries.push(x).drop_first() =~= entries.drop_first().push(x));
        lemma_lookup_push(entries.drop_first(), x, key);
    }
}

/// Removes the first entry with key `key` and returns its value, `Null`
/// where there is none; every other key keeps its value.
pub fn take_or_null(entries: &mut Vec<(String, JsonValue)>, key: &str) -> (r: JsonValue)
    ensures
        r@ == (match lookup(entries_view(old(entries)@), key@) {
            Some(v) => v,
            None => Json::Null,
        }),
        forall|k: Seq<char>| k != key@ ==> #[trigger] lookup(entries_view(final(entries)@), k)
            == lookup(entries_view(old(entries)@), k),
{
    let ghost before = entries_view(entries@);
    let r = take_entry(entries, key);
    proof {
        assert forall|k: Seq<char>| k != key@ implies #[trigger] lookup(entries_view(entries@), k)
            == lookup(before, k) by {
            lemma_remove_other(before, key@, k);
        }
    }
    match r {
        Some(v) => v,
        None => JsonValue::Null,
    }
}

} // verus!
