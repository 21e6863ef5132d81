//! The save document: a JSON object with free-form keys, plus one active game
//! slot. The slot lives under `game:<id>` (the id trimmed and lower-cased) and
//! `__latest_save_game` names it; saving a slot removes every other one.
//!
//! The store is held in memory; reading and writing the file is the caller's.

use crate::text::{chars_eq, chars_of, copy_range, lower, lower_chars, string_of, trim, trim_chars};
use crate::value::{
    find_key, from_json, obj_insert, obj_views, to_json, value_of, json_of, BridgeError, JsonNode,
    JsonSpec, ScriptValue,
};
use vstd::prelude::*;

verus! {

pub open spec fn latest_key() -> Seq<char> {
    seq!['_', '_', 'l', 'a', 't', 'e', 's', 't', '_', 's', 'a', 'v', 'e', '_', 'g', 'a', 'm', 'e']
}

pub open spec fn slot_prefix() -> Seq<char> {
    seq!['g', 'a', 'm', 'e', ':']
}

/// A game id as it is stored: trimmed and lower-cased.
pub open spec fn norm_id(id: Seq<char>) -> Seq<char> {
    lower(trim(id))
}

pub open spec fn slot_key(id: Seq<char>) -> Seq<char> {
    slot_prefix() + norm_id(id)
}

pub open spec fn is_slot_key(k: Seq<char>) -> bool {
    k.len() >= 5 && k.subrange(0, 5) == slot_prefix()
}

/// A key that only the slot bookkeeping writes.
pub open spec fn is_reserved(k: Seq<char>) -> bool {
    is_slot_key(k) || k == latest_key()
}

/// The document without its slots and without the latest-slot pointer.
pub open spec fn without_slots(m: Seq<(Seq<char>, JsonSpec)>) -> Seq<(Seq<char>, JsonSpec)>
    decreases m.len(),
{
    if m.len() == 0 {
        m
    } else {
        let r = without_slots(m.drop_last());
        if is_reserved(m.last().0) {
            r
        } else {
            r.push(m.last())
        }
    }
}

/// The document after saving `v` as the one slot of game `id`.
pub open spec fn with_slot(m: Seq<(Seq<char>, JsonSpec)>, id: Seq<char>, v: JsonSpec) -> Seq<
    (Seq<char>, JsonSpec),
> {
    obj_insert(
        obj_insert(without_slots(m), slot_key(id), v),
        latest_key(),
        JsonSpec::Str(norm_id(id)),
    )
}

/// The id of the first slot key, in document order, whose id is not blank.
pub open spec fn first_slot_id(m: Seq<(Seq<char>, JsonSpec)>) -> Option<Seq<char>>
    decreases m.len(),
{
    if m.len() == 0 {
        None
    } else if is_slot_key(m[0].0) && trim(m[0].0.subrange(5, m[0].0.len() as int)).len() > 0 {
        Some(m[0].0.subrange(5, m[0].0.len() as int))
    } else {
        first_slot_id(m.drop_first())
    }
}

/// The latest slot's id: the pointer, trimmed, when it is a non-blank string;
/// else the first remaining slot.
pub open spec fn latest_of(m: Seq<(Seq<char>, JsonSpec)>) -> Option<Seq<char>> {
    match find_key(m, latest_key()) {
        Some(i) => if m[i].1 is Str && trim(m[i].1->Str_0).len() > 0 {
            Some(trim(m[i].1->Str_0))
        } else {
            first_slot_id(m)
        },
        None => first_slot_id(m),
    }
}

/// The value stored under `key`, if any.
pub open spec fn lookup(m: Seq<(Seq<char>, JsonSpec)>, key: Seq<char>) -> Option<JsonSpec> {
    match find_key(m, key) {
        Some(i) => Some(m[i].1),
        None => None,
    }
}

/// The save document.
pub struct SaveStore {
    entries: Vec<(String, JsonNode)>,
}

impl View for SaveStore {
    type V = Seq<(Seq<char>, JsonSpec)>;

    closed spec fn view(&self) -> Seq<(Seq<char>, JsonSpec)> {
        obj_views(self.entries@)
    }
}

fn latest_key_string() -> (r: String)
    ensures
        r@ == latest_key(),
{
    string_of(
        &['_', '_', 'l', 'a', 't', 'e', 's', 't', '_', 's', 'a', 'v', 'e', '_', 'g', 'a', 'm', 'e'],
    )
}

fn is_slot_key_exec(k: &String) -> (r: bool)
    ensures
        r == is_slot_key(k@),
{
    let v = chars_of(k.as_str());
    if v.len() < 5 {
        return false;
    }
    let head = copy_range(v.as_slice(), 0, 5);
    chars_eq(head.as_slice(), &['g', 'a', 'm', 'e', ':'])
}

fn is_reserved_exec(k: &String) -> (r: bool)
    ensures
        r == is_reserved(k@),
{
    let latest = latest_key_string();
    is_slot_key_exec(k) || *k == latest
}

/// The stored form of a game id: trimmed and lower-cased.
pub fn normalize_game_id(id: &str) -> (r: String)
    ensures
        r@ == norm_id(id@),
{
    let v = chars_of(id);
    let t = trim_chars(v.as_slice());
    let l = lower_chars(t.as_slice());
    string_of(l.as_slice())
}

/// The key of game `id`'s slot: `game:` and the normalized id.
pub fn game_slot_key(id: &str) -> (r: String)
    ensures
        r@ == slot_key(id@),
{
    let v = chars_of(id);
    let t = trim_chars(v.as_slice());
    let l = lower_chars(t.as_slice());
    let mut out: Vec<char> = Vec::new();
    out.push('g');
    out.push('a');
    out.push('m');
    out.push('e');
    out.push(':');
    let mut k: usize = 0;
    while k < l.len()
        invariant
            k <= l@.len(),
            out@ == slot_prefix() + l@.subrange(0, k as int),
        decreases l@.len() - k,
    {
        out.push(l[k]);
        assert(slot_prefix() + l@.subrange(0, k + 1) =~= (slot_prefix() + l@.subrange(0, k as int)).push(l@[k as int]));
        k = k + 1;
    }
    assert(l@.subrange(0, l@.len() as int) =~= l@);
    string_of(out.as_slice())
}

impl SaveStore {
    /// An empty document.
    pub fn new() -> (r: SaveStore)
        ensures
            r@ == Seq::<(Seq<char>, JsonSpec)>::empty(),
    {
        let r = SaveStore { entries: Vec::new() };
        assert(r@ =~= Seq::<(Seq<char>, JsonSpec)>::empty());
        r
    }

    /// A document from the members of a JSON object, in order; a repeated
    /// key keeps its last value.
    pub fn from_members(members: &Vec<(String, JsonNode)>) -> (r: SaveStore)
        ensures
            r@ == inserted_all(obj_views(members@), members@.len() as int),
    {
        let mut r = SaveStore::new();
        let ghost all = obj_views(members@);
        let mut i: usize = 0;
        while i < members.len()
            invariant
                i <= members@.len(),
                all == obj_views(members@),
                r@ == inserted_all(all, i as int),
            decreases members@.len() - i,
        {
            let k = members[i].0.clone();
            let v = crate::value::copy_json(&members[i].1);
            assert(all[i as int] == (k@, v@));
            r.put(k, v);
            i = i + 1;
        }
        r
    }

    /// The members of the document, in order.
    pub fn members(&self) -> (r: &Vec<(String, JsonNode)>)
        ensures
            obj_views(r@) == self@,
    {
        &self.entries
    }

    /// Stores `value` under `key`, replacing what was there.
    pub fn put(&mut self, key: String, value: JsonNode)
        ensures
            final(self)@ == obj_insert(old(self)@, key@, value@),
    {
        crate::value::obj_insert_exec(&mut self.entries, key, value);
    }

    fn find(&self, key: &String) -> (r: Option<usize>)
        ensures
            r matches Some(i) ==> find_key(self@, key@) == Some(i as int) && i < self@.len(),
            r is None ==> find_key(self@, key@) is None,
    {
        crate::value::find_key_exec(&self.entries, key)
    }

    /// The value stored under `key`.
    pub fn get(&self, key: &str) -> (r: Option<&JsonNode>)
        ensures
            r matches Some(j) ==> lookup(self@, key@) == Some(j@),
            r is None ==> lookup(self@, key@) is None,
    {
        let k = key.to_owned();
        match self.find(&k) {
            Some(i) => Some(&self.entries[i].1),
            None => None,
        }
    }

    /// Saves `value` as the one slot of game `game_id`: every other slot and
    /// the old pointer go, the slot is stored under `game:<id>`, and the
    /// pointer names the normalized id.
    pub fn put_slot(&mut self, game_id: &str, value: JsonNode)
        ensures
            final(self)@ == with_slot(old(self)@, game_id@, value@),
    {
        clear_active_game_save(self);
        let key = game_slot_key(game_id);
        self.put(key, value);
        let id = normalize_game_id(game_id);
        self.put(latest_key_string(), JsonNode::Str(id));
    }

    /// Converts `v` and saves it under `key`; a value that cannot be written
    /// leaves the document as it was.
    pub fn save_value(&mut self, key: &str, v: &ScriptValue) -> (r: Result<(), BridgeError>)
        ensures
            json_of(v@) matches Some(j) ==> r is Ok && final(self)@ == obj_insert(old(self)@, key@, j),
            json_of(v@) is None ==> r is Err && final(self)@ == old(self)@,
    {
        match to_json(v) {
            Ok(j) => {
                self.put(key.to_owned(), j);
                Ok(())
            },
            Err(e) => Err(e),
        }
    }

    /// Converts `v` and saves it as game `game_id`'s slot; a value that
    /// cannot be written leaves the document as it was.
    pub fn save_slot(&mut self, game_id: &str, v: &ScriptValue) -> (r: Result<(), BridgeError>)
        ensures
            json_of(v@) matches Some(j) ==> r is Ok && final(self)@ == with_slot(old(self)@, game_id@, j),
            json_of(v@) is None ==> r is Err && final(self)@ == old(self)@,
    {
        match to_json(v) {
            Ok(j) => {
                self.put_slot(game_id, j);
                Ok(())
            },
            Err(e) => Err(e),
        }
    }

    /// The script value stored under `key`; `nil` when there is none.
    pub fn load_value(&self, key: &str) -> (r: ScriptValue)
        ensures
            r@ == (match lookup(self@, key@) {
                Some(j) => value_of(j),
                None => crate::value::ValueSpec::Nil,
            }),
    {
        match self.get(key) {
            Some(j) => from_json(j),
            None => ScriptValue::Nil,
        }
    }

    /// The script value in game `game_id`'s slot; `nil` when there is none.
    pub fn load_slot(&self, game_id: &str) -> (r: ScriptValue)
        ensures
            r@ == (match lookup(self@, slot_key(game_id@)) {
                Some(j) => value_of(j),
                None => crate::value::ValueSpec::Nil,
            }),
    {
        let key = game_slot_key(game_id);
        self.load_value(key.as_str())
    }
}

/// Removes the latest-slot pointer and every slot; other keys stay.
pub fn clear_active_game_save(store: &mut SaveStore)
    ensures
        final(store)@ == without_slots(old(store)@),
{
    let ghost m = store@;
    let mut out: Vec<(String, JsonNode)> = Vec::new();
    let mut i: usize = 0;
    assert(obj_views(out@) =~= without_slots(m.subrange(0, 0)));
    while i < store.entries.len()
        invariant
            i <= store.entries@.len(),
            m == store@,
            m == obj_views(store.entries@),
            obj_views(out@) == without_slots(m.subrange(0, i as int)),
        decreases store.entries@.len() - i,
    {
        assert(m.subrange(0, i + 1).drop_last() =~= m.subrange(0, i as int));
        let ghost prev = obj_views(out@);
        if !is_reserved_exec(&store.entries[i].0) {
            let k = store.entries[i].0.clone();
            let v = crate::value::copy_json(&store.entries[i].1);
            out.push((k, v));
            assert(obj_views(out@) =~= prev.push(m[i as int]));
        }
        i = i + 1;
    }
    assert(m.subrange(0, m.len() as int) =~= m);
    store.entries = out;
}

/// The id of the latest saved game.
pub fn latest_saved_game_id(store: &SaveStore) -> (r: Option<String>)
    ensures
        r matches Some(s) ==> latest_of(store@) == Some(s@),
        r is None ==> latest_of(store@) is None,
{
    let ghost m = store@;
    let latest = latest_key_string();
    match store.find(&latest) {
        Some(i) => {
            match &store.entries[i].1 {
                JsonNode::Str(id) => {
                    let v = chars_of(id.as_str());
                    let t = trim_chars(v.as_slice());
                    if t.len() > 0 {
                        return Some(string_of(t.as_slice()));
                    }
                },
                _ => {},
            }
        },
        None => {},
    }
    let mut i: usize = 0;
    assert(m.subrange(0, m.len() as int) =~= m);
    assert(latest_of(m) == first_slot_id(m));
    while i < store.entries.len()
        invariant
            i <= store.entries@.len(),
            latest_of(m) == first_slot_id(m),
            m == store@,
            m == obj_views(store.entries@),
            first_slot_id(m.subrange(i as int, m.len() as int)) == first_slot_id(m),
        decreases store.entries@.len() - i,
    {
        let ghost t = m.subrange(i as int, m.len() as int);
        assert(t.drop_first() =~= m.subrange(i + 1, m.len() as int));
        assert(t[0] == m[i as int]);
        let k = &store.entries[i].0;
        if is_slot_key_exec(k) {
            let v = chars_of(k.as_str());
            let rest = copy_range(v.as_slice(), 5, v.len());
            let tr = trim_chars(rest.as_slice());
            assert(rest@ == t[0].0.subrange(5, t[0].0.len() as int));
            if tr.len() > 0 {
                return Some(string_of(rest.as_slice()));
            }
        }
        i = i + 1;
    }
    None
}

/// What the document holds after the first insertions of `all`.
pub open spec fn inserted_all(all: Seq<(Seq<char>, JsonSpec)>, n: int) -> Seq<(Seq<char>, JsonSpec)>
    decreases n,
{
    if n <= 0 {
        Seq::empty()
    } else {
        obj_insert(inserted_all(all, n - 1), all[n - 1].0, all[n - 1].1)
    }
}

proof fn lemma_without_slots_unreserved(m: Seq<(Seq<char>, JsonSpec)>)
    ensures
        forall|i: int| 0 <= i < without_slots(m).len() ==> !is_reserved(#[trigger] without_slots(m)[i].0),
    decreases m.len(),
{
    if m.len() > 0 {
        lemma_without_slots_unreserved(m.drop_last());
        let r = without_slots(m.drop_last());
        assert forall|i: int| 0 <= i < without_slots(m).len() implies !is_reserved(#[trigger] without_slots(m)[i].0) by {
            if i < r.len() {
                assert(without_slots(m)[i] == r[i]);
            }
        }
    }
}

pub(crate) proof fn lemma_find_key_absent(m: Seq<(Seq<char>, JsonSpec)>, k: Seq<char>)
    requires
        forall|i: int| 0 <= i < m.len() ==> #[trigger] m[i].0 != k,
    ensures
        find_key(m, k) is None,
    decreases m.len(),
{
    if m.len() > 0 {
        assert(m[m.len() - 1].0 != k);
        assert forall|i: int| 0 <= i < m.drop_last().len() implies #[trigger] m.drop_last()[i].0 != k by {
            assert(m.drop_last()[i] == m[i]);
        }
        lemma_find_key_absent(m.drop_last(), k);
    }
}

proof fn lemma_first_slot_none(m: Seq<(Seq<char>, JsonSpec)>)
    requires
        forall|i: int| 0 <= i < m.len() && is_slot_key(#[trigger] m[i].0) ==> trim(
            m[i].0.subrange(5, m[i].0.len() as int),
        ).len() == 0,
    ensures
        first_slot_id(m) is None,
    decreases m.len(),
{
    if m.len() > 0 {
        assert forall|i: int| 0 <= i < m.drop_first().len() && is_slot_key(#[trigger] m.drop_first()[i].0) implies trim(
            m.drop_first()[i].0.subrange(5, m.drop_first()[i].0.len() as int),
        ).len() == 0 by {
            assert(m.drop_first()[i] == m[i + 1]);
        }
        lemma_first_slot_none(m.drop_first());
    }
}

proof fn lemma_latest_not_slot()
    ensures
        !is_slot_key(latest_key()),
{
    assert(latest_key().subrange(0, 5)[0] == '_');
}

proof fn lemma_slot_key_is_slot(id: Seq<char>)
    ensures
        is_slot_key(slot_key(id)),
        slot_key(id).subrange(5, slot_key(id).len() as int) == norm_id(id),
{
    assert(slot_key(id).subrange(0, 5) =~= slot_prefix());
    assert(slot_key(id).subrange(5, slot_key(id).len() as int) =~= norm_id(id));
}

/// A normalized id is its own trim.
pub proof fn lemma_norm_id_trimmed(id: Seq<char>)
    ensures
        trim(norm_id(id)) == norm_id(id),
{
    crate::text::lemma_trim_no_edge_ws(id);
    crate::text::lemma_lower_no_edge_ws(trim(id));
    crate::text::lemma_trim_identity(norm_id(id));
}

/// `Some(id)`, or `None` for a blank id.
pub open spec fn id_if_not_blank(id: Seq<char>) -> Option<Seq<char>> {
    if id.len() > 0 {
        Some(id)
    } else {
        None
    }
}

/// Saving a slot for game `a` and then one for game `b` (ids that differ once
/// trimmed and lower-cased) leaves exactly one slot key, `b`'s; the latest
/// slot is `b`'s normalized id (none when that id is blank), and `a`'s slot
/// reads as absent.
pub proof fn lemma_slot_exclusive(
    m: Seq<(Seq<char>, JsonSpec)>,
    a: Seq<char>,
    b: Seq<char>,
    v1: JsonSpec,
    v2: JsonSpec,
)
    requires
        norm_id(a) != norm_id(b),
    ensures
        ({
            let m2 = with_slot(with_slot(m, a, v1), b, v2);
            &&& exists|i: int| 0 <= i < m2.len() && #[trigger] m2[i].0 == slot_key(b)
            &&& forall|i: int| 0 <= i < m2.len() && is_slot_key(#[trigger] m2[i].0) ==> m2[i].0 == slot_key(b)
            &&& forall|i: int, j: int|
                0 <= i < m2.len() && 0 <= j < m2.len() && is_slot_key(#[trigger] m2[i].0) && is_slot_key(
                    #[trigger] m2[j].0,
                ) ==> i == j
            &&& latest_of(m2) == id_if_not_blank(norm_id(b))
            &&& lookup(m2, slot_key(a)) is None
        }),
{
    let m1 = with_slot(m, a, v1);
    let w = without_slots(m1);
    let kb = slot_key(b);
    let nb = norm_id(b);
    lemma_without_slots_unreserved(m1);
    lemma_latest_not_slot();
    lemma_slot_key_is_slot(b);
    lemma_slot_key_is_slot(a);
    lemma_find_key_absent(w, kb);
    let w1 = w.push((kb, v2));
    assert(obj_insert(w, kb, v2) == w1);
    assert(kb != latest_key());
    assert forall|i: int| 0 <= i < w1.len() implies #[trigger] w1[i].0 != latest_key() by {
        if i < w.len() {
            assert(w1[i] == w[i]);
        }
    }
    lemma_find_key_absent(w1, latest_key());
    let m2 = w1.push((latest_key(), JsonSpec::Str(nb)));
    assert(with_slot(m1, b, v2) == m2);
    let n = w.len();
    assert(m2[n as int] == (kb, v2));
    assert forall|i: int| 0 <= i < m2.len() && is_slot_key(#[trigger] m2[i].0) implies i == n by {
        if i < n {
            assert(m2[i] == w[i]);
        }
    }
    // `a`'s slot
    let ka = slot_key(a);
    assert(ka != kb) by {
        assert(ka.subrange(5, ka.len() as int) == norm_id(a));
    }
    assert forall|i: int| 0 <= i < m2.len() implies #[trigger] m2[i].0 != ka by {
        if i < n {
            assert(m2[i] == w[i]);
        }
    }
    lemma_find_key_absent(m2, ka);
    // the pointer
    assert(find_key(m2, latest_key()) == Some(m2.len() - 1));
    lemma_norm_id_trimmed(b);
    if nb.len() == 0 {
        assert forall|i: int| 0 <= i < m2.len() && is_slot_key(#[trigger] m2[i].0) implies trim(
            m2[i].0.subrange(5, m2[i].0.len() as int),
        ).len() == 0 by {
            if i < n {
                assert(m2[i] == w[i]);
            }
        }
        lemma_first_slot_none(m2);
    }
}

} // verus!
