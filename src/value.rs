//! The value bridge: script values to JSON trees and back.
//!
//! A table becomes a JSON array only when every key is a positive integer;
//! gaps are filled with `null` up to the largest key. Any other table becomes
//! an object: string keys are kept, positive integers are written in decimal,
//! and other keys get a fallback text. Floats are carried as their IEEE-754
//! bits; a non-finite one cannot be written as JSON.

use vstd::prelude::*;

verus! {

/// A table key as the script engine hands it over.
#[derive(Clone, Debug)]
pub enum ScriptKey {
    Int(i64),
    Str(String),
    /// Any other key, with the text that stands for it in an object.
    Other(String),
}

/// A script value.
#[derive(Debug)]
pub enum ScriptValue {
    Nil,
    Boolean(bool),
    Integer(i64),
    /// A float, as `f64::to_bits`.
    Float(u64),
    Str(String),
    Table(Vec<(ScriptKey, ScriptValue)>),
}

/// A JSON tree; object keys are unique.
#[derive(Debug)]
pub enum JsonNode {
    Null,
    Bool(bool),
    Int(i64),
    /// A float, as `f64::to_bits`.
    Float(u64),
    Str(String),
    Array(Vec<JsonNode>),
    Object(Vec<(String, JsonNode)>),
}

/// Why a value cannot be written as JSON.
#[derive(Clone, Copy, Debug, PartialEq, Eq, Structural)]
pub enum BridgeError {
    NonFiniteNumber,
}

pub enum KeySpec {
    Int(int),
    Str(Seq<char>),
    Other(Seq<char>),
}

pub enum ValueSpec {
    Nil,
    Boolean(bool),
    Integer(int),
    Float(u64),
    Str(Seq<char>),
    Table(Seq<(KeySpec, ValueSpec)>),
}

pub enum JsonSpec {
    Null,
    Bool(bool),
    Int(int),
    Float(u64),
    Str(Seq<char>),
    Array(Seq<JsonSpec>),
    Object(Seq<(Seq<char>, JsonSpec)>),
}

pub open spec fn key_view(k: ScriptKey) -> KeySpec {
    match k {
        ScriptKey::Int(i) => KeySpec::Int(i as int),
        ScriptKey::Str(s) => KeySpec::Str(s@),
        ScriptKey::Other(s) => KeySpec::Other(s@),
    }
}

pub open spec fn value_view(v: ScriptValue) -> ValueSpec
    decreases v,
{
    match v {
        ScriptValue::Nil => ValueSpec::Nil,
        ScriptValue::Boolean(b) => ValueSpec::Boolean(b),
        ScriptValue::Integer(i) => ValueSpec::Integer(i as int),
        ScriptValue::Float(b) => ValueSpec::Float(b),
        ScriptValue::Str(s) => ValueSpec::Str(s@),
        ScriptValue::Table(es) => ValueSpec::Table(
            Seq::new(
                es@.len(),
                |i: int|
                    if 0 <= i < es@.len() {
                        (key_view(es@[i].0), value_view(es@[i].1))
                    } else {
                        (KeySpec::Int(0), ValueSpec::Nil)
                    },
            ),
        ),
    }
}

pub open spec fn json_view(j: JsonNode) -> JsonSpec
    decreases j,
{
    match j {
        JsonNode::Null => JsonSpec::Null,
        JsonNode::Bool(b) => JsonSpec::Bool(b),
        JsonNode::Int(i) => JsonSpec::Int(i as int),
        JsonNode::Float(b) => JsonSpec::Float(b),
        JsonNode::Str(s) => JsonSpec::Str(s@),
        JsonNode::Array(xs) => JsonSpec::Array(
            Seq::new(
                xs@.len(),
                |i: int|
                    if 0 <= i < xs@.len() {
                        json_view(xs@[i])
                    } else {
                        JsonSpec::Null
                    },
            ),
        ),
        JsonNode::Object(m) => JsonSpec::Object(
            Seq::new(
                m@.len(),
                |i: int|
                    if 0 <= i < m@.len() {
                        (m@[i].0@, json_view(m@[i].1))
                    } else {
                        (Seq::<char>::empty(), JsonSpec::Null)
                    },
            ),
        ),
    }
}

impl View for ScriptValue {
    type V = ValueSpec;

    open spec fn view(&self) -> ValueSpec {
        value_view(*self)
    }
}

impl View for JsonNode {
    type V = JsonSpec;

    open spec fn view(&self) -> JsonSpec {
        json_view(*self)
    }
}

/// A float is finite unless its exponent bits are all ones.
pub open spec fn finite_bits(b: u64) -> bool {
    (b >> 52u64) & 0x7ffu64 != 0x7ffu64
}

pub open spec fn digit_char(d: nat) -> char {
    ((d + '0' as nat) as u32) as char
}

/// Decimal digits of `n`.
pub open spec fn digits(n: nat) -> Seq<char>
    decreases n,
{
    if n < 10 {
        seq![digit_char(n)]
    } else {
        digits(n / 10).push(digit_char(n % 10))
    }
}

/// `i` in decimal, as `i64`'s `Display`.
pub open spec fn dec_str(i: int) -> Seq<char> {
    if i < 0 {
        seq!['-'] + digits((-i) as nat)
    } else {
        digits(i as nat)
    }
}

/// The object key that stands for a key that is neither a string nor a
/// positive integer.
pub open spec fn fallback_key(k: KeySpec) -> Seq<char> {
    match k {
        KeySpec::Int(i) => seq!['I', 'n', 't', 'e', 'g', 'e', 'r', '('] + dec_str(i) + seq![')'],
        KeySpec::Str(s) => s,
        KeySpec::Other(t) => t,
    }
}

pub open spec fn is_pos_int(k: KeySpec) -> bool {
    k matches KeySpec::Int(i) && i > 0
}

pub open spec fn key_int(k: KeySpec) -> int {
    match k {
        KeySpec::Int(i) => i,
        _ => 0,
    }
}

/// A table is written as an array: it has keys, all of them positive integers.
pub open spec fn array_keys(keys: Seq<KeySpec>) -> bool {
    keys.len() > 0 && forall|i: int| 0 <= i < keys.len() ==> #[trigger] is_pos_int(keys[i])
}

pub open spec fn max_key(keys: Seq<KeySpec>) -> int
    decreases keys.len(),
{
    if keys.len() == 0 {
        0
    } else {
        let m = max_key(keys.drop_last());
        if key_int(keys.last()) > m {
            key_int(keys.last())
        } else {
            m
        }
    }
}

/// Position of the last entry whose key is the integer `n`.
pub open spec fn find_int(keys: Seq<KeySpec>, n: int) -> Option<int>
    decreases keys.len(),
{
    if keys.len() == 0 {
        None
    } else if keys.last() == KeySpec::Int(n) {
        Some(keys.len() - 1)
    } else {
        find_int(keys.drop_last(), n)
    }
}

/// Position of key `k` in an object.
pub open spec fn find_key(m: Seq<(Seq<char>, JsonSpec)>, k: Seq<char>) -> Option<int>
    decreases m.len(),
{
    if m.len() == 0 {
        None
    } else if m.last().0 == k {
        Some(m.len() - 1)
    } else {
        find_key(m.drop_last(), k)
    }
}

/// Inserting into an object replaces the value of an existing key.
pub open spec fn obj_insert(m: Seq<(Seq<char>, JsonSpec)>, k: Seq<char>, v: JsonSpec) -> Seq<
    (Seq<char>, JsonSpec),
> {
    match find_key(m, k) {
        Some(i) => m.update(i, (k, v)),
        None => m.push((k, v)),
    }
}

/// The entries that are not positive integers, in order.
pub open spec fn obj_others(keys: Seq<KeySpec>, vals: Seq<JsonSpec>, n: int) -> Seq<
    (Seq<char>, JsonSpec),
>
    decreases n,
{
    if n <= 0 {
        Seq::empty()
    } else {
        let m = obj_others(keys, vals, n - 1);
        if is_pos_int(keys[n - 1]) {
            m
        } else {
            obj_insert(m, fallback_key(keys[n - 1]), vals[n - 1])
        }
    }
}

/// Then the positive integers, written in decimal; they replace a string key
/// with the same text.
pub open spec fn obj_ints(keys: Seq<KeySpec>, vals: Seq<JsonSpec>, n: int, base: Seq<
    (Seq<char>, JsonSpec),
>) -> Seq<(Seq<char>, JsonSpec)>
    decreases n,
{
    if n <= 0 {
        base
    } else {
        let m = obj_ints(keys, vals, n - 1, base);
        if is_pos_int(keys[n - 1]) {
            obj_insert(m, dec_str(key_int(keys[n - 1])), vals[n - 1])
        } else {
            m
        }
    }
}

/// The JSON form of a table whose values convert to `vals`.
pub open spec fn table_json(keys: Seq<KeySpec>, vals: Seq<JsonSpec>) -> JsonSpec {
    if array_keys(keys) {
        JsonSpec::Array(
            Seq::new(
                max_key(keys) as nat,
                |j: int|
                    match find_int(keys, j + 1) {
                        Some(i) => vals[i],
                        None => JsonSpec::Null,
                    },
            ),
        )
    } else {
        JsonSpec::Object(
            obj_ints(keys, vals, keys.len() as int, obj_others(keys, vals, keys.len() as int)),
        )
    }
}

/// The JSON forms of the values of a table's entries.
pub open spec fn child_jsons(es: Seq<(KeySpec, ValueSpec)>) -> Seq<Option<JsonSpec>>
    decreases es,
{
    Seq::new(
        es.len(),
        |i: int|
            if 0 <= i < es.len() {
                json_of(es[i].1)
            } else {
                None
            },
    )
}

/// The JSON form of a script value; `None` where a float is not finite.
pub open spec fn json_of(v: ValueSpec) -> Option<JsonSpec>
    decreases v,
{
    match v {
        ValueSpec::Nil => Some(JsonSpec::Null),
        ValueSpec::Boolean(b) => Some(JsonSpec::Bool(b)),
        ValueSpec::Integer(i) => Some(JsonSpec::Int(i)),
        ValueSpec::Float(b) => if finite_bits(b) {
            Some(JsonSpec::Float(b))
        } else {
            None
        },
        ValueSpec::Str(s) => Some(JsonSpec::Str(s)),
        ValueSpec::Table(es) => if forall|i: int|
            0 <= i < es.len() ==> #[trigger] child_jsons(es)[i] is Some {
            Some(
                table_json(
                    Seq::new(es.len(), |i: int| es[i].0),
                    Seq::new(es.len(), |i: int| child_jsons(es)[i].unwrap()),
                ),
            )
        } else {
            None
        },
    }
}

/// Entries `(k, v)` of an array's items, 1-based, leaving out `nil`s.
pub open spec fn array_entries(vs: Seq<ValueSpec>, n: int) -> Seq<(KeySpec, ValueSpec)>
    decreases n,
{
    if n <= 0 {
        Seq::empty()
    } else {
        let e = array_entries(vs, n - 1);
        if vs[n - 1] is Nil {
            e
        } else {
            e.push((KeySpec::Int(n), vs[n - 1]))
        }
    }
}

/// Entries of an object's members, string-keyed, leaving out `nil`s.
pub open spec fn object_entries(ks: Seq<Seq<char>>, vs: Seq<ValueSpec>, n: int) -> Seq<
    (KeySpec, ValueSpec),
>
    decreases n,
{
    if n <= 0 {
        Seq::empty()
    } else {
        let e = object_entries(ks, vs, n - 1);
        if vs[n - 1] is Nil {
            e
        } else {
            e.push((KeySpec::Str(ks[n - 1]), vs[n - 1]))
        }
    }
}

/// The script values of an array's items.
pub open spec fn item_values(xs: Seq<JsonSpec>) -> Seq<ValueSpec>
    decreases xs,
{
    Seq::new(
        xs.len(),
        |i: int|
            if 0 <= i < xs.len() {
                value_of(xs[i])
            } else {
                ValueSpec::Nil
            },
    )
}

/// The script values of an object's members.
pub open spec fn member_values(m: Seq<(Seq<char>, JsonSpec)>) -> Seq<ValueSpec>
    decreases m,
{
    Seq::new(
        m.len(),
        |i: int|
            if 0 <= i < m.len() {
                value_of(m[i].1)
            } else {
                ValueSpec::Nil
            },
    )
}

/// How many items of an array get an integer key: all that `i64` can number.
pub open spec fn index_limit(n: nat) -> int {
    if n < i64::MAX {
        n as int
    } else {
        i64::MAX as int
    }
}

/// The script value of a JSON tree.
pub open spec fn value_of(j: JsonSpec) -> ValueSpec
    decreases j,
{
    match j {
        JsonSpec::Null => ValueSpec::Nil,
        JsonSpec::Bool(b) => ValueSpec::Boolean(b),
        JsonSpec::Int(i) => ValueSpec::Integer(i),
        JsonSpec::Float(b) => ValueSpec::Float(b),
        JsonSpec::Str(s) => ValueSpec::Str(s),
        JsonSpec::Array(xs) => ValueSpec::Table(array_entries(item_values(xs), index_limit(xs.len()))),
        JsonSpec::Object(m) => ValueSpec::Table(
            object_entries(Seq::new(m.len(), |i: int| m[i].0), member_values(m), m.len() as int),
        ),
    }
}

pub open spec fn jviews(v: Seq<JsonNode>) -> Seq<JsonSpec> {
    Seq::new(v.len(), |i: int| v[i]@)
}

pub open spec fn keys_of(es: Seq<(ScriptKey, ScriptValue)>) -> Seq<KeySpec> {
    Seq::new(es.len(), |i: int| key_view(es[i].0))
}

proof fn lemma_array_decreases(j: JsonNode, i: int)
    requires
        j is Array,
        0 <= i < j->Array_0@.len(),
    ensures
        decreases_to!(j => j->Array_0@[i]),
{
    vstd::std_specs::vec::axiom_vec_index_decreases(j->Array_0, i);
    assert(decreases_to!(j => j->Array_0));
}

proof fn lemma_object_decreases(j: JsonNode, i: int)
    requires
        j is Object,
        0 <= i < j->Object_0@.len(),
    ensures
        decreases_to!(j => j->Object_0@[i].1),
{
    vstd::std_specs::vec::axiom_vec_index_decreases(j->Object_0, i);
    assert(decreases_to!(j => j->Object_0));
    assert(decreases_to!(j->Object_0@[i] => j->Object_0@[i].1));
}

/// A copy of a JSON tree.
pub fn copy_json(j: &JsonNode) -> (r: JsonNode)
    ensures
        r@ == j@,
    decreases j,
{
    match j {
        JsonNode::Null => JsonNode::Null,
        JsonNode::Bool(b) => JsonNode::Bool(*b),
        JsonNode::Int(i) => JsonNode::Int(*i),
        JsonNode::Float(b) => JsonNode::Float(*b),
        JsonNode::Str(s) => JsonNode::Str(s.clone()),
        JsonNode::Array(xs) => {
            let mut out: Vec<JsonNode> = Vec::new();
            let mut i: usize = 0;
            while i < xs.len()
                invariant
                    *j is Array,
                    (*j)->Array_0 == *xs,
                    i <= xs@.len(),
                    out@.len() == i,
                    forall|m: int| 0 <= m < i ==> #[trigger] out@[m]@ == xs@[m]@,
                decreases xs@.len() - i,
            {
                proof {
                    lemma_array_decreases(*j, i as int);
                }
                out.push(copy_json(&xs[i]));
                i = i + 1;
            }
            let ghost xv = json_view(*j)->Array_0;
            let r = JsonNode::Array(out);
            assert(json_view(r) == json_view(*j)) by {
                assert forall|k: int| 0 <= k < xv.len() implies #[trigger] json_view(r)->Array_0[k] == xv[k] by {
                    assert(out@[k]@ == xs@[k]@);
                }
                assert(json_view(r)->Array_0 =~= xv);
            }
            r
        },
        JsonNode::Object(m) => {
            let mut out: Vec<(String, JsonNode)> = Vec::new();
            let mut i: usize = 0;
            while i < m.len()
                invariant
                    *j is Object,
                    (*j)->Object_0 == *m,
                    i <= m@.len(),
                    out@.len() == i,
                    forall|k: int| 0 <= k < i ==> #[trigger] out@[k].1@ == m@[k].1@ && out@[k].0@ == m@[k].0@,
                decreases m@.len() - i,
            {
                proof {
                    lemma_object_decreases(*j, i as int);
                }
                out.push((m[i].0.clone(), copy_json(&m[i].1)));
                i = i + 1;
            }
            let ghost mv = json_view(*j)->Object_0;
            let r = JsonNode::Object(out);
            assert(json_view(r) == json_view(*j)) by {
                assert forall|k: int| 0 <= k < mv.len() implies #[trigger] json_view(r)->Object_0[k] == mv[k] by {
                    assert(out@[k].1@ == m@[k].1@);
                }
                assert(json_view(r)->Object_0 =~= mv);
            }
            r
        },
    }
}

fn is_finite_bits(b: u64) -> (r: bool)
    ensures
        r == finite_bits(b),
{
    (b >> 52u64) & 0x7ffu64 != 0x7ffu64
}

pub(crate) fn digits_exec(n: u64) -> (r: Vec<char>)
    ensures
        r@ == digits(n as nat),
    decreases n,
{
    let d = ((n % 10) as u8 + ('0' as u8)) as char;
    assert(d == digit_char((n % 10) as nat));
    if n < 10 {
        let mut r: Vec<char> = Vec::new();
        r.push(d);
        assert(r@ =~= seq![digit_char(n as nat)]);
        r
    } else {
        let mut r = digits_exec(n / 10);
        r.push(d);
        r
    }
}

/// `i` in decimal.
pub fn dec_chars(i: i64) -> (r: Vec<char>)
    ensures
        r@ == dec_str(i as int),
{
    if i < 0 {
        let mag: u64 = (-(i as i128)) as u64;
        let d = digits_exec(mag);
        let mut r: Vec<char> = Vec::new();
        r.push('-');
        let mut k: usize = 0;
        while k < d.len()
            invariant
                k <= d@.len(),
                r@ == seq!['-'] + d@.subrange(0, k as int),
            decreases d@.len() - k,
        {
            r.push(d[k]);
            assert(seq!['-'] + d@.subrange(0, k + 1) =~= (seq!['-'] + d@.subrange(0, k as int)).push(d@[k as int]));
            k = k + 1;
        }
        assert(d@.subrange(0, d@.len() as int) =~= d@);
        r
    } else {
        digits_exec(i as u64)
    }
}

fn fallback_key_exec(k: &ScriptKey) -> (r: String)
    ensures
        r@ == fallback_key(key_view(*k)),
{
    match k {
        ScriptKey::Int(i) => {
            let mut v: Vec<char> = Vec::new();
            v.push('I');
            v.push('n');
            v.push('t');
            v.push('e');
            v.push('g');
            v.push('e');
            v.push('r');
            v.push('(');
            let d = dec_chars(*i);
            let ghost head = v@;
            let mut k: usize = 0;
            while k < d.len()
                invariant
                    k <= d@.len(),
                    v@ == head + d@.subrange(0, k as int),
                decreases d@.len() - k,
            {
                v.push(d[k]);
                assert(head + d@.subrange(0, k + 1) =~= (head + d@.subrange(0, k as int)).push(d@[k as int]));
                k = k + 1;
            }
            v.push(')');
            assert(d@.subrange(0, d@.len() as int) =~= d@);
            assert(v@ =~= seq!['I', 'n', 't', 'e', 'g', 'e', 'r', '('] + dec_str(*i as int) + seq![')']);
            crate::text::string_of(v.as_slice())
        },
        ScriptKey::Str(s) => s.clone(),
        ScriptKey::Other(s) => s.clone(),
    }
}

pub(crate) fn find_key_exec(m: &Vec<(String, JsonNode)>, k: &String) -> (r: Option<usize>)
    ensures
        r matches Some(i) ==> find_key(obj_views(m@), k@) == Some(i as int) && i < m@.len(),
        r is None ==> find_key(obj_views(m@), k@) is None,
{
    let mut j: usize = m.len();
    assert(obj_views(m@).subrange(0, j as int) =~= obj_views(m@));
    while j > 0
        invariant
            j <= m@.len(),
            find_key(obj_views(m@), k@) == find_key(obj_views(m@).subrange(0, j as int), k@),
        decreases j,
    {
        let ghost pre = obj_views(m@).subrange(0, j as int);
        assert(pre.drop_last() =~= obj_views(m@).subrange(0, j - 1));
        if m[j - 1].0 == *k {
            return Some(j - 1);
        }
        j = j - 1;
    }
    None
}

pub open spec fn obj_views(m: Seq<(String, JsonNode)>) -> Seq<(Seq<char>, JsonSpec)> {
    Seq::new(m.len(), |i: int| (m[i].0@, m[i].1@))
}

pub(crate) fn obj_insert_exec(m: &mut Vec<(String, JsonNode)>, k: String, v: JsonNode)
    ensures
        obj_views(final(m)@) == obj_insert(obj_views(old(m)@), k@, v@),
{
    let ghost kv = k@;
    let ghost vv = v@;
    match find_key_exec(m, &k) {
        Some(i) => {
            m.remove(i);
            m.insert(i, (k, v));
            assert(obj_views(m@) =~= obj_insert(obj_views(old(m)@), kv, vv));
        },
        None => {
            m.push((k, v));
            assert(obj_views(m@) =~= obj_insert(obj_views(old(m)@), kv, vv));
        },
    }
}

proof fn lemma_find_int_bounds(keys: Seq<KeySpec>, n: int)
    ensures
        find_int(keys, n) matches Some(i) ==> 0 <= i < keys.len() && keys[i] == KeySpec::Int(n),
    decreases keys.len(),
{
    if keys.len() > 0 {
        lemma_find_int_bounds(keys.drop_last(), n);
    }
}

fn find_int_exec(es: &Vec<(ScriptKey, ScriptValue)>, n: i64) -> (r: Option<usize>)
    ensures
        r matches Some(i) ==> find_int(keys_of(es@), n as int) == Some(i as int) && i < es@.len(),
        find_int(keys_of(es@), n as int) matches Some(i) ==> 0 <= i < es@.len(),
        r is None ==> find_int(keys_of(es@), n as int) is None,
{
    let mut j: usize = es.len();
    proof {
        lemma_find_int_bounds(keys_of(es@), n as int);
    }
    assert(keys_of(es@).subrange(0, j as int) =~= keys_of(es@));
    while j > 0
        invariant
            j <= es@.len(),
            find_int(keys_of(es@), n as int) == find_int(keys_of(es@).subrange(0, j as int), n as int),
        decreases j,
    {
        assert(keys_of(es@).subrange(0, j as int).drop_last() =~= keys_of(es@).subrange(0, j - 1));
        match es[j - 1].0 {
            ScriptKey::Int(i) => {
                if i == n {
                    return Some(j - 1);
                }
            },
            _ => {},
        }
        j = j - 1;
    }
    None
}

/// The JSON form of a table given the JSON forms of its values.
fn table_json_exec(es: &Vec<(ScriptKey, ScriptValue)>, vals: &Vec<JsonNode>) -> (r: JsonNode)
    requires
        vals@.len() == es@.len(),
    ensures
        r@ == table_json(keys_of(es@), jviews(vals@)),
{
    let ghost keys = keys_of(es@);
    let ghost vs = jviews(vals@);
    let mut all_pos = es.len() > 0;
    let mut max: i64 = 0;
    let mut k: usize = 0;
    assert(keys.subrange(0, 0) =~= Seq::<KeySpec>::empty());
    while k < es.len()
        invariant
            k <= es@.len(),
            keys == keys_of(es@),
            max as int == max_key(keys.subrange(0, k as int)),
            max >= 0,
            all_pos == (es@.len() > 0 && forall|m: int| 0 <= m < k ==> #[trigger] is_pos_int(keys[m])),
        decreases es@.len() - k,
    {
        assert(keys.subrange(0, k + 1).drop_last() =~= keys.subrange(0, k as int));
        assert(keys[k as int] == key_view(es@[k as int].0));
        let ghost was = all_pos;
        match es[k].0 {
            ScriptKey::Int(i) => {
                if i > max {
                    max = i;
                }
                if i <= 0 {
                    all_pos = false;
                }
            },
            _ => {
                all_pos = false;
            },
        }
        assert(all_pos == (was && is_pos_int(keys[k as int])));
        assert(all_pos == (es@.len() > 0 && forall|m: int| 0 <= m < k + 1 ==> #[trigger] is_pos_int(keys[m]))) by {
            if all_pos {
                assert forall|m: int| 0 <= m < k + 1 implies #[trigger] is_pos_int(keys[m]) by {
                    if m < k {
                    }
                }
            }
        }
        k = k + 1;
    }
    assert(keys.subrange(0, keys.len() as int) =~= keys);
    if all_pos {
        let mut out: Vec<JsonNode> = Vec::new();
        let mut j: i64 = 0;
        while j < max
            invariant
                0 <= j <= max,
                keys == keys_of(es@),
                vs == jviews(vals@),
                vals@.len() == es@.len(),
                out@.len() == j,
                forall|m: int| 0 <= m < j ==> #[trigger] out@[m]@ == (match find_int(keys, m + 1) {
                    Some(i) => vs[i],
                    None => JsonSpec::Null,
                }),
            decreases max - j,
        {
            match find_int_exec(es, j + 1) {
                Some(i) => {
                    out.push(copy_json(&vals[i]));
                },
                None => {
                    out.push(JsonNode::Null);
                },
            }
            j = j + 1;
        }
        let r = JsonNode::Array(out);
        assert(array_keys(keys));
        let ghost want = table_json(keys, vs)->Array_0;
        assert(want.len() == out@.len());
        assert forall|m: int| 0 <= m < want.len() implies #[trigger] json_view(r)->Array_0[m] == want[m] by {
            assert(json_view(r)->Array_0[m] == out@[m]@);
        }
        assert(json_view(r)->Array_0 =~= want);
        r
    } else {
        let mut obj: Vec<(String, JsonNode)> = Vec::new();
        let mut k: usize = 0;
        assert(obj_views(obj@) =~= obj_others(keys, vs, 0));
        while k < es.len()
            invariant
                k <= es@.len(),
                keys == keys_of(es@),
                vs == jviews(vals@),
                vals@.len() == es@.len(),
                obj_views(obj@) == obj_others(keys, vs, k as int),
            decreases es@.len() - k,
        {
            let pos = match es[k].0 {
                ScriptKey::Int(i) => i > 0,
                _ => false,
            };
            if !pos {
                let key = fallback_key_exec(&es[k].0);
                obj_insert_exec(&mut obj, key, copy_json(&vals[k]));
            }
            k = k + 1;
        }
        let ghost base = obj_views(obj@);
        let mut k: usize = 0;
        while k < es.len()
            invariant
                k <= es@.len(),
                keys == keys_of(es@),
                vs == jviews(vals@),
                vals@.len() == es@.len(),
                base == obj_others(keys, vs, es@.len() as int),
                obj_views(obj@) == obj_ints(keys, vs, k as int, base),
            decreases es@.len() - k,
        {
            match es[k].0 {
                ScriptKey::Int(i) => {
                    if i > 0 {
                        let d = dec_chars(i);
                        let key = crate::text::string_of(d.as_slice());
                        obj_insert_exec(&mut obj, key, copy_json(&vals[k]));
                    }
                },
                _ => {},
            }
            k = k + 1;
        }
        let r = JsonNode::Object(obj);
        assert(!array_keys(keys));
        assert(json_view(r)->Object_0 =~= obj_views(obj@));
        r
    }
}

proof fn lemma_table_decreases(v: ScriptValue, i: int)
    requires
        v is Table,
        0 <= i < v->Table_0@.len(),
    ensures
        decreases_to!(v => v->Table_0@[i].1),
{
    vstd::std_specs::vec::axiom_vec_index_decreases(v->Table_0, i);
    assert(decreases_to!(v => v->Table_0));
    assert(decreases_to!(v->Table_0@[i] => v->Table_0@[i].1));
}

/// Converts a script value to JSON; fails on a float that is not finite.
pub fn to_json(v: &ScriptValue) -> (r: Result<JsonNode, BridgeError>)
    ensures
        r matches Ok(j) ==> json_of(v@) == Some(j@),
        r is Err ==> json_of(v@) is None,
    decreases v,
{
    match v {
        ScriptValue::Nil => Ok(JsonNode::Null),
        ScriptValue::Boolean(b) => Ok(JsonNode::Bool(*b)),
        ScriptValue::Integer(i) => Ok(JsonNode::Int(*i)),
        ScriptValue::Float(b) => {
            if is_finite_bits(*b) {
                Ok(JsonNode::Float(*b))
            } else {
                Err(BridgeError::NonFiniteNumber)
            }
        },
        ScriptValue::Str(s) => Ok(JsonNode::Str(s.clone())),
        ScriptValue::Table(es) => {
            let ghost ev = v@->Table_0;
            let ghost js = child_jsons(ev);
            let mut vals: Vec<JsonNode> = Vec::new();
            let mut i: usize = 0;
            while i < es.len()
                invariant
                    *v is Table,
                    (*v)->Table_0 == *es,
                    ev == v@->Table_0,
                    ev.len() == es@.len(),
                    js.len() == ev.len(),
                    forall|m: int| 0 <= m < ev.len() ==> #[trigger] js[m] == json_of(ev[m].1),
                    forall|m: int| 0 <= m < ev.len() ==> #[trigger] ev[m] == (key_view(es@[m].0), value_view(es@[m].1)),
                    i <= es@.len(),
                    vals@.len() == i,
                    forall|m: int| 0 <= m < i ==> js[m] == Some(#[trigger] vals@[m]@),
                decreases es@.len() - i,
            {
                proof {
                    lemma_table_decreases(*v, i as int);
                }
                match to_json(&es[i].1) {
                    Ok(j) => {
                        vals.push(j);
                    },
                    Err(e) => {
                        assert(!(js[i as int] is Some));
                        assert(v@ == ValueSpec::Table(ev));
                        assert(!(child_jsons(ev)[i as int] is Some));
                        assert(json_of(ValueSpec::Table(ev)) is None);
                        return Err(e);
                    },
                }
                i = i + 1;
            }
            let r = table_json_exec(es, &vals);
            assert(v@ == ValueSpec::Table(ev));
            assert forall|m: int| 0 <= m < ev.len() implies #[trigger] child_jsons(ev)[m] is Some by {
                assert(js[m] == Some(vals@[m]@));
            }
            assert(Seq::new(ev.len(), |i: int| ev[i].0) =~= keys_of(es@));
            assert(Seq::new(ev.len(), |i: int| js[i].unwrap()) =~= jviews(vals@));
            Ok(r)
        },
    }
}

/// Converts a JSON tree to a script value: arrays become 1-based tables,
/// objects string-keyed tables; `null` members and items are left out.
pub fn from_json(j: &JsonNode) -> (r: ScriptValue)
    ensures
        r@ == value_of(j@),
    decreases j,
{
    match j {
        JsonNode::Null => ScriptValue::Nil,
        JsonNode::Bool(b) => ScriptValue::Boolean(*b),
        JsonNode::Int(i) => ScriptValue::Integer(*i),
        JsonNode::Float(b) => ScriptValue::Float(*b),
        JsonNode::Str(s) => ScriptValue::Str(s.clone()),
        JsonNode::Array(xs) => {
            let ghost xv = j@->Array_0;
            let ghost vs = item_values(xv);
            let mut es: Vec<(ScriptKey, ScriptValue)> = Vec::new();
            let mut i: usize = 0;
            assert(value_view(ScriptValue::Table(es))->Table_0 =~= array_entries(vs, 0));
            while i < xs.len() && (i as u64) < (i64::MAX as u64)
                invariant
                    *j is Array,
                    (*j)->Array_0 == *xs,
                    j@ == JsonSpec::Array(xv),
                    xv.len() == xs@.len(),
                    forall|m: int| 0 <= m < xv.len() ==> #[trigger] xv[m] == xs@[m]@,
                    vs == item_values(xv),
                    i <= xs@.len(),
                    i <= i64::MAX,
                    ScriptValue::Table(es)@ == ValueSpec::Table(array_entries(vs, i as int)),
                decreases xs@.len() - i,
            {
                proof {
                    lemma_array_decreases(*j, i as int);
                }
                assert(xv[i as int] == xs@[i as int]@);
                let v = from_json(&xs[i]);
                assert(vs[i as int] == v@);
                let is_nil = match v {
                    ScriptValue::Nil => true,
                    _ => false,
                };
                if !is_nil {
                    es.push((ScriptKey::Int(i as i64 + 1), v));
                    assert(value_view(ScriptValue::Table(es))->Table_0 =~= array_entries(vs, i + 1)) by {
                        assert(value_view(ScriptValue::Table(es))->Table_0.drop_last() =~= array_entries(vs, i as int));
                    }
                }
                i = i + 1;
            }
            assert(i as int == index_limit(xv.len()));
            ScriptValue::Table(es)
        },
        JsonNode::Object(m) => {
            let ghost mv = j@->Object_0;
            let ghost ks = Seq::new(mv.len(), |i: int| mv[i].0);
            let ghost vs = member_values(mv);
            let mut es: Vec<(ScriptKey, ScriptValue)> = Vec::new();
            let mut i: usize = 0;
            assert(value_view(ScriptValue::Table(es))->Table_0 =~= object_entries(ks, vs, 0));
            while i < m.len()
                invariant
                    *j is Object,
                    (*j)->Object_0 == *m,
                    j@ == JsonSpec::Object(mv),
                    mv.len() == m@.len(),
                    forall|k: int| 0 <= k < mv.len() ==> #[trigger] mv[k] == (m@[k].0@, m@[k].1@),
                    ks == Seq::new(mv.len(), |i: int| mv[i].0),
                    vs == member_values(mv),
                    i <= m@.len(),
                    ScriptValue::Table(es)@ == ValueSpec::Table(object_entries(ks, vs, i as int)),
                decreases m@.len() - i,
            {
                proof {
                    lemma_object_decreases(*j, i as int);
                }
                assert(mv[i as int] == (m@[i as int].0@, m@[i as int].1@));
                let v = from_json(&m[i].1);
                assert(vs[i as int] == v@);
                let is_nil = match v {
                    ScriptValue::Nil => true,
                    _ => false,
                };
                if !is_nil {
                    es.push((ScriptKey::Str(m[i].0.clone()), v));
                    assert(value_view(ScriptValue::Table(es))->Table_0 =~= object_entries(ks, vs, i + 1)) by {
                        assert(value_view(ScriptValue::Table(es))->Table_0.drop_last() =~= object_entries(ks, vs, i as int));
                    }
                }
                i = i + 1;
            }
            ScriptValue::Table(es)
        },
    }
}

/// A table that has a string key is written as a JSON object, never as an
/// array.
pub proof fn lemma_string_key_gives_object(es: Seq<(KeySpec, ValueSpec)>, i: int)
    requires
        0 <= i < es.len(),
        es[i].0 is Str,
    ensures
        json_of(ValueSpec::Table(es)) matches Some(j) ==> j is Object,
{
    let keys = Seq::new(es.len(), |k: int| es[k].0);
    assert(!is_pos_int(keys[i]));
    assert(!array_keys(keys));
}

pub open spec fn has_int_key(es: Seq<(KeySpec, ValueSpec)>, k: int) -> bool {
    exists|i: int| 0 <= i < es.len() && #[trigger] es[i].0 == KeySpec::Int(k)
}

/// The keys of `es` are exactly the integers `1..=n`, each once.
pub open spec fn keyed_one_to(es: Seq<(KeySpec, ValueSpec)>, n: int) -> bool {
    &&& es.len() == n
    &&& forall|i: int| 0 <= i < es.len() ==> #[trigger] es[i].0 is Int && 1 <= key_int(es[i].0) <= n
    &&& forall|k: int| 1 <= k <= n ==> #[trigger] has_int_key(es, k)
    &&& forall|i: int, j: int| 0 <= i < es.len() && 0 <= j < es.len() && i != j ==> #[trigger] es[i].0 != #[trigger] es[j].0
}

/// Two tables hold the same entries, in any order.
pub open spec fn same_entries(a: Seq<(KeySpec, ValueSpec)>, b: Seq<(KeySpec, ValueSpec)>) -> bool {
    &&& a.len() == b.len()
    &&& forall|i: int| #![trigger a[i]] 0 <= i < a.len() ==> exists|j: int| #![trigger b[j]] 0 <= j < b.len() && b[j] == a[i]
    &&& forall|j: int| #![trigger b[j]] 0 <= j < b.len() ==> exists|i: int| #![trigger a[i]] 0 <= i < a.len() && a[i] == b[j]
}

/// A value that survives the trip to JSON and back unchanged.
pub open spec fn round_trips(v: ValueSpec) -> bool {
    json_of(v) is Some && value_of(json_of(v).unwrap()) == v
}

proof fn lemma_max_key_bounds(keys: Seq<KeySpec>)
    ensures
        forall|i: int| 0 <= i < keys.len() ==> key_int(#[trigger] keys[i]) <= max_key(keys),
        max_key(keys) == 0 || exists|i: int| 0 <= i < keys.len() && key_int(#[trigger] keys[i]) == max_key(keys),
        max_key(keys) >= 0,
    decreases keys.len(),
{
    if keys.len() > 0 {
        let p = keys.drop_last();
        lemma_max_key_bounds(p);
        assert forall|i: int| 0 <= i < keys.len() implies key_int(#[trigger] keys[i]) <= max_key(keys) by {
            if i < keys.len() - 1 {
                assert(keys[i] == p[i]);
            }
        }
        if max_key(keys) != 0 {
            if key_int(keys.last()) > max_key(p) {
                assert(key_int(keys[keys.len() - 1]) == max_key(keys));
            } else {
                let w = choose|i: int| 0 <= i < p.len() && key_int(#[trigger] p[i]) == max_key(p);
                assert(keys[w] == p[w]);
            }
        }
    }
}

proof fn lemma_find_int_complete(keys: Seq<KeySpec>, n: int, i: int)
    requires
        0 <= i < keys.len(),
        keys[i] == KeySpec::Int(n),
    ensures
        find_int(keys, n) is Some,
    decreases keys.len(),
{
    if keys.last() != KeySpec::Int(n) {
        assert(i < keys.len() - 1);
        assert(keys.drop_last()[i] == keys[i]);
        lemma_find_int_complete(keys.drop_last(), n, i);
    }
}

proof fn lemma_array_entries_full(vs: Seq<ValueSpec>, n: int)
    requires
        0 <= n <= vs.len(),
        forall|j: int| 0 <= j < n ==> !(#[trigger] vs[j] is Nil),
    ensures
        array_entries(vs, n) == Seq::new(n as nat, |j: int| (KeySpec::Int(j + 1), vs[j])),
    decreases n,
{
    if n > 0 {
        lemma_array_entries_full(vs, n - 1);
        assert(array_entries(vs, n) =~= Seq::new(n as nat, |j: int| (KeySpec::Int(j + 1), vs[j])));
    } else {
        assert(array_entries(vs, n) =~= Seq::new(n as nat, |j: int| (KeySpec::Int(j + 1), vs[j])));
    }
}

/// A table keyed exactly `1..=n` (`n >= 1`) is written as a JSON array of
/// `n` items, and read back it holds the same entries, wherever each of its
/// values makes the trip unchanged: booleans, integers, strings, finite
/// floats, and tables built of them that are keyed by strings or by
/// `1, 2, ..., n` in order (see `lemma_scalars_round_trip`,
/// `lemma_string_table_round_trip`, `lemma_ordered_sequence_round_trip`).
pub proof fn lemma_sequence_table_round_trip(es: Seq<(KeySpec, ValueSpec)>, n: int)
    requires
        n >= 1,
        n <= i64::MAX,
        keyed_one_to(es, n),
        forall|i: int| 0 <= i < es.len() ==> !(#[trigger] es[i].1 is Nil),
        forall|i: int| 0 <= i < es.len() ==> round_trips(#[trigger] es[i].1),
    ensures
        json_of(ValueSpec::Table(es)) matches Some(j) && j is Array && j->Array_0.len() == n,
        value_of(json_of(ValueSpec::Table(es)).unwrap()) matches ValueSpec::Table(back) && same_entries(
            es,
            back,
        ) && (forall|j: int| 0 <= j < n ==> #[trigger] back[j].0 == KeySpec::Int(j + 1)),
{
    let keys = Seq::new(es.len(), |k: int| es[k].0);
    let js = child_jsons(es);
    assert forall|i: int| 0 <= i < es.len() implies #[trigger] js[i] is Some by {
        assert(round_trips(es[i].1));
    }
    let vals = Seq::new(es.len(), |i: int| js[i].unwrap());
    assert forall|i: int| 0 <= i < keys.len() implies #[trigger] is_pos_int(keys[i]) by {
        assert(es[i].0 is Int && 1 <= key_int(es[i].0));
    }
    assert(array_keys(keys));
    lemma_max_key_bounds(keys);
    assert(max_key(keys) == n) by {
        assert(has_int_key(es, n));
        let w = choose|i: int| 0 <= i < es.len() && #[trigger] es[i].0 == KeySpec::Int(n);
        assert(keys[w] == es[w].0);
        assert(key_int(keys[w]) == n);
        if max_key(keys) != 0 {
            let m = choose|i: int| 0 <= i < keys.len() && key_int(#[trigger] keys[i]) == max_key(keys);
            assert(key_int(es[m].0) <= n);
        }
    }
    let xs = Seq::new(
        n as nat,
        |j: int|
            match find_int(keys, j + 1) {
                Some(i) => vals[i],
                None => JsonSpec::Null,
            },
    );
    assert(json_of(ValueSpec::Table(es)) == Some(JsonSpec::Array(xs)));
    // each item is the JSON form of the value under key `j + 1`
    assert forall|j: int| 0 <= j < n implies {
        &&& find_int(keys, j + 1) matches Some(i)
        &&& 0 <= i < es.len()
        &&& es[i].0 == KeySpec::Int(j + 1)
        &&& #[trigger] xs[j] == json_of(es[i].1).unwrap()
    } by {
        assert(has_int_key(es, j + 1));
        let w = choose|i: int| 0 <= i < es.len() && #[trigger] es[i].0 == KeySpec::Int(j + 1);
        assert(keys[w] == es[w].0);
        lemma_find_int_complete(keys, j + 1, w);
        lemma_find_int_bounds(keys, j + 1);
    }
    let vs = item_values(xs);
    assert forall|j: int| 0 <= j < n implies !(#[trigger] vs[j] is Nil) && vs[j] == es[find_int(keys, j + 1).unwrap()].1 by {
        let i = find_int(keys, j + 1).unwrap();
        assert(round_trips(es[i].1));
        assert(vs[j] == value_of(xs[j]));
    }
    assert(index_limit(xs.len()) == n);
    lemma_array_entries_full(vs, n);
    let back = array_entries(vs, n);
    assert(value_of(JsonSpec::Array(xs)) == ValueSpec::Table(back));
    assert forall|j: int| 0 <= j < n implies #[trigger] back[j].0 == KeySpec::Int(j + 1) by {}
    assert forall|i: int| #![trigger es[i]] 0 <= i < es.len() implies exists|j: int| 0 <= j < back.len() && #[trigger] back[j] == #[trigger] es[i] by {
        let k = key_int(es[i].0);
        assert(es[i].0 == KeySpec::Int(k));
        assert(keys[i] == es[i].0);
        lemma_find_int_complete(keys, k, i);
        lemma_find_int_bounds(keys, k);
        let i2 = find_int(keys, k).unwrap();
        assert(keys[i2] == es[i2].0);
        assert(es[i2].0 == KeySpec::Int(k));
        assert(i2 == i);
        assert(back[k - 1] == es[i]);
    }
    assert forall|j: int| 0 <= j < back.len() implies exists|i: int| 0 <= i < es.len() && #[trigger] es[i] == #[trigger] back[j] by {
        let i = find_int(keys, j + 1).unwrap();
        assert(es[i] == back[j]);
    }
}

/// Booleans, integers, strings and finite floats make the trip to JSON and
/// back unchanged.
pub proof fn lemma_scalars_round_trip(v: ValueSpec)
    requires
        v is Boolean || v is Integer || v is Str || (v is Float && finite_bits(v->Float_0)),
    ensures
        round_trips(v),
{
}

proof fn lemma_obj_ints_none(keys: Seq<KeySpec>, vals: Seq<JsonSpec>, n: int, base: Seq<(Seq<char>, JsonSpec)>)
    requires
        0 <= n <= keys.len(),
        forall|i: int| 0 <= i < keys.len() ==> #[trigger] keys[i] is Str,
    ensures
        obj_ints(keys, vals, n, base) == base,
    decreases n,
{
    if n > 0 {
        assert(keys[n - 1] is Str);
        lemma_obj_ints_none(keys, vals, n - 1, base);
    }
}

proof fn lemma_obj_others_strs(keys: Seq<KeySpec>, vals: Seq<JsonSpec>, n: int)
    requires
        0 <= n <= keys.len(),
        forall|i: int| 0 <= i < keys.len() ==> #[trigger] keys[i] is Str,
        forall|i: int, j: int|
            0 <= i < keys.len() && 0 <= j < keys.len() && i != j ==> #[trigger] keys[i] != #[trigger] keys[j],
    ensures
        obj_others(keys, vals, n) == Seq::new(n as nat, |i: int| (keys[i]->Str_0, vals[i])),
    decreases n,
{
    if n > 0 {
        lemma_obj_others_strs(keys, vals, n - 1);
        let m = obj_others(keys, vals, n - 1);
        assert(keys[n - 1] is Str);
        let k = keys[n - 1]->Str_0;
        assert forall|i: int| 0 <= i < m.len() implies #[trigger] m[i].0 != k by {
            assert(keys[i] is Str);
            assert(keys[i] != keys[n - 1]);
            assert(m[i].0 == keys[i]->Str_0);
        }
        crate::store::lemma_find_key_absent(m, k);
    }
    assert(obj_others(keys, vals, n) =~= Seq::new(n as nat, |i: int| (keys[i]->Str_0, vals[i])));
}

proof fn lemma_object_entries_full(ks: Seq<Seq<char>>, vs: Seq<ValueSpec>, n: int)
    requires
        0 <= n <= vs.len(),
        n <= ks.len(),
        forall|j: int| 0 <= j < n ==> !(#[trigger] vs[j] is Nil),
    ensures
        object_entries(ks, vs, n) == Seq::new(n as nat, |j: int| (KeySpec::Str(ks[j]), vs[j])),
    decreases n,
{
    if n > 0 {
        lemma_object_entries_full(ks, vs, n - 1);
    }
    assert(object_entries(ks, vs, n) =~= Seq::new(n as nat, |j: int| (KeySpec::Str(ks[j]), vs[j])));
}

/// A table keyed by distinct strings, whose values make the trip unchanged
/// and are not `nil`, makes the trip unchanged too: it is written as a JSON
/// object with the same members in the same order.
pub proof fn lemma_string_table_round_trip(es: Seq<(KeySpec, ValueSpec)>)
    requires
        forall|i: int| 0 <= i < es.len() ==> #[trigger] es[i].0 is Str,
        forall|i: int, j: int|
            0 <= i < es.len() && 0 <= j < es.len() && i != j ==> #[trigger] es[i].0 != #[trigger] es[j].0,
        forall|i: int| 0 <= i < es.len() ==> !(#[trigger] es[i].1 is Nil),
        forall|i: int| 0 <= i < es.len() ==> round_trips(#[trigger] es[i].1),
    ensures
        round_trips(ValueSpec::Table(es)),
        json_of(ValueSpec::Table(es)).unwrap() is Object,
{
    let v = ValueSpec::Table(es);
    assert forall|i: int| 0 <= i < es.len() implies #[trigger] child_jsons(es)[i] is Some by {
        assert(round_trips(es[i].1));
    }
    let keys = Seq::new(es.len(), |k: int| es[k].0);
    let vals = Seq::new(es.len(), |i: int| child_jsons(es)[i].unwrap());
    assert forall|i: int| 0 <= i < keys.len() implies #[trigger] keys[i] is Str by {
        assert(es[i].0 is Str);
    }
    assert forall|i: int, j: int|
        0 <= i < keys.len() && 0 <= j < keys.len() && i != j implies #[trigger] keys[i] != #[trigger] keys[j] by {
        assert(es[i].0 != es[j].0);
    }
    if es.len() > 0 {
        assert(!is_pos_int(keys[0]));
    }
    assert(!array_keys(keys));
    lemma_obj_others_strs(keys, vals, es.len() as int);
    let m = obj_others(keys, vals, es.len() as int);
    lemma_obj_ints_none(keys, vals, es.len() as int, m);
    assert(json_of(v) == Some(JsonSpec::Object(m)));
    let ks = Seq::new(m.len(), |i: int| m[i].0);
    let mv = member_values(m);
    assert forall|j: int| 0 <= j < es.len() implies !(#[trigger] mv[j] is Nil) && mv[j] == es[j].1 by {
        assert(mv[j] == value_of(m[j].1));
        assert(round_trips(es[j].1));
    }
    lemma_object_entries_full(ks, mv, m.len() as int);
    let back = object_entries(ks, mv, m.len() as int);
    assert(back =~= es) by {
        assert forall|j: int| 0 <= j < es.len() implies back[j] == es[j] by {
            assert(es[j].0 == KeySpec::Str(es[j].0->Str_0));
        }
    }
    assert(value_of(JsonSpec::Object(m)) == v);
}

proof fn lemma_ordered_keys(es: Seq<(KeySpec, ValueSpec)>)
    requires
        forall|i: int| 0 <= i < es.len() ==> #[trigger] es[i].0 == KeySpec::Int(i + 1),
    ensures
        keyed_one_to(es, es.len() as int),
{
    let n = es.len() as int;
    assert forall|k: int| 1 <= k <= n implies #[trigger] has_int_key(es, k) by {
        assert(es[k - 1].0 == KeySpec::Int(k));
    }
    assert forall|i: int, j: int|
        0 <= i < es.len() && 0 <= j < es.len() && i != j implies #[trigger] es[i].0 != #[trigger] es[j].0 by {
        assert(es[i].0 == KeySpec::Int(i + 1));
        assert(es[j].0 == KeySpec::Int(j + 1));
    }
}

proof fn lemma_ordered_same(es: Seq<(KeySpec, ValueSpec)>, back: Seq<(KeySpec, ValueSpec)>)
    requires
        forall|i: int| 0 <= i < es.len() ==> #[trigger] es[i].0 == KeySpec::Int(i + 1),
        same_entries(es, back),
        forall|j: int| 0 <= j < back.len() ==> #[trigger] back[j].0 == KeySpec::Int(j + 1),
    ensures
        back == es,
{
    assert(es.len() == back.len());
    assert forall|j: int| 0 <= j < back.len() implies #[trigger] back[j] == es[j] by {
        let bj = back[j];
        assert(exists|i: int| 0 <= i < es.len() && es[i] == back[j]);
        let w = choose|i: int| 0 <= i < es.len() && #[trigger] es[i] == back[j];
        assert(es[w].0 == KeySpec::Int(w + 1));
    }
    assert(back =~= es);
}

/// A table whose entries are keyed `1, 2, ..., n` in that order (`n >= 1`),
/// with values that make the trip unchanged and are not `nil`, makes the
/// trip unchanged too.
pub proof fn lemma_ordered_sequence_round_trip(es: Seq<(KeySpec, ValueSpec)>)
    requires
        1 <= es.len() <= i64::MAX,
        forall|i: int| 0 <= i < es.len() ==> #[trigger] es[i].0 == KeySpec::Int(i + 1),
        forall|i: int| 0 <= i < es.len() ==> !(#[trigger] es[i].1 is Nil),
        forall|i: int| 0 <= i < es.len() ==> round_trips(#[trigger] es[i].1),
    ensures
        round_trips(ValueSpec::Table(es)),
{
    lemma_ordered_keys(es);
    lemma_sequence_table_round_trip(es, es.len() as int);
    let j0 = json_of(ValueSpec::Table(es)).unwrap();
    let back = value_of(j0)->Table_0;
    lemma_ordered_same(es, back);
}

} // verus!
