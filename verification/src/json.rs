//! A plain-value model of JSON documents: what the library reads of
//! attributes, meta blocks and raw documents.
use crate::error::{shape_error, Error, Result};
use crate::text::{owned, str_eq};
use vstd::prelude::*;

verus! {

/// A JSON number, held as its JSON text (e.g. `"1"`, `"-2.5e3"`).
#[derive(Debug, Clone, PartialEq, Eq)]
pub struct JsonNumber {
    /// The number's JSON text.
    pub text: String,
}

/// A JSON value. Objects keep their members in ascending key order.
#[derive(Debug, PartialEq)]
pub enum JsonValue {
    /// `null`.
    Null,
    /// `true` or `false`.
    Bool(bool),
    /// A number.
    Number(JsonNumber),
    /// A string.
    String(String),
    /// An array.
    Array(Vec<JsonValue>),
    /// An object: its members in order, each key once.
    Object(JsonObject),
}

/// The members of a JSON object, in order, each key once.
#[derive(Debug, PartialEq)]
pub struct JsonObject {
    /// The `(key, value)` members.
    pub members: Vec<(String, JsonValue)>,
}

/// A free-form meta object.
pub type Meta = JsonObject;

/// The mathematical value of a JSON document.
pub enum JValue {
    /// `null`.
    Null,
    /// A boolean.
    Bool(bool),
    /// A number, by its JSON text.
    Number(Seq<char>),
    /// A string.
    Str(Seq<char>),
    /// An array.
    Array(Seq<JValue>),
    /// An object's members, in order.
    Object(Seq<(Seq<char>, JValue)>),
}

/// The value of a [`JsonValue`].
pub open spec fn json_view(v: JsonValue) -> JValue
    decreases v,
{
    match v {
        JsonValue::Null => JValue::Null,
        JsonValue::Bool(b) => JValue::Bool(b),
        JsonValue::Number(n) => JValue::Number(n.text@),
        JsonValue::String(s) => JValue::Str(s@),
        JsonValue::Array(items) => {
            proof {
                broadcast use vstd::std_specs::vec::axiom_vec_decreases_to_view;
                assert(decreases_to!(items => items@));
            }
            JValue::Array(json_view_seq(items@))
        },
        JsonValue::Object(o) => {
            proof {
                broadcast use vstd::std_specs::vec::axiom_vec_decreases_to_view;
                assert(decreases_to!(o.members => o.members@));
            }
            JValue::Object(members_view(o.members@))
        },
    }
}

/// The values of a sequence of [`JsonValue`]s.
pub open spec fn json_view_seq(s: Seq<JsonValue>) -> Seq<JValue>
    decreases s,
{
    if s.len() == 0 {
        Seq::empty()
    } else {
        json_view_seq(s.drop_last()).push(json_view(s.last()))
    }
}

/// The value of an object's members.
pub open spec fn members_view(m: Seq<(String, JsonValue)>) -> Seq<(Seq<char>, JValue)>
    decreases m,
{
    if m.len() == 0 {
        Seq::empty()
    } else {
        members_view(m.drop_last()).push((m.last().0@, json_view(m.last().1)))
    }
}

impl View for JsonValue {
    type V = JValue;

    open spec fn view(&self) -> JValue {
        json_view(*self)
    }
}

impl View for JsonObject {
    type V = Seq<(Seq<char>, JValue)>;

    open spec fn view(&self) -> Seq<(Seq<char>, JValue)> {
        members_view(self.members@)
    }
}

/// A copy of a JSON value.
pub fn copy_value(v: &JsonValue) -> (r: JsonValue)
    ensures
        r@ == v@,
    decreases v,
{
    match v {
        JsonValue::Null => JsonValue::Null,
        JsonValue::Bool(b) => JsonValue::Bool(*b),
        JsonValue::Number(n) => JsonValue::Number(JsonNumber { text: n.text.clone() }),
        JsonValue::String(s) => JsonValue::String(s.clone()),
        JsonValue::Array(items) => {
            let mut out: Vec<JsonValue> = Vec::new();
            let mut i: usize = 0;
            #[verifier::loop_isolation(false)]
            while i < items.len()
                invariant
                    0 <= i <= items@.len(),
                    json_view_seq(out@) == json_view_seq(items@.take(i as int)),
                    out@.len() == i,
                decreases items@.len() - i,
            {
                proof {
                    broadcast use vstd::std_specs::vec::axiom_vec_index_decreases;

                    assert(decreases_to!(*items => items[i as int]));
                }
                let c = copy_value(&items[i]);
                let ghost before = out@;
                out.push(c);
                assert(out@.drop_last() =~= before);
                assert(items@.take(i + 1).drop_last() =~= items@.take(i as int));
                i += 1;
            }
            assert(items@.take(i as int) =~= items@);
            JsonValue::Array(out)
        },
        JsonValue::Object(o) => JsonValue::Object(copy_object(o)),
    }
}

/// A copy of a JSON object.
pub fn copy_object(o: &JsonObject) -> (r: JsonObject)
    ensures
        r@ == o@,
    decreases o,
{
    let mut out: Vec<(String, JsonValue)> = Vec::new();
    let mut i: usize = 0;
    while i < o.members.len()
        invariant
            0 <= i <= o.members@.len(),
            members_view(out@) == members_view(o.members@.take(i as int)),
            out@.len() == i,
        decreases o.members@.len() - i,
    {
        let k = o.members[i].0.clone();
        let v = copy_value(&o.members[i].1);
        let ghost before = out@;
        out.push((k, v));
        assert(out@.drop_last() =~= before);
        assert(o.members@.take(i + 1).drop_last() =~= o.members@.take(i as int));
        i += 1;
    }
    assert(o.members@.take(i as int) =~= o.members@);
    JsonObject { members: out }
}

impl Clone for JsonValue {
    fn clone(&self) -> (r: Self)
        ensures
            r@ == self@,
    {
        copy_value(self)
    }
}

impl Clone for JsonObject {
    fn clone(&self) -> (r: Self)
        ensures
            r@ == self@,
    {
        copy_object(self)
    }
}

/// The index of the last member named `k`, `-1` when there is none.
pub open spec fn obj_index(m: Seq<(Seq<char>, JValue)>, k: Seq<char>) -> int
    decreases m.len(),
{
    if m.len() == 0 {
        -1
    } else if m.last().0 == k {
        m.len() - 1
    } else {
        obj_index(m.drop_last(), k)
    }
}

/// The value of the member named `k` (the last one, should the name repeat).
pub open spec fn obj_get(m: Seq<(Seq<char>, JValue)>, k: Seq<char>) -> Option<JValue> {
    let i = obj_index(m, k);
    if 0 <= i < m.len() {
        Some(m[i].1)
    } else {
        None
    }
}

/// Whether a member is named otherwise than `k`.
pub open spec fn named_otherwise(k: Seq<char>) -> spec_fn((Seq<char>, JValue)) -> bool {
    |e: (Seq<char>, JValue)| e.0 != k
}

/// `m` with `k` set to `v`: other members named `k` are dropped and
/// `(k, v)` comes last.
pub open spec fn obj_set(m: Seq<(Seq<char>, JValue)>, k: Seq<char>, v: JValue) -> Seq<
    (Seq<char>, JValue),
> {
    m.filter(named_otherwise(k)).push((k, v))
}

/// `obj_index` names the last member with the name, or none.
pub proof fn lemma_obj_index(m: Seq<(Seq<char>, JValue)>, k: Seq<char>)
    ensures
        -1 <= obj_index(m, k) < m.len(),
        obj_index(m, k) >= 0 ==> m[obj_index(m, k)].0 == k,
        forall|j: int| obj_index(m, k) < j < m.len() ==> #[trigger] m[j].0 != k,
    decreases m.len(),
{
    if m.len() > 0 && m.last().0 != k {
        lemma_obj_index(m.drop_last(), k);
        assert forall|j: int| obj_index(m, k) < j < m.len() implies #[trigger] m[j].0 != k by {
            if j < m.len() - 1 {
                assert(m[j] == m.drop_last()[j]);
            }
        }
    }
}

/// Reading a member after appending one.
pub proof fn lemma_obj_get_push(s: Seq<(Seq<char>, JValue)>, x: (Seq<char>, JValue), k: Seq<char>)
    ensures
        obj_get(s.push(x), k) == if x.0 == k {
            Some(x.1)
        } else {
            obj_get(s, k)
        },
{
    assert(s.push(x).drop_last() =~= s);
    lemma_obj_index(s, k);
    if x.0 != k {
        let i = obj_index(s, k);
        if i >= 0 {
            assert(s.push(x)[i] == s[i]);
        }
    }
}

/// Reading a member after setting one.
pub proof fn lemma_obj_get_set(m: Seq<(Seq<char>, JValue)>, k: Seq<char>, v: JValue, k2: Seq<char>)
    ensures
        obj_get(obj_set(m, k, v), k2) == if k2 == k {
            Some(v)
        } else {
            obj_get(m, k2)
        },
{
    lemma_obj_get_push(m.filter(named_otherwise(k)), (k, v), k2);
    if k2 != k {
        lemma_obj_get_filter(m, k, k2);
    }
}

/// Reading any member after setting one.
pub proof fn lemma_obj_set_all(m: Seq<(Seq<char>, JValue)>, k: Seq<char>, v: JValue)
    ensures
        forall|k2: Seq<char>|
            #[trigger] obj_get(obj_set(m, k, v), k2) == if k2 == k {
                Some(v)
            } else {
                obj_get(m, k2)
            },
{
    assert forall|k2: Seq<char>|
        #[trigger] obj_get(obj_set(m, k, v), k2) == if k2 == k {
            Some(v)
        } else {
            obj_get(m, k2)
        } by {
        lemma_obj_get_set(m, k, v, k2);
    }
}

/// Reading any member after setting an optional string member.
pub proof fn lemma_set_opt_str_all(m: Seq<(Seq<char>, JValue)>, k: Seq<char>, o: Option<Seq<char>>)
    ensures
        forall|k2: Seq<char>|
            #[trigger] obj_get(set_opt_str(m, k, o), k2) == if k2 == k && o is Some {
                Some(JValue::Str(o.unwrap()))
            } else {
                obj_get(m, k2)
            },
{
    if let Some(s) = o {
        lemma_obj_set_all(m, k, JValue::Str(s));
    }
}

/// Reading any member after setting an optional object member.
pub proof fn lemma_set_opt_object_all(
    m: Seq<(Seq<char>, JValue)>,
    k: Seq<char>,
    o: Option<Seq<(Seq<char>, JValue)>>,
)
    ensures
        forall|k2: Seq<char>|
            #[trigger] obj_get(set_opt_object(m, k, o), k2) == if k2 == k && o is Some {
                Some(JValue::Object(o.unwrap()))
            } else {
                obj_get(m, k2)
            },
{
    if let Some(x) = o {
        lemma_obj_set_all(m, k, JValue::Object(x));
    }
}

/// Dropping the members named `k` leaves the other names' values alone.
proof fn lemma_obj_get_filter(m: Seq<(Seq<char>, JValue)>, k: Seq<char>, k2: Seq<char>)
    requires
        k2 != k,
    ensures
        obj_get(m.filter(named_otherwise(k)), k2) == obj_get(m, k2),
    decreases m.len(),
{
    let f = named_otherwise(k);
    reveal_with_fuel(Seq::filter, 1);
    if m.len() > 0 {
        let d = m.drop_last();
        let x = m.last();
        lemma_obj_get_filter(d, k, k2);
        assert(m =~= d.push(x));
        lemma_obj_get_push(d, x, k2);
        if f(x) {
            lemma_obj_get_push(d.filter(f), x, k2);
        }
    }
}

/// The views of an object's members, one by one.
pub proof fn lemma_members_view(m: Seq<(String, JsonValue)>)
    ensures
        members_view(m).len() == m.len(),
        forall|i: int|
            0 <= i < m.len() ==> #[trigger] members_view(m)[i] == (m[i].0@, json_view(m[i].1)),
    decreases m.len(),
{
    if m.len() > 0 {
        lemma_members_view(m.drop_last());
        assert forall|i: int| 0 <= i < m.len() implies #[trigger] members_view(m)[i] == (
            m[i].0@,
            json_view(m[i].1),
        ) by {
            if i < m.len() - 1 {
                assert(m[i] == m.drop_last()[i]);
            }
        }
    }
}

/// The views of an array's items, one by one.
pub proof fn lemma_json_view_seq(s: Seq<JsonValue>)
    ensures
        json_view_seq(s).len() == s.len(),
        forall|i: int| 0 <= i < s.len() ==> #[trigger] json_view_seq(s)[i] == json_view(s[i]),
    decreases s.len(),
{
    if s.len() > 0 {
        lemma_json_view_seq(s.drop_last());
        assert forall|i: int| 0 <= i < s.len() implies #[trigger] json_view_seq(s)[i] == json_view(
            s[i],
        ) by {
            if i < s.len() - 1 {
                assert(s[i] == s.drop_last()[i]);
            }
        }
    }
}

impl JsonObject {
    /// An object with no members.
    pub fn new() -> (r: Self)
        ensures
            r@ == Seq::<(Seq<char>, JValue)>::empty(),
    {
        let r = JsonObject { members: Vec::new() };
        assert(r@ =~= Seq::<(Seq<char>, JValue)>::empty());
        r
    }

    /// The number of members.
    pub fn len(&self) -> (n: usize)
        ensures
            n == self@.len(),
    {
        proof {
            lemma_members_view(self.members@);
        }
        self.members.len()
    }

    /// Whether the object has no members.
    pub fn is_empty(&self) -> (b: bool)
        ensures
            b == (self@.len() == 0),
    {
        self.len() == 0
    }

    /// The value of the member named `key`.
    pub fn get(&self, key: &str) -> (r: Option<&JsonValue>)
        ensures
            match r {
                Some(v) => obj_get(self@, key@) == Some(v@),
                None => obj_get(self@, key@) is None,
            },
    {
        proof {
            lemma_members_view(self.members@);
            lemma_obj_index(self@, key@);
        }
        let mut i = self.members.len();
        while i > 0
            invariant
                0 <= i <= self.members@.len(),
                members_view(self.members@).len() == self.members@.len(),
                forall|j: int|
                    0 <= j < self.members@.len() ==> #[trigger] members_view(self.members@)[j] == (
                        self.members@[j].0@,
                        json_view(self.members@[j].1),
                    ),
                forall|j: int| i <= j < self.members@.len() ==> #[trigger] self@[j].0 != key@,
                -1 <= obj_index(self@, key@) < self@.len(),
                obj_index(self@, key@) >= 0 ==> self@[obj_index(self@, key@)].0 == key@,
                forall|j: int| obj_index(self@, key@) < j < self@.len() ==> #[trigger] self@[j].0 != key@,
            decreases i,
        {
            i -= 1;
            assert(self@[i as int] == (self.members@[i as int].0@, json_view(self.members@[i as int].1)));
            if str_eq(self.members[i].0.as_str(), key) {
                proof {
                    let oi = obj_index(self@, key@);
                    if oi > i {
                        assert(self@[oi].0 == key@);
                    }
                    if oi < i {
                        assert(self@[i as int].0 != key@);
                    }
                }
                return Some(&self.members[i].1);
            }
        }
        proof {
            let oi = obj_index(self@, key@);
            if oi >= 0 {
                assert(self@[oi].0 == key@);
            }
        }
        None
    }

    /// Whether a member is named `key`.
    pub fn contains_key(&self, key: &str) -> (b: bool)
        ensures
            b == obj_get(self@, key@) is Some,
    {
        self.get(key).is_some()
    }

    /// Drop every member named `key`.
    pub fn remove(&mut self, key: &str)
        ensures
            final(self)@ == old(self)@.filter(named_otherwise(key@)),
    {
        let ghost f = named_otherwise(key@);
        let ghost old_view = self@;
        proof {
            lemma_members_view(self.members@);
        }
        let mut kept: Vec<(String, JsonValue)> = Vec::new();
        let mut i: usize = 0;
        while i < self.members.len()
            invariant
                0 <= i <= self.members@.len(),
                old_view == members_view(self.members@),
                f == named_otherwise(key@),
                old_view.len() == self.members@.len(),
                forall|j: int|
                    0 <= j < self.members@.len() ==> #[trigger] old_view[j] == (
                        self.members@[j].0@,
                        json_view(self.members@[j].1),
                    ),
                members_view(kept@) == old_view.take(i as int).filter(f),
            decreases self.members@.len() - i,
        {
            let ghost kept_before = kept@;
            proof {
                reveal_with_fuel(Seq::filter, 1);
                assert(old_view.take(i + 1).drop_last() =~= old_view.take(i as int));
            }
            let ghost e = old_view[i as int];
            assert(e == (self.members@[i as int].0@, json_view(self.members@[i as int].1)));
            if !str_eq(self.members[i].0.as_str(), key) {
                let k = self.members[i].0.clone();
                let v = copy_value(&self.members[i].1);
                kept.push((k, v));
                proof {
                    assert(kept@.drop_last() =~= kept_before);
                    assert(members_view(kept@) == members_view(kept@.drop_last()).push(
                        (kept@.last().0@, json_view(kept@.last().1)),
                    ));
                    assert(old_view.take(i + 1).filter(f) == old_view.take(i as int).filter(f).push(e));
                }
            } else {
                proof {
                    assert(old_view.take(i + 1).filter(f) == old_view.take(i as int).filter(f));
                }
            }
            i += 1;
        }
        assert(old_view.take(i as int) =~= old_view);
        self.members = kept;
        assert(old_view == old(self)@);
    }

    /// Set the member `key` to `value`, dropping any other member of that name.
    pub fn insert(&mut self, key: String, value: JsonValue)
        ensures
            final(self)@ == obj_set(old(self)@, key@, value@),
    {
        let ghost f = named_otherwise(key@);
        let ghost old_view = self@;
        proof {
            lemma_members_view(self.members@);
        }
        let mut kept: Vec<(String, JsonValue)> = Vec::new();
        let mut i: usize = 0;
        while i < self.members.len()
            invariant
                0 <= i <= self.members@.len(),
                old_view == members_view(self.members@),
                f == named_otherwise(key@),
                old_view.len() == self.members@.len(),
                forall|j: int|
                    0 <= j < self.members@.len() ==> #[trigger] old_view[j] == (
                        self.members@[j].0@,
                        json_view(self.members@[j].1),
                    ),
                members_view(kept@) == old_view.take(i as int).filter(f),
            decreases self.members@.len() - i,
        {
            let ghost kept_before = kept@;
            proof {
                reveal_with_fuel(Seq::filter, 1);
                assert(old_view.take(i + 1).drop_last() =~= old_view.take(i as int));
            }
            let ghost e = old_view[i as int];
            assert(e == (self.members@[i as int].0@, json_view(self.members@[i as int].1)));
            if !str_eq(self.members[i].0.as_str(), key.as_str()) {
                let k = self.members[i].0.clone();
                let v = copy_value(&self.members[i].1);
                kept.push((k, v));
                proof {
                    assert(kept@.drop_last() =~= kept@.take(kept@.len() - 1));
                    assert(members_view(kept@) == members_view(kept@.drop_last()).push(
                        (kept@.last().0@, json_view(kept@.last().1)),
                    ));
                    assert(kept@.drop_last() =~= kept_before);
                    assert(f(e));
                    assert(old_view.take(i + 1).filter(f) == old_view.take(i as int).filter(f).push(e));
                }
            } else {
                proof {
                    assert(!f(e));
                    assert(old_view.take(i + 1).filter(f) == old_view.take(i as int).filter(f));
                }
            }
            i += 1;
        }
        assert(old_view.take(i as int) =~= old_view);
        let ghost kv = key@;
        let ghost vv = value@;
        let ghost pre = kept@;
        kept.push((key, value));
        proof {
            assert(kept@.drop_last() =~= pre);
            assert(members_view(kept@) == members_view(kept@.drop_last()).push((kv, vv)));
            assert(members_view(kept@) == old_view.filter(f).push((kv, vv)));
        }
        self.members = kept;
        assert(old_view == old(self)@);
    }
}

impl JsonValue {
    /// Whether this is `null`.
    pub fn is_null(&self) -> (b: bool)
        ensures
            b == (self@ is Null),
    {
        match self {
            JsonValue::Null => true,
            _ => false,
        }
    }

    /// The object, when this is one.
    pub fn as_object(&self) -> (r: Option<&JsonObject>)
        ensures
            match r {
                Some(o) => self@ == JValue::Object(o@),
                None => !(self@ is Object),
            },
    {
        match self {
            JsonValue::Object(o) => Some(o),
            _ => None,
        }
    }

    /// The string, when this is one.
    pub fn as_str(&self) -> (r: Option<&str>)
        ensures
            match r {
                Some(s) => self@ == JValue::Str(s@),
                None => !(self@ is Str),
            },
    {
        match self {
            JsonValue::String(s) => Some(s.as_str()),
            _ => None,
        }
    }

    /// The items, when this is an array.
    pub fn as_array(&self) -> (r: Option<&Vec<JsonValue>>)
        ensures
            match r {
                Some(items) => self@ == JValue::Array(json_view_seq(items@)),
                None => !(self@ is Array),
            },
    {
        match self {
            JsonValue::Array(items) => Some(items),
            _ => None,
        }
    }
}

/// The view of an optional string.
pub open spec fn opt_text(o: Option<String>) -> Option<Seq<char>> {
    match o {
        Some(s) => Some(s@),
        None => None,
    }
}

/// The view of an optional object.
pub open spec fn opt_members(o: Option<JsonObject>) -> Option<Seq<(Seq<char>, JValue)>> {
    match o {
        Some(x) => Some(x@),
        None => None,
    }
}

/// The member `k` unless it is absent or `null`.
pub open spec fn member_present(m: Seq<(Seq<char>, JValue)>, k: Seq<char>) -> Option<JValue> {
    match obj_get(m, k) {
        Some(JValue::Null) => None,
        o => o,
    }
}

/// An optional string member: `Some(None)` when absent or `null`, the
/// string when it is one, `None` (malformed) otherwise.
pub open spec fn str_member(m: Seq<(Seq<char>, JValue)>, k: Seq<char>) -> Option<Option<Seq<char>>> {
    match member_present(m, k) {
        None => Some(None),
        Some(JValue::Str(s)) => Some(Some(s)),
        Some(_) => None,
    }
}

/// An optional object member: `Some(None)` when absent or `null`, the
/// members when it is an object, `None` (malformed) otherwise.
pub open spec fn object_member(m: Seq<(Seq<char>, JValue)>, k: Seq<char>) -> Option<
    Option<Seq<(Seq<char>, JValue)>>,
> {
    match member_present(m, k) {
        None => Some(None),
        Some(JValue::Object(o)) => Some(Some(o)),
        Some(_) => None,
    }
}

/// `m` with the string member `k` when there is one to write.
pub open spec fn set_opt_str(m: Seq<(Seq<char>, JValue)>, k: Seq<char>, o: Option<Seq<char>>) -> Seq<
    (Seq<char>, JValue),
> {
    match o {
        Some(s) => obj_set(m, k, JValue::Str(s)),
        None => m,
    }
}

/// `m` with the object member `k` when there is one to write.
pub open spec fn set_opt_object(
    m: Seq<(Seq<char>, JValue)>,
    k: Seq<char>,
    o: Option<Seq<(Seq<char>, JValue)>>,
) -> Seq<(Seq<char>, JValue)> {
    match o {
        Some(x) => obj_set(m, k, JValue::Object(x)),
        None => m,
    }
}

/// The index of the member named `key`, the last one should it repeat.
pub fn member_index(o: &JsonObject, key: &str) -> (r: Option<usize>)
    ensures
        match r {
            Some(i) => i < o.members@.len() && obj_index(o@, key@) == i && o@[i as int] == (
                o.members@[i as int].0@,
                json_view(o.members@[i as int].1),
            ),
            None => obj_index(o@, key@) == -1,
        },
{
    proof {
        lemma_members_view(o.members@);
        lemma_obj_index(o@, key@);
    }
    let mut i = o.members.len();
    while i > 0
        invariant
            0 <= i <= o.members@.len(),
            o@.len() == o.members@.len(),
            forall|j: int|
                0 <= j < o.members@.len() ==> #[trigger] o@[j] == (
                    o.members@[j].0@,
                    json_view(o.members@[j].1),
                ),
            forall|j: int| i <= j < o.members@.len() ==> #[trigger] o@[j].0 != key@,
            -1 <= obj_index(o@, key@) < o@.len(),
            obj_index(o@, key@) >= 0 ==> o@[obj_index(o@, key@)].0 == key@,
            forall|j: int| obj_index(o@, key@) < j < o@.len() ==> #[trigger] o@[j].0 != key@,
        decreases i,
    {
        i -= 1;
        assert(o@[i as int] == (o.members@[i as int].0@, json_view(o.members@[i as int].1)));
        if str_eq(o.members[i].0.as_str(), key) {
            proof {
                let oi = obj_index(o@, key@);
                if oi > i {
                    assert(o@[oi].0 == key@);
                }
                if oi < i {
                    assert(o@[i as int].0 != key@);
                }
            }
            return Some(i);
        }
    }
    proof {
        let oi = obj_index(o@, key@);
        if oi >= 0 {
            assert(o@[oi].0 == key@);
        }
    }
    None
}

/// Reads an optional string member; a member that is neither absent,
/// `null` nor a string is a shape error.
pub fn read_str_member(o: &JsonObject, key: &str) -> (r: Result<Option<String>>)
    ensures
        match r {
            Ok(x) => str_member(o@, key@) == Some(opt_text(x)),
            Err(e) => str_member(o@, key@) is None && e is Json,
        },
{
    match o.get(key) {
        None => Ok(None),
        Some(JsonValue::Null) => Ok(None),
        Some(JsonValue::String(s)) => Ok(Some(s.clone())),
        Some(_) => Err(shape_error("expected a string")),
    }
}

/// Reads an optional object member; a member that is neither absent,
/// `null` nor an object is a shape error.
pub fn read_object_member(o: &JsonObject, key: &str) -> (r: Result<Option<JsonObject>>)
    ensures
        match r {
            Ok(x) => object_member(o@, key@) == Some(opt_members(x)),
            Err(e) => object_member(o@, key@) is None && e is Json,
        },
{
    match o.get(key) {
        None => Ok(None),
        Some(JsonValue::Null) => Ok(None),
        Some(JsonValue::Object(m)) => Ok(Some(copy_object(m))),
        Some(_) => Err(shape_error("expected an object")),
    }
}

/// Writes an optional string member.
pub fn write_opt_str(o: &mut JsonObject, key: &str, v: &Option<String>)
    ensures
        final(o)@ == set_opt_str(old(o)@, key@, opt_text(*v)),
{
    if let Some(s) = v {
        o.insert(owned(key), JsonValue::String(s.clone()));
    }
}

/// Writes an optional object member.
pub fn write_opt_object(o: &mut JsonObject, key: &str, v: &Option<JsonObject>)
    ensures
        final(o)@ == set_opt_object(old(o)@, key@, opt_members(*v)),
{
    if let Some(x) = v {
        o.insert(owned(key), JsonValue::Object(copy_object(x)));
    }
}

/// The value tree of `serde_json`, which JSON text is first parsed into.
#[verifier::external_type_specification]
#[verifier::external_body]
pub struct ExSerdeValue(serde_json::Value);

/// What `serde_json` parses JSON text into, as a value of this library:
/// `None` when it does not parse (text that is not JSON, or JSON beyond
/// `serde_json`'s limits, such as nesting deeper than 128 levels). It
/// depends on the text alone.
pub uninterp spec fn json_text_value(s: Seq<char>) -> Option<JValue>;

/// What `serde_json` parses JSON bytes into, as a value of this library:
/// `None` when they do not parse (bytes that are not JSON text, or JSON
/// beyond `serde_json`'s limits, such as nesting deeper than 128 levels).
/// It depends on the bytes alone.
pub uninterp spec fn json_bytes_value(b: Seq<u8>) -> Option<JValue>;

/// `serde_json`'s value tree as a value of this library, node for node:
/// numbers keep their JSON text, object members their (ascending) order.
/// Only the parsing wrappers below use it; what they return is stated over
/// [`json_text_value`] and [`json_bytes_value`].
#[verifier::external_body]
fn value_from_serde(v: serde_json::Value) -> JsonValue {
    match v {
        serde_json::Value::Null => JsonValue::Null,
        serde_json::Value::Bool(b) => JsonValue::Bool(b),
        serde_json::Value::Number(n) => JsonValue::Number(JsonNumber { text: n.to_string() }),
        serde_json::Value::String(s) => JsonValue::String(s),
        serde_json::Value::Array(a) => JsonValue::Array(a.into_iter().map(value_from_serde).collect()),
        serde_json::Value::Object(m) => JsonValue::Object(JsonObject {
            members: m.into_iter().map(|(k, x)| (k, value_from_serde(x))).collect(),
        }),
    }
}

/// `serde_json::from_str::<serde_json::Value>`: the value the text parses
/// to, or `serde_json`'s syntax error as [`Error::Json`].
#[verifier::external_body]
pub(crate) fn parse_json_text(s: &str) -> (r: Result<JsonValue>)
    ensures
        match r {
            Ok(v) => json_text_value(s@) == Some(v@),
            Err(e) => json_text_value(s@) is None && e is Json,
        },
{
    match serde_json::from_str::<serde_json::Value>(s) {
        Ok(v) => Ok(value_from_serde(v)),
        Err(e) => Err(Error::Json(e)),
    }
}

/// `serde_json::from_slice::<serde_json::Value>`: the value the bytes
/// parse to, or `serde_json`'s error as [`Error::Json`].
#[verifier::external_body]
pub(crate) fn parse_json_bytes(b: &[u8]) -> (r: Result<JsonValue>)
    ensures
        match r {
            Ok(v) => json_bytes_value(b@) == Some(v@),
            Err(e) => json_bytes_value(b@) is None && e is Json,
        },
{
    match serde_json::from_slice::<serde_json::Value>(b) {
        Ok(v) => Ok(value_from_serde(v)),
        Err(e) => Err(Error::Json(e)),
    }
}

} // verus!
