//! A JSON document model for request and response bodies.

use vstd::prelude::*;

verus! {

/// A JSON number as read from a document.
#[derive(Debug)]
pub enum JsonNumber {
    /// A non-negative integer.
    PosInt(u64),
    /// A negative integer.
    NegInt(i64),
    /// Any other number, kept in its decimal text form.
    Float(String),
}

/// A JSON value.
#[derive(Debug)]
pub enum Json {
    Null,
    Bool(bool),
    Number(JsonNumber),
    Text(String),
    List(Vec<Json>),
    /// Members of an object, in document order.
    Object(Vec<(String, Json)>),
}

/// The mathematical model of a JSON number.
pub enum NumberValue {
    PosInt(u64),
    NegInt(i64),
    Float(Seq<char>),
}

/// The mathematical model of a JSON value.
pub enum JsonValue {
    Null,
    Bool(bool),
    Number(NumberValue),
    Text(Seq<char>),
    List(Seq<JsonValue>),
    Object(Seq<(Seq<char>, JsonValue)>),
}

impl View for JsonNumber {
    type V = NumberValue;

    open spec fn view(&self) -> NumberValue {
        match self {
            JsonNumber::PosInt(n) => NumberValue::PosInt(*n),
            JsonNumber::NegInt(n) => NumberValue::NegInt(*n),
            JsonNumber::Float(s) => NumberValue::Float(s@),
        }
    }
}

pub open spec fn view_list(s: Seq<Json>) -> Seq<JsonValue>
    decreases s,
{
    if s.len() == 0 {
        Seq::empty()
    } else {
        view_list(s.drop_last()).push(view_json(s.last()))
    }
}

pub open spec fn view_members(s: Seq<(String, Json)>) -> Seq<(Seq<char>, JsonValue)>
    decreases s,
{
    if s.len() == 0 {
        Seq::empty()
    } else {
        view_members(s.drop_last()).push((s.last().0@, view_json(s.last().1)))
    }
}

pub open spec fn view_json(j: Json) -> JsonValue
    decreases j,
{
    match j {
        Json::Null => JsonValue::Null,
        Json::Bool(b) => JsonValue::Bool(b),
        Json::Number(n) => JsonValue::Number(n@),
        Json::Text(s) => JsonValue::Text(s@),
        Json::List(v) => JsonValue::List(view_list(v@)),
        Json::Object(v) => JsonValue::Object(view_members(v@)),
    }
}


impl View for Json {
    type V = JsonValue;

    open spec fn view(&self) -> JsonValue {
        view_json(*self)
    }
}

/// `view_list` keeps the length and views each element.
pub broadcast proof fn lemma_view_list(s: Seq<Json>)
    ensures
        #[trigger] view_list(s).len() == s.len(),
        forall|i: int| 0 <= i < s.len() ==> #[trigger] view_list(s)[i] == view_json(s[i]),
    decreases s.len(),
{
    if s.len() > 0 {
        lemma_view_list(s.drop_last());
    }
}

/// `view_members` keeps the length and views each member.
pub broadcast proof fn lemma_view_members(s: Seq<(String, Json)>)
    ensures
        #[trigger] view_members(s).len() == s.len(),
        forall|i: int|
            0 <= i < s.len() ==> #[trigger] view_members(s)[i] == (s[i].0@, view_json(s[i].1)),
    decreases s.len(),
{
    if s.len() > 0 {
        lemma_view_members(s.drop_last());
    }
}

pub broadcast group group_json_view {
    lemma_view_list,
    lemma_view_members,
}

/// Some member of `m` is named `key`.
pub open spec fn has_member(m: Seq<(Seq<char>, JsonValue)>, key: Seq<char>) -> bool {
    exists|i: int| 0 <= i < m.len() && m[i].0 == key
}

/// `i` is the first position of a member named `key`.
pub open spec fn is_first_member(m: Seq<(Seq<char>, JsonValue)>, key: Seq<char>, i: int) -> bool {
    0 <= i < m.len() && m[i].0 == key && forall|j: int| 0 <= j < i ==> m[j].0 != key
}

/// The first position of a member named `key`.
pub open spec fn first_member(m: Seq<(Seq<char>, JsonValue)>, key: Seq<char>) -> int {
    choose|i: int| is_first_member(m, key, i)
}

/// The value of the first member named `key`, if any.
pub open spec fn member_get(m: Seq<(Seq<char>, JsonValue)>, key: Seq<char>) -> Option<JsonValue> {
    if has_member(m, key) {
        Some(m[first_member(m, key)].1)
    } else {
        None
    }
}

/// Setting a member: the first member named `key` gets `val`, or a new member is appended.
pub open spec fn member_set(m: Seq<(Seq<char>, JsonValue)>, key: Seq<char>, val: JsonValue) -> Seq<
    (Seq<char>, JsonValue),
> {
    if has_member(m, key) {
        m.update(first_member(m, key), (key, val))
    } else {
        m.push((key, val))
    }
}

/// The members of `m` not named `key`, in order.
pub open spec fn member_remove(m: Seq<(Seq<char>, JsonValue)>, key: Seq<char>) -> Seq<
    (Seq<char>, JsonValue),
>
    decreases m.len(),
{
    if m.len() == 0 {
        m
    } else if m.last().0 == key {
        member_remove(m.drop_last(), key)
    } else {
        member_remove(m.drop_last(), key).push(m.last())
    }
}

/// The first position is the one that satisfies the defining property.
pub proof fn lemma_first_member(m: Seq<(Seq<char>, JsonValue)>, key: Seq<char>, i: int)
    requires
        is_first_member(m, key, i),
    ensures
        first_member(m, key) == i,
        has_member(m, key),
{
    let k = first_member(m, key);
    assert(is_first_member(m, key, k));
    if k < i {
        assert(m[k].0 != key);
    } else if k > i {
        assert(m[i].0 != key);
    }
}

/// A named member has a first position.
pub proof fn lemma_first_exists(m: Seq<(Seq<char>, JsonValue)>, key: Seq<char>)
    requires
        has_member(m, key),
    ensures
        is_first_member(m, key, first_member(m, key)),
{
    crate::keyed::lemma_exists_first_key(m, key);
    let j = choose|j: int| crate::keyed::is_first_key(m, key, j);
    assert(is_first_member(m, key, j));
    lemma_first_member(m, key, j);
}

/// The member read from `s` with one more member `x` appended.
pub proof fn lemma_member_get_push(s: Seq<(Seq<char>, JsonValue)>, x: (Seq<char>, JsonValue), key: Seq<char>)
    ensures
        member_get(s.push(x), key) == if has_member(s, key) {
            member_get(s, key)
        } else if x.0 == key {
            Some(x.1)
        } else {
            None
        },
{
    let t = s.push(x);
    if has_member(s, key) {
        lemma_first_exists(s, key);
        let i = first_member(s, key);
        assert(is_first_member(t, key, i));
        lemma_first_member(t, key, i);
    } else if x.0 == key {
        assert forall|j: int| 0 <= j < s.len() implies t[j].0 != key by {
            assert(t[j] == s[j]);
        }
        assert(is_first_member(t, key, s.len() as int));
        lemma_first_member(t, key, s.len() as int);
    } else {
        assert forall|j: int| 0 <= j < t.len() implies t[j].0 != key by {
            if j < s.len() {
                assert(t[j] == s[j]);
            }
        }
    }
}

/// Reading a member right after setting it gives the value set, and every
/// other member reads as before.
pub proof fn lemma_member_get_after_set(
    m: Seq<(Seq<char>, JsonValue)>,
    key: Seq<char>,
    val: JsonValue,
    other: Seq<char>,
)
    ensures
        member_get(member_set(m, key, val), key) == Some(val),
        other != key ==> member_get(member_set(m, key, val), other) == member_get(m, other),
{
    if has_member(m, key) {
        lemma_first_exists(m, key);
        let i = first_member(m, key);
        let t = m.update(i, (key, val));
        assert(is_first_member(t, key, i));
        lemma_first_member(t, key, i);
        if other != key {
            if has_member(m, other) {
                lemma_first_exists(m, other);
                let j = first_member(m, other);
                assert(is_first_member(t, other, j));
                lemma_first_member(t, other, j);
            } else {
                assert forall|x: int| 0 <= x < t.len() implies t[x].0 != other by {
                    if x != i {
                        assert(t[x] == m[x]);
                    }
                }
            }
        }
    } else {
        lemma_member_get_push(m, (key, val), key);
        lemma_member_get_push(m, (key, val), other);
    }
}

/// After removing `key`, no member named `key` is left, and every other
/// member reads as before.
pub proof fn lemma_member_get_after_remove(m: Seq<(Seq<char>, JsonValue)>, key: Seq<char>, other: Seq<char>)
    ensures
        member_get(member_remove(m, key), key) is None,
        other != key ==> member_get(member_remove(m, key), other) == member_get(m, other),
    decreases m.len(),
{
    if m.len() > 0 {
        let p = m.drop_last();
        lemma_member_get_after_remove(p, key, other);
        assert(p.push(m.last()) =~= m);
        lemma_member_get_push(p, m.last(), other);
        if m.last().0 != key {
            lemma_member_get_push(member_remove(p, key), m.last(), key);
            lemma_member_get_push(member_remove(p, key), m.last(), other);
            if other != key {
                if !has_member(p, other) && has_member(member_remove(p, key), other) {
                    lemma_first_exists(member_remove(p, key), other);
                }
                if has_member(p, other) && !has_member(member_remove(p, key), other) {
                    lemma_first_exists(p, other);
                }
            }
        }
    }
}

impl JsonValue {
    /// The value of member `key` of an object; `None` for other values.
    pub open spec fn get(self, key: Seq<char>) -> Option<JsonValue> {
        match self {
            JsonValue::Object(m) => member_get(m, key),
            _ => None,
        }
    }

    /// The text of a string value.
    pub open spec fn as_text(self) -> Option<Seq<char>> {
        match self {
            JsonValue::Text(s) => Some(s),
            _ => None,
        }
    }

    /// The integer of a non-negative integer value.
    pub open spec fn as_u64(self) -> Option<u64> {
        match self {
            JsonValue::Number(NumberValue::PosInt(n)) => Some(n),
            _ => None,
        }
    }

    /// The elements of a list value.
    pub open spec fn as_list(self) -> Option<Seq<JsonValue>> {
        match self {
            JsonValue::List(s) => Some(s),
            _ => None,
        }
    }

    /// Member `key` read as a non-negative integer, 0 when absent or of another kind.
    pub open spec fn u64_or_zero(self, key: Seq<char>) -> u64 {
        match self.get(key) {
            Some(v) => match v.as_u64() {
                Some(n) => n,
                None => 0,
            },
            None => 0,
        }
    }

    /// Member `key` read as a string.
    pub open spec fn text_member(self, key: Seq<char>) -> Option<Seq<char>> {
        match self.get(key) {
            Some(v) => v.as_text(),
            None => None,
        }
    }
}

/// The position of the first member of `m` named `key`.
pub fn find_member(m: &Vec<(String, Json)>, key: &str) -> (r: Option<usize>)
    ensures
        match r {
            Some(i) => is_first_member(view_members(m@), key@, i as int),
            None => !has_member(view_members(m@), key@),
        },
{
    broadcast use group_json_view;

    let n = m.len();
    for i in 0..n
        invariant
            n == m@.len(),
            forall|j: int| 0 <= j < i ==> view_members(m@)[j].0 != key@,
    {
        proof {
            lemma_view_members(m@);
        }
        if crate::text::str_eq(m[i].0.as_str(), key) {
            return Some(i);
        }
    }
    None
}

impl Json {
    /// Member `key` of an object; `None` for other values.
    pub fn get(&self, key: &str) -> (r: Option<&Json>)
        ensures
            match r {
                Some(v) => self@.get(key@) == Some(v@),
                None => self@.get(key@) is None,
            },
    {
        broadcast use group_json_view;

        match self {
            Json::Object(m) => match find_member(m, key) {
                Some(i) => {
                    proof {
                        lemma_first_member(view_members(m@), key@, i as int);
                    }
                    Some(&m[i].1)
                },
                None => None,
            },
            _ => None,
        }
    }

    /// The text of a string value.
    pub fn as_str(&self) -> (r: Option<&str>)
        ensures
            match r {
                Some(s) => self@.as_text() == Some(s@),
                None => self@.as_text() is None,
            },
    {
        match self {
            Json::Text(s) => Some(s.as_str()),
            _ => None,
        }
    }

    /// The integer of a non-negative integer value.
    pub fn as_u64(&self) -> (r: Option<u64>)
        ensures
            r == self@.as_u64(),
    {
        match self {
            Json::Number(JsonNumber::PosInt(n)) => Some(*n),
            _ => None,
        }
    }

    /// The elements of a list value.
    pub fn as_list(&self) -> (r: Option<&Vec<Json>>)
        ensures
            match r {
                Some(v) => self@.as_list() == Some(view_list(v@)),
                None => self@.as_list() is None,
            },
    {
        match self {
            Json::List(v) => Some(v),
            _ => None,
        }
    }

    /// Whether this is an object.
    pub fn is_object(&self) -> (r: bool)
        ensures
            r == self@ is Object,
    {
        match self {
            Json::Object(_) => true,
            _ => false,
        }
    }

    /// A copy of this value.
    pub fn deep_clone(&self) -> (r: Json)
        ensures
            r@ == self@,
        decreases self,
    {
        match self {
            Json::Null => Json::Null,
            Json::Bool(b) => Json::Bool(*b),
            Json::Number(JsonNumber::PosInt(n)) => Json::Number(JsonNumber::PosInt(*n)),
            Json::Number(JsonNumber::NegInt(n)) => Json::Number(JsonNumber::NegInt(*n)),
            Json::Number(JsonNumber::Float(t)) => Json::Number(JsonNumber::Float(t.clone())),
            Json::Text(t) => Json::Text(t.clone()),
            Json::List(items) => {
                let n = items.len();
                let mut out: Vec<Json> = Vec::new();
                proof {
                    lemma_view_list(items@);
                }
                for i in 0..n
                    invariant
                        n == items@.len(),
                        self is List,
                        self->List_0 == *items,
                        out@.len() == i,
                        forall|j: int| 0 <= j < i ==> #[trigger] out@[j]@ == items@[j]@,
                {
                    assert(decreases_to!(*self => self->List_0));
                    assert(decreases_to!(*items => items@));
                    assert(decreases_to!(items@ => items@[i as int]));
                    let c = items[i].deep_clone();
                    out.push(c);
                }
                proof {
                    lemma_view_list(out@);
                    lemma_view_list(items@);
                    assert forall|j: int| 0 <= j < n implies view_list(out@)[j] == view_list(
                        items@,
                    )[j] by {
                        assert(out@[j]@ == items@[j]@);
                    }
                    assert(view_list(out@) =~= view_list(items@));
                }
                Json::List(out)
            },
            Json::Object(m) => {
                let n = m.len();
                let mut out: Vec<(String, Json)> = Vec::new();
                proof {
                    lemma_view_members(m@);
                }
                for i in 0..n
                    invariant
                        n == m@.len(),
                        self is Object,
                        self->Object_0 == *m,
                        out@.len() == i,
                        forall|j: int|
                            #![trigger out@[j]]
                            0 <= j < i ==> out@[j].0@ == m@[j].0@ && out@[j].1@ == m@[j].1@,
                {
                    assert(decreases_to!(*self => self->Object_0));
                    assert(decreases_to!(*m => m@));
                    assert(decreases_to!(m@ => m@[i as int]));
                    assert(decreases_to!(m@[i as int] => m@[i as int].1));
                    let c = m[i].1.deep_clone();
                    out.push((m[i].0.clone(), c));
                }
                proof {
                    lemma_view_members(out@);
                    lemma_view_members(m@);
                    assert(view_members(out@) =~= view_members(m@));
                }
                Json::Object(out)
            },
        }
    }

    /// A string value.
    pub fn text(s: &str) -> (r: Json)
        ensures
            r@ == JsonValue::Text(s@),
    {
        Json::Text(s.to_owned())
    }

    /// An object without members.
    pub fn new_object() -> (r: Json)
        ensures
            r@ == JsonValue::Object(Seq::empty()),
    {
        Json::Object(Vec::new())
    }

    /// Sets member `key` of an object to `val`: the first member named `key`
    /// is replaced, or a member is appended. Other values are left unchanged.
    pub fn set_member(&mut self, key: &str, val: Json)
        ensures
            match old(self)@ {
                JsonValue::Object(m) => final(self)@ == JsonValue::Object(member_set(m, key@, val@)),
                _ => final(self)@ == old(self)@,
            },
    {
        broadcast use group_json_view;

        match self {
            Json::Object(m) => {
                let ghost old_m = m@;
                match find_member(m, key) {
                    Some(i) => {
                        proof {
                            lemma_first_member(view_members(old_m), key@, i as int);
                        }
                        m.set(i, (key.to_owned(), val));
                        assert(view_members(m@) =~= member_set(
                            view_members(old_m),
                            key@,
                            val@,
                        ));
                    },
                    None => {
                        m.push((key.to_owned(), val));
                        assert(view_members(m@) =~= member_set(
                            view_members(old_m),
                            key@,
                            val@,
                        ));
                    },
                }
            },
            _ => {},
        }
    }

    /// Removes every member named `key` from an object; reports whether there was one.
    /// Other values are left unchanged.
    #[verifier::spinoff_prover]
    #[verifier::rlimit(40)]
    pub fn remove_member(&mut self, key: &str) -> (r: bool)
        ensures
            match old(self)@ {
                JsonValue::Object(m) => {
                    &&& final(self)@ == JsonValue::Object(member_remove(m, key@))
                    &&& r == has_member(m, key@)
                },
                _ => final(self)@ == old(self)@ && !r,
            },
    {
        broadcast use group_json_view;

        match self {
            Json::Object(m) => {
                let ghost orig = view_members(m@);
                proof {
                    lemma_view_members(m@);
                }
                let len0 = m.len();
                assert(orig.len() == len0);
                let mut i: usize = 0;
                let mut k: usize = 0;
                let mut found = false;
                while i < m.len()
                    invariant
                        i <= k <= orig.len(),
                        orig.len() <= usize::MAX,
                        m@.len() == i + (orig.len() - k),
                        view_members(m@) =~= member_remove(orig.take(k as int), key@) + orig.skip(
                            k as int,
                        ),
                        member_remove(orig.take(k as int), key@).len() == i,
                        found ==> has_member(orig, key@),
                        !found ==> forall|j: int| 0 <= j < k ==> orig[j].0 != key@,
                    decreases m@.len() - i,
                {
                    let ghost before = view_members(m@);
                    assert(orig.take(k + 1).drop_last() =~= orig.take(k as int));
                    assert(before[i as int] == orig[k as int]);
                    proof {
                        lemma_view_members(m@);
                    }
                    if crate::text::str_eq(m[i].0.as_str(), key) {
                        let ghost mm = m@;
                        let _removed = m.remove(i);
                        proof {
                            lemma_view_members(m@);
                        }
                        assert(m@ =~= mm.remove(i as int));
                        found = true;
                        assert(orig[k as int].0 == key@);
                        assert(view_members(m@) =~= before.remove(i as int));
                    } else {
                        i = i + 1;
                    }
                    k = k + 1;
                }
                assert(orig.take(k as int) =~= orig);
                found
            },
            _ => false,
        }
    }
}

} // verus!
