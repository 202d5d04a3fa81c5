use vstd::prelude::*;

use crate::text::{compare_text_sign, lemma_sorted_insert, lemma_text_sign, text_sign, texts_sorted};

verus! {

/// A JSON document: the values that schemas and instances are made of.
///
/// A number is held by its text, as it stands in the document.
#[derive(Debug, PartialEq)]
pub enum JsonValue {
    Null,
    Bool(bool),
    Number(String),
    String(String),
    Array(Vec<JsonValue>),
    Object(JsonObject),
}

/// The members of a JSON object, each name at most once, kept in the order of
/// their names, so that objects with the same members are stored alike.
#[derive(Debug, PartialEq)]
pub struct JsonObject {
    entries: Vec<(String, JsonValue)>,
}

/// The mathematical value of a [`JsonValue`]: an object is a map from member
/// names to member values.
pub enum JsonModel {
    Null,
    Bool(bool),
    Number(Seq<char>),
    String(Seq<char>),
    Array(Seq<JsonModel>),
    Object(Map<Seq<char>, JsonModel>),
}

/// No name occurs twice among the members.
pub open spec fn members_unique(s: Seq<(String, JsonValue)>) -> bool {
    forall|i: int, j: int|
        #![trigger s[i], s[j]]
        0 <= i < s.len() && 0 <= j < s.len() && i != j ==> s[i].0@ != s[j].0@
}

/// The names of the members, in order.
pub open spec fn member_names(s: Seq<(String, JsonValue)>) -> Seq<Seq<char>> {
    Seq::new(s.len(), |i: int| s[i].0@)
}

impl JsonValue {
    /// The mathematical value of this JSON value.
    pub open spec fn model(self) -> JsonModel
        decreases self,
    {
        match self {
            JsonValue::Null => JsonModel::Null,
            JsonValue::Bool(b) => JsonModel::Bool(b),
            JsonValue::Number(n) => JsonModel::Number(n@),
            JsonValue::String(s) => JsonModel::String(s@),
            JsonValue::Array(items) => JsonModel::Array(
                Seq::new(
                    items@.len(),
                    |i: int|
                        if 0 <= i < items@.len() {
                            items@[i].model()
                        } else {
                            JsonModel::Null
                        },
                ),
            ),
            JsonValue::Object(o) => JsonModel::Object(o.members()),
        }
    }

    /// The map that a list of members stands for; a later member with the
    /// same name as an earlier one replaces it.
    pub open spec fn members_model(s: Seq<(String, JsonValue)>) -> Map<Seq<char>, JsonModel>
        decreases s,
    {
        if s.len() == 0 {
            Map::empty()
        } else {
            JsonValue::members_model(s.drop_last()).insert(s.last().0@, s.last().1.model())
        }
    }

    /// A copy of this value with the same mathematical value.
    pub fn duplicate(&self) -> (r: JsonValue)
        ensures
            r@ == self@,
        decreases self,
    {
        match self {
            JsonValue::Null => JsonValue::Null,
            JsonValue::Bool(b) => JsonValue::Bool(*b),
            JsonValue::Number(n) => JsonValue::Number(n.clone()),
            JsonValue::String(s) => JsonValue::String(s.clone()),
            JsonValue::Array(items) => {
                let mut out: Vec<JsonValue> = Vec::new();
                let n = items.len();
                for i in 0..n
                    invariant
                        n == items@.len(),
                        *self == JsonValue::Array(*items),
                        out@.len() == i,
                        forall|j: int| 0 <= j < i ==> (#[trigger] out@[j])@ == items@[j]@,
                {
                    let item = &items[i];
                    proof {
                        assert(decreases_to!(*items => items@[i as int]));
                        assert(decreases_to!(*self => self->Array_0));
                        assert(decreases_to!(*self => *item));
                    }
                    out.push(item.duplicate());
                }
                let r = JsonValue::Array(out);
                assert(r@ == self@) by {
                    if let (JsonModel::Array(a), JsonModel::Array(b)) = (r@, self@) {
                        assert(a =~= b);
                    }
                }
                r
            },
            JsonValue::Object(o) => JsonValue::Object(o.duplicate()),
        }
    }
}

impl Clone for JsonValue {
    /// A copy with the same mathematical value.
    fn clone(&self) -> (r: Self)
        ensures
            r@ == self@,
    {
        self.duplicate()
    }
}

impl Clone for JsonObject {
    /// A copy with the same members.
    fn clone(&self) -> (r: Self)
        ensures
            r.members() == self.members(),
    {
        self.duplicate()
    }
}

impl View for JsonValue {
    type V = JsonModel;

    open spec fn view(&self) -> JsonModel {
        self.model()
    }
}

impl JsonObject {
    #[verifier::type_invariant]
    spec fn names_unique(self) -> bool {
        &&& members_unique(self.entries@)
        &&& texts_sorted(member_names(self.entries@))
    }

    /// The members as a map from names to values.
    pub closed spec fn members(self) -> Map<Seq<char>, JsonModel>
        decreases self,
    {
        JsonValue::members_model(self.entries@)
    }

    /// An object has finitely many members.
    pub proof fn lemma_members_finite(self)
        ensures
            self.members().dom().finite(),
    {
        lemma_members_model(self.entries@);
    }

    /// An object without members.
    pub fn new() -> (r: JsonObject)
        ensures
            r.members() == Map::<Seq<char>, JsonModel>::empty(),
    {
        let r = JsonObject { entries: Vec::new() };
        assert(r.members() =~= Map::<Seq<char>, JsonModel>::empty());
        r
    }

    /// The number of members.
    pub fn len(&self) -> (n: usize)
        ensures
            n == self.members().dom().len(),
    {
        proof {
            use_type_invariant(self);
            lemma_members_model(self.entries@);
        }
        self.entries.len()
    }

    /// Whether the object has no member.
    pub fn is_empty(&self) -> (b: bool)
        ensures
            b == (self.members().dom().len() == 0),
    {
        self.len() == 0
    }

    /// The position of the member named `name`, if there is one.
    fn position(&self, name: &String) -> (p: Option<usize>)
        ensures
            match p {
                Some(i) => i < self.entries@.len() && self.entries@[i as int].0@ == name@,
                None => forall|j: int|
                    0 <= j < self.entries@.len() ==> #[trigger] self.entries@[j].0@ != name@,
            },
    {
        let n = self.entries.len();
        for i in 0..n
            invariant
                n == self.entries@.len(),
                forall|j: int| 0 <= j < i ==> #[trigger] self.entries@[j].0@ != name@,
        {
            if self.entries[i].0 == *name {
                return Some(i);
            }
        }
        None
    }

    /// Whether a member is named `name`.
    pub fn contains_key(&self, name: &String) -> (b: bool)
        ensures
            b == self.members().dom().contains(name@),
    {
        proof {
            use_type_invariant(self);
            lemma_members_model(self.entries@);
        }
        let p = self.position(name);
        proof {
            if p is None {
                assert(!member_names(self.entries@).contains(name@));
            } else {
                assert(member_names(self.entries@)[p.unwrap() as int] == name@);
            }
        }
        p.is_some()
    }

    /// Sets the member `name` to `value`: a member of that name takes the new
    /// value, else the member is added in the order of names.
    pub fn insert(&mut self, name: String, value: JsonValue)
        ensures
            final(self).members() == old(self).members().insert(name@, value@),
    {
        proof {
            use_type_invariant(&*self);
            lemma_members_model(self.entries@);
        }
        let ghost old_entries = self.entries@;
        let found = self.position(&name);
        let place = match found {
            Some(i) => i,
            None => self.insertion_point(&name),
        };
        let mut entries: Vec<(String, JsonValue)> = Vec::new();
        std::mem::swap(&mut entries, &mut self.entries);
        match found {
            Some(i) => {
                proof {
                    lemma_members_replace(old_entries, i as int, name, value);
                    assert(member_names(old_entries.update(i as int, (name, value)))
                        =~= member_names(old_entries));
                }
                entries.set(i, (name, value));
            },
            None => {
                proof {
                    lemma_members_insert_at(old_entries, place as int, name, value);
                    lemma_sorted_insert(member_names(old_entries), place as int, name@);
                }
                entries.insert(place, (name, value));
            },
        }
        self.entries = entries;
    }

    /// Where a member named `name`, of which there is none, goes to keep the
    /// names in order: after every smaller name, before every larger one.
    fn insertion_point(&self, name: &String) -> (p: usize)
        requires
            forall|j: int| 0 <= j < self.entries@.len() ==> #[trigger] self.entries@[j].0@ != name@,
        ensures
            p <= self.entries@.len(),
            forall|j: int| 0 <= j < p ==> text_sign(#[trigger] member_names(self.entries@)[j], name@) == -1,
            p < self.entries@.len() ==> text_sign(member_names(self.entries@)[p as int], name@) == 1,
    {
        let n = self.entries.len();
        for i in 0..n
            invariant
                n == self.entries@.len(),
                forall|j: int| 0 <= j < self.entries@.len() ==> #[trigger] self.entries@[j].0@ != name@,
                forall|j: int| 0 <= j < i ==> text_sign(#[trigger] member_names(self.entries@)[j], name@) == -1,
        {
            let sign = compare_text_sign(&self.entries[i].0, name);
            proof {
                lemma_text_sign(self.entries@[i as int].0@, name@);
                assert(member_names(self.entries@)[i as int] == self.entries@[i as int].0@);
            }
            if sign == 1 {
                return i;
            }
        }
        n
    }

    /// A copy of this object with the same members in the same order.
    pub fn duplicate(&self) -> (r: JsonObject)
        ensures
            r.members() == self.members(),
        decreases self,
    {
        proof {
            use_type_invariant(self);
        }
        let mut out: Vec<(String, JsonValue)> = Vec::new();
        let n = self.entries.len();
        for i in 0..n
            invariant
                n == self.entries@.len(),
                members_unique(self.entries@),
                out@.len() == i,
                forall|j: int|
                    0 <= j < i ==> (#[trigger] out@[j]).0@ == self.entries@[j].0@ && out@[j].1@
                        == self.entries@[j].1@,
        {
            let name = self.entries[i].0.clone();
            let value = self.entries[i].1.duplicate();
            out.push((name, value));
        }
        proof {
            lemma_members_same(out@, self.entries@);
            assert(member_names(out@) =~= member_names(self.entries@));
        }
        JsonObject { entries: out }
    }
}

/// The map of a member list has the names of the list as its keys; with no
/// name twice, each key maps to the value of its member, and there are as
/// many keys as members.
pub proof fn lemma_members_model(s: Seq<(String, JsonValue)>)
    ensures
        JsonValue::members_model(s).dom() == member_names(s).to_set(),
        JsonValue::members_model(s).dom().finite(),
        members_unique(s) ==> member_names(s).no_duplicates(),
        members_unique(s) ==> JsonValue::members_model(s).dom().len() == s.len(),
        members_unique(s) ==> forall|i: int|
            0 <= i < s.len() ==> JsonValue::members_model(s)[#[trigger] s[i].0@] == s[i].1@,
    decreases s.len(),
{
    if s.len() > 0 {
        let t = s.drop_last();
        lemma_members_model(t);
        assert(member_names(s) =~= member_names(t).push(s.last().0@));
        assert(member_names(s).to_set() =~= member_names(t).to_set().insert(s.last().0@)) by {
            member_names(t).lemma_push_to_set_commute(s.last().0@);
        }
        if members_unique(s) {
            assert(members_unique(t));
            assert(!member_names(t).to_set().contains(s.last().0@)) by {
                if member_names(t).contains(s.last().0@) {
                    let j = member_names(t).index_of(s.last().0@);
                    assert(s[j].0@ == s[s.len() - 1].0@);
                }
            }
            assert forall|i: int| 0 <= i < s.len() implies JsonValue::members_model(s)[
                #[trigger] s[i].0@] == s[i].1@ by {
                if i < s.len() - 1 {
                    assert(t[i] == s[i]);
                }
            }
        }
    } else {
        assert(member_names(s).to_set() =~= Set::empty());
    }
}

/// Replacing the value of a member whose name is unchanged updates the map
/// at that name and keeps the names unique.
proof fn lemma_members_replace(s: Seq<(String, JsonValue)>, i: int, name: String, value: JsonValue)
    requires
        members_unique(s),
        0 <= i < s.len(),
        s[i].0@ == name@,
    ensures
        members_unique(s.update(i, (name, value))),
        JsonValue::members_model(s.update(i, (name, value))) == JsonValue::members_model(s).insert(
            name@,
            value@,
        ),
{
    let u = s.update(i, (name, value));
    assert(member_names(u) =~= member_names(s));
    assert(members_unique(u)) by {
        assert forall|a: int, b: int|
            0 <= a < u.len() && 0 <= b < u.len() && a != b implies #[trigger] u[a].0@ != #[trigger] u[b].0@ by {
            assert(member_names(u)[a] == member_names(s)[a]);
            assert(member_names(u)[b] == member_names(s)[b]);
        }
    }
    lemma_members_model(s);
    lemma_members_model(u);
    let mu = JsonValue::members_model(u);
    let ms = JsonValue::members_model(s).insert(name@, value@);
    assert(member_names(s)[i] == name@);
    assert(mu.dom() =~= ms.dom());
    assert forall|k: Seq<char>| #[trigger] mu.dom().contains(k) implies mu[k] == ms[k] by {
        let j = member_names(u).index_of(k);
        assert(u[j].0@ == k);
        if j == i {
            assert(mu[u[i].0@] == u[i].1@);
        } else {
            assert(u[j] == s[j]);
            assert(s[j].0@ != s[i].0@);
        }
    }
    assert(JsonValue::members_model(u) =~= JsonValue::members_model(s).insert(name@, value@));
}

/// Putting a member of a new name anywhere in a list with no name twice keeps
/// the names unique and adds that name to the map.
proof fn lemma_members_insert_at(s: Seq<(String, JsonValue)>, p: int, name: String, value: JsonValue)
    requires
        members_unique(s),
        0 <= p <= s.len(),
        forall|j: int| 0 <= j < s.len() ==> #[trigger] s[j].0@ != name@,
    ensures
        members_unique(s.insert(p, (name, value))),
        member_names(s.insert(p, (name, value))) == member_names(s).insert(p, name@),
        JsonValue::members_model(s.insert(p, (name, value))) == JsonValue::members_model(s).insert(
            name@,
            value@,
        ),
{
    let u = s.insert(p, (name, value));
    assert(member_names(u) =~= member_names(s).insert(p, name@));
    assert(members_unique(u)) by {
        assert forall|a: int, b: int|
            0 <= a < u.len() && 0 <= b < u.len() && a != b implies #[trigger] u[a].0@
            != #[trigger] u[b].0@ by {
            if a != p && b != p {
                let a0 = if a < p { a } else { a - 1 };
                let b0 = if b < p { b } else { b - 1 };
                assert(u[a] == s[a0] && u[b] == s[b0]);
            } else if a == p {
                let b0 = if b < p { b } else { b - 1 };
                assert(u[b] == s[b0]);
            } else {
                let a0 = if a < p { a } else { a - 1 };
                assert(u[a] == s[a0]);
            }
        }
    }
    lemma_members_model(s);
    lemma_members_model(u);
    let mu = JsonValue::members_model(u);
    let ms = JsonValue::members_model(s).insert(name@, value@);
    assert forall|k: Seq<char>| #[trigger] mu.dom().contains(k) == ms.dom().contains(k) by {
        if member_names(u).contains(k) {
            let j = member_names(u).index_of(k);
            if j != p {
                let j0 = if j < p { j } else { j - 1 };
                assert(u[j] == s[j0]);
                assert(member_names(s)[j0] == k);
            }
        }
        if member_names(s).contains(k) {
            let j = member_names(s).index_of(k);
            let j1 = if j < p { j } else { j + 1 };
            assert(u[j1] == s[j]);
            assert(member_names(u)[j1] == k);
        }
        if k == name@ {
            assert(member_names(u)[p] == k);
        }
    }
    assert(mu.dom() =~= ms.dom());
    assert forall|k: Seq<char>| #[trigger] mu.dom().contains(k) implies mu[k] == ms[k] by {
        let j = member_names(u).index_of(k);
        assert(u[j].0@ == k);
        if j == p {
            assert(mu[u[p].0@] == u[p].1@);
        } else {
            let j0 = if j < p { j } else { j - 1 };
            assert(u[j] == s[j0]);
        }
    }
    assert(mu =~= ms);
}

/// Two member lists with the same names and values in the same order stand
/// for the same map.
proof fn lemma_members_same(a: Seq<(String, JsonValue)>, b: Seq<(String, JsonValue)>)
    requires
        a.len() == b.len(),
        forall|j: int| 0 <= j < a.len() ==> (#[trigger] a[j]).0@ == b[j].0@ && a[j].1@ == b[j].1@,
    ensures
        JsonValue::members_model(a) == JsonValue::members_model(b),
        members_unique(b) ==> members_unique(a),
    decreases a.len(),
{
    if a.len() > 0 {
        lemma_members_same(a.drop_last(), b.drop_last());
        assert(a.last() == a[a.len() - 1]);
    }
    if members_unique(b) {
        assert forall|i: int, j: int|
            0 <= i < a.len() && 0 <= j < a.len() && i != j implies #[trigger] a[i].0@ != #[trigger] a[j].0@ by {
            assert(b[i].0@ != b[j].0@);
        }
    }
}

} // verus!
