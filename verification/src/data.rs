use vstd::prelude::*;

use crate::json::{JsonModel, JsonValue};
use crate::text::{
    compare_text_sign, copy_texts, lemma_sorted_insert, lemma_sorted_unique_by_set, lemma_text_sign,
    text_sign, texts,
    texts_sorted,
};

verus! {

/// The type that a schema describes, as deduced from its keywords.
#[derive(Debug, PartialEq)]
pub enum DeducedType {
    String,
    Number,
    Integer,
    Boolean,
    Enum(Box<EnumType>),
    Array(Box<ArrayType>),
    Struct(Box<StructType>),
    Variant(Box<VariantType>),
    Any,
    Null,
}

/// An array whose items all have one type.
#[derive(Debug, PartialEq)]
pub struct ArrayType {
    pub inner_type: DeducedType,
}

/// A value of one of several types.
#[derive(Debug, PartialEq)]
pub struct VariantType {
    pub name: Vec<String>,
    pub possible_types: Vec<DeducedType>,
}

/// An object with named attributes.
#[derive(Debug, PartialEq)]
pub struct StructType {
    pub name: Vec<String>,
    pub attributes: Attributes,
    /// `None`: no attribute beyond the named ones is allowed (a later
    /// specification that is not `None` can allow them).
    pub additional_attributes: Option<DeducedType>,
}

/// One of a fixed list of JSON values.
#[derive(Debug, PartialEq)]
pub struct EnumType {
    pub name: Vec<String>,
    pub enum_entries: Vec<JsonValue>,
}

/// The type of one attribute of a struct, and whether the attribute may be
/// left out.
#[derive(Debug, PartialEq)]
pub struct StructAttribute {
    pub inner_type: DeducedType,
    pub is_optional: bool,
}

/// The attributes of a struct by name, each name at most once, kept in the
/// order of their names ([`texts_sorted`]): attribute lists with the same map
/// are stored alike, so the derived `==` compares them as maps. The derived
/// `Debug` text lists the entries in that order.
#[derive(Debug, PartialEq)]
pub struct Attributes {
    entries: Vec<(String, StructAttribute)>,
}

/// The mathematical value of a [`DeducedType`]: the attributes of a struct
/// form a map from names to attribute values.
pub enum TypeModel {
    String,
    Number,
    Integer,
    Boolean,
    Enum { name: Seq<Seq<char>>, entries: Seq<JsonModel> },
    Array { inner: Box<TypeModel> },
    Struct {
        name: Seq<Seq<char>>,
        attributes: Map<Seq<char>, AttrModel>,
        additional: Option<Box<TypeModel>>,
    },
    Variant { name: Seq<Seq<char>>, possible: Seq<TypeModel> },
    Any,
    Null,
}

/// The mathematical value of a [`StructAttribute`].
pub struct AttrModel {
    pub inner: TypeModel,
    pub optional: bool,
}

impl TypeModel {
    /// The position of the variant in the declaration of [`DeducedType`].
    pub open spec fn variant_index(self) -> nat {
        match self {
            TypeModel::String => 0,
            TypeModel::Number => 1,
            TypeModel::Integer => 2,
            TypeModel::Boolean => 3,
            TypeModel::Enum { .. } => 4,
            TypeModel::Array { .. } => 5,
            TypeModel::Struct { .. } => 6,
            TypeModel::Variant { .. } => 7,
            TypeModel::Any => 8,
            TypeModel::Null => 9,
        }
    }
}

/// No name occurs twice among the attributes.
pub open spec fn attribute_names_unique(s: Seq<(String, StructAttribute)>) -> bool {
    forall|i: int, j: int|
        #![trigger s[i], s[j]]
        0 <= i < s.len() && 0 <= j < s.len() && i != j ==> s[i].0@ != s[j].0@
}

/// The names of the attributes, in order.
pub open spec fn attribute_names(s: Seq<(String, StructAttribute)>) -> Seq<Seq<char>> {
    Seq::new(s.len(), |i: int| s[i].0@)
}

impl DeducedType {
    /// The mathematical value of this type.
    pub open spec fn model(self) -> TypeModel
        decreases self,
    {
        match self {
            DeducedType::String => TypeModel::String,
            DeducedType::Number => TypeModel::Number,
            DeducedType::Integer => TypeModel::Integer,
            DeducedType::Boolean => TypeModel::Boolean,
            DeducedType::Enum(e) => TypeModel::Enum {
                name: texts(e.name@),
                entries: Seq::new(e.enum_entries@.len(), |i: int| e.enum_entries@[i]@),
            },
            DeducedType::Array(a) => TypeModel::Array { inner: Box::new(a.inner_type.model()) },
            DeducedType::Struct(s) => TypeModel::Struct {
                name: texts(s.name@),
                attributes: s.attributes.model_map(),
                additional: match s.additional_attributes {
                    Some(t) => Some(Box::new(t.model())),
                    None => None,
                },
            },
            DeducedType::Variant(v) => TypeModel::Variant {
                name: texts(v.name@),
                possible: Seq::new(
                    v.possible_types@.len(),
                    |i: int|
                        if 0 <= i < v.possible_types@.len() {
                            v.possible_types@[i].model()
                        } else {
                            TypeModel::Any
                        },
                ),
            },
            DeducedType::Any => TypeModel::Any,
            DeducedType::Null => TypeModel::Null,
        }
    }

    /// The map that a list of attributes stands for; a later attribute with
    /// the same name as an earlier one replaces it.
    pub open spec fn attributes_model(s: Seq<(String, StructAttribute)>) -> Map<
        Seq<char>,
        AttrModel,
    >
        decreases s,
    {
        if s.len() == 0 {
            Map::empty()
        } else {
            DeducedType::attributes_model(s.drop_last()).insert(
                s.last().0@,
                AttrModel { inner: s.last().1.inner_type.model(), optional: s.last().1.is_optional },
            )
        }
    }

    /// The position of the variant in the declaration of this type:
    /// `String` is 0, `Number` 1, and so on up to `Null`, 9.
    pub fn index(&self) -> (r: usize)
        ensures
            r == self@.variant_index(),
    {
        match self {
            DeducedType::String => 0,
            DeducedType::Number => 1,
            DeducedType::Integer => 2,
            DeducedType::Boolean => 3,
            DeducedType::Enum(_) => 4,
            DeducedType::Array(_) => 5,
            DeducedType::Struct(_) => 6,
            DeducedType::Variant(_) => 7,
            DeducedType::Any => 8,
            DeducedType::Null => 9,
        }
    }

    /// A copy of this type with the same mathematical value.
    pub fn duplicate(&self) -> (r: DeducedType)
        ensures
            r@ == self@,
        decreases self,
    {
        match self {
            DeducedType::String => DeducedType::String,
            DeducedType::Number => DeducedType::Number,
            DeducedType::Integer => DeducedType::Integer,
            DeducedType::Boolean => DeducedType::Boolean,
            DeducedType::Enum(e) => DeducedType::Enum(Box::new(e.duplicate())),
            DeducedType::Array(a) => {
                proof {
                    assert(decreases_to!(*self => self->Array_0));
                }
                DeducedType::Array(Box::new(a.duplicate()))
            },
            DeducedType::Struct(s) => {
                proof {
                    assert(decreases_to!(*self => self->Struct_0));
                }
                DeducedType::Struct(Box::new(s.duplicate()))
            },
            DeducedType::Variant(v) => {
                proof {
                    assert(decreases_to!(*self => self->Variant_0));
                }
                DeducedType::Variant(Box::new(v.duplicate()))
            },
            DeducedType::Any => DeducedType::Any,
            DeducedType::Null => DeducedType::Null,
        }
    }
}

impl Clone for DeducedType {
    /// A copy with the same mathematical value.
    fn clone(&self) -> (r: Self)
        ensures
            r@ == self@,
    {
        self.duplicate()
    }
}

impl EnumType {
    /// A copy with the same names and entries.
    pub fn duplicate(&self) -> (r: EnumType)
        ensures
            DeducedType::Enum(Box::new(r))@ == DeducedType::Enum(Box::new(*self))@,
    {
        let mut entries: Vec<JsonValue> = Vec::new();
        let n = self.enum_entries.len();
        for i in 0..n
            invariant
                n == self.enum_entries@.len(),
                entries@.len() == i,
                forall|j: int| 0 <= j < i ==> (#[trigger] entries@[j])@ == self.enum_entries@[j]@,
        {
            entries.push(self.enum_entries[i].duplicate());
        }
        let r = EnumType { name: copy_texts(&self.name), enum_entries: entries };
        assert(DeducedType::Enum(Box::new(r))@ == DeducedType::Enum(Box::new(*self))@) by {
            if let (TypeModel::Enum { entries: a, .. }, TypeModel::Enum { entries: b, .. }) = (
                DeducedType::Enum(Box::new(r))@,
                DeducedType::Enum(Box::new(*self))@,
            ) {
                assert(a =~= b);
            }
        }
        r
    }
}

impl ArrayType {
    /// A copy whose items have the same type.
    pub fn duplicate(&self) -> (r: ArrayType)
        ensures
            DeducedType::Array(Box::new(r))@ == DeducedType::Array(Box::new(*self))@,
        decreases self,
    {
        ArrayType { inner_type: self.inner_type.duplicate() }
    }
}

impl StructType {
    /// A copy with the same name, attributes, in the same order, and
    /// additional attributes.
    pub fn duplicate(&self) -> (r: StructType)
        ensures
            r.model() == self.model(),
            r.attributes.names() == self.attributes.names(),
        decreases self,
    {
        let additional = match &self.additional_attributes {
            Some(t) => Some(t.duplicate()),
            None => None,
        };
        StructType {
            name: copy_texts(&self.name),
            attributes: self.attributes.duplicate(),
            additional_attributes: additional,
        }
    }
}

impl VariantType {
    /// A copy with the same names and possible types.
    pub fn duplicate(&self) -> (r: VariantType)
        ensures
            DeducedType::Variant(Box::new(r))@ == DeducedType::Variant(Box::new(*self))@,
        decreases self,
    {
        let mut possible: Vec<DeducedType> = Vec::new();
        let n = self.possible_types.len();
        for i in 0..n
            invariant
                n == self.possible_types@.len(),
                possible@.len() == i,
                forall|j: int| 0 <= j < i ==> (#[trigger] possible@[j])@ == self.possible_types@[j]@,
        {
            let item = &self.possible_types[i];
            proof {
                assert(decreases_to!(self.possible_types => self.possible_types@[i as int]));
            }
            possible.push(item.duplicate());
        }
        let r = VariantType { name: copy_texts(&self.name), possible_types: possible };
        assert(DeducedType::Variant(Box::new(r))@ == DeducedType::Variant(Box::new(*self))@) by {
            if let (TypeModel::Variant { possible: a, .. }, TypeModel::Variant { possible: b, .. }) = (
                DeducedType::Variant(Box::new(r))@,
                DeducedType::Variant(Box::new(*self))@,
            ) {
                assert(a =~= b);
            }
        }
        r
    }
}

impl Clone for EnumType {
    /// A copy with the same names and entries.
    fn clone(&self) -> (r: Self)
        ensures
            DeducedType::Enum(Box::new(r))@ == DeducedType::Enum(Box::new(*self))@,
    {
        self.duplicate()
    }
}

impl Clone for ArrayType {
    /// A copy whose items have the same type.
    fn clone(&self) -> (r: Self)
        ensures
            DeducedType::Array(Box::new(r))@ == DeducedType::Array(Box::new(*self))@,
    {
        self.duplicate()
    }
}

impl Clone for StructType {
    /// A copy with the same mathematical value.
    fn clone(&self) -> (r: Self)
        ensures
            r.model() == self.model(),
    {
        self.duplicate()
    }
}

impl Clone for VariantType {
    /// A copy with the same names and possible types.
    fn clone(&self) -> (r: Self)
        ensures
            DeducedType::Variant(Box::new(r))@ == DeducedType::Variant(Box::new(*self))@,
    {
        self.duplicate()
    }
}

impl Clone for StructAttribute {
    /// A copy with the same mathematical value.
    fn clone(&self) -> (r: Self)
        ensures
            r.model() == self.model(),
    {
        self.duplicate()
    }
}

impl View for DeducedType {
    type V = TypeModel;

    open spec fn view(&self) -> TypeModel {
        self.model()
    }
}

impl StructType {
    /// The mathematical value of the struct type made of this struct.
    pub open spec fn model(self) -> TypeModel {
        DeducedType::Struct(Box::new(self)).model()
    }
}

impl StructAttribute {
    /// The mathematical value of this attribute.
    pub open spec fn model(self) -> AttrModel {
        AttrModel { inner: self.inner_type@, optional: self.is_optional }
    }

    /// A copy of this attribute with the same mathematical value.
    pub fn duplicate(&self) -> (r: StructAttribute)
        ensures
            r.model() == self.model(),
        decreases self,
    {
        StructAttribute { inner_type: self.inner_type.duplicate(), is_optional: self.is_optional }
    }
}

impl Attributes {
    #[verifier::type_invariant]
    spec fn names_unique(self) -> bool {
        &&& attribute_names_unique(self.entries@)
        &&& texts_sorted(attribute_names(self.entries@))
    }

    /// The attributes as a map from names to attribute values.
    pub closed spec fn model_map(self) -> Map<Seq<char>, AttrModel>
        decreases self,
    {
        DeducedType::attributes_model(self.entries@)
    }

    /// The attribute names, in the order in which they are stored.
    pub closed spec fn names(self) -> Seq<Seq<char>> {
        attribute_names(self.entries@)
    }

    /// No attribute.
    pub fn new() -> (r: Attributes)
        ensures
            r@ == Map::<Seq<char>, AttrModel>::empty(),
    {
        let r = Attributes { entries: Vec::new() };
        assert(r@ =~= Map::<Seq<char>, AttrModel>::empty());
        r
    }

    /// The number of attributes; the names in order hold each key of the map
    /// once.
    pub fn len(&self) -> (n: usize)
        ensures
            n == self@.dom().len(),
            n == self.names().len(),
            self.names().no_duplicates(),
            self.names().to_set() == self@.dom(),
            self@.dom().finite(),
            texts_sorted(self.names()),
    {
        proof {
            use_type_invariant(self);
            lemma_attributes_model(self.entries@);
        }
        self.entries.len()
    }

    /// The attribute at position `i` of the names, with its name.
    pub fn entry(&self, i: usize) -> (r: (&String, &StructAttribute))
        requires
            i < self.names().len(),
        ensures
            r.0@ == self.names()[i as int],
            self@.dom().contains(r.0@),
            r.1.model() == self@[r.0@],
    {
        proof {
            use_type_invariant(self);
            lemma_attributes_model(self.entries@);
        }
        let e = &self.entries[i];
        proof {
            assert(attribute_names(self.entries@)[i as int] == e.0@);
            assert(attribute_names(self.entries@).contains(e.0@));
        }
        (&e.0, &e.1)
    }

    /// The position of the attribute named `name`, if there is one.
    fn position(&self, name: &String) -> (p: Option<usize>)
        ensures
            match p {
                Some(i) => i < self.entries@.len() && self.entries@[i as int].0@ == name@,
                None => forall|j: int|
                    0 <= j < self.entries@.len() ==> #[trigger] self.entries@[j].0@ != name@,
            },
    {
        let n = self.entries.len();
        for i in 0..n
            invariant
                n == self.entries@.len(),
                forall|j: int| 0 <= j < i ==> #[trigger] self.entries@[j].0@ != name@,
        {
            if self.entries[i].0 == *name {
                return Some(i);
            }
        }
        None
    }

    /// The attribute named `name`, if there is one.
    pub fn get(&self, name: &String) -> (r: Option<&StructAttribute>)
        ensures
            r is Some == self@.dom().contains(name@),
            r matches Some(a) ==> a.model() == self@[name@],
            self@.dom().finite(),
    {
        proof {
            use_type_invariant(self);
            lemma_attributes_model(self.entries@);
        }
        match self.position(name) {
            Some(i) => {
                proof {
                    assert(attribute_names(self.entries@)[i as int] == name@);
                }
                Some(&self.entries[i].1)
            },
            None => {
                proof {
                    assert(!attribute_names(self.entries@).contains(name@));
                }
                None
            },
        }
    }

    /// Sets the attribute `name`: an attribute of that name takes the new
    /// value, else the attribute is added in the order of names.
    pub fn insert(&mut self, name: String, attribute: StructAttribute)
        ensures
            final(self)@ == old(self)@.insert(name@, attribute.model()),
    {
        proof {
            use_type_invariant(&*self);
            lemma_attributes_model(self.entries@);
        }
        let ghost old_entries = self.entries@;
        let found = self.position(&name);
        let place = match found {
            Some(i) => i,
            None => self.insertion_point(&name),
        };
        let mut entries: Vec<(String, StructAttribute)> = Vec::new();
        std::mem::swap(&mut entries, &mut self.entries);
        match found {
            Some(i) => {
                proof {
                    lemma_attributes_replace(old_entries, i as int, name, attribute);
                    assert(attribute_names(old_entries.update(i as int, (name, attribute)))
                        =~= attribute_names(old_entries));
                }
                entries.set(i, (name, attribute));
            },
            None => {
                proof {
                    lemma_attributes_insert_at(old_entries, place as int, name, attribute);
                    lemma_sorted_insert(attribute_names(old_entries), place as int, name@);
                }
                entries.insert(place, (name, attribute));
            },
        }
        self.entries = entries;
    }

    /// Where an attribute named `name`, of which there is none, goes to keep
    /// the names in order: after every smaller name, before every larger one.
    fn insertion_point(&self, name: &String) -> (p: usize)
        requires
            forall|j: int| 0 <= j < self.entries@.len() ==> #[trigger] self.entries@[j].0@ != name@,
        ensures
            p <= self.entries@.len(),
            forall|j: int| 0 <= j < p ==> text_sign(#[trigger] attribute_names(self.entries@)[j], name@) == -1,
            p < self.entries@.len() ==> text_sign(attribute_names(self.entries@)[p as int], name@) == 1,
    {
        let n = self.entries.len();
        for i in 0..n
            invariant
                n == self.entries@.len(),
                forall|j: int| 0 <= j < self.entries@.len() ==> #[trigger] self.entries@[j].0@ != name@,
                forall|j: int| 0 <= j < i ==> text_sign(#[trigger] attribute_names(self.entries@)[j], name@) == -1,
        {
            let sign = compare_text_sign(&self.entries[i].0, name);
            proof {
                lemma_text_sign(self.entries@[i as int].0@, name@);
                assert(attribute_names(self.entries@)[i as int] == self.entries@[i as int].0@);
            }
            if sign == 1 {
                return i;
            }
        }
        n
    }

    /// A copy of these attributes, in the same order, with the same
    /// mathematical values.
    pub fn duplicate(&self) -> (r: Attributes)
        ensures
            r@ == self@,
            r.names() == self.names(),
        decreases self,
    {
        proof {
            use_type_invariant(self);
        }
        let mut out: Vec<(String, StructAttribute)> = Vec::new();
        let n = self.entries.len();
        for i in 0..n
            invariant
                n == self.entries@.len(),
                attribute_names_unique(self.entries@),
                out@.len() == i,
                forall|j: int|
                    0 <= j < i ==> (#[trigger] out@[j]).0@ == self.entries@[j].0@ && out@[j].1.model()
                        == self.entries@[j].1.model(),
        {
            let name = self.entries[i].0.clone();
            let attribute = self.entries[i].1.duplicate();
            out.push((name, attribute));
        }
        proof {
            lemma_attributes_same(out@, self.entries@);
            assert(attribute_names(out@) =~= attribute_names(self.entries@));
        }
        Attributes { entries: out }
    }
}

impl View for Attributes {
    type V = Map<Seq<char>, AttrModel>;

    open spec fn view(&self) -> Map<Seq<char>, AttrModel> {
        self.model_map()
    }
}

/// Two attribute lists with the same map store their names in the same
/// order; the facts required are those that [`Attributes::len`] gives.
pub proof fn lemma_same_map_same_order(a: Attributes, b: Attributes)
    requires
        texts_sorted(a.names()),
        texts_sorted(b.names()),
        a.names().to_set() == a@.dom(),
        b.names().to_set() == b@.dom(),
        a@ == b@,
    ensures
        a.names() == b.names(),
{
    lemma_sorted_unique_by_set(a.names(), b.names());
}

/// The map of an attribute list has the names of the list as its keys; with
/// no name twice, each key maps to the value of its attribute, and there are
/// as many keys as attributes.
pub proof fn lemma_attributes_model(s: Seq<(String, StructAttribute)>)
    ensures
        DeducedType::attributes_model(s).dom() == attribute_names(s).to_set(),
        DeducedType::attributes_model(s).dom().finite(),
        attribute_names_unique(s) ==> attribute_names(s).no_duplicates(),
        attribute_names_unique(s) ==> DeducedType::attributes_model(s).dom().len() == s.len(),
        attribute_names_unique(s) ==> forall|i: int|
            0 <= i < s.len() ==> DeducedType::attributes_model(s)[#[trigger] s[i].0@]
                == s[i].1.model(),
    decreases s.len(),
{
    if s.len() > 0 {
        let t = s.drop_last();
        lemma_attributes_model(t);
        assert(attribute_names(s) =~= attribute_names(t).push(s.last().0@));
        assert(attribute_names(s).to_set() =~= attribute_names(t).to_set().insert(s.last().0@))
            by {
            attribute_names(t).lemma_push_to_set_commute(s.last().0@);
        }
        if attribute_names_unique(s) {
            assert(attribute_names_unique(t));
            assert(!attribute_names(t).to_set().contains(s.last().0@)) by {
                if attribute_names(t).contains(s.last().0@) {
                    let j = attribute_names(t).index_of(s.last().0@);
                    assert(s[j].0@ == s[s.len() - 1].0@);
                }
            }
            assert forall|i: int| 0 <= i < s.len() implies DeducedType::attributes_model(s)[
                #[trigger] s[i].0@] == s[i].1.model() by {
                if i < s.len() - 1 {
                    assert(t[i] == s[i]);
                }
            }
        }
    } else {
        assert(attribute_names(s).to_set() =~= Set::empty());
    }
}

/// Replacing the value of an attribute whose name is unchanged updates the
/// map at that name and keeps the names unique.
proof fn lemma_attributes_replace(
    s: Seq<(String, StructAttribute)>,
    i: int,
    name: String,
    attribute: StructAttribute,
)
    requires
        attribute_names_unique(s),
        0 <= i < s.len(),
        s[i].0@ == name@,
    ensures
        attribute_names_unique(s.update(i, (name, attribute))),
        DeducedType::attributes_model(s.update(i, (name, attribute)))
            == DeducedType::attributes_model(s).insert(name@, attribute.model()),
{
    let u = s.update(i, (name, attribute));
    assert(attribute_names(u) =~= attribute_names(s));
    assert(attribute_names_unique(u)) by {
        assert forall|a: int, b: int|
            0 <= a < u.len() && 0 <= b < u.len() && a != b implies #[trigger] u[a].0@
            != #[trigger] u[b].0@ by {
            assert(attribute_names(u)[a] == attribute_names(s)[a]);
            assert(attribute_names(u)[b] == attribute_names(s)[b]);
        }
    }
    lemma_attributes_model(s);
    lemma_attributes_model(u);
    let mu = DeducedType::attributes_model(u);
    let ms = DeducedType::attributes_model(s).insert(name@, attribute.model());
    assert(attribute_names(s)[i] == name@);
    assert(mu.dom() =~= ms.dom());
    assert forall|k: Seq<char>| #[trigger] mu.dom().contains(k) implies mu[k] == ms[k] by {
        let j = attribute_names(u).index_of(k);
        assert(u[j].0@ == k);
        if j == i {
            assert(mu[u[i].0@] == u[i].1.model());
        } else {
            assert(u[j] == s[j]);
            assert(s[j].0@ != s[i].0@);
        }
    }
    assert(mu =~= ms);
}

/// Putting an attribute of a new name anywhere in a list with no name twice
/// keeps the names unique and adds that name to the map.
proof fn lemma_attributes_insert_at(
    s: Seq<(String, StructAttribute)>,
    p: int,
    name: String,
    attribute: StructAttribute,
)
    requires
        attribute_names_unique(s),
        0 <= p <= s.len(),
        forall|j: int| 0 <= j < s.len() ==> #[trigger] s[j].0@ != name@,
    ensures
        attribute_names_unique(s.insert(p, (name, attribute))),
        attribute_names(s.insert(p, (name, attribute))) == attribute_names(s).insert(p, name@),
        DeducedType::attributes_model(s.insert(p, (name, attribute)))
            == DeducedType::attributes_model(s).insert(name@, attribute.model()),
{
    let u = s.insert(p, (name, attribute));
    assert(attribute_names(u) =~= attribute_names(s).insert(p, name@));
    assert(attribute_names_unique(u)) by {
        assert forall|a: int, b: int|
            0 <= a < u.len() && 0 <= b < u.len() && a != b implies #[trigger] u[a].0@
            != #[trigger] u[b].0@ by {
            if a != p && b != p {
                let a0 = if a < p { a } else { a - 1 };
                let b0 = if b < p { b } else { b - 1 };
                assert(u[a] == s[a0] && u[b] == s[b0]);
            } else if a == p {
                let b0 = if b < p { b } else { b - 1 };
                assert(u[b] == s[b0]);
            } else {
                let a0 = if a < p { a } else { a - 1 };
                assert(u[a] == s[a0]);
            }
        }
    }
    lemma_attributes_model(s);
    lemma_attributes_model(u);
    let mu = DeducedType::attributes_model(u);
    let ms = DeducedType::attributes_model(s).insert(name@, attribute.model());
    assert forall|k: Seq<char>| #[trigger] mu.dom().contains(k) == ms.dom().contains(k) by {
        if attribute_names(u).contains(k) {
            let j = attribute_names(u).index_of(k);
            if j != p {
                let j0 = if j < p { j } else { j - 1 };
                assert(u[j] == s[j0]);
                assert(attribute_names(s)[j0] == k);
            }
        }
        if attribute_names(s).contains(k) {
            let j = attribute_names(s).index_of(k);
            let j1 = if j < p { j } else { j + 1 };
            assert(u[j1] == s[j]);
            assert(attribute_names(u)[j1] == k);
        }
        if k == name@ {
            assert(attribute_names(u)[p] == k);
        }
    }
    assert(mu.dom() =~= ms.dom());
    assert forall|k: Seq<char>| #[trigger] mu.dom().contains(k) implies mu[k] == ms[k] by {
        let j = attribute_names(u).index_of(k);
        assert(u[j].0@ == k);
        if j == p {
            assert(mu[u[p].0@] == u[p].1.model());
        } else {
            let j0 = if j < p { j } else { j - 1 };
            assert(u[j] == s[j0]);
        }
    }
    assert(mu =~= ms);
}

/// Two attribute lists with the same names and values in the same order
/// stand for the same map.
proof fn lemma_attributes_same(a: Seq<(String, StructAttribute)>, b: Seq<(String, StructAttribute)>)
    requires
        a.len() == b.len(),
        forall|j: int|
            0 <= j < a.len() ==> (#[trigger] a[j]).0@ == b[j].0@ && a[j].1.model() == b[j].1.model(),
    ensures
        DeducedType::attributes_model(a) == DeducedType::attributes_model(b),
        attribute_names_unique(b) ==> attribute_names_unique(a),
    decreases a.len(),
{
    if a.len() > 0 {
        lemma_attributes_same(a.drop_last(), b.drop_last());
        assert(a.last() == a[a.len() - 1]);
    }
    if attribute_names_unique(b) {
        assert forall|i: int, j: int|
            0 <= i < a.len() && 0 <= j < a.len() && i != j implies #[trigger] a[i].0@
            != #[trigger] a[j].0@ by {
            assert(b[i].0@ != b[j].0@);
        }
    }
}

} // verus!
