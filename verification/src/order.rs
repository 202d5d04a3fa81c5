use vstd::prelude::*;

use std::cmp::Ordering;

use crate::data::{DeducedType, TypeModel};
use crate::text::{
    compare_texts_sign, lemma_texts_sign, lemma_texts_sign_transitive, texts, texts_sign,
};

verus! {

/// The order that a sign of [`text_sign`] or [`texts_sign`] stands for.
pub open spec fn sign_order(s: int) -> Ordering {
    if s < 0 {
        Ordering::Less
    } else if s == 0 {
        Ordering::Equal
    } else {
        Ordering::Greater
    }
}

/// The order of two deduced types: by the position of their variants, then
/// enums, structs and variants by name and arrays by the type of their
/// items; other types of the same variant are equal.
pub open spec fn type_order(a: TypeModel, b: TypeModel) -> Option<Ordering>
    decreases a,
{
    if a.variant_index() < b.variant_index() {
        Some(Ordering::Less)
    } else if b.variant_index() < a.variant_index() {
        Some(Ordering::Greater)
    } else {
        match (a, b) {
            (TypeModel::Enum { name: n1, .. }, TypeModel::Enum { name: n2, .. }) => Some(
                sign_order(texts_sign(n1, n2)),
            ),
            (TypeModel::Array { inner: i1 }, TypeModel::Array { inner: i2 }) => type_order(
                *i1,
                *i2,
            ),
            (TypeModel::Struct { name: n1, .. }, TypeModel::Struct { name: n2, .. }) => Some(
                sign_order(texts_sign(n1, n2)),
            ),
            (TypeModel::Variant { name: n1, .. }, TypeModel::Variant { name: n2, .. }) => Some(
                sign_order(texts_sign(n1, n2)),
            ),
            _ => Some(Ordering::Equal),
        }
    }
}

/// The opposite of an order.
pub open spec fn reversed(o: Ordering) -> Ordering {
    match o {
        Ordering::Less => Ordering::Greater,
        Ordering::Equal => Ordering::Equal,
        Ordering::Greater => Ordering::Less,
    }
}

/// Compares two lists of strings, text by text.
fn compare_names(a: &Vec<String>, b: &Vec<String>) -> (r: Ordering)
    ensures
        r == sign_order(texts_sign(texts(a@), texts(b@))),
{
    let s = compare_texts_sign(a, b);
    if s < 0 {
        Ordering::Less
    } else if s == 0 {
        Ordering::Equal
    } else {
        Ordering::Greater
    }
}

/// Compares two deduced types in [`type_order`].
pub fn compare_types(a: &DeducedType, b: &DeducedType) -> (r: Option<Ordering>)
    ensures
        r == type_order(a@, b@),
    decreases a@,
{
    let ia = a.index();
    let ib = b.index();
    if ia < ib {
        return Some(Ordering::Less);
    }
    if ib < ia {
        return Some(Ordering::Greater);
    }
    match (a, b) {
        (DeducedType::Enum(e1), DeducedType::Enum(e2)) => Some(compare_names(&e1.name, &e2.name)),
        (DeducedType::Array(a1), DeducedType::Array(a2)) => compare_types(
            &a1.inner_type,
            &a2.inner_type,
        ),
        (DeducedType::Struct(s1), DeducedType::Struct(s2)) => Some(
            compare_names(&s1.name, &s2.name),
        ),
        (DeducedType::Variant(v1), DeducedType::Variant(v2)) => Some(
            compare_names(&v1.name, &v2.name),
        ),
        _ => Some(Ordering::Equal),
    }
}

/// Whether an order puts the first of two values before the second or on a
/// par with it.
pub open spec fn at_most(o: Option<Ordering>) -> bool {
    o == Some(Ordering::Less) || o == Some(Ordering::Equal)
}

/// Any two deduced types are ordered, and each type is on a par with itself.
pub proof fn lemma_type_order_total(a: TypeModel, b: TypeModel)
    ensures
        type_order(a, b) is Some,
        type_order(a, a) == Some(Ordering::Equal),
    decreases a,
{
    lemma_texts_sign_cases(a, b);
    lemma_texts_sign_cases(a, a);
    if let (TypeModel::Array { inner: i1 }, TypeModel::Array { inner: i2 }) = (a, b) {
        lemma_type_order_total(*i1, *i2);
    }
    if let TypeModel::Array { inner } = a {
        lemma_type_order_total(*inner, *inner);
    }
}

/// Two structs are ordered by their names, text by text and character by
/// character, whatever the lengths: where the names first differ, at text
/// `i` and within it at character `j`, the struct with the smaller
/// character there comes first.
pub proof fn lemma_struct_order_by_names(a: TypeModel, b: TypeModel, i: int, j: int)
    requires
        a is Struct,
        b is Struct,
        0 <= i < a->Struct_name.len(),
        i < b->Struct_name.len(),
        forall|k: int| 0 <= k < i ==> a->Struct_name[k] == b->Struct_name[k],
        0 <= j < a->Struct_name[i].len(),
        j < b->Struct_name[i].len(),
        forall|k: int| 0 <= k < j ==> a->Struct_name[i][k] == b->Struct_name[i][k],
        a->Struct_name[i][j] != b->Struct_name[i][j],
    ensures
        type_order(a, b) == Some(
            if a->Struct_name[i][j] < b->Struct_name[i][j] {
                Ordering::Less
            } else {
                Ordering::Greater
            },
        ),
{
    let (n1, n2) = (a->Struct_name, b->Struct_name);
    crate::text::lemma_text_sign_first_difference(n1[i], n2[i], j);
    crate::text::lemma_texts_sign_first_difference(n1, n2, i);
}

/// A struct comes before every struct whose name is longer and begins with
/// its name.
pub proof fn lemma_struct_order_name_prefix(a: TypeModel, b: TypeModel)
    requires
        a is Struct,
        b is Struct,
        a->Struct_name.len() < b->Struct_name.len(),
        forall|k: int| 0 <= k < a->Struct_name.len() ==> a->Struct_name[k] == b->Struct_name[k],
    ensures
        type_order(a, b) == Some(Ordering::Less),
        type_order(b, a) == Some(Ordering::Greater),
{
    crate::text::lemma_texts_sign_prefix(a->Struct_name, b->Struct_name);
}

/// The names of two types of the same naming variant compare as -1, 0 or 1,
/// and a name is on a par with itself.
proof fn lemma_texts_sign_cases(a: TypeModel, b: TypeModel)
    ensures
        match (a, b) {
            (TypeModel::Enum { name: n1, .. }, TypeModel::Enum { name: n2, .. }) => -1 <= texts_sign(
                n1,
                n2,
            ) <= 1 && texts_sign(n1, n1) == 0,
            (TypeModel::Struct { name: n1, .. }, TypeModel::Struct { name: n2, .. }) => -1
                <= texts_sign(n1, n2) <= 1 && texts_sign(n1, n1) == 0,
            (TypeModel::Variant { name: n1, .. }, TypeModel::Variant { name: n2, .. }) => -1
                <= texts_sign(n1, n2) <= 1 && texts_sign(n1, n1) == 0,
            _ => true,
        },
{
    match (a, b) {
        (TypeModel::Enum { name: n1, .. }, TypeModel::Enum { name: n2, .. }) => {
            lemma_texts_sign(n1, n2);
            lemma_texts_sign(n1, n1);
        },
        (TypeModel::Struct { name: n1, .. }, TypeModel::Struct { name: n2, .. }) => {
            lemma_texts_sign(n1, n2);
            lemma_texts_sign(n1, n1);
        },
        (TypeModel::Variant { name: n1, .. }, TypeModel::Variant { name: n2, .. }) => {
            lemma_texts_sign(n1, n2);
            lemma_texts_sign(n1, n1);
        },
        _ => {},
    }
}

/// Swapping two types reverses their order.
pub proof fn lemma_type_order_converse(a: TypeModel, b: TypeModel)
    ensures
        type_order(a, b) is Some,
        type_order(b, a) == Some(reversed(type_order(a, b)->Some_0)),
    decreases a,
{
    lemma_type_order_total(a, b);
    match (a, b) {
        (TypeModel::Enum { name: n1, .. }, TypeModel::Enum { name: n2, .. }) => {
            lemma_texts_sign(n1, n2);
        },
        (TypeModel::Struct { name: n1, .. }, TypeModel::Struct { name: n2, .. }) => {
            lemma_texts_sign(n1, n2);
        },
        (TypeModel::Variant { name: n1, .. }, TypeModel::Variant { name: n2, .. }) => {
            lemma_texts_sign(n1, n2);
        },
        (TypeModel::Array { inner: i1 }, TypeModel::Array { inner: i2 }) => {
            lemma_type_order_converse(*i1, *i2);
        },
        _ => {},
    }
}

/// The order of types is transitive: a type at most a second that is at
/// most a third is at most the third, and before it where either step is
/// strict.
pub proof fn lemma_type_order_transitive(a: TypeModel, b: TypeModel, c: TypeModel)
    requires
        at_most(type_order(a, b)),
        at_most(type_order(b, c)),
    ensures
        at_most(type_order(a, c)),
        type_order(a, b) == Some(Ordering::Less) || type_order(b, c) == Some(Ordering::Less)
            ==> type_order(a, c) == Some(Ordering::Less),
    decreases a,
{
    match (a, b, c) {
        (
            TypeModel::Enum { name: n1, .. },
            TypeModel::Enum { name: n2, .. },
            TypeModel::Enum { name: n3, .. },
        ) => {
            lemma_names_transitive(n1, n2, n3);
        },
        (
            TypeModel::Struct { name: n1, .. },
            TypeModel::Struct { name: n2, .. },
            TypeModel::Struct { name: n3, .. },
        ) => {
            lemma_names_transitive(n1, n2, n3);
        },
        (
            TypeModel::Variant { name: n1, .. },
            TypeModel::Variant { name: n2, .. },
            TypeModel::Variant { name: n3, .. },
        ) => {
            lemma_names_transitive(n1, n2, n3);
        },
        (
            TypeModel::Array { inner: i1 },
            TypeModel::Array { inner: i2 },
            TypeModel::Array { inner: i3 },
        ) => {
            lemma_type_order_transitive(*i1, *i2, *i3);
        },
        _ => {},
    }
}

/// Transitivity of the order of names, as the order of types uses it.
proof fn lemma_names_transitive(n1: Seq<Seq<char>>, n2: Seq<Seq<char>>, n3: Seq<Seq<char>>)
    requires
        texts_sign(n1, n2) <= 0,
        texts_sign(n2, n3) <= 0,
    ensures
        texts_sign(n1, n3) <= 0,
        texts_sign(n1, n2) < 0 || texts_sign(n2, n3) < 0 ==> texts_sign(n1, n3) < 0,
{
    lemma_texts_sign(n1, n2);
    lemma_texts_sign(n2, n3);
    lemma_texts_sign(n1, n3);
    if texts_sign(n1, n2) < 0 && texts_sign(n2, n3) < 0 {
        lemma_texts_sign_transitive(n1, n2, n3);
    }
}

impl PartialOrd for DeducedType {
    fn partial_cmp(&self, other: &Self) -> (r: Option<Ordering>) {
        compare_types(self, other)
    }
}

impl vstd::std_specs::cmp::PartialOrdSpecImpl for DeducedType {
    open spec fn obeys_partial_cmp_spec() -> bool {
        true
    }

    open spec fn partial_cmp_spec(&self, other: &Self) -> Option<Ordering> {
        type_order(self@, other@)
    }
}

} // verus!
