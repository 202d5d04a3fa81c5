use vstd::prelude::*;

use crate::data::{AttrModel, DeducedType, StructAttribute, StructType, TypeModel};
use crate::error::{DeduceTypeError, DeduceTypeResult, ErrorModel};
use crate::text::{copy_texts, lemma_push_contains, same_texts, texts};

verus! {

/// Whether two deduced types can be combined: two structs (of the same name,
/// where `names_checked`) whose common attributes, and whose additional
/// attributes where both give them, can be combined; or any type with `Any`.
pub open spec fn combinable(a: TypeModel, b: TypeModel, names_checked: bool) -> bool
    decreases a,
{
    match (a, b) {
        (
            TypeModel::Struct { name: n1, attributes: m1, additional: x1 },
            TypeModel::Struct { name: n2, attributes: m2, additional: x2 },
        ) => {
            &&& names_checked ==> n1 == n2
            &&& forall|k: Seq<char>|
                #![trigger m1[k], m2[k]]
                m1.dom().contains(k) && m2.dom().contains(k) ==> combinable(
                    m1[k].inner,
                    m2[k].inner,
                    names_checked,
                )
            &&& match (x1, x2) {
                (Some(t1), Some(t2)) => combinable(*t1, *t2, names_checked),
                _ => true,
            }
        },
        (TypeModel::Any, _) => true,
        (_, TypeModel::Any) => true,
        _ => false,
    }
}

/// The combination of two combinable types. Two structs give the struct of
/// the name of the first whose attributes are those of either; an attribute of both
/// has the combination of the two types and is optional only where it is
/// optional in both. The additional attributes are combined where both give
/// them, else taken from the one that gives them. `Any` combined with a type
/// gives that type.
pub open spec fn combined(a: TypeModel, b: TypeModel) -> TypeModel
    decreases a,
{
    match (a, b) {
        (
            TypeModel::Struct { name: n1, attributes: m1, additional: x1 },
            TypeModel::Struct { name: n2, attributes: m2, additional: x2 },
        ) => TypeModel::Struct {
            name: n1,
            attributes: Map::new(
                |k: Seq<char>| m1.dom().contains(k) || m2.dom().contains(k),
                |k: Seq<char>|
                    if m1.dom().contains(k) && m2.dom().contains(k) {
                        AttrModel {
                            inner: combined(m1[k].inner, m2[k].inner),
                            optional: m1[k].optional && m2[k].optional,
                        }
                    } else if m1.dom().contains(k) {
                        m1[k]
                    } else {
                        m2[k]
                    },
            ),
            additional: match (x1, x2) {
                (Some(t1), Some(t2)) => Some(Box::new(combined(*t1, *t2))),
                (Some(t1), None) => Some(t1),
                (None, y) => y,
            },
        },
        (TypeModel::Any, _) => b,
        _ => a,
    }
}

/// Whether `e` is an error that combining `a` with `b` can report: where
/// `names_checked`, for two structs of different names, the error that names
/// them; for two structs otherwise, an error of combining the types of some
/// common attribute or the two additional attribute types; for two types that
/// are neither structs nor `Any`, the error that shows them where
/// `names_checked`, else the fixed [`case_not_implemented_text`].
pub open spec fn combine_error(a: TypeModel, b: TypeModel, e: ErrorModel, names_checked: bool) -> bool
    decreases a,
{
    match (a, b) {
        (
            TypeModel::Struct { name: n1, attributes: m1, additional: x1 },
            TypeModel::Struct { name: n2, attributes: m2, additional: x2 },
        ) => if names_checked && n1 != n2 {
            e == ErrorModel::Unexpected(name_mismatch_text(n2, n1))
        } else {
            ||| exists|k: Seq<char>|
                #![trigger m1[k], m2[k]]
                m1.dom().contains(k) && m2.dom().contains(k) && combine_error(
                    m1[k].inner,
                    m2[k].inner,
                    e,
                    names_checked,
                )
            ||| match (x1, x2) {
                (Some(t1), Some(t2)) => combine_error(*t1, *t2, e, names_checked),
                _ => false,
            }
        },
        (TypeModel::Any, _) => false,
        (_, TypeModel::Any) => false,
        _ => if names_checked {
            exists|x: DeducedType, y: DeducedType|
                #![trigger unsupported_combination_text(x, y)]
                x@ == a && y@ == b && e == ErrorModel::NotImplemented(
                    unsupported_combination_text(x, y),
                )
        } else {
            e == ErrorModel::NotImplemented(case_not_implemented_text())
        },
    }
}

/// The fixed message of [`DeducedType::combine`] for two types that are
/// neither structs nor `Any`.
pub open spec fn case_not_implemented_text() -> Seq<char> {
    "DeduceType::combine: case not implemented"@
}

/// The text of `format!("combining structs with different name {:?}!={:?}", other, first)`
/// for two lists of names.
pub uninterp spec fn name_mismatch_text(other: Seq<Seq<char>>, first: Seq<Seq<char>>) -> Seq<char>;

/// The text of `format!("DeduceType::combine: case not implemented for ({:?},{:?})", me, other)`.
/// It is named over the types themselves, not their mathematical values: the
/// `Debug` text shows attributes in their stored order, which the map of
/// attributes does not keep.
pub uninterp spec fn unsupported_combination_text(me: DeducedType, other: DeducedType) -> Seq<char>;

/// Formats, with std's `format!` and the `Debug` impl of `Vec<String>`, the
/// message that reports struct names that differ. The contract claims only
/// that the text is the named function of the two lists of names.
#[verifier::external_body]
fn name_mismatch_message(other: &Vec<String>, first: &Vec<String>) -> (r: String)
    ensures
        r@ == name_mismatch_text(texts(other@), texts(first@)),
{
    format!("combining structs with different name {:?}!={:?}", other, first)
}

/// Formats, with std's `format!` and the derived `Debug` impl of
/// [`DeducedType`], the message that reports two types that cannot be
/// combined. The contract claims only that the text is the named function of
/// the two types.
#[verifier::external_body]
fn unsupported_combination_message(me: &DeducedType, other: &DeducedType) -> (r: String)
    ensures
        r@ == unsupported_combination_text(*me, *other),
{
    format!("DeduceType::combine: case not implemented for ({:?},{:?})", me, other)
}

/// Combines two deduced types into one type that describes both; see
/// [`combinable`], [`combined`] and [`combine_error`], with the names of
/// structs checked.
pub fn combine(me: &DeducedType, other: &DeducedType) -> (r: DeduceTypeResult<DeducedType>)
    ensures
        r is Ok <==> combinable(me@, other@, true),
        r matches Ok(t) ==> t@ == combined(me@, other@),
        r matches Err(e) ==> combine_error(me@, other@, e@, true),
        !(*me is Struct && *other is Struct) && !(*me is Any) && !(*other is Any) ==> (r matches Err(
            e,
        ) && e@ == ErrorModel::NotImplemented(unsupported_combination_text(*me, *other))),
{
    combine_in(me, other, true)
}

/// Combines two deduced types, with the names of structs checked or not.
fn combine_in(me: &DeducedType, other: &DeducedType, names_checked: bool) -> (r: DeduceTypeResult<
    DeducedType,
>)
    ensures
        r is Ok <==> combinable(me@, other@, names_checked),
        r matches Ok(t) ==> t@ == combined(me@, other@),
        r matches Err(e) ==> combine_error(me@, other@, e@, names_checked),
        !(*me is Struct && *other is Struct) && !(*me is Any) && !(*other is Any) ==> (r matches Err(
            e,
        ) && e@ == ErrorModel::NotImplemented(
            if names_checked {
                unsupported_combination_text(*me, *other)
            } else {
                case_not_implemented_text()
            },
        )),
    decreases me@, 1nat,
{
    match (me, other) {
        (DeducedType::Struct(s1), DeducedType::Struct(s2)) => combine_structs(s1, s2, names_checked),
        (DeducedType::Any, _) => Ok(other.duplicate()),
        (_, DeducedType::Any) => Ok(me.duplicate()),
        _ => {
            if names_checked {
                let message = unsupported_combination_message(me, other);
                Err(DeduceTypeError::not_implemented(message.as_str()))
            } else {
                Err(DeduceTypeError::not_implemented("DeduceType::combine: case not implemented"))
            }
        },
    }
}

/// The attributes of two structs merged over the first `names.len()` names
/// of the second: the attributes of the first struct, and each of those names
/// with its merged attribute.
pub open spec fn merged_prefix(
    m1: Map<Seq<char>, AttrModel>,
    m2: Map<Seq<char>, AttrModel>,
    names: Seq<Seq<char>>,
) -> Map<Seq<char>, AttrModel> {
    Map::new(
        |k: Seq<char>| m1.dom().contains(k) || names.contains(k),
        |k: Seq<char>|
            if m1.dom().contains(k) && names.contains(k) {
                AttrModel {
                    inner: combined(m1[k].inner, m2[k].inner),
                    optional: m1[k].optional && m2[k].optional,
                }
            } else if m1.dom().contains(k) {
                m1[k]
            } else {
                m2[k]
            },
    )
}


/// Merging over one more name updates the merged attributes at that name.
proof fn lemma_merged_step(
    m1: Map<Seq<char>, AttrModel>,
    m2: Map<Seq<char>, AttrModel>,
    names: Seq<Seq<char>>,
    key: Seq<char>,
)
    ensures
        merged_prefix(m1, m2, names.push(key)) == merged_prefix(m1, m2, names).insert(
            key,
            if m1.dom().contains(key) {
                AttrModel {
                    inner: combined(m1[key].inner, m2[key].inner),
                    optional: m1[key].optional && m2[key].optional,
                }
            } else {
                m2[key]
            },
        ),
{
    let v = if m1.dom().contains(key) {
        AttrModel {
            inner: combined(m1[key].inner, m2[key].inner),
            optional: m1[key].optional && m2[key].optional,
        }
    } else {
        m2[key]
    };
    let left = merged_prefix(m1, m2, names.push(key));
    let right = merged_prefix(m1, m2, names).insert(key, v);
    assert forall|k: Seq<char>| #[trigger] left.dom().contains(k) == right.dom().contains(k) by {
        lemma_push_contains(names, key, k);
    }
    assert(left.dom() =~= right.dom());
    assert forall|k: Seq<char>| #[trigger] left.dom().contains(k) implies left[k] == right[k] by {
        lemma_push_contains(names, key, k);
    }
    assert(left =~= right);
}

/// Combines two structs: their names must agree where `names_checked`, then
/// the attributes of both are merged under the name of the first.
#[verifier::loop_isolation(false)]
fn combine_structs(s1: &StructType, s2: &StructType, names_checked: bool) -> (r: DeduceTypeResult<
    DeducedType,
>)
    ensures
        r is Ok <==> combinable(s1.model(), s2.model(), names_checked),
        r matches Ok(t) ==> t@ == combined(s1.model(), s2.model()),
        r matches Err(e) ==> combine_error(s1.model(), s2.model(), e@, names_checked),
    decreases s1.model(), 0nat,
{
    let ghost a = s1.model();
    let ghost b = s2.model();
    let ghost m1 = s1.attributes@;
    let ghost m2 = s2.attributes@;
    assert(a == TypeModel::Struct {
        name: texts(s1.name@),
        attributes: m1,
        additional: match s1.additional_attributes {
            Some(t) => Some(Box::new(t@)),
            None => None,
        },
    });
    assert(b == TypeModel::Struct {
        name: texts(s2.name@),
        attributes: m2,
        additional: match s2.additional_attributes {
            Some(t) => Some(Box::new(t@)),
            None => None,
        },
    });
    if names_checked && !same_texts(&s2.name, &s1.name) {
        let message = name_mismatch_message(&s2.name, &s1.name);
        return Err(DeduceTypeError::unexpected(message.as_str()));
    }
    let name = copy_texts(&s1.name);
    let mut attributes = s1.attributes.duplicate();
    let n = s2.attributes.len();
    let ghost names2 = s2.attributes.names();
    proof {
        assert(m1 =~= merged_prefix(m1, m2, names2.take(0)));
    }
    for i in 0..n
        invariant
            n == names2.len(),
            names2 == s2.attributes.names(),
            names2.to_set() == m2.dom(),
            m1 == s1.attributes@,
            m2 == s2.attributes@,
            a == s1.model(),
            names_checked ==> texts(s1.name@) == texts(s2.name@),
            attributes@ == merged_prefix(m1, m2, names2.take(i as int)),
            forall|j: int|
                0 <= j < i && #[trigger] m1.dom().contains(names2[j]) ==> combinable(
                    m1[names2[j]].inner,
                    m2[names2[j]].inner,
                    names_checked,
                ),
    {
        let (key, a2) = s2.attributes.entry(i);
        proof {
            assert(names2.take(i + 1) =~= names2.take(i as int).push(names2[i as int]));
            lemma_merged_step(m1, m2, names2.take(i as int), key@);
        }
        match s1.attributes.get(key) {
            Some(a1) => {
                proof {
                    assert(decreases_to!(a => m1));
                    assert(decreases_to!(m1 => m1[key@]));
                }
                let inner = match combine_in(&a1.inner_type, &a2.inner_type, names_checked) {
                    Ok(t) => t,
                    Err(e) => {
                        proof {
                            assert(m1.dom().contains(key@) && m2.dom().contains(key@));
                            assert(!combinable(a, b, names_checked));
                            assert(combine_error(a, b, e@, names_checked));
                        }
                        return Err(e);
                    },
                };
                let attribute = StructAttribute {
                    inner_type: inner,
                    is_optional: a1.is_optional && a2.is_optional,
                };
                attributes.insert(key.clone(), attribute);
            },
            None => {
                attributes.insert(key.clone(), a2.duplicate());
            },
        }
    }
    proof {
        assert(names2.take(n as int) =~= names2);
        assert forall|k: Seq<char>| m1.dom().contains(k) && m2.dom().contains(k) implies combinable(
            #[trigger] m1[k].inner,
            m2[k].inner,
            names_checked,
        ) by {
            assert(names2.contains(k));
            let j = names2.index_of(k);
            assert(m1.dom().contains(names2[j]));
        }
    }
    let additional = match (&s1.additional_attributes, &s2.additional_attributes) {
        (Some(t1), Some(t2)) => {
            proof {
                assert(decreases_to!(a => a->additional));
            }
            match combine_in(t1, t2, names_checked) {
                Ok(t) => Some(t),
                Err(e) => {
                    return Err(e);
                },
            }
        },
        (Some(t1), None) => Some(t1.duplicate()),
        (None, Some(t2)) => Some(t2.duplicate()),
        (None, None) => None,
    };
    let r = DeducedType::Struct(
        Box::new(
            StructType { name, attributes, additional_attributes: additional },
        ),
    );
    proof {
        if let (TypeModel::Struct { attributes: ra, .. }, TypeModel::Struct { attributes: ca, .. }) = (
            r@,
            combined(a, b),
        ) {
            assert(ra =~= ca);
        }
    }
    Ok(r)
}

/// `Any` is neutral for combination, on either side and whether or not the
/// names of structs are checked: combining it with a type gives that type.
pub proof fn lemma_any_is_neutral(t: TypeModel, names_checked: bool)
    ensures
        combinable(TypeModel::Any, t, names_checked),
        combined(TypeModel::Any, t) == t,
        combinable(t, TypeModel::Any, names_checked),
        combined(t, TypeModel::Any) == t,
{
}

/// Combination does not depend on the order of its arguments: two types can
/// be combined one way exactly when they can the other way, whether or not
/// names are checked; where they can with names checked, both ways give the
/// same type.
pub proof fn lemma_combine_commutes(a: TypeModel, b: TypeModel, names_checked: bool)
    ensures
        combinable(a, b, names_checked) == combinable(b, a, names_checked),
        combinable(a, b, true) ==> combined(a, b) == combined(b, a),
    decreases a,
{
    match (a, b) {
        (
            TypeModel::Struct { name: n1, attributes: m1, additional: x1 },
            TypeModel::Struct { name: n2, attributes: m2, additional: x2 },
        ) => {
            assert forall|k: Seq<char>| m1.dom().contains(k) && m2.dom().contains(k) implies {
                &&& combinable(#[trigger] m1[k].inner, #[trigger] m2[k].inner, names_checked)
                    == combinable(m2[k].inner, m1[k].inner, names_checked)
                &&& combinable(m1[k].inner, m2[k].inner, true) ==> combined(m1[k].inner, m2[k].inner)
                    == combined(m2[k].inner, m1[k].inner)
            } by {
                lemma_combine_commutes(m1[k].inner, m2[k].inner, names_checked);
            }
            if let (Some(t1), Some(t2)) = (x1, x2) {
                lemma_combine_commutes(*t1, *t2, names_checked);
            }
            if combinable(a, b, true) {
                if let (
                    TypeModel::Struct { attributes: r1, .. },
                    TypeModel::Struct { attributes: r2, .. },
                ) = (combined(a, b), combined(b, a)) {
                    assert(r1 =~= r2);
                }
            }
        },
        _ => {},
    }
}

/// Combining two structs gives a struct of the first one's name with the
/// attributes of either. An attribute of only one keeps its type and flag.
/// An attribute of both is optional exactly when it is optional in both,
/// whatever additional attributes either struct allows, and has the
/// combination of the two types. The additional attributes are those of
/// whichever struct gives them, combined where both do.
pub proof fn lemma_struct_combination(a: TypeModel, b: TypeModel, k: Seq<char>)
    requires
        a is Struct,
        b is Struct,
    ensures
        ({
            let (m1, m2) = (a->Struct_attributes, b->Struct_attributes);
            let (x1, x2) = (a->Struct_additional, b->Struct_additional);
            let c = combined(a, b);
            &&& c is Struct
            &&& c->Struct_name == a->Struct_name
            &&& c->Struct_attributes.dom().contains(k) == (m1.dom().contains(k) || m2.dom().contains(k))
            &&& m1.dom().contains(k) && m2.dom().contains(k) ==> {
                &&& c->Struct_attributes[k].optional == (m1[k].optional && m2[k].optional)
                &&& c->Struct_attributes[k].inner == combined(m1[k].inner, m2[k].inner)
            }
            &&& m1.dom().contains(k) && !m2.dom().contains(k) ==> c->Struct_attributes[k] == m1[k]
            &&& !m1.dom().contains(k) && m2.dom().contains(k) ==> c->Struct_attributes[k] == m2[k]
            &&& x1 is None ==> c->Struct_additional == x2
            &&& x2 is None ==> c->Struct_additional == x1
            &&& (x1 is Some && x2 is Some) ==> c->Struct_additional == Some(
                Box::new(combined(*x1->0, *x2->0)),
            )
        }),
{
}

/// Types that can be combined with the names of structs checked can also be
/// combined without the check; [`combined`] gives the same type either way.
pub proof fn lemma_checked_names_are_stricter(a: TypeModel, b: TypeModel)
    ensures
        combinable(a, b, true) ==> combinable(a, b, false),
    decreases a,
{
    match (a, b) {
        (
            TypeModel::Struct { attributes: m1, additional: x1, .. },
            TypeModel::Struct { attributes: m2, additional: x2, .. },
        ) => {
            assert forall|k: Seq<char>| m1.dom().contains(k) && m2.dom().contains(k) implies
                combinable(#[trigger] m1[k].inner, #[trigger] m2[k].inner, true) ==> combinable(
                m1[k].inner,
                m2[k].inner,
                false,
            ) by {
                lemma_checked_names_are_stricter(m1[k].inner, m2[k].inner);
            }
            if let (Some(t1), Some(t2)) = (x1, x2) {
                lemma_checked_names_are_stricter(*t1, *t2);
            }
        },
        _ => {},
    }
}

/// An error of combination is only ever reported for types that cannot be
/// combined.
pub proof fn lemma_error_only_when_not_combinable(
    a: TypeModel,
    b: TypeModel,
    e: ErrorModel,
    names_checked: bool,
)
    requires
        combine_error(a, b, e, names_checked),
    ensures
        !combinable(a, b, names_checked),
    decreases a,
{
    match (a, b) {
        (
            TypeModel::Struct { name: n1, attributes: m1, additional: x1 },
            TypeModel::Struct { name: n2, attributes: m2, additional: x2 },
        ) => {
            if !(names_checked && n1 != n2) {
                if exists|k: Seq<char>|
                    #![trigger m1[k], m2[k]]
                    m1.dom().contains(k) && m2.dom().contains(k) && combine_error(
                        m1[k].inner,
                        m2[k].inner,
                        e,
                        names_checked,
                    ) {
                    let k = choose|k: Seq<char>|
                        #![trigger m1[k], m2[k]]
                        m1.dom().contains(k) && m2.dom().contains(k) && combine_error(
                            m1[k].inner,
                            m2[k].inner,
                            e,
                            names_checked,
                        );
                    lemma_error_only_when_not_combinable(m1[k].inner, m2[k].inner, e, names_checked);
                } else if let (Some(t1), Some(t2)) = (x1, x2) {
                    lemma_error_only_when_not_combinable(*t1, *t2, e, names_checked);
                }
            }
        },
        _ => {},
    }
}

impl DeducedType {
    /// Combines this type with `other` without checking the names of structs:
    /// two structs merge under the name of this one, `Any` gives way to the
    /// other type, and any other pair fails with the fixed
    /// [`case_not_implemented_text`].
    pub fn combine(&self, other: &DeducedType) -> (r: DeduceTypeResult<DeducedType>)
        ensures
            r is Ok <==> combinable(self@, other@, false),
            r matches Ok(t) ==> t@ == combined(self@, other@),
            r matches Err(e) ==> combine_error(self@, other@, e@, false),
            !(*self is Struct && *other is Struct) && !(*self is Any) && !(*other is Any) ==> (r matches Err(
                e,
            ) && e@ == ErrorModel::NotImplemented(case_not_implemented_text())),
    {
        combine_in(self, other, false)
    }
}

} // verus!
