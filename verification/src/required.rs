use vstd::prelude::*;

use crate::data::{AttrModel, Attributes, DeducedType, StructAttribute, StructType, TypeModel};
use crate::deduce::DeduceType;
use crate::error::DeduceTypeResult;
use crate::json::{JsonModel, JsonValue};
use crate::paths::Location;
use crate::text::{copy_texts, lemma_push_contains, texts};
use crate::tools::{combinable, combined};
use crate::validation::{JsonType, ValidationError, ValidationErrorKind};

verus! {

/// The `required` keyword with several names: an object must have a property
/// of each name.
#[derive(Debug, PartialEq)]
pub struct RequiredValidator {
    pub required: Vec<String>,
    pub location: Location,
}

/// The `required` keyword with a single name.
#[derive(Debug, PartialEq)]
pub struct SingleItemRequiredValidator {
    pub value: String,
    pub location: Location,
}

/// A compiled `required` keyword.
#[derive(Debug, PartialEq)]
pub enum CompiledRequired {
    Single(SingleItemRequiredValidator),
    Many(RequiredValidator),
}

/// The result of compiling a keyword: its validator, or the error in the
/// schema.
pub type CompilationResult<'a> = Result<CompiledRequired, ValidationError<'a>>;

/// Every item is a JSON string.
pub open spec fn all_strings(items: Seq<JsonValue>) -> bool {
    forall|i: int| 0 <= i < items.len() ==> #[trigger] items[i] is String
}

/// The texts of a list of JSON strings.
pub open spec fn string_texts(items: Seq<JsonValue>) -> Seq<Seq<char>> {
    Seq::new(items.len(), |i: int| items[i]->String_0@)
}

/// `j` is the position of the first item that is not a JSON string.
pub open spec fn first_non_string(items: Seq<JsonValue>, j: int) -> bool {
    &&& 0 <= j < items.len()
    &&& !(items[j] is String)
    &&& forall|i: int| 0 <= i < j ==> #[trigger] items[i] is String
}

/// `e` reports that `instance`, found at `location` of the schema, is not of
/// the kind `expected`.
pub open spec fn is_type_error<'a>(
    e: ValidationError<'a>,
    location: Seq<Seq<char>>,
    instance: JsonValue,
    expected: JsonType,
) -> bool {
    &&& e.schema_path@ == location
    &&& e.evaluation_path@ == location
    &&& e.instance_path@ == Seq::<Seq<char>>::empty()
    &&& *e.instance == instance
    &&& e.kind == ValidationErrorKind::Type { expected }
}

/// `e` reports that `instance`, found at `instance_path`, lacks the property
/// `name` that the keyword at `location` requires.
pub open spec fn is_required_error<'a>(
    e: ValidationError<'a>,
    location: Seq<Seq<char>>,
    instance_path: Seq<Seq<char>>,
    instance: JsonValue,
    name: Seq<char>,
) -> bool {
    &&& e.schema_path@ == location
    &&& e.evaluation_path@ == location
    &&& e.instance_path@ == instance_path
    &&& *e.instance == instance
    &&& e.kind matches ValidationErrorKind::Required { property }
    &&& property@ == JsonModel::String(name)
}

/// What compiling a list of names gives: the validator of those names when
/// each item is a string, else the error for the first item that is not.
pub open spec fn compiled_list<'a>(
    r: CompilationResult<'a>,
    items: Seq<JsonValue>,
    location: Seq<Seq<char>>,
) -> bool {
    if all_strings(items) {
        &&& r matches Ok(CompiledRequired::Many(v))
        &&& texts(v.required@) == string_texts(items)
        &&& v.location@ == location
    } else {
        &&& r matches Err(e)
        &&& exists|j: int| first_non_string(items, j) && is_type_error(e, location, items[j], JsonType::String)
    }
}

/// The keys of an object instance; other values have none.
pub open spec fn instance_keys(instance: JsonModel) -> Set<Seq<char>> {
    match instance {
        JsonModel::Object(m) => m.dom(),
        _ => Set::empty(),
    }
}

/// The names, in order, that the keys lack.
pub open spec fn missing_names(names: Seq<Seq<char>>, keys: Set<Seq<char>>) -> Seq<Seq<char>>
    decreases names.len(),
{
    if names.len() == 0 {
        Seq::empty()
    } else if keys.contains(names.last()) {
        missing_names(names.drop_last(), keys)
    } else {
        missing_names(names.drop_last(), keys).push(names.last())
    }
}

/// The names an instance lacks: none for a value that is not an object.
pub open spec fn lacking(names: Seq<Seq<char>>, instance: JsonModel) -> Seq<Seq<char>> {
    if instance is Object {
        missing_names(names, instance_keys(instance))
    } else {
        Seq::empty()
    }
}

/// The quick check of the keyword: an object has at least as many members as
/// there are names, and a property of each name; any other value passes.
pub open spec fn passes_quick_check(names: Seq<Seq<char>>, instance: JsonModel) -> bool {
    match instance {
        JsonModel::Object(m) => m.dom().len() >= names.len() && forall|i: int|
            0 <= i < names.len() ==> m.dom().contains(#[trigger] names[i]),
        _ => true,
    }
}

/// The struct type that the keyword deduces: named `name`, with an attribute
/// of type `Any`, not optional, for each required name, and no other
/// attribute.
pub open spec fn required_struct(name: Seq<Seq<char>>, names: Seq<Seq<char>>) -> TypeModel {
    TypeModel::Struct {
        name,
        attributes: Map::new(
            |k: Seq<char>| names.contains(k),
            |k: Seq<char>| AttrModel { inner: TypeModel::Any, optional: false },
        ),
        additional: None,
    }
}

/// The errors reported for each name in `names`, in order.
pub open spec fn reports<'a>(
    errors: Seq<ValidationError<'a>>,
    names: Seq<Seq<char>>,
    location: Seq<Seq<char>>,
    instance_path: Seq<Seq<char>>,
    instance: JsonValue,
) -> bool {
    &&& errors.len() == names.len()
    &&& forall|i: int|
        0 <= i < errors.len() ==> is_required_error(
            #[trigger] errors[i],
            location,
            instance_path,
            instance,
            names[i],
        )
}

/// Adds to `errors` the error that `instance` lacks `name`.
fn report_missing<'i>(
    errors: &mut Vec<ValidationError<'i>>,
    location: &Location,
    instance_path: &Location,
    instance: &'i JsonValue,
    name: &String,
)
    ensures
        final(errors)@.len() == old(errors)@.len() + 1,
        final(errors)@.take(old(errors)@.len() as int) == old(errors)@,
        is_required_error(
            final(errors)@.last(),
            location@,
            instance_path@,
            *instance,
            name@,
        ),
{
    let e = ValidationError::required(
        location.duplicate(),
        location.duplicate(),
        instance_path.duplicate(),
        instance,
        JsonValue::String(name.clone()),
    );
    errors.push(e);
    assert(errors@.take(old(errors)@.len() as int) =~= old(errors)@);
}

impl RequiredValidator {
    /// Compiles the list of `items` that the keyword holds: each must be a
    /// string.
    pub fn compile(items: &[JsonValue], location: Location) -> (r: CompilationResult<'_>)
        ensures
            compiled_list(r, items@, location@),
    {
        let mut required: Vec<String> = Vec::new();
        let n = items.len();
        for i in 0..n
            invariant
                n == items@.len(),
                forall|j: int| 0 <= j < i ==> #[trigger] items@[j] is String,
                required@.len() == i,
                texts(required@) == string_texts(items@.take(i as int)),
        {
            match &items[i] {
                JsonValue::String(s) => {
                    let ghost before = required@;
                    required.push(s.clone());
                    proof {
                        assert(items@[i as int] == JsonValue::String(*s));
                        assert forall|j: int| 0 <= j < i implies texts(required@)[j] == string_texts(
                            items@.take(i + 1),
                        )[j] by {
                            assert(required@[j] == before[j]);
                            assert(texts(before)[j] == string_texts(items@.take(i as int))[j]);
                            assert(items@.take(i + 1)[j] == items@[j]);
                            assert(items@.take(i as int)[j] == items@[j]);
                        }
                        assert(texts(required@) =~= string_texts(items@.take(i + 1)));
                    }
                },
                _ => {
                    let e = ValidationError::single_type_error(
                        location.duplicate(),
                        location,
                        Location::new(),
                        &items[i],
                        JsonType::String,
                    );
                    proof {
                        assert(first_non_string(items@, i as int));
                    }
                    return Err(e);
                },
            }
        }
        proof {
            assert(items@.take(n as int) =~= items@);
        }
        Ok(CompiledRequired::Many(RequiredValidator { required, location }))
    }

    /// Whether `instance` passes the quick check of the keyword.
    pub fn is_valid(&self, instance: &JsonValue) -> (r: bool)
        ensures
            r == passes_quick_check(texts(self.required@), instance@),
    {
        if let JsonValue::Object(item) = instance {
            if item.len() < self.required.len() {
                return false;
            }
            let n = self.required.len();
            for i in 0..n
                invariant
                    n == self.required@.len(),
                    instance@ == JsonModel::Object(item.members()),
                    forall|j: int|
                        0 <= j < i ==> item.members().dom().contains(
                            #[trigger] texts(self.required@)[j],
                        ),
            {
                if !item.contains_key(&self.required[i]) {
                    assert(!item.members().dom().contains(texts(self.required@)[i as int]));
                    return false;
                }
            }
            true
        } else {
            true
        }
    }

    /// Checks `instance`, found at `location`: an object must have a property
    /// of each name; the error reports the first name it lacks.
    pub fn validate<'i>(&self, instance: &'i JsonValue, location: &Location) -> (r: Result<
        (),
        ValidationError<'i>,
    >)
        ensures
            r is Ok <==> lacking(texts(self.required@), instance@).len() == 0,
            r matches Err(e) ==> is_required_error(
                e,
                self.location@,
                location@,
                *instance,
                lacking(texts(self.required@), instance@)[0],
            ),
    {
        let mut errors = self.iter_errors(instance, location);
        if errors.len() == 0 {
            Ok(())
        } else {
            Err(errors.swap_remove(0))
        }
    }

    /// Every error of `instance`, found at `location`: one for each name it
    /// lacks, in the order of the names.
    pub fn iter_errors<'i>(&self, instance: &'i JsonValue, location: &Location) -> (r: Vec<
        ValidationError<'i>,
    >)
        ensures
            reports(
                r@,
                lacking(texts(self.required@), instance@),
                self.location@,
                location@,
                *instance,
            ),
    {
        let mut errors: Vec<ValidationError<'i>> = Vec::new();
        if let JsonValue::Object(item) = instance {
            let ghost names = texts(self.required@);
            let ghost keys = item.members().dom();
            let n = self.required.len();
            proof {
                assert(names.take(0) =~= Seq::<Seq<char>>::empty());
            }
            for i in 0..n
                invariant
                    n == self.required@.len(),
                    names == texts(self.required@),
                    keys == item.members().dom(),
                    instance@ == JsonModel::Object(item.members()),
                    reports(
                        errors@,
                        missing_names(names.take(i as int), keys),
                        self.location@,
                        location@,
                        *instance,
                    ),
            {
                proof {
                    assert(names.take(i + 1).drop_last() =~= names.take(i as int));
                    assert(names.take(i + 1).last() == self.required@[i as int]@);
                }
                if !item.contains_key(&self.required[i]) {
                    let ghost before = errors@;
                    report_missing(&mut errors, &self.location, location, instance, &self.required[i]);
                    proof {
                        let m = missing_names(names.take(i + 1), keys);
                        assert forall|j: int| 0 <= j < errors@.len() implies is_required_error(
                            #[trigger] errors@[j],
                            self.location@,
                            location@,
                            *instance,
                            m[j],
                        ) by {
                            if j < before.len() {
                                assert(errors@[j] == errors@.take(before.len() as int)[j]);
                            }
                        }
                    }
                }
            }
            proof {
                assert(names.take(n as int) =~= names);
            }
        }
        errors
    }
}

impl DeduceType for RequiredValidator {
    /// A struct named `name` with an attribute of type `Any`, not optional,
    /// for each required name.
    fn deduce_type(&self, name: &[String]) -> (r: DeduceTypeResult<DeducedType>)
        ensures
            r matches Ok(t) && t@ == required_struct(texts(name@), texts(self.required@)),
    {
        let mut attributes = Attributes::new();
        let n = self.required.len();
        let ghost names = texts(self.required@);
        for i in 0..n
            invariant
                n == self.required@.len(),
                names == texts(self.required@),
                attributes@ == Map::new(
                    |k: Seq<char>| names.take(i as int).contains(k),
                    |k: Seq<char>| AttrModel { inner: TypeModel::Any, optional: false },
                ),
        {
            attributes.insert(
                self.required[i].clone(),
                StructAttribute { inner_type: DeducedType::Any, is_optional: false },
            );
            proof {
                assert(names.take(i + 1) =~= names.take(i as int).push(names[i as int]));
                let target = Map::new(
                    |k: Seq<char>| names.take(i + 1).contains(k),
                    |k: Seq<char>| AttrModel { inner: TypeModel::Any, optional: false },
                );
                assert forall|k: Seq<char>| #[trigger] attributes@.dom().contains(k)
                    == target.dom().contains(k) by {
                    lemma_push_contains(names.take(i as int), names[i as int], k);
                }
                assert(attributes@ =~= Map::new(
                    |k: Seq<char>| names.take(i + 1).contains(k),
                    |k: Seq<char>| AttrModel { inner: TypeModel::Any, optional: false },
                ));
            }
        }
        proof {
            assert(names.take(n as int) =~= names);
        }
        let r = DeducedType::Struct(
            Box::new(
                StructType { name: copy_texts(name), attributes, additional_attributes: None },
            ),
        );
        Ok(r)
    }
}



impl SingleItemRequiredValidator {
    /// Compiles the keyword for the single name `value`.
    pub fn compile(value: &str, location: Location) -> (r: CompilationResult<'_>)
        ensures
            r matches Ok(CompiledRequired::Single(v)) && v.value@ == value@ && v.location@
                == location@,
    {
        Ok(CompiledRequired::Single(SingleItemRequiredValidator { value: value.to_owned(), location }))
    }

    /// Whether `instance` passes the quick check of the keyword: an object
    /// must have a property of the name.
    pub fn is_valid(&self, instance: &JsonValue) -> (r: bool)
        ensures
            r == passes_quick_check(seq![self.value@], instance@),
    {
        if let JsonValue::Object(item) = instance {
            if item.is_empty() {
                return false;
            }
            let r = item.contains_key(&self.value);
            proof {
                if r {
                    assert(seq![self.value@][0] == self.value@);
                }
            }
            r
        } else {
            true
        }
    }

    /// Checks `instance`, found at `location`: an object must have a property
    /// of the name.
    pub fn validate<'i>(&self, instance: &'i JsonValue, location: &Location) -> (r: Result<
        (),
        ValidationError<'i>,
    >)
        ensures
            r is Ok <==> lacking(seq![self.value@], instance@).len() == 0,
            r matches Err(e) ==> is_required_error(
                e,
                self.location@,
                location@,
                *instance,
                lacking(seq![self.value@], instance@)[0],
            ),
    {
        proof {
            lemma_single_name(self.value@, *instance);
        }
        if !self.is_valid(instance) {
            return Err(
                ValidationError::required(
                    self.location.duplicate(),
                    self.location.duplicate(),
                    location.duplicate(),
                    instance,
                    JsonValue::String(self.value.clone()),
                ),
            );
        }
        Ok(())
    }

    /// Every error of `instance`, found at `location`: the one that
    /// [`Self::validate`] reports, if any.
    pub fn iter_errors<'i>(&self, instance: &'i JsonValue, location: &Location) -> (r: Vec<
        ValidationError<'i>,
    >)
        ensures
            reports(r@, lacking(seq![self.value@], instance@), self.location@, location@, *instance),
    {
        proof {
            lemma_single_name(self.value@, *instance);
        }
        match self.validate(instance, location) {
            Ok(()) => Vec::new(),
            Err(e) => {
                let mut errors = Vec::new();
                errors.push(e);
                errors
            },
        }
    }
}

impl DeduceType for SingleItemRequiredValidator {
    /// A struct named `name` with one attribute, of the required name, of
    /// type `Any` and not optional.
    fn deduce_type(&self, name: &[String]) -> (r: DeduceTypeResult<DeducedType>)
        ensures
            r matches Ok(t) && t@ == required_struct(texts(name@), seq![self.value@]),
    {
        let mut attributes = Attributes::new();
        attributes.insert(
            self.value.clone(),
            StructAttribute { inner_type: DeducedType::Any, is_optional: false },
        );
        let r = DeducedType::Struct(
            Box::new(
                StructType { name: copy_texts(name), attributes, additional_attributes: None },
            ),
        );
        proof {
            if let TypeModel::Struct { attributes: a, .. } = r@ {
                if let TypeModel::Struct { attributes: b, .. } = required_struct(
                    texts(name@),
                    seq![self.value@],
                ) {
                    assert forall|k: Seq<char>| #[trigger] a.dom().contains(k) == b.dom().contains(
                        k,
                    ) by {
                        if k == self.value@ {
                            assert(seq![self.value@][0] == k);
                        }
                    }
                    assert(a =~= b);
                }
            }
        }
        Ok(r)
    }
}

/// The names a compiled keyword requires.
pub open spec fn required_names(v: CompiledRequired) -> Seq<Seq<char>> {
    match v {
        CompiledRequired::Single(s) => seq![s.value@],
        CompiledRequired::Many(m) => texts(m.required@),
    }
}

/// Where the compiled keyword stands in its schema.
pub open spec fn keyword_location(v: CompiledRequired) -> Seq<Seq<char>> {
    match v {
        CompiledRequired::Single(s) => s.location@,
        CompiledRequired::Many(m) => m.location@,
    }
}

impl CompiledRequired {
    /// Whether `instance` passes the quick check of the keyword.
    pub fn is_valid(&self, instance: &JsonValue) -> (r: bool)
        ensures
            r == passes_quick_check(required_names(*self), instance@),
    {
        match self {
            CompiledRequired::Single(v) => v.is_valid(instance),
            CompiledRequired::Many(v) => v.is_valid(instance),
        }
    }

    /// Checks `instance`, found at `location`; the error reports the first
    /// name it lacks.
    pub fn validate<'i>(&self, instance: &'i JsonValue, location: &Location) -> (r: Result<
        (),
        ValidationError<'i>,
    >)
        ensures
            r is Ok <==> lacking(required_names(*self), instance@).len() == 0,
            r matches Err(e) ==> is_required_error(
                e,
                keyword_location(*self),
                location@,
                *instance,
                lacking(required_names(*self), instance@)[0],
            ),
    {
        match self {
            CompiledRequired::Single(v) => v.validate(instance, location),
            CompiledRequired::Many(v) => v.validate(instance, location),
        }
    }

    /// Every error of `instance`, found at `location`: one for each name it
    /// lacks, in order.
    pub fn iter_errors<'i>(&self, instance: &'i JsonValue, location: &Location) -> (r: Vec<
        ValidationError<'i>,
    >)
        ensures
            reports(
                r@,
                lacking(required_names(*self), instance@),
                keyword_location(*self),
                location@,
                *instance,
            ),
    {
        match self {
            CompiledRequired::Single(v) => v.iter_errors(instance, location),
            CompiledRequired::Many(v) => v.iter_errors(instance, location),
        }
    }

    /// The struct type that the keyword deduces, named `name`.
    pub fn deduce_type(&self, name: &[String]) -> (r: DeduceTypeResult<DeducedType>)
        ensures
            r matches Ok(t) && t@ == required_struct(texts(name@), required_names(*self)),
    {
        match self {
            CompiledRequired::Single(v) => v.deduce_type(name),
            CompiledRequired::Many(v) => v.deduce_type(name),
        }
    }
}

/// What compiling the keyword's value `schema` at `location` gives: for an
/// array of one string, the validator of that name; for one item that is not
/// a string, the error for it; for any other array, what [`compiled_list`]
/// says; for a value that is not an array, the error for it.
pub open spec fn compiled_keyword<'a>(
    r: CompilationResult<'a>,
    schema: JsonValue,
    location: Seq<Seq<char>>,
) -> bool {
    match schema {
        JsonValue::Array(items) => if items@.len() == 1 {
            if items@[0] is String {
                &&& r matches Ok(CompiledRequired::Single(v))
                &&& v.value@ == items@[0]->String_0@
                &&& v.location@ == location
            } else {
                &&& r matches Err(e)
                &&& is_type_error(e, location, items@[0], JsonType::String)
            }
        } else {
            compiled_list(r, items@, location)
        },
        _ => {
            &&& r matches Err(e)
            &&& is_type_error(e, location, schema, JsonType::Array)
        },
    }
}

/// Compiles the `required` keyword whose value is `schema`, standing at
/// `location`.
pub fn compile_with_path(schema: &JsonValue, location: Location) -> (r: Option<
    CompilationResult<'_>,
>)
    ensures
        r matches Some(c) && compiled_keyword(c, *schema, location@),
{
    match schema {
        JsonValue::Array(items) => {
            if items.len() == 1 {
                let item = &items[0];
                if let JsonValue::String(name) = item {
                    Some(SingleItemRequiredValidator::compile(name.as_str(), location))
                } else {
                    Some(
                        Err(
                            ValidationError::single_type_error(
                                location.duplicate(),
                                location,
                                Location::new(),
                                item,
                                JsonType::String,
                            ),
                        ),
                    )
                }
            } else {
                Some(RequiredValidator::compile(items.as_slice(), location))
            }
        },
        _ => Some(
            Err(
                ValidationError::single_type_error(
                    location.duplicate(),
                    location,
                    Location::new(),
                    schema,
                    JsonType::Array,
                ),
            ),
        ),
    }
}

/// Compiles the `required` keyword whose value is `schema`, in the schema
/// that stands at `context`: the keyword stands at `context` joined with
/// `required`.
pub fn compile<'a>(context: &Location, schema: &'a JsonValue) -> (r: Option<CompilationResult<'a>>)
    ensures
        r matches Some(c) && compiled_keyword(c, *schema, context@.push("required"@)),
{
    let location = context.join("required");
    compile_with_path(schema, location)
}

/// For a single name the member count adds nothing to the quick check, and
/// the names lacked are that name or none: the keyword of one name checks
/// what the keyword of a list of that one name checks.
pub proof fn lemma_single_name(name: Seq<char>, instance: JsonValue)
    ensures
        passes_quick_check(seq![name], instance@) == (lacking(seq![name], instance@).len() == 0),
        lacking(seq![name], instance@).len() == 0 <==> (instance@ is Object ==> instance_keys(
            instance@,
        ).contains(name)),
        lacking(seq![name], instance@).len() <= 1,
        lacking(seq![name], instance@).len() != 0 ==> lacking(seq![name], instance@)[0] == name,
{
    let s = seq![name];
    assert(s.drop_last() =~= Seq::<Seq<char>>::empty());
    assert(s.last() == name);
    if let JsonValue::Object(o) = instance {
        o.lemma_members_finite();
        let keys = o.members().dom();
        if keys.contains(name) {
            assert(keys.len() >= 1) by {
                vstd::set_lib::lemma_set_empty_equivalency_len(keys);
            }
        }
        assert(missing_names(s.drop_last(), keys) =~= Seq::<Seq<char>>::empty());
    }
}

/// The names an instance lacks are the names it lacks a property of, in
/// order: there are none exactly when an object has a property of each name,
/// or the instance is not an object.
pub proof fn lemma_lacking(names: Seq<Seq<char>>, instance: JsonModel)
    ensures
        lacking(names, instance).len() == 0 <==> (instance is Object ==> forall|i: int|
            0 <= i < names.len() ==> instance_keys(instance).contains(#[trigger] names[i])),
        forall|n: Seq<char>|
            #[trigger] lacking(names, instance).contains(n) <==> instance is Object
                && names.contains(n) && !instance_keys(instance).contains(n),
{
    if instance is Object {
        lemma_missing_names(names, instance_keys(instance));
    }
}

/// The names missing from `keys` are those of `names` that `keys` lacks.
proof fn lemma_missing_names(names: Seq<Seq<char>>, keys: Set<Seq<char>>)
    ensures
        missing_names(names, keys).len() == 0 <==> forall|i: int|
            0 <= i < names.len() ==> keys.contains(#[trigger] names[i]),
        forall|n: Seq<char>|
            #[trigger] missing_names(names, keys).contains(n) <==> names.contains(n)
                && !keys.contains(n),
    decreases names.len(),
{
    if names.len() > 0 {
        let t = names.drop_last();
        lemma_missing_names(t, keys);
        assert(names =~= t.push(names.last()));
        assert forall|n: Seq<char>| #[trigger] missing_names(names, keys).contains(n) <==> names.contains(n)
            && !keys.contains(n) by {
            lemma_push_contains(t, names.last(), n);
            lemma_push_contains(missing_names(t, keys), names.last(), n);
        }
        if forall|i: int| 0 <= i < t.len() ==> keys.contains(#[trigger] t[i]) {
            if keys.contains(names.last()) {
                assert forall|i: int| 0 <= i < names.len() implies keys.contains(#[trigger] names[i]) by {
                    if i < t.len() {
                        assert(names[i] == t[i]);
                    }
                }
            }
        } else {
            let i = choose|i: int| 0 <= i < t.len() && !keys.contains(#[trigger] t[i]);
            assert(names[i] == t[i]);
        }
        if !keys.contains(names.last()) {
            assert(names[names.len() - 1] == names.last());
        }
    }
}

/// The names an object lacks are the required names it has no property of,
/// kept in the order of the list, repeats included, whatever the object
/// holds.
pub proof fn lemma_lacking_in_order(names: Seq<Seq<char>>, instance: JsonModel)
    requires
        instance is Object,
    ensures
        lacking(names, instance) == names.filter(
            |n: Seq<char>| !instance_keys(instance).contains(n),
        ),
    decreases names.len(),
{
    let pred = |n: Seq<char>| !instance_keys(instance).contains(n);
    reveal(Seq::filter);
    if names.len() > 0 {
        lemma_lacking_in_order(names.drop_last(), instance);
        let sub = names.drop_last().filter(pred);
        assert(names.filter(pred) == (if pred(names.last()) {
            sub.push(names.last())
        } else {
            sub
        }));
    } else {
        assert(names.filter(pred) =~= Seq::<Seq<char>>::empty());
    }
}

/// The first name an object lacks, the one that `validate` reports, is the
/// earliest name of the list that the object has no property of.
pub proof fn lemma_first_lacking(names: Seq<Seq<char>>, instance: JsonModel, j: int)
    requires
        instance is Object,
        0 <= j < names.len(),
        !instance_keys(instance).contains(names[j]),
        forall|i: int| 0 <= i < j ==> instance_keys(instance).contains(#[trigger] names[i]),
    ensures
        lacking(names, instance).len() > 0,
        lacking(names, instance)[0] == names[j],
    decreases names.len(),
{
    let keys = instance_keys(instance);
    let t = names.drop_last();
    if j == names.len() - 1 {
        lemma_missing_names(t, keys);
        assert forall|i: int| 0 <= i < t.len() implies keys.contains(#[trigger] t[i]) by {
            assert(t[i] == names[i]);
        }
    } else {
        assert forall|i: int| 0 <= i < j implies keys.contains(#[trigger] t[i]) by {
            assert(t[i] == names[i]);
        }
        assert(t[j] == names[j]);
        lemma_first_lacking(t, instance, j);
    }
}

/// The errors reported for a list of names are none exactly when the list is
/// empty, and the first of them is the one for the first name: what
/// `validate` reports is the first error that `iter_errors` lists.
pub proof fn lemma_first_report<'a>(
    errors: Seq<ValidationError<'a>>,
    names: Seq<Seq<char>>,
    location: Seq<Seq<char>>,
    instance_path: Seq<Seq<char>>,
    instance: JsonValue,
)
    requires
        reports(errors, names, location, instance_path, instance),
    ensures
        errors.len() == 0 <==> names.len() == 0,
        names.len() > 0 ==> is_required_error(errors[0], location, instance_path, instance, names[0]),
{
}

/// Combining a struct with the struct that the `required` keyword deduces
/// for the same name always succeeds; it keeps every attribute of the struct,
/// makes each required attribute not optional, keeps the type the struct
/// gives it, and adds each required name the struct lacks with type `Any`.
pub proof fn lemma_required_refines(s: TypeModel, names: Seq<Seq<char>>)
    requires
        s is Struct,
    ensures
        ({
            let r = required_struct(s->Struct_name, names);
            &&& combinable(s, r, true)
            &&& combined(s, r) matches TypeModel::Struct { name, attributes, additional }
            &&& name == s->Struct_name
            &&& additional == s->Struct_additional
            &&& forall|k: Seq<char>|
                #[trigger] attributes.dom().contains(k) <==> s->Struct_attributes.dom().contains(k)
                    || names.contains(k)
            &&& forall|k: Seq<char>|
                s->Struct_attributes.dom().contains(k) ==> #[trigger] attributes[k].inner
                    == s->Struct_attributes[k].inner
            &&& forall|k: Seq<char>|
                s->Struct_attributes.dom().contains(k) && !names.contains(k) ==> #[trigger] attributes[k]
                    == s->Struct_attributes[k]
            &&& forall|k: Seq<char>|
                names.contains(k) ==> #[trigger] attributes[k] == (if s->Struct_attributes.dom().contains(
                    k,
                ) {
                    AttrModel { inner: s->Struct_attributes[k].inner, optional: false }
                } else {
                    AttrModel { inner: TypeModel::Any, optional: false }
                })
        }),
{
    let r = required_struct(s->Struct_name, names);
    let m1 = s->Struct_attributes;
    if let TypeModel::Struct { attributes: m2, .. } = r {
        assert forall|k: Seq<char>| m1.dom().contains(k) && m2.dom().contains(k) implies combinable(
            #[trigger] m1[k].inner,
            #[trigger] m2[k].inner,
            true,
        ) && combined(m1[k].inner, m2[k].inner) == m1[k].inner by {
            crate::tools::lemma_any_is_neutral(m1[k].inner, true);
        }
    }
}

/// The quick check agrees with [`RequiredValidator::validate`] except for
/// an object that has a property of every name but fewer members than there
/// are names, which only a list that repeats a name allows.
pub proof fn lemma_quick_check_agrees(names: Seq<Seq<char>>, instance: JsonModel)
    requires
        !(instance matches JsonModel::Object(m) && lacking(names, instance).len() == 0
            && m.dom().len() < names.len()),
    ensures
        passes_quick_check(names, instance) == (lacking(names, instance).len() == 0),
{
    lemma_lacking(names, instance);
}

/// For names without repeats, the quick check agrees with
/// [`RequiredValidator::validate`] on every instance.
pub proof fn lemma_quick_check_without_repeats(names: Seq<Seq<char>>, instance: JsonValue)
    requires
        names.no_duplicates(),
    ensures
        passes_quick_check(names, instance@) == (lacking(names, instance@).len() == 0),
{
    lemma_lacking(names, instance@);
    if let JsonValue::Object(o) = instance {
        o.lemma_members_finite();
        let keys = o.members().dom();
        if lacking(names, instance@).len() == 0 {
            assert(names.to_set().subset_of(keys)) by {
                assert forall|n: Seq<char>| names.to_set().contains(n) implies keys.contains(n) by {
                    let i = names.index_of(n);
                    assert(keys.contains(names[i]));
                }
            }
            names.unique_seq_to_set();
            vstd::set_lib::lemma_len_subset(names.to_set(), keys);
        }
    }
}

} // verus!
