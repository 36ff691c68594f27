//! What composition reads of a GraphQL schema document.
//!
//! The types follow those of `apollo_compiler::schema` and hold, as plain values, the parts
//! that the checks look at. Names are strings. A [`SchemaDocument`] carries the schema that it was
//! read from along, for the stages that need all of it.

use crate::collections;
use crate::sequences;
use apollo_compiler::collections::{IndexMap, IndexSet};
use vstd::prelude::*;

verus! {

/// A GraphQL schema document.
pub struct SchemaDocument {
    /// The whole schema, which the checks do not look into.
    pub source: apollo_compiler::Schema,
    pub schema_definition: SchemaDefinition,
    /// The types by name, in document order.
    pub types: IndexMap<String, ExtendedType>,
}

/// The names of the root operation types.
pub struct SchemaDefinition {
    pub query: Option<String>,
    pub mutation: Option<String>,
    pub subscription: Option<String>,
}

/// The definition of a named type, with its extensions folded in.
pub enum ExtendedType {
    Scalar(ScalarType),
    Object(ObjectType),
    Interface(InterfaceType),
    Union(UnionType),
    Enum(EnumType),
    InputObject(InputObjectType),
}

pub struct ScalarType {
    /// Whether the type is a built-in scalar or an introspection type.
    pub built_in: bool,
    pub directives: Vec<Directive>,
}

pub struct ObjectType {
    pub built_in: bool,
    pub directives: Vec<Directive>,
    pub implements_interfaces: IndexSet<String>,
    pub fields: IndexMap<String, FieldDefinition>,
}

pub struct InterfaceType {
    pub built_in: bool,
    pub directives: Vec<Directive>,
    pub implements_interfaces: IndexSet<String>,
    pub fields: IndexMap<String, FieldDefinition>,
}

pub struct UnionType {
    pub built_in: bool,
    pub directives: Vec<Directive>,
    pub members: IndexSet<String>,
}

pub struct EnumType {
    pub built_in: bool,
    pub directives: Vec<Directive>,
}

pub struct InputObjectType {
    pub built_in: bool,
    pub directives: Vec<Directive>,
    pub fields: IndexMap<String, InputValueDefinition>,
}

/// A field of an object or interface type. Its name is its key.
pub struct FieldDefinition {
    pub arguments: Vec<InputValueDefinition>,
    pub ty: Type,
}

/// An argument of a field, or a field of an input object type.
pub struct InputValueDefinition {
    pub name: String,
    pub ty: Type,
}

/// A reference to a type.
pub enum Type {
    Named(String),
    NonNullNamed(String),
    List(Box<Type>),
    NonNullList(Box<Type>),
}

/// A directive applied to a type.
pub struct Directive {
    pub name: String,
    pub arguments: Vec<Argument>,
}

/// An argument of a directive, as specified where the directive is applied.
pub struct Argument {
    pub name: String,
    pub value: Value,
}

/// The value of an argument.
pub enum Value {
    String(String),
    /// Any value that is not a string.
    NotString,
}

/// The kinds of type definitions.
#[derive(Debug, Clone, Copy, PartialEq, Eq, Structural)]
pub enum TypeKind {
    Object,
    Interface,
    Union,
    Enum,
    InputObject,
    Scalar,
}

impl TypeKind {
    /// The name of the kind, as it stands in error messages.
    pub open spec fn name_spec(self) -> Seq<char> {
        match self {
            TypeKind::Object => "Object"@,
            TypeKind::Interface => "Interface"@,
            TypeKind::Union => "Union"@,
            TypeKind::Enum => "Enum"@,
            TypeKind::InputObject => "InputObject"@,
            TypeKind::Scalar => "Scalar"@,
        }
    }

    /// The name of the kind, as it stands in error messages.
    pub fn name(self) -> (r: &'static str)
        ensures
            r@ == self.name_spec(),
    {
        match self {
            TypeKind::Object => "Object",
            TypeKind::Interface => "Interface",
            TypeKind::Union => "Union",
            TypeKind::Enum => "Enum",
            TypeKind::InputObject => "InputObject",
            TypeKind::Scalar => "Scalar",
        }
    }
}

impl Type {
    /// The named type inside the non-null and list markers.
    pub open spec fn inner_name(self) -> Seq<char>
        decreases self,
    {
        match self {
            Type::Named(name) => name@,
            Type::NonNullNamed(name) => name@,
            Type::List(inner) => inner.inner_name(),
            Type::NonNullList(inner) => inner.inner_name(),
        }
    }

    /// The named type inside the non-null and list markers.
    pub fn inner_named_type(&self) -> (r: &String)
        ensures
            r@ == self.inner_name(),
        decreases self,
    {
        match self {
            Type::Named(name) => name,
            Type::NonNullNamed(name) => name,
            Type::List(inner) => inner.inner_named_type(),
            Type::NonNullList(inner) => inner.inner_named_type(),
        }
    }
}

/// The value of the first argument named `name`.
pub open spec fn first_argument(arguments: Seq<Argument>, name: Seq<char>) -> Option<Value>
    decreases arguments.len(),
{
    if arguments.len() == 0 {
        None
    } else if arguments[0].name@ == name {
        Some(arguments[0].value)
    } else {
        first_argument(arguments.drop_first(), name)
    }
}

impl Directive {
    /// The value of the argument named `name`, where the directive specifies it.
    pub fn specified_argument_by_name(&self, name: &str) -> (r: Option<&Value>)
        ensures
            match r {
                Some(value) => first_argument(self.arguments@, name@) == Some(*value),
                None => first_argument(self.arguments@, name@) is None,
            },
            r is None <==> forall|i: int|
                0 <= i < self.arguments@.len() ==> (#[trigger] self.arguments@[i]).name@ != name@,
            r matches Some(value) ==> exists|i: int|
                0 <= i < self.arguments@.len() && (#[trigger] self.arguments@[i]).name@ == name@
                    && self.arguments@[i].value == *value && forall|j: int|
                    0 <= j < i ==> (#[trigger] self.arguments@[j]).name@ != name@,
    {
        let wanted = name.to_owned();
        proof {
            argument_is_first_of_its_name(self.arguments@, name@);
        }
        let mut i: usize = 0;
        assert(self.arguments@.skip(0) =~= self.arguments@);
        while i < self.arguments.len()
            invariant
                i <= self.arguments@.len(),
                wanted@ == name@,
                forall|j: int| 0 <= j < i ==> (#[trigger] self.arguments@[j]).name@ != name@,
                first_argument(self.arguments@, name@) == first_argument(
                    self.arguments@.skip(i as int),
                    name@,
                ),
            decreases self.arguments@.len() - i,
        {
            if self.arguments[i].name == wanted {
                return Some(&self.arguments[i].value);
            }
            assert(self.arguments@.skip(i as int).drop_first() =~= self.arguments@.skip(i + 1));
            i = i + 1;
        }
        None
    }
}

impl ExtendedType {
    pub open spec fn directives_spec(self) -> Seq<Directive> {
        match self {
            ExtendedType::Scalar(ty) => ty.directives@,
            ExtendedType::Object(ty) => ty.directives@,
            ExtendedType::Interface(ty) => ty.directives@,
            ExtendedType::Union(ty) => ty.directives@,
            ExtendedType::Enum(ty) => ty.directives@,
            ExtendedType::InputObject(ty) => ty.directives@,
        }
    }

    pub open spec fn built_in_spec(self) -> bool {
        match self {
            ExtendedType::Scalar(ty) => ty.built_in,
            ExtendedType::Object(ty) => ty.built_in,
            ExtendedType::Interface(ty) => ty.built_in,
            ExtendedType::Union(ty) => ty.built_in,
            ExtendedType::Enum(ty) => ty.built_in,
            ExtendedType::InputObject(ty) => ty.built_in,
        }
    }

    pub open spec fn kind_spec(self) -> TypeKind {
        match self {
            ExtendedType::Scalar(_) => TypeKind::Scalar,
            ExtendedType::Object(_) => TypeKind::Object,
            ExtendedType::Interface(_) => TypeKind::Interface,
            ExtendedType::Union(_) => TypeKind::Union,
            ExtendedType::Enum(_) => TypeKind::Enum,
            ExtendedType::InputObject(_) => TypeKind::InputObject,
        }
    }

    /// The directives applied to the type.
    pub fn directives(&self) -> (r: &Vec<Directive>)
        ensures
            r@ == self.directives_spec(),
            self matches ExtendedType::Scalar(ty) ==> r@ == ty.directives@,
            self matches ExtendedType::Object(ty) ==> r@ == ty.directives@,
            self matches ExtendedType::Interface(ty) ==> r@ == ty.directives@,
            self matches ExtendedType::Union(ty) ==> r@ == ty.directives@,
            self matches ExtendedType::Enum(ty) ==> r@ == ty.directives@,
            self matches ExtendedType::InputObject(ty) ==> r@ == ty.directives@,
    {
        match self {
            ExtendedType::Scalar(ty) => &ty.directives,
            ExtendedType::Object(ty) => &ty.directives,
            ExtendedType::Interface(ty) => &ty.directives,
            ExtendedType::Union(ty) => &ty.directives,
            ExtendedType::Enum(ty) => &ty.directives,
            ExtendedType::InputObject(ty) => &ty.directives,
        }
    }

    /// Whether the type is a built-in scalar or an introspection type.
    pub fn is_built_in(&self) -> (r: bool)
        ensures
            r == self.built_in_spec(),
            self matches ExtendedType::Scalar(ty) ==> r == ty.built_in,
            self matches ExtendedType::Object(ty) ==> r == ty.built_in,
            self matches ExtendedType::Interface(ty) ==> r == ty.built_in,
            self matches ExtendedType::Union(ty) ==> r == ty.built_in,
            self matches ExtendedType::Enum(ty) ==> r == ty.built_in,
            self matches ExtendedType::InputObject(ty) ==> r == ty.built_in,
    {
        match self {
            ExtendedType::Scalar(ty) => ty.built_in,
            ExtendedType::Object(ty) => ty.built_in,
            ExtendedType::Interface(ty) => ty.built_in,
            ExtendedType::Union(ty) => ty.built_in,
            ExtendedType::Enum(ty) => ty.built_in,
            ExtendedType::InputObject(ty) => ty.built_in,
        }
    }

    /// The kind of the type.
    pub fn kind(&self) -> (r: TypeKind)
        ensures
            r == self.kind_spec(),
            r is Scalar <==> self is Scalar,
            r is Object <==> self is Object,
            r is Interface <==> self is Interface,
            r is Union <==> self is Union,
            r is Enum <==> self is Enum,
            r is InputObject <==> self is InputObject,
    {
        match self {
            ExtendedType::Scalar(_) => TypeKind::Scalar,
            ExtendedType::Object(_) => TypeKind::Object,
            ExtendedType::Interface(_) => TypeKind::Interface,
            ExtendedType::Union(_) => TypeKind::Union,
            ExtendedType::Enum(_) => TypeKind::Enum,
            ExtendedType::InputObject(_) => TypeKind::InputObject,
        }
    }
}

impl SchemaDocument {
    /// The types with their names, in document order.
    pub open spec fn entries(self) -> Seq<(Seq<char>, ExtendedType)> {
        collections::type_entries(self.types)
    }

    /// The type named `name`.
    pub open spec fn type_named(self, name: Seq<char>) -> Option<ExtendedType> {
        sequences::lookup(self.entries(), name)
    }
}

/// An argument is found exactly where the directive specifies one of that name, and then it is the
/// first one of that name.
pub proof fn argument_is_first_of_its_name(arguments: Seq<Argument>, name: Seq<char>)
    ensures
        first_argument(arguments, name) is None <==> forall|i: int|
            0 <= i < arguments.len() ==> (#[trigger] arguments[i]).name@ != name,
        forall|i: int|
            0 <= i < arguments.len() && (#[trigger] arguments[i]).name@ == name && (forall|j: int|
                0 <= j < i ==> (#[trigger] arguments[j]).name@ != name) ==> first_argument(
                arguments,
                name,
            ) == Some(arguments[i].value),
    decreases arguments.len(),
{
    if arguments.len() > 0 {
        let rest = arguments.drop_first();
        argument_is_first_of_its_name(rest, name);
        if arguments[0].name@ != name {
            assert forall|i: int| 0 <= i < rest.len() implies #[trigger] rest[i] == arguments[i
                + 1] by {}
            if first_argument(rest, name) is None {
                assert forall|i: int| 0 <= i < arguments.len() implies (
                #[trigger] arguments[i]).name@ != name by {
                    if i > 0 {
                        assert(rest[i - 1] == arguments[i]);
                    }
                }
            } else {
                let k = choose|k: int| 0 <= k < rest.len() && (#[trigger] rest[k]).name@ == name;
                assert(arguments[k + 1].name@ == name);
            }
        }
        assert forall|i: int|
            0 <= i < arguments.len() && (#[trigger] arguments[i]).name@ == name && (forall|j: int|
                0 <= j < i ==> (#[trigger] arguments[j]).name@ != name) implies first_argument(
            arguments,
            name,
        ) == Some(arguments[i].value) by {
            if i > 0 {
                assert(arguments[0].name@ != name);
                assert(rest[i - 1] == arguments[i]);
                assert forall|j: int| 0 <= j < i - 1 implies (#[trigger] rest[j]).name@
                    != name by {
                    assert(arguments[j + 1] == rest[j]);
                }
            }
        }
    }
}

/// Types are of the same kind exactly when they are the same variant, whatever they hold.
pub proof fn same_kind_iff_same_variant(a: ExtendedType, b: ExtendedType)
    ensures
        a.kind_spec() == b.kind_spec() <==> {
            ||| a is Scalar && b is Scalar
            ||| a is Object && b is Object
            ||| a is Interface && b is Interface
            ||| a is Union && b is Union
            ||| a is Enum && b is Enum
            ||| a is InputObject && b is InputObject
        },
        a.kind_spec() is Scalar <==> a is Scalar,
        a.kind_spec() is Object <==> a is Object,
        a.kind_spec() is Interface <==> a is Interface,
        a.kind_spec() is Union <==> a is Union,
        a.kind_spec() is Enum <==> a is Enum,
        a.kind_spec() is InputObject <==> a is InputObject,
{
}

/// Kinds have different names, each its own.
pub proof fn kinds_have_their_names(a: TypeKind, b: TypeKind)
    ensures
        a.name_spec() == b.name_spec() <==> a == b,
        TypeKind::Object.name_spec() == "Object"@,
        TypeKind::Interface.name_spec() == "Interface"@,
        TypeKind::Union.name_spec() == "Union"@,
        TypeKind::Enum.name_spec() == "Enum"@,
        TypeKind::InputObject.name_spec() == "InputObject"@,
        TypeKind::Scalar.name_spec() == "Scalar"@,
{
    reveal_strlit("Object");
    reveal_strlit("Interface");
    reveal_strlit("Union");
    reveal_strlit("Enum");
    reveal_strlit("InputObject");
    reveal_strlit("Scalar");
    assert("Object"@[0] == 'O' && "Interface"@[2] == 't' && "InputObject"@[2] == 'p');
    assert("Union"@[0] == 'U' && "Enum"@[0] == 'E' && "Scalar"@[0] == 'S');
    assert("Interface"@[0] == 'I' && "InputObject"@[0] == 'I');
}

/// List and non-null markers do not change which type is named.
pub proof fn markers_keep_the_named_type(ty: Type, name: String)
    ensures
        Type::Named(name).inner_name() == name@,
        Type::NonNullNamed(name).inner_name() == name@,
        Type::List(Box::new(ty)).inner_name() == ty.inner_name(),
        Type::NonNullList(Box::new(ty)).inner_name() == ty.inner_name(),
{
}

/// A type has the directives, and is built in or not, as its variant says.
pub proof fn parts_are_those_of_the_variant(ty: ExtendedType)
    ensures
        ty matches ExtendedType::Scalar(own) ==> ty.directives_spec() == own.directives@
            && ty.built_in_spec() == own.built_in,
        ty matches ExtendedType::Object(own) ==> ty.directives_spec() == own.directives@
            && ty.built_in_spec() == own.built_in,
        ty matches ExtendedType::Interface(own) ==> ty.directives_spec() == own.directives@
            && ty.built_in_spec() == own.built_in,
        ty matches ExtendedType::Union(own) ==> ty.directives_spec() == own.directives@
            && ty.built_in_spec() == own.built_in,
        ty matches ExtendedType::Enum(own) ==> ty.directives_spec() == own.directives@
            && ty.built_in_spec() == own.built_in,
        ty matches ExtendedType::InputObject(own) ==> ty.directives_spec() == own.directives@
            && ty.built_in_spec() == own.built_in,
{
}

/// A schema has a type of a name exactly where an entry of its map has that name, and then it is
/// that of the first such entry.
pub proof fn type_named_is_first_entry(schema: SchemaDocument, name: Seq<char>)
    ensures
        schema.type_named(name) is None <==> forall|i: int|
            0 <= i < collections::type_entries(schema.types).len() ==> (
            #[trigger] collections::type_entries(schema.types)[i]).0 != name,
        forall|i: int|
            0 <= i < collections::type_entries(schema.types).len() && (
            #[trigger] collections::type_entries(schema.types)[i]).0 == name && (forall|j: int|
                0 <= j < i ==> (#[trigger] collections::type_entries(schema.types)[j]).0 != name)
                ==> schema.type_named(name) == Some(
                collections::type_entries(schema.types)[i].1,
            ),
{
    sequences::lookup_finds_first(collections::type_entries(schema.types), name);
}

} // verus!
