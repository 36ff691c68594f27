use apollo_compiler::ast;
use apollo_compiler::collections::{IndexMap, IndexSet};
use apollo_compiler::schema::{Component, ComponentName};
use federation_composition::composition::collect_outcomes;
use federation_composition::key_fields::validate_key_field_set;
use federation_composition::merge::merged_supergraph;
use federation_composition::reachability::reachable_types;
use federation_composition::schema::{
    Argument, Directive, EnumType, ExtendedType, FieldDefinition, InputObjectType,
    InputValueDefinition, InterfaceType, ObjectType, ScalarType, SchemaDefinition, SchemaDocument,
    Type, UnionType, Value,
};
use federation_composition::subgraph::FederationSchema;
use federation_composition::supergraph::Valid;
use federation_composition::type_conflicts::validate_type_conflicts_across_subgraphs;
use federation_composition::{
    compose, compose_with_options, expand_subgraphs, merge_subgraphs, post_merge_validations,
    pre_merge_validations, validate_subgraphs, CompositionError, CompositionOptions, Expanded,
    Initial, MergeResult, Merged, Satisfiable, Stages, Subgraph, SubgraphError, Supergraph,
    Upgraded, Validated,
};

fn read_directives(directives: &apollo_compiler::schema::DirectiveList) -> Vec<Directive> {
    directives
        .iter()
        .map(|directive| Directive {
            name: directive.name.to_string(),
            arguments: directive
                .arguments
                .iter()
                .map(|argument| Argument {
                    name: argument.name.to_string(),
                    value: match &*argument.value {
                        ast::Value::String(text) => Value::String(text.clone()),
                        _ => Value::NotString,
                    },
                })
                .collect(),
        })
        .collect()
}

fn read_type_reference(ty: &ast::Type) -> Type {
    match ty {
        ast::Type::Named(name) => Type::Named(name.to_string()),
        ast::Type::NonNullNamed(name) => Type::NonNullNamed(name.to_string()),
        ast::Type::List(inner) => Type::List(Box::new(read_type_reference(inner))),
        ast::Type::NonNullList(inner) => Type::NonNullList(Box::new(read_type_reference(inner))),
    }
}

fn read_input_value(value: &ast::InputValueDefinition) -> InputValueDefinition {
    InputValueDefinition { name: value.name.to_string(), ty: read_type_reference(&value.ty) }
}

fn read_fields(
    fields: &IndexMap<apollo_compiler::Name, Component<ast::FieldDefinition>>,
) -> IndexMap<String, FieldDefinition> {
    fields
        .iter()
        .map(|(name, field)| {
            let arguments = field.arguments.iter().map(|a| read_input_value(a)).collect();
            (name.to_string(), FieldDefinition { arguments, ty: read_type_reference(&field.ty) })
        })
        .collect()
}

fn read_names(names: &IndexSet<ComponentName>) -> IndexSet<String> {
    names.iter().map(|name| name.to_string()).collect()
}

fn read_type(ty: &apollo_compiler::schema::ExtendedType) -> ExtendedType {
    let built_in = ty.is_built_in();
    let directives = read_directives(ty.directives());
    match ty {
        apollo_compiler::schema::ExtendedType::Scalar(_) => {
            ExtendedType::Scalar(ScalarType { built_in, directives })
        }
        apollo_compiler::schema::ExtendedType::Object(object) => ExtendedType::Object(ObjectType {
            built_in,
            directives,
            implements_interfaces: read_names(&object.implements_interfaces),
            fields: read_fields(&object.fields),
        }),
        apollo_compiler::schema::ExtendedType::Interface(interface) => {
            ExtendedType::Interface(InterfaceType {
                built_in,
                directives,
                implements_interfaces: read_names(&interface.implements_interfaces),
                fields: read_fields(&interface.fields),
            })
        }
        apollo_compiler::schema::ExtendedType::Union(union_type) => ExtendedType::Union(UnionType {
            built_in,
            directives,
            members: read_names(&union_type.members),
        }),
        apollo_compiler::schema::ExtendedType::Enum(_) => {
            ExtendedType::Enum(EnumType { built_in, directives })
        }
        apollo_compiler::schema::ExtendedType::InputObject(input) => {
            ExtendedType::InputObject(InputObjectType {
                built_in,
                directives,
                fields: input
                    .fields
                    .iter()
                    .map(|(name, field)| (name.to_string(), read_input_value(field)))
                    .collect(),
            })
        }
    }
}

fn read_schema(source: apollo_compiler::Schema) -> SchemaDocument {
    let name = |name: &Option<ComponentName>| name.as_ref().map(|name| name.to_string());
    let schema_definition = SchemaDefinition {
        query: name(&source.schema_definition.query),
        mutation: name(&source.schema_definition.mutation),
        subscription: name(&source.schema_definition.subscription),
    };
    let types = source.types.iter().map(|(name, ty)| (name.to_string(), read_type(ty))).collect();
    SchemaDocument { source, schema_definition, types }
}

fn parse(sdl: &str) -> apollo_compiler::Schema {
    match apollo_compiler::Schema::parse(sdl, "schema.graphql") {
        Ok(schema) => schema,
        Err(errors) => panic!("{}", errors.errors),
    }
}

fn document(sdl: &str) -> SchemaDocument {
    read_schema(parse(sdl))
}

fn subgraph(name: &str, url: &str, sdl: &str) -> Subgraph<Validated> {
    Subgraph {
        name: name.to_string(),
        url: url.to_string(),
        state: Validated { schema: FederationSchema { schema: document(sdl) } },
    }
}

fn served(name: &str, sdl: &str) -> Subgraph<Validated> {
    subgraph(name, "http://localhost:4001", sdl)
}

fn supergraph(sdl: &str) -> Supergraph<Merged> {
    Supergraph::<Merged>::new(Valid::assume_valid(document(sdl)))
}

fn text(error: &CompositionError) -> String {
    match error {
        CompositionError::SubgraphError { subgraph, message } => format!("subgraph {}: {}", subgraph, message),
        CompositionError::InternalError { message } => format!("internal: {}", message),
        CompositionError::TypeDefinitionInvalid { message } => format!("invalid: {}", message),
        CompositionError::Other { code, message } => format!("{}: {}", code, message),
    }
}

fn texts(errors: &[CompositionError]) -> Vec<String> {
    errors.iter().map(text).collect()
}

fn pre_merge(subgraphs: &[Subgraph<Validated>]) -> Vec<String> {
    match pre_merge_validations(subgraphs) {
        Ok(()) => vec![],
        Err(errors) => texts(&errors),
    }
}

fn post_merge(sdl: &str) -> Vec<String> {
    match post_merge_validations(&supergraph(sdl)) {
        Ok(()) => vec![],
        Err(errors) => texts(&errors),
    }
}

const PRODUCT: &str = "type Query { product: Product } type Product @key(fields: \"id\") { id: ID! name: String }";

// Before the merge.

#[test]
fn test_pre_merge_validations_empty_subgraphs() {
    assert_eq!(pre_merge(&[]), vec!["internal: Cannot compose with empty subgraphs list"]);
}

#[test]
fn test_pre_merge_validations_success() {
    let subgraphs = [
        subgraph("products", "http://products", PRODUCT),
        subgraph("reviews", "https://reviews", "type Query { reviews: [String] }"),
    ];
    assert!(pre_merge_validations(&subgraphs).is_ok());
}

#[test]
fn test_pre_merge_validations_invalid_url() {
    let subgraphs = [subgraph("products", "ftp://products", PRODUCT)];
    assert_eq!(
        pre_merge(&subgraphs),
        vec!["internal: Invalid URL format for subgraph 'products': ftp://products (must start with http:// or https://)"]
    );
}

#[test]
fn test_pre_merge_validations_duplicate_names() {
    let subgraphs = [served("products", PRODUCT), served("products", PRODUCT)];
    assert_eq!(pre_merge(&subgraphs), vec!["internal: Duplicate subgraph name: products"]);
}

#[test]
fn url_of_a_duplicate_is_not_looked_at() {
    let subgraphs = [
        subgraph("a", "", "type Query { a: Int }"),
        subgraph("a", "", "type Query { a: Int }"),
        subgraph("a", "", "type Query { a: Int }"),
    ];
    assert_eq!(
        pre_merge(&subgraphs),
        vec![
            "internal: Invalid URL format for subgraph 'a':  (must start with http:// or https://)",
            "internal: Duplicate subgraph name: a",
            "internal: Duplicate subgraph name: a",
        ]
    );
}

#[test]
fn test_key_field_validation_caught_early() {
    let subgraphs = [served(
        "products",
        "type Query { product: Product } type Product @key(fields: \"sku\") { id: ID! }",
    )];
    assert_eq!(
        pre_merge(&subgraphs),
        vec!["invalid: Subgraph 'products': @key directive on type 'Product' references non-existent field 'sku'"]
    );
}

#[test]
fn test_pre_merge_validations_valid_key_field() {
    let sdl = "type Query { p: P } type P @key(fields: \"id name\") @key(fields: \" name \") { id: ID! name: String }";
    assert_eq!(pre_merge(&[served("products", sdl)]), Vec::<String>::new());
}

#[test]
fn each_key_and_each_word_is_checked() {
    let sdl = "type Query { p: P } type P @key(fields: \"a id b\") @key(fields: \"c\") @other(fields: \"d\") { id: ID! }";
    assert_eq!(
        pre_merge(&[served("s", sdl)]),
        vec![
            "invalid: Subgraph 's': @key directive on type 'P' references non-existent field 'a'",
            "invalid: Subgraph 's': @key directive on type 'P' references non-existent field 'b'",
            "invalid: Subgraph 's': @key directive on type 'P' references non-existent field 'c'",
        ]
    );
}

#[test]
fn field_sets_side_by_side_have_the_errors_of_both() {
    let fields: IndexMap<String, FieldDefinition> = ["id", "name"]
        .iter()
        .map(|name| {
            let ty = Type::Named("ID".to_string());
            (name.to_string(), FieldDefinition { arguments: vec![], ty })
        })
        .collect();
    let mut both = vec![];
    validate_key_field_set("s", "T", "id x", &fields, &mut both);
    validate_key_field_set("s", "T", "y name", &fields, &mut both);
    let mut whole = vec![];
    validate_key_field_set("s", "T", "id x\ty name", &fields, &mut whole);
    assert_eq!(texts(&whole), texts(&both));
    assert_eq!(
        texts(&whole),
        vec![
            "invalid: Subgraph 's': @key directive on type 'T' references non-existent field 'x'",
            "invalid: Subgraph 's': @key directive on type 'T' references non-existent field 'y'",
        ]
    );
}

#[test]
fn fields_of_a_nested_selection_are_looked_up_too() {
    let sdl = "type Query { p: P } type P @key(fields: \"user { id }\") { user: User } type User { id: ID! }";
    assert_eq!(
        pre_merge(&[served("s", sdl)]),
        vec!["invalid: Subgraph 's': @key directive on type 'P' references non-existent field 'id'"]
    );
}

#[test]
fn braces_and_quotes_around_a_word_are_dropped() {
    let sdl = "type Query { p: P } type P @key(fields: \"{id} { } {{name\") { id: ID! name: ID! }";
    assert_eq!(pre_merge(&[served("s", sdl)]), Vec::<String>::new());
}

#[test]
fn key_on_interface_is_checked() {
    let sdl = "type Query { i: I } interface I @key(fields: \"id x\") { id: ID! }";
    assert_eq!(
        pre_merge(&[served("s", sdl)]),
        vec!["invalid: Subgraph 's': @key directive on type 'I' references non-existent field 'x'"]
    );
}

#[test]
fn key_without_fields() {
    let sdl = "type Query { p: P } type P @key(resolvable: true) { id: ID! }";
    assert_eq!(
        pre_merge(&[served("s", sdl)]),
        vec!["invalid: Subgraph 's': @key directive on type 'P' is missing 'fields' argument"]
    );
}

#[test]
fn key_with_fields_that_are_no_string() {
    let sdl = "type Query { p: P } type P @key(fields: [\"id\"]) { id: ID! }";
    assert_eq!(
        pre_merge(&[served("s", sdl)]),
        vec!["invalid: Subgraph 's': @key directive on type 'P' has invalid 'fields' argument (must be a string)"]
    );
}

#[test]
fn key_on_a_type_without_fields() {
    let sdl = "type Query { e: E } enum E @key(fields: \"id\") { A }";
    assert_eq!(
        pre_merge(&[served("s", sdl)]),
        vec!["invalid: Subgraph 's': @key directive can only be applied to object or interface types, but found on 'E'"]
    );
}

#[test]
fn first_argument_named_fields_counts() {
    let sdl = "type Query { p: P } type P @key(other: 1, fields: \"id\", fields: 2) { id: ID! }";
    assert_eq!(pre_merge(&[served("s", sdl)]), Vec::<String>::new());
}

#[test]
fn test_pre_merge_validations_type_conflict() {
    let subgraphs = [
        served("a", "type Query { p: Product } type Product { id: ID! }"),
        served("b", "type Query { p: Product } enum Product { A }"),
    ];
    assert_eq!(
        pre_merge(&subgraphs),
        vec!["invalid: Type 'Product' has conflicting definitions across subgraphs: 'a' defines it as Object, 'b' defines it as Enum"]
    );
}

#[test]
fn test_pre_merge_validations_no_type_conflict() {
    let subgraphs = [
        served("a", "type Query { p: Product } type Product { id: ID! }"),
        served("b", "type Query { p: Product } type Product { name: String }"),
    ];
    assert_eq!(pre_merge(&subgraphs), Vec::<String>::new());
}

#[test]
fn all_conflicts_are_reported_with_all_definitions() {
    let subgraphs = [
        served("a", "type Query { a: Int } scalar X union Y = Query interface Z { a: Int }"),
        served("b", "type Query { a: Int } scalar X input Y { a: Int } interface Z { a: Int }"),
        served("c", "type Query { a: Int } input X { a: Int } union Y = Query"),
    ];
    assert_eq!(
        pre_merge(&subgraphs),
        vec![
            "invalid: Type 'X' has conflicting definitions across subgraphs: 'a' defines it as Scalar, 'b' defines it as Scalar, 'c' defines it as InputObject",
            "invalid: Type 'Y' has conflicting definitions across subgraphs: 'a' defines it as Union, 'b' defines it as InputObject, 'c' defines it as Union",
        ]
    );
}

#[test]
fn kinds_are_named_in_the_error() {
    let subgraphs = [
        served("a", "type Query { a: Int } interface Z { a: Int }"),
        served("b", "type Query { a: Int } type Z { a: Int }"),
    ];
    assert_eq!(
        pre_merge(&subgraphs),
        vec!["invalid: Type 'Z' has conflicting definitions across subgraphs: 'a' defines it as Interface, 'b' defines it as Object"]
    );
}

#[test]
fn one_subgraph_alone_has_no_conflict() {
    let sdl = "type Query { a: Int } scalar X union Y = Query interface Z { a: Int } enum E { A } input I { a: Int }";
    let mut errors = vec![];
    validate_type_conflicts_across_subgraphs(&[served("a", sdl)], &mut errors);
    validate_type_conflicts_across_subgraphs(&[], &mut errors);
    assert!(errors.is_empty());
}

#[test]
fn a_conflicting_type_is_reported_once() {
    let subgraphs = [
        served("a", "scalar X"),
        served("b", "enum X { A }"),
        served("c", "input X { a: Int }"),
        served("d", "scalar X"),
    ];
    let mut errors = vec![];
    validate_type_conflicts_across_subgraphs(&subgraphs, &mut errors);
    assert_eq!(
        texts(&errors),
        vec!["invalid: Type 'X' has conflicting definitions across subgraphs: 'a' defines it as Scalar, 'b' defines it as Enum, 'c' defines it as InputObject, 'd' defines it as Scalar"]
    );
}

#[test]
fn all_kinds_of_errors_are_reported_in_order() {
    let subgraphs = [
        subgraph("a", "x", "type Query { a: Int } type P @key(fields: \"q\") { id: ID! }"),
        served("a", "type Query { a: Int } scalar P"),
    ];
    assert_eq!(
        pre_merge(&subgraphs),
        vec![
            "internal: Invalid URL format for subgraph 'a': x (must start with http:// or https://)",
            "internal: Duplicate subgraph name: a",
            "invalid: Subgraph 'a': @key directive on type 'P' references non-existent field 'q'",
            "invalid: Type 'P' has conflicting definitions across subgraphs: 'a' defines it as Object, 'a' defines it as Scalar",
        ]
    );
}

// After the merge.

#[test]
fn test_post_merge_validations_success() {
    assert_eq!(post_merge(PRODUCT), Vec::<String>::new());
}

#[test]
fn test_post_merge_validations_comprehensive() {
    let sdl = "
        type Query { product(filter: Filter): Product node(id: ID!): Node search: [Result!]! }
        type Mutation { add(input: NewProduct!): Product }
        type Subscription { changed: Change }
        interface Node implements Base { id: ID! }
        interface Base { id: ID! }
        type Product implements Node @key(fields: \"id\") { id: ID! status: Status user: User }
        type User @key(fields: \"id\") { id: ID! at: DateTime }
        type Change { product: Product }
        enum Status { ACTIVE }
        scalar DateTime
        input NewProduct { name: String nested: [[Nested!]] }
        input Nested { a: Int }
        input Filter { by: String }
        union Result = Product | User
        union _Entity = Product | User
    ";
    assert_eq!(post_merge(sdl), Vec::<String>::new());
}

#[test]
fn supergraph_needs_a_query_type() {
    assert_eq!(
        post_merge("schema { mutation: M } type M { a: Int }"),
        vec!["invalid: Supergraph must have a query type"]
    );
}

#[test]
fn entity_must_be_a_union() {
    assert_eq!(
        post_merge("type Query { a: Int } type _Entity { a: Int }"),
        vec!["invalid: _Entity must be a union type"]
    );
}

#[test]
fn entity_must_have_members() {
    assert_eq!(
        post_merge("type Query { a: Int } union _Entity"),
        vec!["invalid: _Entity union exists but has no members"]
    );
}

#[test]
fn entity_members_must_exist_and_have_a_key() {
    let sdl = "type Query { a: A b: B } type A { id: ID! } type B @key(fields: \"id\") { id: ID! } union _Entity = A | B | C";
    assert_eq!(
        post_merge(sdl),
        vec![
            "invalid: Type 'A' is in _Entity union but has no @key directive",
            "invalid: _Entity union references non-existent type 'C'",
        ]
    );
}

#[test]
fn orphans_are_reported() {
    let sdl = "type Query { a: A } type A { a: Int } type B { c: C } type C { b: B } enum D { X } input E { a: Int }";
    let unreachable = |name: &str| format!("invalid: Type '{}' is not reachable from any root type (Query/Mutation/Subscription)", name);
    assert_eq!(
        post_merge(sdl),
        vec![unreachable("B"), unreachable("C"), unreachable("D"), unreachable("E")]
    );
}

#[test]
fn federation_types_need_not_be_reachable() {
    let sdl = "type Query { a: Int } scalar _Any type _Service { sdl: String } scalar federation__FieldSet scalar link__Import enum join__Graph { A } scalar join__FieldSet enum link_Purpose { X } scalar join_Other";
    assert_eq!(
        post_merge(sdl),
        vec![
            "invalid: Type 'link_Purpose' is not reachable from any root type (Query/Mutation/Subscription)",
            "invalid: Type 'join_Other' is not reachable from any root type (Query/Mutation/Subscription)",
        ]
    );
}

#[test]
fn join_types_of_a_supergraph_need_not_be_reachable() {
    assert_eq!(post_merge("type Query { a: Int } enum join__Graph { A }"), Vec::<String>::new());
}

#[test]
fn implementers_are_not_reached_through_their_interface() {
    let sdl = "type Query { i: I } interface I { a: Int } type A implements I { a: Int }";
    assert_eq!(
        post_merge(sdl),
        vec!["invalid: Type 'A' is not reachable from any root type (Query/Mutation/Subscription)"]
    );
}

#[test]
fn all_errors_after_the_merge_are_reported_in_order() {
    assert_eq!(
        post_merge("schema { mutation: M } type M { a: Int } union _Entity scalar X"),
        vec![
            "invalid: Supergraph must have a query type",
            "invalid: _Entity union exists but has no members",
            "invalid: Type 'X' is not reachable from any root type (Query/Mutation/Subscription)",
        ]
    );
}

#[test]
fn reachable_names_are_the_closure_of_the_roots() {
    let schema = document(
        "type Query { a(x: I): [A!]! } type A { q: Query u: U } union U = B input I { i: I, s: S } scalar S type B { missing: M } type Z { q: Query }",
    );
    let reachable = reachable_types(&schema);
    for name in ["Query", "A", "U", "B", "I", "S", "M"] {
        assert!(reachable.contains(name), "{}", name);
    }
    for name in ["Z", "Int", "String"] {
        assert!(!reachable.contains(name), "{}", name);
    }
    assert_eq!(reachable.len(), 7);
}

// The merge.

#[test]
fn failed_merge_becomes_one_error() {
    match merged_supergraph(Err("out of luck".to_string())) {
        Ok(_) => panic!(),
        Err(errors) => assert_eq!(texts(&errors), vec!["internal: Merge failed: out of luck"]),
    }
}

#[test]
fn errors_of_the_merger_are_handed_on() {
    let result = MergeResult {
        supergraph: Some(Valid::assume_valid(FederationSchema { schema: document(PRODUCT) })),
        errors: vec![
            CompositionError::Other { code: "A".to_string(), message: "a".to_string() },
            CompositionError::TypeDefinitionInvalid { message: "b".to_string() },
        ],
    };
    match merge_subgraphs(vec![served("a", PRODUCT)], |_| Ok(result)) {
        Ok(_) => panic!(),
        Err(errors) => assert_eq!(texts(&errors), vec!["A: a", "invalid: b"]),
    }
}

#[test]
fn merge_without_a_schema_is_an_error() {
    match merged_supergraph(Ok(MergeResult { supergraph: None, errors: vec![] })) {
        Ok(_) => panic!(),
        Err(errors) => assert_eq!(
            texts(&errors),
            vec!["internal: Merge completed but no supergraph schema was produced"]
        ),
    }
}

#[test]
fn merged_schema_is_that_of_the_merger() {
    let merged = merge_subgraphs(vec![served("a", PRODUCT), served("b", PRODUCT)], |mut subgraphs| {
        assert_eq!(subgraphs.len(), 2);
        let schema = subgraphs.remove(1).state.schema;
        Ok(MergeResult { supergraph: Some(Valid::assume_valid(schema)), errors: vec![] })
    });
    match merged {
        Ok(supergraph) => {
            assert!(supergraph.schema().inner.types.contains_key("Product"));
            assert_eq!(supergraph.schema().inner.schema_definition.query, Some("Query".to_string()));
        }
        Err(errors) => panic!("{:?}", errors),
    }
}

// The stages on single subgraphs.

fn initial(name: &str, sdl: &str) -> Subgraph<Initial> {
    Subgraph {
        name: name.to_string(),
        url: "https://localhost".to_string(),
        state: Initial { schema: parse(sdl) },
    }
}

fn expand(subgraph: Subgraph<Initial>) -> Result<Subgraph<Expanded>, SubgraphError> {
    if subgraph.name.starts_with("bad") {
        return Err(SubgraphError { subgraph: subgraph.name, message: "not expanded".to_string() });
    }
    Ok(Subgraph {
        name: subgraph.name,
        url: subgraph.url,
        state: Expanded { schema: subgraph.state.schema },
    })
}

fn upgrade(subgraphs: Vec<Subgraph<Expanded>>) -> Result<Vec<Subgraph<Upgraded>>, Vec<CompositionError>> {
    if subgraphs.iter().any(|subgraph| subgraph.name == "old") {
        return Err(vec![CompositionError::Other { code: "OLD".to_string(), message: "too old".to_string() }]);
    }
    Ok(subgraphs
        .into_iter()
        .map(|subgraph| Subgraph {
            name: subgraph.name,
            url: subgraph.url,
            state: Upgraded { schema: subgraph.state.schema },
        })
        .collect())
}

fn validate(subgraph: Subgraph<Upgraded>) -> Result<Subgraph<Validated>, SubgraphError> {
    if subgraph.name.starts_with("invalid") {
        return Err(SubgraphError { subgraph: subgraph.name, message: "not valid".to_string() });
    }
    Ok(Subgraph {
        name: subgraph.name,
        url: subgraph.url,
        state: Validated { schema: FederationSchema { schema: read_schema(subgraph.state.schema) } },
    })
}

/// A merger that takes the schema of the last subgraph.
fn merge_last(mut subgraphs: Vec<Subgraph<Validated>>) -> Result<MergeResult, String> {
    match subgraphs.pop() {
        Some(subgraph) if subgraph.name == "broken" => Err("cannot merge".to_string()),
        Some(subgraph) => Ok(MergeResult {
            supergraph: Some(Valid::assume_valid(subgraph.state.schema)),
            errors: vec![],
        }),
        None => Err("nothing to merge".to_string()),
    }
}

fn unsatisfiable(_: Supergraph<Merged>) -> Result<Supergraph<Satisfiable>, Vec<CompositionError>> {
    Err(vec![CompositionError::Other { code: "SATISFIABILITY".to_string(), message: "no".to_string() }])
}

fn satisfiable(supergraph: Supergraph<Merged>) -> Result<Supergraph<Satisfiable>, Vec<CompositionError>> {
    Ok(supergraph.assume_satisfiable())
}

fn composed(subgraphs: Vec<Subgraph<Initial>>, run_satisfiability: bool) -> Vec<String> {
    let stages = Stages {
        expand_links: expand,
        upgrade,
        validate,
        merge: merge_last,
        satisfiability: unsatisfiable,
    };
    match compose_with_options(subgraphs, CompositionOptions { run_satisfiability }, stages) {
        Ok(_) => vec![],
        Err(errors) => texts(&errors),
    }
}

#[test]
fn all_subgraphs_are_expanded_and_all_errors_reported() {
    let names = ["bad1", "good", "bad2"];
    let subgraphs = names.iter().map(|name| initial(name, PRODUCT)).collect();
    match expand_subgraphs(subgraphs, expand) {
        Ok(_) => panic!(),
        Err(errors) => assert_eq!(
            texts(&errors),
            vec!["subgraph bad1: not expanded", "subgraph bad2: not expanded"]
        ),
    }
    match expand_subgraphs(vec![initial("a", PRODUCT), initial("b", PRODUCT)], expand) {
        Ok(expanded) => {
            let names: Vec<&str> = expanded.iter().map(|subgraph| subgraph.name.as_str()).collect();
            assert_eq!(names, vec!["a", "b"]);
        }
        Err(errors) => panic!("{:?}", errors),
    }
}

#[test]
fn all_subgraphs_are_validated_and_all_errors_reported() {
    let upgraded = |name: &str| Subgraph {
        name: name.to_string(),
        url: String::new(),
        state: Upgraded { schema: parse(PRODUCT) },
    };
    match validate_subgraphs(vec![upgraded("invalid"), upgraded("a"), upgraded("invalid too")], validate) {
        Ok(_) => panic!(),
        Err(errors) => assert_eq!(
            texts(&errors),
            vec!["subgraph invalid: not valid", "subgraph invalid too: not valid"]
        ),
    }
    match validate_subgraphs(vec![upgraded("a"), upgraded("b")], validate) {
        Ok(validated) => assert_eq!(validated[1].name, "b"),
        Err(errors) => panic!("{:?}", errors),
    }
}

#[test]
fn a_stage_on_lists_side_by_side() {
    let run = |names: &[&str]| {
        let subgraphs = names.iter().map(|name| initial(name, PRODUCT)).collect();
        match expand_subgraphs(subgraphs, expand) {
            Ok(expanded) => Ok(expanded.into_iter().map(|subgraph| subgraph.name).collect::<Vec<_>>()),
            Err(errors) => Err(texts(&errors)),
        }
    };
    let lists = [vec![], vec!["a", "b"], vec!["c"], vec!["bad1", "d"], vec!["e", "bad2", "bad3"]];
    for a in &lists {
        for b in &lists {
            let expected = match (run(a), run(b)) {
                (Ok(x), Ok(y)) => Ok([x, y].concat()),
                (Err(x), Err(y)) => Err([x, y].concat()),
                (Err(x), Ok(_)) => Err(x),
                (Ok(_), Err(y)) => Err(y),
            };
            assert_eq!(run(&[a.clone(), b.clone()].concat()), expected);
        }
    }
}

#[test]
fn outcomes_keep_their_places() {
    match collect_outcomes(vec![Ok(3), Ok(1), Ok(2)]) {
        Ok(values) => assert_eq!(values, vec![3, 1, 2]),
        Err(errors) => panic!("{:?}", errors),
    }
    let failed = SubgraphError { subgraph: "s".to_string(), message: "m".to_string() };
    match collect_outcomes(vec![Ok(3), Err(failed)]) {
        Ok(_) => panic!(),
        Err(errors) => assert_eq!(texts(&errors), vec!["subgraph s: m"]),
    }
    assert!(collect_outcomes(Vec::<Result<u8, SubgraphError>>::new()).is_ok());
}

// Composition.

#[test]
fn test_composition_options() {
    assert!(CompositionOptions::default().run_satisfiability);
    assert!(!CompositionOptions { run_satisfiability: false }.clone().run_satisfiability);
}

#[test]
fn satisfiability_is_checked_only_when_asked_for() {
    assert_eq!(composed(vec![initial("a", PRODUCT)], true), vec!["SATISFIABILITY: no"]);
    assert_eq!(composed(vec![initial("a", PRODUCT)], false), Vec::<String>::new());
}

#[test]
fn compose_checks_satisfiability() {
    let stages = Stages {
        expand_links: expand,
        upgrade,
        validate,
        merge: merge_last,
        satisfiability: unsatisfiable,
    };
    match compose(vec![initial("a", PRODUCT)], stages) {
        Ok(_) => panic!(),
        Err(errors) => assert_eq!(texts(&errors), vec!["SATISFIABILITY: no"]),
    }
    let stages = Stages {
        expand_links: expand,
        upgrade,
        validate,
        merge: merge_last,
        satisfiability: satisfiable,
    };
    match compose(vec![initial("a", PRODUCT)], stages) {
        Ok(supergraph) => assert!(supergraph.schema().inner.types.contains_key("Product")),
        Err(errors) => panic!("{:?}", errors),
    }
}

#[test]
fn the_first_stage_that_fails_decides() {
    let orphan = "type Query { a: Int } type Orphan { a: Int }";
    assert_eq!(
        composed(vec![initial("bad", PRODUCT), initial("old", PRODUCT)], true),
        vec!["subgraph bad: not expanded"]
    );
    assert_eq!(
        composed(vec![initial("old", PRODUCT), initial("invalid", PRODUCT)], true),
        vec!["OLD: too old"]
    );
    assert_eq!(
        composed(vec![initial("invalid", PRODUCT), initial("a", PRODUCT), initial("a", PRODUCT)], true),
        vec!["subgraph invalid: not valid"]
    );
    assert_eq!(
        composed(vec![initial("broken", PRODUCT), initial("broken", PRODUCT)], true),
        vec!["internal: Duplicate subgraph name: broken"]
    );
    assert_eq!(
        composed(vec![initial("a", orphan), initial("broken", orphan)], true),
        vec!["internal: Merge failed: cannot merge"]
    );
    assert_eq!(
        composed(vec![initial("a", orphan)], true),
        vec!["invalid: Type 'Orphan' is not reachable from any root type (Query/Mutation/Subscription)"]
    );
}

#[test]
fn nothing_cannot_be_composed() {
    assert_eq!(composed(vec![], false), vec!["internal: Cannot compose with empty subgraphs list"]);
}
