use composite_types::add;
use composite_types::emit::{write_record, write_type};
use composite_types::errors::{ComposeError, SyntaxError};
use composite_types::item::{
    CompositeOperation, CompositeStruct, Definition, InputType, TypeInput, UtilityOperation,
};
use composite_types::parser::{parse_type, validate_one_param, AngleBracketedIdents};
use composite_types::pipeline::composite_type_processing_pipeline;
use composite_types::processor::{process_input, process_type_alias, process_utility_operator};
use composite_types::record::{
    process_optional, process_required, promote_first_generic_argument, wrap_field_as_generic_arg,
    Record, Visibility,
};
use composite_types::state::State;
use composite_types::token::Token;
use composite_types::name_order::name_less;
use composite_types::type_expr::{get_generics, is_optional_wrapper, optional_type, required_type, TypeExpr};

/// Splits source text into tokens: identifiers, number literals, and one
/// punctuation token per other character.
fn toks(src: &str) -> Vec<Token> {
    let chars: Vec<char> = src.chars().collect();
    let mut out = Vec::new();
    let mut i = 0;
    while i < chars.len() {
        let c = chars[i];
        if c.is_whitespace() {
            i += 1;
        } else if c.is_alphabetic() || c == '_' {
            let start = i;
            while i < chars.len() && (chars[i].is_alphanumeric() || chars[i] == '_') {
                i += 1;
            }
            out.push(Token::Ident(chars[start..i].iter().collect()));
        } else if c.is_ascii_digit() {
            let start = i;
            while i < chars.len() && chars[i].is_ascii_digit() {
                i += 1;
            }
            out.push(Token::Literal(chars[start..i].iter().collect()));
        } else {
            out.push(Token::Punct(c));
            i += 1;
        }
    }
    out
}

fn record(src: &str) -> Record {
    let t = toks(src);
    let (d, end) = Definition::parse(&t, 0).unwrap();
    assert_eq!(end, t.len());
    d.record
}

fn type_text(t: &TypeExpr) -> String {
    let mut s = String::new();
    write_type(t, &mut s);
    s
}

fn record_text(r: &Record) -> String {
    let mut s = String::new();
    write_record(r, &mut s);
    s
}

fn parsed_type(src: &str) -> TypeExpr {
    let t = toks(src);
    let (ty, end) = parse_type(&t, 0).unwrap();
    assert_eq!(end, t.len());
    ty
}

fn first_field_type(r: &Record) -> String {
    type_text(&r.fields[0].ty)
}

fn state_with(records: &[&str]) -> State {
    let mut state = State::new();
    for src in records {
        state.insert(record(src));
    }
    state
}

fn compose(src: &str) -> Result<String, ComposeError> {
    composite_type_processing_pipeline(&toks(src))
}

// Type-expression helpers.

#[test]
fn test_promote_first_generic_argument() {
    let input = record("struct Test { field: FieldType<NestedFieldType> }");
    let field = input.fields.into_iter().next().unwrap();
    let promoted = promote_first_generic_argument(field).unwrap();
    assert_eq!(type_text(&promoted.ty), "NestedFieldType");
}

#[test]
fn test_promote_first_generic_argument_complicated() {
    let input = record(
        "struct Test { field: FieldType<'a, NestedFieldType<Booper, Dooper::Looper>, AnotherField> }",
    );
    let field = input.fields.into_iter().next().unwrap();
    let promoted = promote_first_generic_argument(field).unwrap();
    assert_eq!(type_text(&promoted.ty), "NestedFieldType<Booper, Dooper::Looper>");
}

#[test]
fn promote_without_type_argument_fails() {
    let input = record("struct Test { field: FieldType<'a> }");
    let field = input.fields.into_iter().next().unwrap();
    assert!(promote_first_generic_argument(field).is_none());
}

#[test]
fn test_demote_field_type_and_wrap_complicated() {
    let input = record("struct Test { field: FieldType<'a, NestedFieldType, Goober::Nested> }");
    let field = input.fields.into_iter().next().unwrap();
    let wrapped = wrap_field_as_generic_arg(field, "NewFieldType".to_string()).unwrap();
    assert_eq!(
        type_text(&wrapped.ty),
        "NewFieldType<FieldType<'a, NestedFieldType, Goober::Nested>>"
    );
}

#[test]
fn test_demote_field_type_and_wrap() {
    let input = record("struct Test { field: FieldType<NestedFieldType> }");
    let field = input.fields.into_iter().next().unwrap();
    let wrapped = wrap_field_as_generic_arg(field, "NewFieldType".to_string()).unwrap();
    assert_eq!(type_text(&wrapped.ty), "NewFieldType<FieldType<NestedFieldType>>");
}

#[test]
fn optional_wrapper_is_recognised_by_leading_segment() {
    assert!(is_optional_wrapper(&parsed_type("Option<T>")));
    assert!(is_optional_wrapper(&parsed_type("Option")));
    assert!(is_optional_wrapper(&parsed_type("Option::Inner<T>")));
    assert!(!is_optional_wrapper(&parsed_type("std::option::Option<T>")));
    assert!(!is_optional_wrapper(&parsed_type("Optional<T>")));
}

#[test]
fn generics_of_leading_segment() {
    let args = get_generics(&parsed_type("Map<'a, K, V>")).unwrap();
    assert_eq!(args.len(), 3);
    assert!(get_generics(&parsed_type("Plain")).is_none());
    assert!(get_generics(&parsed_type("a::B<C>")).is_none());
}

#[test]
fn type_rewrites() {
    assert_eq!(type_text(&required_type(&parsed_type("Option<Vec<T>>"))), "Vec<T>");
    assert_eq!(type_text(&required_type(&parsed_type("Vec<Option<T>>"))), "Vec<Option<T>>");
    assert_eq!(type_text(&optional_type(&parsed_type("Vec<T>"))), "Option<Vec<T>>");
    assert_eq!(type_text(&optional_type(&parsed_type("Option<T>"))), "Option<T>");
}

#[test]
fn names_compare_lexicographically() {
    let s = |x: &str| x.to_string();
    assert!(name_less(&s("A"), &s("B")));
    assert!(name_less(&s("Test"), &s("Test2")));
    assert!(!name_less(&s("Test2"), &s("Test")));
    assert!(!name_less(&s("Same"), &s("Same")));
    assert!(name_less(&s("Z"), &s("a")));
    assert!(name_less(&s(""), &s("x")));
}

// Utility operations on one record.

#[test]
fn test_process_optional() {
    let actual = process_optional(&record("struct Test { field: FieldType }"));
    assert_eq!(actual, record("struct TestOptional { field: Option<FieldType> }"));
}

#[test]
fn test_process_optional_with_optional() {
    let actual = process_optional(&record("struct Test { field: Option<FieldType> }"));
    assert_eq!(actual, record("struct TestOptional { field: Option<FieldType> }"));
}

#[test]
fn test_process_optional_complicated() {
    let actual = process_optional(&record("struct Test { field: FieldType::Nested<'a, AnotherFieldType> }"));
    assert_eq!(
        actual,
        record("struct TestOptional { field: Option<FieldType::Nested<'a, AnotherFieldType>> }")
    );
}

#[test]
fn test_process_required() {
    let actual = process_required(&record("struct Test { field: FieldType }"));
    assert_eq!(actual, record("struct TestRequired { field: FieldType }"));
}

#[test]
fn test_process_required_with_optional() {
    let actual = process_required(&record("struct Test { field: Option<FieldType> }"));
    assert_eq!(actual, record("struct TestRequired { field: FieldType }"));
}

#[test]
fn test_process_required_non_optional() {
    let actual = process_required(&record("struct Test { field: FieldType<Booper> }"));
    assert_eq!(actual, record("struct TestRequired { field: FieldType<Booper> }"));
}

#[test]
fn required_skips_lifetimes_of_the_wrapper() {
    let actual = process_required(&record("struct Test { field: Option<'a, Inner<X>> }"));
    assert_eq!(first_field_type(&actual), "Inner<X>");
}

#[test]
fn required_keeps_wrapper_without_type_argument() {
    let actual = process_required(&record("struct Test { field: Option<'a> }"));
    assert_eq!(first_field_type(&actual), "Option<'a>");
}

#[test]
fn operations_keep_field_names_visibility_and_order() {
    let input = record("pub struct Test { pub b: Option<B>, a: A, pub c: C<D> }");
    let required = process_required(&input);
    assert_eq!(record_text(&required), "pub struct TestRequired { pub b: B, a: A, pub c: C<D> }");
    let optional = process_optional(&input);
    assert_eq!(
        record_text(&optional),
        "pub struct TestOptional { pub b: Option<B>, a: Option<A>, pub c: Option<C<D>> }"
    );
}

#[test]
fn test_process_utility_operator() {
    let state = state_with(&["struct Test { field: FieldType }"]);
    let op = UtilityOperation::Optional("Test".to_string());
    let actual = process_utility_operator(&state, &op, 0).unwrap();
    assert_eq!(actual, record("struct TestOptional { field: Option<FieldType> }"));
}

#[test]
fn test_process_utility_operator_with_optional() {
    let state = state_with(&["struct Test { field: Option<FieldType> }"]);
    let op = UtilityOperation::Required("Test".to_string());
    let actual = process_utility_operator(&state, &op, 0).unwrap();
    assert_eq!(actual, record("struct TestRequired { field: FieldType }"));
}

#[test]
fn utility_operator_on_missing_record() {
    let state = state_with(&["struct Test { field: FieldType }"]);
    let op = UtilityOperation::Required("Other".to_string());
    let actual = process_utility_operator(&state, &op, 7);
    assert_eq!(actual, Err(ComposeError::NotFound { name: "Other".to_string(), position: 7 }));
}

#[test]
fn test_set_type_alias() {
    let state = state_with(&["struct Test { field: FieldType }"]);
    let actual = process_type_alias(&state, &"Test".to_string(), 0);
    assert!(actual.is_ok());
    assert_eq!(actual.unwrap(), record("struct Test { field: FieldType }"));
}

#[test]
fn test_set_type_alias_not_found() {
    let state = State::new();
    let actual = process_type_alias(&state, &"Test".to_string(), 0);
    assert!(actual.is_err());
}

// The registry and its rendering.

#[test]
fn test_expand() {
    let state = state_with(&["struct Test { field: FieldType }"]);
    assert_eq!(state.expand(), "struct Test { field: FieldType }\n");
}

#[test]
fn test_expand_multiple() {
    let state = state_with(&[
        "struct Test { field: FieldType }",
        "struct Test2 { field: FieldType }",
        "struct Test3 { field: Test2 }",
    ]);
    assert_eq!(
        state.expand(),
        "struct Test { field: FieldType }\nstruct Test2 { field: FieldType }\nstruct Test3 { field: Test2 }\n"
    );
}

#[test]
fn expand_orders_by_name_not_by_insertion() {
    let state = state_with(&["struct B { b: X }", "struct A { a: X }", "struct C { c: X }"]);
    assert_eq!(state.expand(), "struct A { a: X }\nstruct B { b: X }\nstruct C { c: X }\n");
}

#[test]
fn registry_lookup() {
    let state = state_with(&["struct B { b: X }", "struct A { a: X }"]);
    assert!(state.contains_key(&"A".to_string()));
    assert!(!state.contains_key(&"C".to_string()));
    assert_eq!(state.lookup(&"B".to_string()), Some(&record("struct B { b: X }")));
}

#[test]
fn mod_test_process_input() {
    let t = toks(
        "struct MyStruct { field1: Option<Ident> }
         struct MyStruct1 = Required(MyStruct);
         struct MyStruct2 = Required(MyStruct);",
    );
    let input = TypeInput::parse(&t).unwrap();
    let actual = process_input(input).unwrap();
    let expected = vec![
        record("struct MyStruct { field1: Option<Ident> }"),
        record("struct MyStruct1 { field1: Ident }"),
        record("struct MyStruct2 { field1: Ident }"),
    ];
    assert_eq!(actual.variables, expected);
}

#[test]
fn test_composite_type() {
    let actual = compose(
        "struct Example { field: Option<FieldType> }
         struct MyStruct = Required(Example);
         struct MyStruct2 = Required(MyStruct);
         struct MyStruct3 = Optional(MyStruct);",
    );
    assert_eq!(
        actual.unwrap(),
        "struct Example { field: Option<FieldType> }\n\
         struct MyStruct { field: FieldType }\n\
         struct MyStruct2 { field: FieldType }\n\
         struct MyStruct3 { field: Option<FieldType> }\n"
    );
}

// Parsing.

#[test]
fn test_parse_type_input() {
    let t = toks("struct MyStruct = Required(Ident); struct MyStruct2 = Required(Ident);");
    let actual = TypeInput::parse(&t).unwrap();
    let expected = vec![
        CompositeStruct::new(
            "MyStruct".to_string(),
            CompositeOperation::UtilityOp(UtilityOperation::Required("Ident".to_string())),
        ),
        CompositeStruct::new(
            "MyStruct2".to_string(),
            CompositeOperation::UtilityOp(UtilityOperation::Required("Ident".to_string())),
        ),
    ];
    assert_eq!(actual.items.len(), expected.len());
    for (item, want) in actual.items.iter().zip(expected.iter()) {
        match item {
            InputType::CompositeStruct(c) => {
                assert_eq!(c.name, want.name);
                assert_eq!(c.composite_operation, want.composite_operation);
            }
            InputType::Definition(_) => panic!("expected a composite declaration"),
        }
    }
}

#[test]
fn test_parse_angle_bracketed_idents() {
    let t = toks("(Ident, Ident2)");
    let (actual, end) = AngleBracketedIdents::parse(&t, 0).unwrap();
    assert_eq!(end, t.len());
    assert_eq!(actual.items, vec!["Ident".to_string(), "Ident2".to_string()]);
}

#[test]
fn test_parse_composite_struct() {
    let t = toks("struct MyStruct = Required(Ident) ;");
    let (actual, end) = CompositeStruct::parse(&t, 0).unwrap();
    assert_eq!(end, t.len());
    assert_eq!(actual.name, "MyStruct");
    assert_eq!(
        actual.composite_operation,
        CompositeOperation::UtilityOp(UtilityOperation::Required("Ident".to_string()))
    );
    assert!(actual.semicolon);
    assert_eq!(actual.name_position, 1);
    assert_eq!(actual.target_position, 5);
}

#[test]
fn test_parse_composite_struct_with_type_alias() {
    let t = toks("struct MyStruct = MyType");
    let (actual, end) = CompositeStruct::parse(&t, 0).unwrap();
    assert_eq!(end, t.len());
    assert_eq!(actual.name, "MyStruct");
    assert_eq!(actual.composite_operation, CompositeOperation::TypeAlias("MyType".to_string()));
}

#[test]
fn test_parse_utility_operation() {
    let t = toks("Required(Ident)");
    let (actual, _, _) = UtilityOperation::parse(&t, 0).unwrap();
    assert_eq!(actual, UtilityOperation::Required("Ident".to_string()));
}

#[test]
fn test_parse_utility_operation_with_multiple_params() {
    let t = toks("Required(Ident, Ident)");
    assert!(UtilityOperation::parse(&t, 0).is_err());
}

#[test]
fn test_parse_utility_operation_with_no_params() {
    let t = toks("Required()");
    assert!(UtilityOperation::parse(&t, 0).is_err());
}

#[test]
fn test_parse_utility_operation_with_optional() {
    let t = toks("Optional(Ident)");
    let (actual, _, _) = UtilityOperation::parse(&t, 0).unwrap();
    assert_eq!(actual, UtilityOperation::Optional("Ident".to_string()));
}

#[test]
fn test_parse_utility_operation_with_invalid_operator() {
    let t = toks("Invalid(Ident)");
    let actual = UtilityOperation::parse(&t, 0);
    assert_eq!(
        actual,
        Err(SyntaxError::UnknownOperator { position: 0, name: "Invalid".to_string() })
    );
    assert_eq!(
        actual.unwrap_err().message(),
        "Expected Required or Optional"
    );
}

#[test]
fn validate_one_param_counts() {
    let one = AngleBracketedIdents { items: vec!["A".to_string()], span: 3 };
    assert_eq!(validate_one_param(one), Ok("A".to_string()));
    let none = AngleBracketedIdents { items: vec![], span: 3 };
    assert_eq!(
        validate_one_param(none),
        Err(SyntaxError::ParameterCount { position: 3, found: 0 })
    );
}

#[test]
fn parse_nested_type() {
    let t = toks("a::B<'x, C<D, 3>, E>");
    let (ty, end) = parse_type(&t, 0).unwrap();
    assert_eq!(end, t.len());
    assert_eq!(type_text(&ty), "a::B<'x, C<D, 3>, E>");
}

#[test]
fn parse_record_with_trailing_comma_and_pub() {
    let t = toks("pub struct R { pub a: A, b: Vec<B>, }");
    let (d, end) = Definition::parse(&t, 0).unwrap();
    assert_eq!(end, t.len());
    assert!(d.trailing_comma);
    assert_eq!(d.position, 2);
    assert_eq!(d.record.vis, Visibility::Public);
    assert_eq!(record_text(&d.record), "pub struct R { pub a: A, b: Vec<B> }");
}

#[test]
fn malformed_field_list_is_a_syntax_error() {
    let err = compose("struct R { a A }").unwrap_err();
    assert_eq!(err, ComposeError::Syntax(SyntaxError::Unexpected {
        position: 4,
        expected: "`:`".to_string(),
    }));
    assert_eq!(err.position(), 4);
    assert_eq!(err.message(), "expected `:`");
}

#[test]
fn item_that_is_neither_form() {
    let err = compose("struct R + X").unwrap_err();
    assert_eq!(err, ComposeError::Syntax(SyntaxError::NotAnItem { position: 2 }));
    assert_eq!(err.message(), "Expected composite struct or type definition");
}

#[test]
fn it_works() {
    let result = add(2, 2);
    assert_eq!(result, 4);
}

#[test]
fn item_without_struct_keyword() {
    let err = compose("pub enum R { a: A }").unwrap_err();
    assert_eq!(err, ComposeError::Syntax(SyntaxError::Unexpected {
        position: 1,
        expected: "`struct`".to_string(),
    }));
}

#[test]
fn item_without_name() {
    let err = compose("struct = Required(A);").unwrap_err();
    assert_eq!(err, ComposeError::Syntax(SyntaxError::Unexpected {
        position: 1,
        expected: "a type name".to_string(),
    }));
}

#[test]
fn composite_operation_reports_parameter_count() {
    let t = toks("Required(Example, Example2)");
    let err = CompositeOperation::parse(&t, 0).unwrap_err();
    assert_eq!(err, SyntaxError::ParameterCount { position: 1, found: 2 });
    assert_eq!(err.message(), "Expected 1 parameter, but instead found 2");
}

#[test]
fn name_lists_of_any_length() {
    let t = toks("()");
    let (empty, end) = AngleBracketedIdents::parse(&t, 0).unwrap();
    assert!(empty.items.is_empty());
    assert_eq!(end, 2);
    let t = toks("(A, B, C)");
    let (three, end) = AngleBracketedIdents::parse(&t, 0).unwrap();
    assert_eq!(three.items, vec!["A".to_string(), "B".to_string(), "C".to_string()]);
    assert_eq!(end, t.len());
}

#[test]
fn field_list_error_points_into_the_list() {
    let err = compose("struct R { a: Vec<A }").unwrap_err();
    assert_eq!(err, ComposeError::Syntax(SyntaxError::Unexpected {
        position: 8,
        expected: "`,` or `>`".to_string(),
    }));
}
