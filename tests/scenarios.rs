use composite_types::errors::{ComposeError, SyntaxError};
use composite_types::pipeline::composite_type_processing_pipeline;
use composite_types::token::Token;

/// Splits source text into tokens: identifiers, number literals, and one
/// punctuation token per other character.
fn lex(src: &str) -> Vec<Token> {
    let chars: Vec<char> = src.chars().collect();
    let mut out = Vec::new();
    let mut i = 0;
    while i < chars.len() {
        let c = chars[i];
        if c.is_whitespace() {
            i += 1;
        } else if c.is_alphabetic() || c == '_' {
            let start = i;
            while i < chars.len() && (chars[i].is_alphanumeric() || chars[i] == '_') {
                i += 1;
            }
            out.push(Token::Ident(chars[start..i].iter().collect()));
        } else if c.is_ascii_digit() {
            let start = i;
            while i < chars.len() && chars[i].is_ascii_digit() {
                i += 1;
            }
            out.push(Token::Literal(chars[start..i].iter().collect()));
        } else {
            out.push(Token::Punct(c));
            i += 1;
        }
    }
    out
}

fn run(src: &str) -> Result<String, ComposeError> {
    composite_type_processing_pipeline(&lex(src))
}

#[test]
fn required_unwraps_optional_field() {
    let out = run("struct Example { field: Option<FieldType> } struct MyStruct = Required(Example);").unwrap();
    assert_eq!(
        out,
        "struct Example { field: Option<FieldType> }\nstruct MyStruct { field: FieldType }\n"
    );
}

#[test]
fn optional_wraps_plain_field() {
    let out = run("struct Example { field: FieldType } struct MyStruct = Optional(Example);").unwrap();
    assert_eq!(
        out,
        "struct Example { field: FieldType }\nstruct MyStruct { field: Option<FieldType> }\n"
    );
}

#[test]
fn reference_to_undeclared_record_is_not_found() {
    let err = run("struct MyStruct = Required(Example);").unwrap_err();
    assert_eq!(err, ComposeError::NotFound { name: "Example".to_string(), position: 5 });
    assert_eq!(
        err.message(),
        "Type `Example` does not exist in the scope of the macro.
        Please ensure that the type is defined before it is used. For example:
         `struct Example = ...` or `struct Example { ... }` within the scope of compose_type!"
    );
}

#[test]
fn second_declaration_of_a_name_conflicts() {
    let err = run("struct MyStruct { a: A } struct MyStruct = Optional(MyStruct);").unwrap_err();
    assert_eq!(err, ComposeError::Conflict { name: "MyStruct".to_string(), position: 8 });
    assert_eq!(err.message(), "This identifier is already in use");
}

#[test]
fn conflict_regardless_of_kind() {
    let err = run("struct A { a: X } struct B = A; struct B { b: Y }").unwrap_err();
    assert_eq!(err, ComposeError::Conflict { name: "B".to_string(), position: 13 });
    let err = run("struct A { a: X } struct A { a: X }").unwrap_err();
    assert_eq!(err, ComposeError::Conflict { name: "A".to_string(), position: 8 });
}

#[test]
fn conflict_is_reported_before_lookup() {
    let err = run("struct A { a: X } struct A = Required(Missing);").unwrap_err();
    assert_eq!(err, ComposeError::Conflict { name: "A".to_string(), position: 8 });
}

#[test]
fn two_parameters_is_a_syntax_error() {
    let err = run("struct MyStruct = Required(Example, Example2);").unwrap_err();
    assert_eq!(err, ComposeError::Syntax(SyntaxError::ParameterCount { position: 4, found: 2 }));
    assert_eq!(err.message(), "Expected 1 parameter, but instead found 2");
}

#[test]
fn many_parameters_are_counted() {
    let err = run("struct M = Optional(A, B, C, D, E, F, G, H, I, J, K, L);").unwrap_err();
    assert_eq!(err.message(), "Expected 1 parameter, but instead found 12");
}

#[test]
fn zero_parameters_is_a_syntax_error() {
    let err = run("struct MyStruct = Optional();").unwrap_err();
    assert_eq!(err, ComposeError::Syntax(SyntaxError::ParameterCount { position: 4, found: 0 }));
}

#[test]
fn unknown_operator_is_a_syntax_error() {
    let err = run("struct MyStruct = Partial(Example);").unwrap_err();
    assert_eq!(
        err,
        ComposeError::Syntax(SyntaxError::UnknownOperator { position: 3, name: "Partial".to_string() })
    );
    assert_eq!(err.message(), "Expected Required or Optional");
}

#[test]
fn alias_copies_fields() {
    let out = run("struct Example { a: A, pub b: Option<B> } struct MyStruct = Example;").unwrap();
    assert_eq!(
        out,
        "struct Example { a: A, pub b: Option<B> }\nstruct MyStruct { a: A, pub b: Option<B> }\n"
    );
}

#[test]
fn pub_marker_makes_result_public() {
    let out = run("struct Example { a: A } pub struct MyStruct = Optional(Example)").unwrap();
    assert_eq!(out, "struct Example { a: A }\npub struct MyStruct { a: Option<A> }\n");
}

#[test]
fn output_is_ordered_by_name() {
    let out = run("struct B { b: X } struct A = B; struct C = Optional(A);").unwrap();
    assert_eq!(out, "struct A { b: X }\nstruct B { b: X }\nstruct C { b: Option<X> }\n");
}

#[test]
fn output_does_not_depend_on_declaration_order() {
    let one = run("struct B { b: X } struct A { a: X } struct C { c: X }").unwrap();
    let two = run("struct C { c: X } struct B { b: X } struct A { a: X }").unwrap();
    assert_eq!(one, two);
    assert_eq!(one, "struct A { a: X }\nstruct B { b: X }\nstruct C { c: X }\n");
}

#[test]
fn forward_reference_is_not_found() {
    let err = run("struct A = Required(B); struct B { f: Option<X> }").unwrap_err();
    assert_eq!(err, ComposeError::NotFound { name: "B".to_string(), position: 5 });
}

#[test]
fn first_failure_wins() {
    let err = run("struct A = Required(B); struct C = Optional(D);").unwrap_err();
    assert_eq!(err, ComposeError::NotFound { name: "B".to_string(), position: 5 });
}

#[test]
fn optional_twice_does_not_double_wrap() {
    let out = run("struct A { f: F, g: Option<G> } struct B = Optional(A); struct C = Optional(B);").unwrap();
    assert_eq!(
        out,
        "struct A { f: F, g: Option<G> }\n\
         struct B { f: Option<F>, g: Option<G> }\n\
         struct C { f: Option<F>, g: Option<G> }\n"
    );
}

#[test]
fn required_after_optional_restores_fields() {
    let out = run("struct A { f: F<'a, X>, g: Vec<G> } struct B = Optional(A); struct C = Required(B);").unwrap();
    assert_eq!(
        out,
        "struct A { f: F<'a, X>, g: Vec<G> }\n\
         struct B { f: Option<F<'a, X>>, g: Option<Vec<G>> }\n\
         struct C { f: F<'a, X>, g: Vec<G> }\n"
    );
}

#[test]
fn required_leaves_non_optional_fields_unchanged() {
    let out = run("struct A { f: Vec<Option<X>>, g: a::Option<Y> } struct B = Required(A);").unwrap();
    assert_eq!(
        out,
        "struct A { f: Vec<Option<X>>, g: a::Option<Y> }\nstruct B { f: Vec<Option<X>>, g: a::Option<Y> }\n"
    );
}

#[test]
fn empty_input_renders_nothing() {
    assert_eq!(run("").unwrap(), "");
}
