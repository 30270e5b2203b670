use vstd::prelude::*;
use vstd::string::{StrSliceExecFns, StringExecFns};

verus! {

/// A malformed item. Positions are token indices into the input.
#[derive(Debug, PartialEq, Eq)]
pub enum SyntaxError {
    /// The token at `position` (or the end of input) is not what the grammar
    /// allows there; `expected` names the alternatives.
    Unexpected { position: usize, expected: String },
    /// An operator other than `Required` or `Optional`.
    UnknownOperator { position: usize, name: String },
    /// A utility operation whose argument list does not hold exactly one name.
    ParameterCount { position: usize, found: usize },
    /// After `[pub] struct NAME` comes neither `=` nor `{`.
    NotAnItem { position: usize },
}

/// The one diagnostic that ends an invocation.
#[derive(Debug, PartialEq, Eq)]
pub enum ComposeError {
    Syntax(SyntaxError),
    /// `name` is declared a second time, at `position`.
    Conflict { name: String, position: usize },
    /// `name`, referenced at `position`, is not declared before the reference.
    NotFound { name: String, position: usize },
}

/// Model of a resolution failure.
pub enum ResolveFailure {
    Conflict(Seq<char>, usize),
    NotFound(Seq<char>, usize),
}

/// The model of `e`, when it is a resolution failure.
pub open spec fn failure_model(e: ComposeError) -> Option<ResolveFailure> {
    match e {
        ComposeError::Conflict { name, position } => Some(ResolveFailure::Conflict(name@, position)),
        ComposeError::NotFound { name, position } => Some(ResolveFailure::NotFound(name@, position)),
        ComposeError::Syntax(_) => None,
    }
}

/// The error for a reference to `ident`, at `position`, that names no
/// record declared before it.
pub fn generate_not_found_error(ident: &String, position: usize) -> (r: ComposeError)
    ensures
        failure_model(r) == Some(ResolveFailure::NotFound(ident@, position)),
{
    ComposeError::NotFound { name: ident.clone(), position }
}

pub open spec fn digits() -> Seq<char> {
    "0123456789"@
}

/// The decimal digits of `n`.
pub open spec fn decimal(n: nat) -> Seq<char>
    decreases n,
{
    if n < 10 {
        digits().subrange(n as int, n as int + 1)
    } else {
        decimal(n / 10) + digits().subrange((n % 10) as int, (n % 10) as int + 1)
    }
}

/// Appends the decimal digits of `n` to `out`.
pub fn write_decimal(n: usize, out: &mut String)
    ensures
        final(out)@ == old(out)@ + decimal(n as nat),
    decreases n,
{
    let ghost start = out@;
    if n >= 10 {
        write_decimal(n / 10, out);
    }
    proof {
        reveal_strlit("0123456789");
    }
    let d = n % 10;
    let digit = "0123456789".substring_char(d, d + 1);
    out.append(digit);
    proof {
        assert(out@ =~= start + decimal(n as nat));
    }
}

/// The text of a syntax error.
pub open spec fn syntax_message(e: SyntaxError) -> Seq<char> {
    match e {
        SyntaxError::Unexpected { expected, .. } => "expected "@ + expected@,
        SyntaxError::UnknownOperator { .. } => "Expected Required or Optional"@,
        SyntaxError::ParameterCount { found, .. } => "Expected 1 parameter, but instead found "@ + decimal(
            found as nat,
        ),
        SyntaxError::NotAnItem { .. } => "Expected composite struct or type definition"@,
    }
}

/// The token index a syntax error points at.
pub open spec fn syntax_position(e: SyntaxError) -> usize {
    match e {
        SyntaxError::Unexpected { position, .. } => position,
        SyntaxError::UnknownOperator { position, .. } => position,
        SyntaxError::ParameterCount { position, .. } => position,
        SyntaxError::NotAnItem { position } => position,
    }
}

/// The text of a diagnostic.
pub open spec fn error_message(e: ComposeError) -> Seq<char> {
    match e {
        ComposeError::Syntax(s) => syntax_message(s),
        ComposeError::Conflict { .. } => "This identifier is already in use"@,
        ComposeError::NotFound { name, .. } => "Type `"@ + name@ + "` does not exist in the scope of the macro.\n        Please ensure that the type is defined before it is used. For example:\n         `struct "@ + name@ + " = ...` or `struct "@
            + name@ + " { ... }` within the scope of compose_type!"@,
    }
}

impl SyntaxError {
    /// The token index the error points at.
    pub fn position(&self) -> (r: usize)
        ensures
            r == syntax_position(*self),
    {
        match self {
            SyntaxError::Unexpected { position, .. } => *position,
            SyntaxError::UnknownOperator { position, .. } => *position,
            SyntaxError::ParameterCount { position, .. } => *position,
            SyntaxError::NotAnItem { position } => *position,
        }
    }

    /// The text of the error.
    pub fn message(&self) -> (r: String)
        ensures
            r@ == syntax_message(*self),
    {
        let mut out = String::new();
        match self {
            SyntaxError::Unexpected { expected, .. } => {
                out.append("expected ");
                out.append(expected.as_str());
            },
            SyntaxError::UnknownOperator { .. } => {
                out.append("Expected Required or Optional");
            },
            SyntaxError::ParameterCount { found, .. } => {
                out.append("Expected 1 parameter, but instead found ");
                write_decimal(*found, &mut out);
            },
            SyntaxError::NotAnItem { .. } => {
                out.append("Expected composite struct or type definition");
            },
        }
        proof {
            assert(out@ =~= syntax_message(*self));
        }
        out
    }
}

impl ComposeError {
    /// The token index the diagnostic points at.
    pub fn position(&self) -> (r: usize)
        ensures
            r == match *self {
                ComposeError::Syntax(s) => syntax_position(s),
                ComposeError::Conflict { position, .. } => position,
                ComposeError::NotFound { position, .. } => position,
            },
    {
        match self {
            ComposeError::Syntax(s) => s.position(),
            ComposeError::Conflict { position, .. } => *position,
            ComposeError::NotFound { position, .. } => *position,
        }
    }

    /// The text of the diagnostic.
    pub fn message(&self) -> (r: String)
        ensures
            r@ == error_message(*self),
    {
        match self {
            ComposeError::Syntax(s) => s.message(),
            ComposeError::Conflict { .. } => {
                let mut out = String::new();
                out.append("This identifier is already in use");
                proof {
                    assert(out@ =~= error_message(*self));
                }
                out
            },
            ComposeError::NotFound { name, .. } => {
                let mut out = String::new();
                out.append("Type `");
                out.append(name.as_str());
                out.append("` does not exist in the scope of the macro.\n        Please ensure that the type is defined before it is used. For example:\n         `struct ");
                out.append(name.as_str());
                out.append(" = ...` or `struct ");
                out.append(name.as_str());
                out.append(" { ... }` within the scope of compose_type!");
                proof {
                    assert(out@ =~= error_message(*self));
                }
                out
            },
        }
    }
}

} // verus!
