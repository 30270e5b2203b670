use vstd::prelude::*;
use vstd::string::StringExecFns;

verus! {

/// A generic argument as written between angle brackets.
#[derive(Debug, PartialEq, Eq)]
pub enum GenericArg {
    /// A type-shaped argument.
    Type(TypeExpr),
    /// A lifetime or const argument, kept verbatim and never rewritten.
    Opaque(String),
}

/// A referenced type: a `::`-separated path whose last segment may carry
/// generic arguments, e.g. `Option<T>` or `a::B<'x, C>`.
#[derive(Debug, PartialEq, Eq)]
pub struct TypeExpr {
    pub path: Vec<String>,
    pub args: Vec<GenericArg>,
}

/// Mathematical model of a generic argument.
pub enum ArgModel {
    Type(TypeModel),
    Opaque(Seq<char>),
}

/// Mathematical model of a type expression.
pub struct TypeModel {
    pub path: Seq<Seq<char>>,
    pub args: Seq<ArgModel>,
}

pub open spec fn type_model(t: TypeExpr) -> TypeModel
    decreases t, 0nat,
{
    TypeModel { path: t.path@.map_values(|s: String| s@), args: args_model(t.args, t.args.len() as nat) }
}

/// Model of the first `n` arguments of `v`.
pub open spec fn args_model(v: Vec<GenericArg>, n: nat) -> Seq<ArgModel>
    decreases v, n,
{
    if n == 0 || n > v.len() {
        Seq::empty()
    } else {
        args_model(v, (n - 1) as nat).push(arg_model(v[n - 1]))
    }
}

pub open spec fn arg_model(a: GenericArg) -> ArgModel
    decreases a, 0nat,
{
    match a {
        GenericArg::Type(t) => ArgModel::Type(type_model(t)),
        GenericArg::Opaque(s) => ArgModel::Opaque(s@),
    }
}

impl View for TypeExpr {
    type V = TypeModel;

    open spec fn view(&self) -> TypeModel {
        type_model(*self)
    }
}

impl View for GenericArg {
    type V = ArgModel;

    open spec fn view(&self) -> ArgModel {
        arg_model(*self)
    }
}

pub proof fn lemma_args_model(v: Vec<GenericArg>, n: nat)
    requires
        n <= v.len(),
    ensures
        args_model(v, n).len() == n,
        forall|i: int| 0 <= i < n ==> #[trigger] args_model(v, n)[i] == arg_model(v[i]),
    decreases n,
{
    if n > 0 {
        lemma_args_model(v, (n - 1) as nat);
    }
}

/// The name of the optional wrapper: `Option`.
pub open spec fn optional_marker() -> Seq<char> {
    seq!['O', 'p', 't', 'i', 'o', 'n']
}

/// The leading path segment names the optional wrapper.
pub open spec fn wrapped_in_option(t: TypeModel) -> bool {
    t.path.len() >= 1 && t.path[0] == optional_marker()
}

/// The generic arguments carried by the leading path segment.
pub open spec fn leading_args(t: TypeModel) -> Seq<ArgModel> {
    if t.path.len() == 1 {
        t.args
    } else {
        Seq::empty()
    }
}

/// The first type-shaped argument, skipping lifetimes and consts.
pub open spec fn first_type_arg(args: Seq<ArgModel>) -> Option<TypeModel>
    decreases args.len(),
{
    if args.len() == 0 {
        None
    } else {
        match args[0] {
            ArgModel::Type(t) => Some(t),
            ArgModel::Opaque(_) => first_type_arg(args.drop_first()),
        }
    }
}

/// `t` as the sole generic argument of a one-segment type named `name`.
pub open spec fn wrap_type(name: Seq<char>, t: TypeModel) -> TypeModel {
    TypeModel { path: seq![name], args: seq![ArgModel::Type(t)] }
}

/// What `Required` makes of a field type: the first type argument of an
/// optional wrapper, or the type unchanged.
pub open spec fn unwrap_required(t: TypeModel) -> TypeModel {
    if wrapped_in_option(t) {
        match first_type_arg(leading_args(t)) {
            Some(inner) => inner,
            None => t,
        }
    } else {
        t
    }
}

/// What `Optional` makes of a field type: the type wrapped in `Option`,
/// unless it already is an optional wrapper.
pub open spec fn wrap_optional(t: TypeModel) -> TypeModel {
    if wrapped_in_option(t) {
        t
    } else {
        wrap_type(optional_marker(), t)
    }
}

pub open spec fn opt_type_model(o: Option<TypeExpr>) -> Option<TypeModel> {
    match o {
        Some(t) => Some(t@),
        None => None,
    }
}

/// Returns the text `Option`.
pub fn optional_marker_text() -> (r: String)
    ensures
        r@ == optional_marker(),
{
    let r = String::from_str("Option");
    proof {
        reveal_strlit("Option");
        assert(r@ =~= optional_marker());
    }
    r
}

fn copy_path(v: &Vec<String>) -> (r: Vec<String>)
    ensures
        r@ == v@,
{
    let mut out: Vec<String> = Vec::new();
    let mut i: usize = 0;
    while i < v.len()
        invariant
            i <= v.len(),
            out@ == v@.subrange(0, i as int),
        decreases v.len() - i,
    {
        out.push(v[i].clone());
        i += 1;
        proof {
            assert(out@ =~= v@.subrange(0, i as int));
        }
    }
    proof {
        assert(v@.subrange(0, v.len() as int) =~= v@);
    }
    out
}

fn copy_args(v: &Vec<GenericArg>) -> (r: Vec<GenericArg>)
    ensures
        r.len() == v.len(),
        args_model(r, r.len() as nat) == args_model(*v, v.len() as nat),
    decreases v, 1nat,
{
    let mut out: Vec<GenericArg> = Vec::new();
    let mut i: usize = 0;
    while i < v.len()
        invariant
            i <= v.len(),
            out.len() == i,
            forall|j: int| 0 <= j < i ==> arg_model(#[trigger] out[j]) == arg_model(v[j]),
        decreases v.len() - i,
    {
        proof {
            assert(decreases_to!(v => v[i as int]));
        }
        let a = v[i].duplicate();
        out.push(a);
        i += 1;
    }
    proof {
        lemma_args_model(out, out.len() as nat);
        lemma_args_model(*v, v.len() as nat);
        assert(args_model(out, out.len() as nat) =~= args_model(*v, v.len() as nat));
    }
    out
}

impl GenericArg {
    /// A deep copy of this argument.
    pub fn duplicate(&self) -> (r: GenericArg)
        ensures
            r@ == self@,
        decreases *self, 0nat,
    {
        match self {
            GenericArg::Type(t) => GenericArg::Type(t.duplicate()),
            GenericArg::Opaque(s) => GenericArg::Opaque(s.clone()),
        }
    }
}

impl TypeExpr {
    /// A deep copy of this type expression.
    pub fn duplicate(&self) -> (r: TypeExpr)
        ensures
            r@ == self@,
        decreases *self, 0nat,
    {
        let path = copy_path(&self.path);
        let args = copy_args(&self.args);
        let r = TypeExpr { path, args };
        proof {
            assert(r.path@.map_values(|s: String| s@) =~= self.path@.map_values(|s: String| s@));
        }
        r
    }
}

/// Tells whether `t`'s leading path segment is the optional wrapper `Option`.
pub fn is_optional_wrapper(t: &TypeExpr) -> (r: bool)
    ensures
        r == wrapped_in_option(t@),
{
    if t.path.len() == 0 {
        return false;
    }
    let marker = optional_marker_text();
    t.path[0] == marker
}

/// The generic arguments carried by the leading path segment of a type, if it
/// has any.
pub fn get_generics(field_type: &TypeExpr) -> (r: Option<Vec<GenericArg>>)
    ensures
        r is None <==> leading_args(field_type@).len() == 0,
        r matches Some(v) ==> args_model(v, v.len() as nat) == leading_args(field_type@),
{
    proof {
        lemma_args_model(field_type.args, field_type.args.len() as nat);
    }
    if field_type.path.len() == 1 && field_type.args.len() > 0 {
        Some(copy_args(&field_type.args))
    } else {
        None
    }
}

/// A copy of the first type-shaped argument in `args`, skipping lifetimes and
/// consts.
pub fn first_type_arg_of(args: &Vec<GenericArg>) -> (r: Option<TypeExpr>)
    ensures
        opt_type_model(r) == first_type_arg(args_model(*args, args.len() as nat)),
{
    let ghost m = args_model(*args, args.len() as nat);
    proof {
        lemma_args_model(*args, args.len() as nat);
        assert(m.subrange(0, m.len() as int) =~= m);
    }
    let mut i: usize = 0;
    while i < args.len()
        invariant
            i <= args.len(),
            m.len() == args.len(),
            m == args_model(*args, args.len() as nat),
            forall|j: int| 0 <= j < m.len() ==> #[trigger] m[j] == arg_model(args[j]),
            first_type_arg(m) == first_type_arg(m.subrange(i as int, m.len() as int)),
        decreases args.len() - i,
    {
        let ghost rest = m.subrange(i as int, m.len() as int);
        match &args[i] {
            GenericArg::Type(t) => {
                proof {
                    assert(rest[0] == m[i as int]);
                }
                return Some(t.duplicate());
            },
            GenericArg::Opaque(_) => {
                proof {
                    assert(rest[0] == m[i as int]);
                    assert(rest.drop_first() =~= m.subrange(i + 1, m.len() as int));
                }
            },
        }
        i += 1;
    }
    proof {
        assert(m.subrange(i as int, m.len() as int).len() == 0);
    }
    None
}

/// `Required` on one field type: the first type argument of an optional
/// wrapper, or a copy of the type as it is.
pub fn required_type(t: &TypeExpr) -> (r: TypeExpr)
    ensures
        r@ == unwrap_required(t@),
{
    if is_optional_wrapper(t) && t.path.len() == 1 {
        proof {
            lemma_args_model(t.args, t.args.len() as nat);
        }
        match first_type_arg_of(&t.args) {
            Some(inner) => inner,
            None => t.duplicate(),
        }
    } else {
        t.duplicate()
    }
}

/// `t` as the sole generic argument of a one-segment type named `name`.
pub fn wrap_type_in(name: String, t: TypeExpr) -> (r: TypeExpr)
    ensures
        r@ == wrap_type(name@, t@),
{
    let mut path: Vec<String> = Vec::new();
    path.push(name);
    let mut args: Vec<GenericArg> = Vec::new();
    args.push(GenericArg::Type(t));
    let r = TypeExpr { path, args };
    proof {
        lemma_args_model(r.args, 1);
        assert(r@.path =~= seq![name@]);
        assert(r@.args =~= seq![ArgModel::Type(t@)]);
    }
    r
}

/// `Optional` on one field type: the type wrapped in `Option`, or a copy of
/// it when it already is an optional wrapper.
pub fn optional_type(t: &TypeExpr) -> (r: TypeExpr)
    ensures
        r@ == wrap_optional(t@),
{
    if is_optional_wrapper(t) {
        t.duplicate()
    } else {
        wrap_type_in(optional_marker_text(), t.duplicate())
    }
}

} // verus!
