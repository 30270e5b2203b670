use vstd::prelude::*;
use vstd::string::StringExecFns;

use crate::errors::{syntax_position, SyntaxError};
use crate::item::{
    item_model, op_model, op_target, OpModel, CompositeOperation, CompositeStruct, Definition, InputType, TypeInput, UtilityOperation,
};
use crate::record::{Field, FieldModel, Record, RecordModel, Visibility};
use crate::token::{ident_at, keyword_at, punct_at, toks_model, Token, TokenModel};
use crate::type_expr::{arg_model, args_model, lemma_args_model, ArgModel, GenericArg, TypeExpr, TypeModel};

verus! {

pub open spec fn ident(s: Seq<char>) -> Seq<TokenModel> {
    seq![TokenModel::Ident(s)]
}

pub open spec fn punct(c: char) -> Seq<TokenModel> {
    seq![TokenModel::Punct(c)]
}

pub open spec fn kw_pub() -> Seq<char> {
    seq!['p', 'u', 'b']
}

pub open spec fn kw_struct() -> Seq<char> {
    seq!['s', 't', 'r', 'u', 'c', 't']
}

pub open spec fn kw_required() -> Seq<char> {
    seq!['R', 'e', 'q', 'u', 'i', 'r', 'e', 'd']
}

pub open spec fn kw_optional() -> Seq<char> {
    seq!['O', 'p', 't', 'i', 'o', 'n', 'a', 'l']
}

/// The tokens of a path: segments separated by `::`.
pub open spec fn path_tokens(p: Seq<Seq<char>>) -> Seq<TokenModel>
    decreases p.len(),
{
    if p.len() == 0 {
        Seq::empty()
    } else if p.len() == 1 {
        ident(p[0])
    } else {
        path_tokens(p.subrange(0, p.len() - 1)) + punct(':') + punct(':') + ident(p[p.len() - 1])
    }
}

/// The tokens of a lifetime (`'` and a name) or of a literal.
pub open spec fn opaque_tokens(s: Seq<char>) -> Seq<TokenModel> {
    if s.len() > 0 && s[0] == '\'' {
        punct('\'') + ident(s.drop_first())
    } else {
        seq![TokenModel::Literal(s)]
    }
}

/// The tokens of a type expression.
pub open spec fn type_tokens(t: TypeModel) -> Seq<TokenModel>
    decreases t,
{
    path_tokens(t.path) + if t.args.len() == 0 {
        Seq::empty()
    } else {
        punct('<') + args_tokens(t.args) + punct('>')
    }
}

/// The tokens of generic arguments separated by `,`.
pub open spec fn args_tokens(args: Seq<ArgModel>) -> Seq<TokenModel>
    decreases args,
{
    if args.len() == 0 {
        Seq::empty()
    } else if args.len() == 1 {
        arg_tokens(args[0])
    } else {
        args_tokens(args.subrange(0, args.len() - 1)) + punct(',') + arg_tokens(args[args.len() - 1])
    }
}

pub open spec fn arg_tokens(a: ArgModel) -> Seq<TokenModel>
    decreases a,
{
    match a {
        ArgModel::Type(t) => type_tokens(t),
        ArgModel::Opaque(s) => opaque_tokens(s),
    }
}

pub open spec fn vis_tokens(v: Visibility) -> Seq<TokenModel> {
    if v == Visibility::Public {
        ident(kw_pub())
    } else {
        Seq::empty()
    }
}

pub open spec fn field_tokens(f: FieldModel) -> Seq<TokenModel> {
    vis_tokens(f.vis) + ident(f.name) + punct(':') + type_tokens(f.ty)
}

/// The tokens of fields separated by `,`.
pub open spec fn fields_tokens(fs: Seq<FieldModel>) -> Seq<TokenModel>
    decreases fs.len(),
{
    if fs.len() == 0 {
        Seq::empty()
    } else if fs.len() == 1 {
        field_tokens(fs[0])
    } else {
        fields_tokens(fs.subrange(0, fs.len() - 1)) + punct(',') + field_tokens(fs[fs.len() - 1])
    }
}

/// The tokens of a record definition, with or without a trailing `,`.
pub open spec fn record_tokens(r: RecordModel, trailing_comma: bool) -> Seq<TokenModel> {
    vis_tokens(r.vis) + ident(kw_struct()) + ident(r.name) + punct('{') + fields_tokens(r.fields) + (
    if trailing_comma {
        punct(',')
    } else {
        Seq::empty()
    }) + punct('}')
}

/// The tokens of names separated by `,`.
pub open spec fn names_tokens(ns: Seq<Seq<char>>) -> Seq<TokenModel>
    decreases ns.len(),
{
    if ns.len() == 0 {
        Seq::empty()
    } else if ns.len() == 1 {
        ident(ns[0])
    } else {
        names_tokens(ns.subrange(0, ns.len() - 1)) + punct(',') + ident(ns[ns.len() - 1])
    }
}

pub open spec fn op_tokens(op: CompositeOperation) -> Seq<TokenModel> {
    match op {
        CompositeOperation::TypeAlias(t) => ident(t@),
        CompositeOperation::UtilityOp(UtilityOperation::Required(t)) => ident(kw_required()) + punct('(')
            + ident(t@) + punct(')'),
        CompositeOperation::UtilityOp(UtilityOperation::Optional(t)) => ident(kw_optional()) + punct('(')
            + ident(t@) + punct(')'),
    }
}

/// The tokens of a composite declaration.
pub open spec fn composite_tokens(c: CompositeStruct) -> Seq<TokenModel> {
    vis_tokens(c.vis) + ident(kw_struct()) + ident(c.name@) + punct('=') + op_tokens(c.composite_operation)
        + if c.semicolon {
        punct(';')
    } else {
        Seq::empty()
    }
}

pub open spec fn item_tokens(item: InputType) -> Seq<TokenModel> {
    match item {
        InputType::CompositeStruct(c) => composite_tokens(c),
        InputType::Definition(d) => record_tokens(d.record@, d.trailing_comma),
    }
}

/// The tokens of items one after another.
pub open spec fn items_tokens(items: Seq<InputType>) -> Seq<TokenModel>
    decreases items.len(),
{
    if items.len() == 0 {
        Seq::empty()
    } else {
        items_tokens(items.subrange(0, items.len() - 1)) + item_tokens(items[items.len() - 1])
    }
}

/// The tokens of `toks` from `a` up to `b`.
pub open spec fn span(toks: Seq<Token>, a: int, b: int) -> Seq<TokenModel> {
    toks_model(toks).subrange(a, b)
}

pub proof fn lemma_span_extend(toks: Seq<Token>, a: int, b: int, c: int)
    requires
        0 <= a <= b <= c <= toks.len(),
    ensures
        span(toks, a, c) == span(toks, a, b) + span(toks, b, c),
{
    assert(span(toks, a, c) =~= span(toks, a, b) + span(toks, b, c));
}

pub proof fn lemma_span_one(toks: Seq<Token>, a: int)
    requires
        0 <= a < toks.len(),
    ensures
        span(toks, a, a + 1) == seq![toks[a]@],
{
    assert(span(toks, a, a + 1) =~= seq![toks[a]@]);
}

pub open spec fn punct_at_spec(toks: Seq<Token>, pos: int, c: char) -> bool {
    0 <= pos < toks.len() && toks[pos]@ == TokenModel::Punct(c)
}

/// `toks` holds the tokens `s` from `pos` on.
pub open spec fn at(toks: Seq<Token>, pos: int, s: Seq<TokenModel>) -> bool {
    0 <= pos && pos + s.len() <= toks.len() && span(toks, pos, pos + s.len()) == s
}

pub proof fn lemma_at_concat(toks: Seq<Token>, pos: int, a: Seq<TokenModel>, b: Seq<TokenModel>)
    ensures
        at(toks, pos, a + b) <==> (at(toks, pos, a) && at(toks, pos + a.len(), b)),
{
    if at(toks, pos, a + b) {
        assert((a + b).subrange(0, a.len() as int) =~= a);
        assert((a + b).subrange(a.len() as int, (a.len() + b.len()) as int) =~= b);
        assert(span(toks, pos, pos + a.len()) =~= (a + b).subrange(0, a.len() as int));
        assert(span(toks, pos + a.len(), pos + a.len() + b.len()) =~= (a + b).subrange(
            a.len() as int,
            (a.len() + b.len()) as int,
        ));
    }
    if at(toks, pos, a) && at(toks, pos + a.len(), b) {
        let whole = span(toks, pos, pos + a.len() + b.len());
        assert forall|i: int| 0 <= i < whole.len() implies whole[i] == (a + b)[i] by {
            if i < a.len() {
                assert(whole[i] == span(toks, pos, pos + a.len())[i]);
            } else {
                assert(whole[i] == span(toks, pos + a.len(), pos + a.len() + b.len())[i - a.len()]);
            }
        }
        assert(whole =~= a + b);
    }
}

pub proof fn lemma_at_index(toks: Seq<Token>, pos: int, s: Seq<TokenModel>, i: int)
    requires
        at(toks, pos, s),
        0 <= i < s.len(),
    ensures
        toks[pos + i]@ == s[i],
{
    assert(span(toks, pos, pos + s.len())[i] == s[i]);
}

/// The names held by `v`.
pub open spec fn names_of(v: Vec<String>) -> Seq<Seq<char>> {
    v@.map_values(|s: String| s@)
}

/// `toks` spells the path `q` from `pos` on, and no further segment follows.
pub open spec fn spells_path(toks: Seq<Token>, pos: int, q: Seq<Seq<char>>) -> bool {
    q.len() >= 1 && at(toks, pos, path_tokens(q)) && !(punct_at_spec(toks, pos + path_tokens(q).len(), ':')
        && punct_at_spec(toks, pos + path_tokens(q).len() + 1, ':'))
}

pub proof fn lemma_path_step(q: Seq<Seq<char>>, k: int)
    requires
        1 <= k < q.len(),
    ensures
        path_tokens(q.subrange(0, k + 1)) == path_tokens(q.subrange(0, k)) + (punct(':') + punct(':') + ident(
            q[k],
        )),
{
    let r = q.subrange(0, k + 1);
    assert(r.subrange(0, k) =~= q.subrange(0, k));
    assert(path_tokens(r) =~= path_tokens(q.subrange(0, k)) + (punct(':') + punct(':') + ident(q[k])));
}

pub proof fn lemma_path_prefix(toks: Seq<Token>, pos: int, q: Seq<Seq<char>>, k: int)
    requires
        1 <= k <= q.len(),
        at(toks, pos, path_tokens(q)),
    ensures
        at(toks, pos, path_tokens(q.subrange(0, k))),
    decreases q.len() - k,
{
    if k < q.len() {
        lemma_path_prefix(toks, pos, q, k + 1);
        lemma_path_step(q, k);
        lemma_at_concat(
            toks,
            pos,
            path_tokens(q.subrange(0, k)),
            punct(':') + punct(':') + ident(q[k]),
        );
    } else {
        assert(q.subrange(0, k) =~= q);
    }
}

pub proof fn lemma_path_first(toks: Seq<Token>, pos: int, q: Seq<Seq<char>>)
    requires
        q.len() >= 1,
        at(toks, pos, path_tokens(q)),
    ensures
        toks[pos]@ == TokenModel::Ident(q[0]),
{
    lemma_path_prefix(toks, pos, q, 1);
    assert(q.subrange(0, 1).len() == 1);
    lemma_at_index(toks, pos, path_tokens(q.subrange(0, 1)), 0);
}

/// When `q` extends the segments read so far, the tokens after them are
/// `::` and `q`'s next segment.
pub proof fn lemma_path_next(toks: Seq<Token>, pos: int, q: Seq<Seq<char>>, k: int)
    requires
        1 <= k < q.len(),
        at(toks, pos, path_tokens(q)),
    ensures
        pos + path_tokens(q.subrange(0, k)).len() + 3 <= toks.len(),
        toks[pos + path_tokens(q.subrange(0, k)).len()]@ == TokenModel::Punct(':'),
        toks[pos + path_tokens(q.subrange(0, k)).len() + 1]@ == TokenModel::Punct(':'),
        toks[pos + path_tokens(q.subrange(0, k)).len() + 2]@ == TokenModel::Ident(q[k]),
{
    lemma_path_prefix(toks, pos, q, k + 1);
    lemma_path_step(q, k);
    let head = path_tokens(q.subrange(0, k));
    let tail = punct(':') + punct(':') + ident(q[k]);
    lemma_at_concat(toks, pos, head, tail);
    lemma_at_index(toks, pos + head.len(), tail, 0);
    lemma_at_index(toks, pos + head.len(), tail, 1);
    lemma_at_index(toks, pos + head.len(), tail, 2);
}

/// A syntax error at `position` that names what was expected there.
pub fn unexpected(position: usize, expected: &str) -> (r: SyntaxError)
    ensures
        r matches SyntaxError::Unexpected { position: p, expected: e } && p == position && e@ == expected@,
{
    SyntaxError::Unexpected { position, expected: String::from_str(expected) }
}

/// Parses a `::`-separated path starting at `pos`. It succeeds on every
/// path spelled there, and returns exactly that path.
pub fn parse_path(toks: &Vec<Token>, pos: usize) -> (r: Result<(Vec<String>, usize), SyntaxError>)
    requires
        pos <= toks.len(),
    ensures
        r matches Err(e) ==> pos <= syntax_position(e) <= toks.len(),
        r matches Ok((p, end)) ==> pos < end <= toks.len() && p.len() >= 1 && span(toks@, pos as int, end as int)
            == path_tokens(names_of(p)),
        forall|q: Seq<Seq<char>>| #[trigger]
            spells_path(toks@, pos as int, q) ==> (r matches Ok((p, end)) && names_of(p) == q && end == pos
                + path_tokens(q).len()),
{
    let first = match ident_at(toks, pos) {
        Some(s) => s.clone(),
        None => {
            proof {
                assert forall|q: Seq<Seq<char>>| !#[trigger] spells_path(toks@, pos as int, q) by {
                    if spells_path(toks@, pos as int, q) {
                        lemma_path_first(toks@, pos as int, q);
                    }
                }
            }
            return Err(unexpected(pos, "a type name"));
        },
    };
    let mut path: Vec<String> = Vec::new();
    path.push(first);
    let mut cur = pos + 1;
    proof {
        lemma_span_one(toks@, pos as int);
        assert(names_of(path) =~= seq![toks@[pos as int]->Ident_0@]);
        assert forall|q: Seq<Seq<char>>| #[trigger] spells_path(toks@, pos as int, q) implies path.len() <= q.len()
            && names_of(path) == q.subrange(0, path.len() as int) by {
            lemma_path_first(toks@, pos as int, q);
            assert(names_of(path) =~= q.subrange(0, 1));
        }
    }
    loop
        invariant
            pos < cur <= toks.len(),
            path.len() >= 1,
            span(toks@, pos as int, cur as int) == path_tokens(names_of(path)),
            forall|q: Seq<Seq<char>>| #[trigger]
                spells_path(toks@, pos as int, q) ==> path.len() <= q.len() && names_of(path) == q.subrange(
                    0,
                    path.len() as int,
                ),
        ensures
            pos < cur <= toks.len(),
            path.len() >= 1,
            span(toks@, pos as int, cur as int) == path_tokens(names_of(path)),
            forall|q: Seq<Seq<char>>| #[trigger] spells_path(toks@, pos as int, q) ==> names_of(path) == q,
        decreases toks.len() - cur,
    {
        let sep = punct_at(toks, cur, ':') && punct_at(toks, cur + 1, ':');
        if !sep {
            proof {
                assert forall|q: Seq<Seq<char>>| #[trigger]
                    spells_path(toks@, pos as int, q) implies names_of(path) == q by {
                    let k = path.len() as int;
                    if k < q.len() {
                        assert(names_of(path) == q.subrange(0, k));
                        assert(cur == pos + path_tokens(q.subrange(0, k)).len());
                        lemma_path_next(toks@, pos as int, q, k);
                        assert(punct_at_spec(toks@, cur as int, ':'));
                        assert(punct_at_spec(toks@, cur + 1, ':'));
                        assert(false);
                    } else {
                        assert(q.subrange(0, k) =~= q);
                    }
                }
            }
            break;
        }
        let k = path.len();
        let seg = match ident_at(toks, cur + 2) {
            Some(s) => s.clone(),
            None => {
                proof {
                    assert forall|q: Seq<Seq<char>>| !#[trigger] spells_path(toks@, pos as int, q) by {
                        if spells_path(toks@, pos as int, q) {
                            if (k as int) < q.len() {
                                assert(names_of(path) == q.subrange(0, k as int));
                                assert(cur == pos + path_tokens(q.subrange(0, k as int)).len());
                                lemma_path_next(toks@, pos as int, q, k as int);
                                assert(false);
                            } else {
                                assert(q.subrange(0, k as int) =~= q);
                                assert(punct_at_spec(toks@, cur as int, ':'));
                                assert(punct_at_spec(toks@, cur + 1, ':'));
                                assert(false);
                            }
                        }
                    }
                }
                return Err(unexpected(cur + 2, "a path segment"));
            },
        };
        let ghost before = names_of(path);
        path.push(seg);
        proof {
            let after = names_of(path);
            assert(after.subrange(0, after.len() - 1) =~= before);
            lemma_span_extend(toks@, pos as int, cur as int, cur + 3);
            assert(span(toks@, cur as int, cur + 3) =~= punct(':') + punct(':') + ident(seg@));
            assert forall|q: Seq<Seq<char>>| #[trigger] spells_path(toks@, pos as int, q) implies path.len()
                <= q.len() && names_of(path) == q.subrange(0, path.len() as int) by {
                if (k as int) < q.len() {
                    lemma_path_next(toks@, pos as int, q, k as int);
                    assert(after =~= q.subrange(0, k + 1));
                } else {
                    assert(q.subrange(0, k as int) =~= q);
                }
            }
        }
        cur = cur + 3;
    }
    Ok((path, cur))
}

/// A type the grammar can spell: a non-empty path, and each type argument
/// spellable in turn.
pub open spec fn type_wf(t: TypeModel) -> bool
    decreases t,
{
    t.path.len() >= 1 && args_wf(t.args)
}

pub open spec fn args_wf(args: Seq<ArgModel>) -> bool
    decreases args,
{
    if args.len() == 0 {
        true
    } else {
        args_wf(args.subrange(0, args.len() - 1)) && arg_wf(args[args.len() - 1])
    }
}

pub open spec fn arg_wf(a: ArgModel) -> bool
    decreases a,
{
    match a {
        ArgModel::Type(t) => type_wf(t),
        ArgModel::Opaque(_) => true,
    }
}

/// The token at `i`, if any, cannot continue a type.
pub open spec fn ends_type(toks: Seq<Token>, i: int) -> bool {
    !punct_at_spec(toks, i, ':') && !punct_at_spec(toks, i, '<')
}

/// `toks` spells the type `t` from `pos` on, and the type ends there.
pub open spec fn spells_type(toks: Seq<Token>, pos: int, t: TypeModel) -> bool {
    type_wf(t) && at(toks, pos, type_tokens(t)) && ends_type(toks, pos + type_tokens(t).len())
}

/// `toks` spells the argument `a` from `pos` on, and the argument ends there.
pub open spec fn spells_arg(toks: Seq<Token>, pos: int, a: ArgModel) -> bool {
    arg_wf(a) && at(toks, pos, arg_tokens(a)) && ends_type(toks, pos + arg_tokens(a).len())
}

/// `toks` spells the arguments `args` from `pos` on, closed by `>`.
pub open spec fn spells_args(toks: Seq<Token>, pos: int, args: Seq<ArgModel>) -> bool {
    args.len() >= 1 && args_wf(args) && at(toks, pos, args_tokens(args)) && punct_at_spec(
        toks,
        pos + args_tokens(args).len(),
        '>',
    )
}

pub proof fn lemma_path_tokens_first(q: Seq<Seq<char>>)
    requires
        q.len() >= 1,
    ensures
        path_tokens(q).len() >= 1,
        path_tokens(q)[0] == TokenModel::Ident(q[0]),
    decreases q.len(),
{
    if q.len() > 1 {
        lemma_path_tokens_first(q.subrange(0, q.len() - 1));
    }
}

pub proof fn lemma_type_first(t: TypeModel)
    requires
        type_wf(t),
    ensures
        type_tokens(t).len() >= 1,
        type_tokens(t)[0] == TokenModel::Ident(t.path[0]),
{
    lemma_path_tokens_first(t.path);
}

pub proof fn lemma_args_wf(args: Seq<ArgModel>, k: int)
    requires
        args_wf(args),
        0 <= k <= args.len(),
    ensures
        args_wf(args.subrange(0, k)),
        k < args.len() ==> arg_wf(args[k]),
    decreases args.len(),
{
    if args.len() > 0 {
        let init = args.subrange(0, args.len() - 1);
        if k < args.len() {
            lemma_args_wf(init, k);
            assert(init.subrange(0, k) =~= args.subrange(0, k));
            if k < args.len() - 1 {
                assert(init[k] == args[k]);
            }
        } else {
            assert(args.subrange(0, k) =~= args);
        }
    }
}

pub proof fn lemma_args_step(args: Seq<ArgModel>, k: int)
    requires
        1 <= k < args.len(),
    ensures
        args_tokens(args.subrange(0, k + 1)) == args_tokens(args.subrange(0, k)) + (punct(',') + arg_tokens(
            args[k],
        )),
{
    let r = args.subrange(0, k + 1);
    assert(r.subrange(0, k) =~= args.subrange(0, k));
    assert(args_tokens(r) =~= args_tokens(args.subrange(0, k)) + (punct(',') + arg_tokens(args[k])));
}

pub proof fn lemma_args_prefix(toks: Seq<Token>, pos: int, args: Seq<ArgModel>, k: int)
    requires
        1 <= k <= args.len(),
        at(toks, pos, args_tokens(args)),
    ensures
        at(toks, pos, args_tokens(args.subrange(0, k))),
    decreases args.len() - k,
{
    if k < args.len() {
        lemma_args_prefix(toks, pos, args, k + 1);
        lemma_args_step(args, k);
        lemma_at_concat(toks, pos, args_tokens(args.subrange(0, k)), punct(',') + arg_tokens(args[k]));
    } else {
        assert(args.subrange(0, k) =~= args);
    }
}

/// Where the tokens of the first `k` arguments end, the next argument's
/// tokens follow a `,`; where they end, a `,` or the closing `>` follows.
pub proof fn lemma_args_next(toks: Seq<Token>, pos: int, args: Seq<ArgModel>, k: int)
    requires
        spells_args(toks, pos, args),
        1 <= k < args.len(),
    ensures
        punct_at_spec(toks, pos + args_tokens(args.subrange(0, k)).len(), ','),
        spells_arg(toks, pos + args_tokens(args.subrange(0, k)).len() + 1, args[k]),
        pos + args_tokens(args.subrange(0, k + 1)).len() == pos + args_tokens(args.subrange(0, k)).len() + 1
            + arg_tokens(args[k]).len(),
{
    lemma_args_prefix(toks, pos, args, k + 1);
    lemma_args_step(args, k);
    let head = args_tokens(args.subrange(0, k));
    let h = pos + head.len();
    lemma_at_concat(toks, pos, head, punct(',') + arg_tokens(args[k]));
    lemma_at_concat(toks, h, punct(','), arg_tokens(args[k]));
    lemma_at_index(toks, h, punct(','), 0);
    lemma_args_wf(args, k);
    let e = h + 1 + arg_tokens(args[k]).len();
    if k + 1 < args.len() {
        lemma_args_prefix(toks, pos, args, k + 2);
        lemma_args_step(args, k + 1);
        let head2 = args_tokens(args.subrange(0, k + 1));
        lemma_at_concat(toks, pos, head2, punct(',') + arg_tokens(args[k + 1]));
        lemma_at_index(toks, pos + head2.len(), punct(',') + arg_tokens(args[k + 1]), 0);
    } else {
        assert(args.subrange(0, k + 1) =~= args);
    }
}

pub proof fn lemma_args_first(toks: Seq<Token>, pos: int, args: Seq<ArgModel>)
    requires
        spells_args(toks, pos, args),
    ensures
        spells_arg(toks, pos, args[0]),
        pos + args_tokens(args.subrange(0, 1)).len() == pos + arg_tokens(args[0]).len(),
{
    lemma_args_prefix(toks, pos, args, 1);
    lemma_args_wf(args, 0);
    assert(args_tokens(args.subrange(0, 1)) == arg_tokens(args[0]));
    if args.len() > 1 {
        lemma_args_next(toks, pos, args, 1);
    } else {
        assert(args.subrange(0, 1) =~= args);
    }
}

/// Parses one generic argument starting at `pos`: a lifetime, a literal, or
/// a type. It succeeds on every argument spelled there, and returns exactly
/// that argument.
pub fn parse_generic_arg(toks: &Vec<Token>, pos: usize) -> (r: Result<(GenericArg, usize), SyntaxError>)
    requires
        pos <= toks.len(),
    ensures
        r matches Err(e) ==> pos <= syntax_position(e) <= toks.len(),
        r matches Ok((a, end)) ==> pos < end <= toks.len() && span(toks@, pos as int, end as int) == arg_tokens(
            arg_model(a),
        ),
        forall|a: ArgModel| #[trigger]
            spells_arg(toks@, pos as int, a) ==> (r matches Ok((b, end)) && arg_model(b) == a && end == pos
                + arg_tokens(a).len()),
    decreases toks.len() - pos, 1nat,
{
    proof {
        assert forall|a: ArgModel| #[trigger] spells_arg(toks@, pos as int, a) implies (a is Type ==> toks@[pos as int]@
            == TokenModel::Ident(a->Type_0.path[0])) && (a matches ArgModel::Opaque(s) ==> (if s.len() > 0 && s[0]
            == '\'' {
            toks@[pos as int]@ == TokenModel::Punct('\'') && toks@[pos + 1]@ == TokenModel::Ident(s.drop_first())
        } else {
            toks@[pos as int]@ == TokenModel::Literal(s)
        })) by {
            match a {
                ArgModel::Type(t) => {
                    lemma_type_first(t);
                    lemma_at_index(toks@, pos as int, type_tokens(t), 0);
                },
                ArgModel::Opaque(s) => {
                    lemma_at_index(toks@, pos as int, arg_tokens(a), 0);
                    if s.len() > 0 && s[0] == '\'' {
                        lemma_at_index(toks@, pos as int, arg_tokens(a), 1);
                    }
                },
            }
        }
    }
    if punct_at(toks, pos, '\'') {
        match ident_at(toks, pos + 1) {
            Some(name) => {
                let mut text = String::from_str("'");
                text.append(name.as_str());
                proof {
                    reveal_strlit("'");
                    assert(text@.drop_first() =~= name@);
                    assert(span(toks@, pos as int, pos + 2) =~= punct('\'') + ident(name@));
                    assert forall|a: ArgModel| #[trigger] spells_arg(toks@, pos as int, a) implies a == ArgModel::Opaque(
                        text@,
                    ) by {
                        if let ArgModel::Opaque(s) = a {
                            assert(s =~= text@);
                        }
                    }
                }
                return Ok((GenericArg::Opaque(text), pos + 2));
            },
            None => return Err(unexpected(pos + 1, "a lifetime name")),
        }
    }
    if pos < toks.len() {
        if let Token::Literal(s) = &toks[pos] {
            let st = s.as_str();
            if st.unicode_len() > 0 && st.get_char(0) == '\'' {
                return Err(unexpected(pos, "a generic argument"));
            }
            proof {
                assert(span(toks@, pos as int, pos + 1) =~= seq![TokenModel::Literal(s@)]);
            }
            return Ok((GenericArg::Opaque(s.clone()), pos + 1));
        }
    }
    match parse_type(toks, pos) {
        Ok((t, end)) => {
            proof {
                assert forall|a: ArgModel| #[trigger] spells_arg(toks@, pos as int, a) implies (arg_model(
                    GenericArg::Type(t),
                ) == a && end == pos + arg_tokens(a).len()) by {
                    if let ArgModel::Type(u) = a {
                        assert(spells_type(toks@, pos as int, u));
                    }
                }
            }
            Ok((GenericArg::Type(t), end))
        },
        Err(e) => {
            proof {
                assert forall|a: ArgModel| !#[trigger] spells_arg(toks@, pos as int, a) by {
                    if spells_arg(toks@, pos as int, a) {
                        if let ArgModel::Type(u) = a {
                            assert(spells_type(toks@, pos as int, u));
                        }
                    }
                }
            }
            Err(e)
        },
    }
}

/// Parses generic arguments separated by `,`, starting at `pos`. It
/// succeeds on every list of arguments spelled there and closed by `>`,
/// and returns exactly those arguments.
pub fn parse_generic_args(toks: &Vec<Token>, pos: usize) -> (r: Result<(Vec<GenericArg>, usize), SyntaxError>)
    requires
        pos <= toks.len(),
    ensures
        r matches Err(e) ==> pos <= syntax_position(e) <= toks.len(),
        r matches Ok((args, end)) ==> pos < end <= toks.len() && args.len() >= 1 && span(
            toks@,
            pos as int,
            end as int,
        ) == args_tokens(args_model(args, args.len() as nat)),
        forall|m: Seq<ArgModel>| #[trigger]
            spells_args(toks@, pos as int, m) ==> (r matches Ok((args, end)) && args_model(args, args.len() as nat)
                == m && end == pos + args_tokens(m).len()),
    decreases toks.len() - pos, 2nat,
{
    let mut args: Vec<GenericArg> = Vec::new();
    let (a, first_end) = match parse_generic_arg(toks, pos) {
        Ok(x) => x,
        Err(e) => {
            proof {
                assert forall|m: Seq<ArgModel>| !#[trigger] spells_args(toks@, pos as int, m) by {
                    if spells_args(toks@, pos as int, m) {
                        lemma_args_first(toks@, pos as int, m);
                    }
                }
            }
            return Err(e);
        },
    };
    args.push(a);
    let mut cur = first_end;
    proof {
        lemma_args_model(args, 1);
        assert forall|m: Seq<ArgModel>| #[trigger] spells_args(toks@, pos as int, m) implies args.len() <= m.len()
            && args_model(args, args.len() as nat) == m.subrange(0, args.len() as int) by {
            lemma_args_first(toks@, pos as int, m);
            assert(args_model(args, 1) =~= m.subrange(0, 1));
        }
    }
    while punct_at(toks, cur, ',')
        invariant
            pos < cur <= toks.len(),
            args.len() >= 1,
            span(toks@, pos as int, cur as int) == args_tokens(args_model(args, args.len() as nat)),
            forall|m: Seq<ArgModel>| #[trigger]
                spells_args(toks@, pos as int, m) ==> args.len() <= m.len() && args_model(args, args.len() as nat)
                    == m.subrange(0, args.len() as int),
        decreases toks.len() - cur,
    {
        let k = args.len();
        proof {
            assert forall|m: Seq<ArgModel>| #[trigger] spells_args(toks@, pos as int, m) implies (k as int)
                < m.len() && cur == pos + args_tokens(m.subrange(0, k as int)).len() && spells_arg(
                toks@,
                cur + 1,
                m[k as int],
            ) by {
                if (k as int) == m.len() {
                    assert(m.subrange(0, k as int) =~= m);
                }
                lemma_args_next(toks@, pos as int, m, k as int);
            }
        }
        let (a, end) = match parse_generic_arg(toks, cur + 1) {
            Ok(x) => x,
            Err(e) => {
                proof {
                    assert forall|m: Seq<ArgModel>| !#[trigger] spells_args(toks@, pos as int, m) by {
                        if spells_args(toks@, pos as int, m) {
                            assert(spells_arg(toks@, cur + 1, m[k as int]));
                        }
                    }
                }
                return Err(e);
            },
        };
        let ghost before = args_model(args, args.len() as nat);
        proof {
            lemma_args_model(args, args.len() as nat);
        }
        args.push(a);
        proof {
            lemma_args_model(args, args.len() as nat);
            let after = args_model(args, args.len() as nat);
            assert(after.subrange(0, after.len() - 1) =~= before);
            assert(after[after.len() - 1] == arg_model(a));
            lemma_span_extend(toks@, pos as int, cur as int, end as int);
            lemma_span_extend(toks@, cur as int, cur + 1, end as int);
            lemma_span_one(toks@, cur as int);
            assert forall|m: Seq<ArgModel>| #[trigger] spells_args(toks@, pos as int, m) implies args.len() <= m.len()
                && args_model(args, args.len() as nat) == m.subrange(0, args.len() as int) by {
                assert(spells_arg(toks@, cur + 1, m[k as int]));
                assert(after =~= m.subrange(0, k + 1));
            }
        }
        cur = end;
    }
    proof {
        assert forall|m: Seq<ArgModel>| #[trigger] spells_args(toks@, pos as int, m) implies args_model(
            args,
            args.len() as nat,
        ) == m && cur == pos + args_tokens(m).len() by {
            let k = args.len() as int;
            if k < m.len() {
                lemma_args_next(toks@, pos as int, m, k);
            }
            assert(m.subrange(0, k) =~= m);
        }
    }
    Ok((args, cur))
}

/// Parses a type expression starting at `pos`. It succeeds on every type
/// spelled there, and returns exactly that type.
pub fn parse_type(toks: &Vec<Token>, pos: usize) -> (r: Result<(TypeExpr, usize), SyntaxError>)
    requires
        pos <= toks.len(),
    ensures
        r matches Err(e) ==> pos <= syntax_position(e) <= toks.len(),
        r matches Ok((t, end)) ==> pos < end <= toks.len() && span(toks@, pos as int, end as int)
            == type_tokens(t@),
        forall|u: TypeModel| #[trigger]
            spells_type(toks@, pos as int, u) ==> (r matches Ok((t, end)) && t@ == u && end == pos + type_tokens(
                u,
            ).len()),
    decreases toks.len() - pos, 0nat,
{
    proof {
        assert forall|u: TypeModel| #[trigger] spells_type(toks@, pos as int, u) implies spells_path(
            toks@,
            pos as int,
            u.path,
        ) && (u.args.len() > 0 ==> punct_at_spec(toks@, pos + path_tokens(u.path).len(), '<') && spells_args(
            toks@,
            pos + path_tokens(u.path).len() + 1,
            u.args,
        )) && (u.args.len() == 0 ==> !punct_at_spec(toks@, pos + path_tokens(u.path).len(), '<')) by {
            let h = path_tokens(u.path);
            if u.args.len() > 0 {
                let rest = punct('<') + args_tokens(u.args) + punct('>');
                lemma_at_concat(toks@, pos as int, h, rest);
                lemma_at_concat(toks@, pos + h.len(), punct('<') + args_tokens(u.args), punct('>'));
                lemma_at_concat(toks@, pos + h.len(), punct('<'), args_tokens(u.args));
                lemma_at_index(toks@, pos + h.len(), rest, 0);
                lemma_at_index(toks@, pos + h.len() + 1 + args_tokens(u.args).len(), punct('>'), 0);
            } else {
                assert(type_tokens(u) =~= h);
            }
        }
    }
    let (path, p) = match parse_path(toks, pos) {
        Ok(x) => x,
        Err(e) => {
            proof {
                assert forall|u: TypeModel| !#[trigger] spells_type(toks@, pos as int, u) by {
                    if spells_type(toks@, pos as int, u) {
                        assert(spells_path(toks@, pos as int, u.path));
                    }
                }
            }
            return Err(e);
        },
    };
    if punct_at(toks, p, '<') {
        let (args, q) = match parse_generic_args(toks, p + 1) {
            Ok(x) => x,
            Err(e) => {
                proof {
                    assert forall|u: TypeModel| !#[trigger] spells_type(toks@, pos as int, u) by {
                        if spells_type(toks@, pos as int, u) {
                            assert(spells_path(toks@, pos as int, u.path));
                            assert(spells_args(toks@, p + 1, u.args));
                        }
                    }
                }
                return Err(e);
            },
        };
        if !punct_at(toks, q, '>') {
            proof {
                assert forall|u: TypeModel| !#[trigger] spells_type(toks@, pos as int, u) by {
                    if spells_type(toks@, pos as int, u) {
                        assert(spells_path(toks@, pos as int, u.path));
                        assert(spells_args(toks@, p + 1, u.args));
                    }
                }
            }
            return Err(unexpected(q, "`,` or `>`"));
        }
        let t = TypeExpr { path, args };
        proof {
            lemma_args_model(t.args, t.args.len() as nat);
            lemma_span_extend(toks@, pos as int, p as int, q + 1);
            lemma_span_extend(toks@, p as int, p + 1, q + 1);
            lemma_span_extend(toks@, p + 1, q as int, q + 1);
            lemma_span_one(toks@, p as int);
            lemma_span_one(toks@, q as int);
            assert forall|u: TypeModel| #[trigger] spells_type(toks@, pos as int, u) implies t@ == u && q + 1 == pos
                + type_tokens(u).len() by {
                assert(spells_path(toks@, pos as int, u.path));
                assert(spells_args(toks@, p + 1, u.args));
            }
        }
        Ok((t, q + 1))
    } else {
        let t = TypeExpr { path, args: Vec::new() };
        proof {
            assert(args_model(t.args, 0) =~= Seq::<ArgModel>::empty());
            assert(type_tokens(t@) =~= path_tokens(t@.path));
            assert forall|u: TypeModel| #[trigger] spells_type(toks@, pos as int, u) implies t@ == u && p == pos
                + type_tokens(u).len() by {
                assert(spells_path(toks@, pos as int, u.path));
                assert(u.args =~= Seq::<ArgModel>::empty());
                assert(type_tokens(u) =~= path_tokens(u.path));
            }
        }
        Ok((t, p))
    }
}

/// Parses an optional `pub` at `pos`.
pub fn parse_visibility(toks: &Vec<Token>, pos: usize) -> (r: (Visibility, usize))
    requires
        pos <= toks.len(),
    ensures
        pos <= r.1 <= toks.len(),
        span(toks@, pos as int, r.1 as int) == vis_tokens(r.0),
        (r.0 == Visibility::Public) == (pos < toks.len() && toks@[pos as int]@ == TokenModel::Ident(kw_pub())),
        r.1 == after_vis(toks@, pos as int),
{
    let is_pub = keyword_at(toks, pos, "pub");
    proof {
        reveal_strlit("pub");
        assert("pub"@ =~= kw_pub());
    }
    if is_pub {
        proof {
            lemma_span_one(toks@, pos as int);
        }
        (Visibility::Public, pos + 1)
    } else {
        proof {
            assert(span(toks@, pos as int, pos as int) =~= Seq::<TokenModel>::empty());
        }
        (Visibility::Private, pos)
    }
}

/// A field the grammar can spell: its name is not `pub`, and its type is
/// spellable.
pub open spec fn field_wf(f: FieldModel) -> bool {
    f.name != kw_pub() && type_wf(f.ty)
}

/// `toks` spells the field `f` from `pos` on, and the field ends there.
pub open spec fn spells_field(toks: Seq<Token>, pos: int, f: FieldModel) -> bool {
    field_wf(f) && at(toks, pos, field_tokens(f)) && ends_type(toks, pos + field_tokens(f).len())
}

pub proof fn lemma_field_parts(toks: Seq<Token>, pos: int, f: FieldModel)
    requires
        field_wf(f),
        at(toks, pos, field_tokens(f)),
    ensures
        pos < toks.len(),
        toks[pos]@ is Ident,
        (f.vis == Visibility::Public) == (toks[pos]@ == TokenModel::Ident(kw_pub())),
        toks[pos + vis_tokens(f.vis).len()]@ == TokenModel::Ident(f.name),
        toks[pos + vis_tokens(f.vis).len() + 1]@ == TokenModel::Punct(':'),
        at(toks, pos + vis_tokens(f.vis).len() + 2, type_tokens(f.ty)),
        pos + vis_tokens(f.vis).len() + 2 + type_tokens(f.ty).len() == pos + field_tokens(f).len(),
{
    let v = vis_tokens(f.vis);
    lemma_at_concat(toks, pos, v + ident(f.name) + punct(':'), type_tokens(f.ty));
    lemma_at_concat(toks, pos, v + ident(f.name), punct(':'));
    lemma_at_concat(toks, pos, v, ident(f.name));
    lemma_at_index(toks, pos + v.len(), ident(f.name), 0);
    lemma_at_index(toks, pos + v.len() + 1, punct(':'), 0);
    if f.vis == Visibility::Public {
        lemma_at_index(toks, pos, v, 0);
    }
}

/// Parses one field, `[pub] name: Type`, starting at `pos`. It succeeds on
/// every field spelled there, and returns exactly that field.
pub fn parse_field(toks: &Vec<Token>, pos: usize) -> (r: Result<(Field, usize), SyntaxError>)
    requires
        pos <= toks.len(),
    ensures
        r matches Err(e) ==> pos <= syntax_position(e) <= toks.len(),
        r matches Ok((f, end)) ==> pos < end <= toks.len() && span(toks@, pos as int, end as int)
            == field_tokens(f@),
        forall|g: FieldModel| #[trigger]
            spells_field(toks@, pos as int, g) ==> (r matches Ok((f, end)) && f@ == g && end == pos
                + field_tokens(g).len()),
{
    let (vis, p) = parse_visibility(toks, pos);
    proof {
        assert forall|g: FieldModel| #[trigger] spells_field(toks@, pos as int, g) implies vis == g.vis && p == pos
            + vis_tokens(g.vis).len() && spells_type(toks@, p + 2, g.ty) by {
            lemma_field_parts(toks@, pos as int, g);
        }
    }
    let name = match ident_at(toks, p) {
        Some(s) => s.clone(),
        None => {
            proof {
                assert forall|g: FieldModel| !#[trigger] spells_field(toks@, pos as int, g) by {
                    if spells_field(toks@, pos as int, g) {
                        lemma_field_parts(toks@, pos as int, g);
                    }
                }
            }
            return Err(unexpected(p, "a field name"));
        },
    };
    if !punct_at(toks, p + 1, ':') {
        proof {
            assert forall|g: FieldModel| !#[trigger] spells_field(toks@, pos as int, g) by {
                if spells_field(toks@, pos as int, g) {
                    lemma_field_parts(toks@, pos as int, g);
                }
            }
        }
        return Err(unexpected(p + 1, "`:`"));
    }
    let (ty, end) = match parse_type(toks, p + 2) {
        Ok(x) => x,
        Err(e) => {
            proof {
                assert forall|g: FieldModel| !#[trigger] spells_field(toks@, pos as int, g) by {
                    if spells_field(toks@, pos as int, g) {
                        assert(spells_type(toks@, p + 2, g.ty));
                    }
                }
            }
            return Err(e);
        },
    };
    let f = Field { vis, name, ty };
    proof {
        lemma_span_extend(toks@, pos as int, p as int, end as int);
        lemma_span_extend(toks@, p as int, p + 2, end as int);
        assert(span(toks@, p as int, p + 2) =~= ident(f.name@) + punct(':'));
        assert(span(toks@, pos as int, end as int) =~= field_tokens(f@));
        assert forall|g: FieldModel| #[trigger] spells_field(toks@, pos as int, g) implies f@ == g && end == pos
            + field_tokens(g).len() by {
            lemma_field_parts(toks@, pos as int, g);
            assert(spells_type(toks@, p + 2, g.ty));
        }
    }
    Ok((f, end))
}

pub proof fn lemma_record_tokens(
    toks: Seq<Token>,
    pos: int,
    p: int,
    cur: int,
    close: int,
    r: RecordModel,
    trailing: bool,
)
    requires
        0 <= pos <= p,
        p + 3 <= cur <= close < toks.len(),
        span(toks, pos, p) == vis_tokens(r.vis),
        toks[p]@ == TokenModel::Ident(kw_struct()),
        toks[p + 1]@ == TokenModel::Ident(r.name),
        toks[p + 2]@ == TokenModel::Punct('{'),
        span(toks, p + 3, cur) == fields_tokens(r.fields),
        trailing ==> close == cur + 1 && toks[cur]@ == TokenModel::Punct(','),
        !trailing ==> close == cur,
        toks[close]@ == TokenModel::Punct('}'),
    ensures
        span(toks, pos, close + 1) == record_tokens(r, trailing),
{
    lemma_span_extend(toks, pos, p, close + 1);
    lemma_span_extend(toks, p, p + 3, close + 1);
    lemma_span_extend(toks, p + 3, cur, close + 1);
    lemma_span_extend(toks, cur, close, close + 1);
    lemma_span_one(toks, close);
    assert(span(toks, p, p + 3) =~= ident(kw_struct()) + ident(r.name) + punct('{'));
    if trailing {
        lemma_span_one(toks, cur);
    } else {
        assert(span(toks, cur, close) =~= Seq::<TokenModel>::empty());
    }
    assert(span(toks, pos, close + 1) =~= record_tokens(r, trailing));
}

/// A record the grammar can spell: at least one field, each spellable.
pub open spec fn record_wf(r: RecordModel) -> bool {
    r.fields.len() >= 1 && forall|i: int| 0 <= i < r.fields.len() ==> field_wf(#[trigger] r.fields[i])
}

/// `toks` spells the record `r` from `pos` on.
pub open spec fn spells_record(toks: Seq<Token>, pos: int, r: RecordModel, trailing_comma: bool) -> bool {
    record_wf(r) && at(toks, pos, record_tokens(r, trailing_comma))
}

/// `toks` spells the fields `fs` from `pos` on, followed by the end of the
/// field list.
pub open spec fn spells_fields(toks: Seq<Token>, pos: int, fs: Seq<FieldModel>, trailing_comma: bool) -> bool {
    &&& fs.len() >= 1
    &&& forall|i: int| 0 <= i < fs.len() ==> field_wf(#[trigger] fs[i])
    &&& at(toks, pos, fields_tokens(fs))
    &&& if trailing_comma {
        punct_at_spec(toks, pos + fields_tokens(fs).len(), ',') && punct_at_spec(
            toks,
            pos + fields_tokens(fs).len() + 1,
            '}',
        )
    } else {
        punct_at_spec(toks, pos + fields_tokens(fs).len(), '}')
    }
}

pub proof fn lemma_fields_step(fs: Seq<FieldModel>, k: int)
    requires
        1 <= k < fs.len(),
    ensures
        fields_tokens(fs.subrange(0, k + 1)) == fields_tokens(fs.subrange(0, k)) + (punct(',') + field_tokens(
            fs[k],
        )),
{
    let r = fs.subrange(0, k + 1);
    assert(r.subrange(0, k) =~= fs.subrange(0, k));
    assert(fields_tokens(r) =~= fields_tokens(fs.subrange(0, k)) + (punct(',') + field_tokens(fs[k])));
}

pub proof fn lemma_fields_prefix(toks: Seq<Token>, pos: int, fs: Seq<FieldModel>, k: int)
    requires
        1 <= k <= fs.len(),
        at(toks, pos, fields_tokens(fs)),
    ensures
        at(toks, pos, fields_tokens(fs.subrange(0, k))),
    decreases fs.len() - k,
{
    if k < fs.len() {
        lemma_fields_prefix(toks, pos, fs, k + 1);
        lemma_fields_step(fs, k);
        lemma_at_concat(toks, pos, fields_tokens(fs.subrange(0, k)), punct(',') + field_tokens(fs[k]));
    } else {
        assert(fs.subrange(0, k) =~= fs);
    }
}

/// Where the tokens of the first `k` fields end, a `,` follows when more
/// fields or a trailing comma come, and `}` follows otherwise.
pub proof fn lemma_fields_after(toks: Seq<Token>, pos: int, fs: Seq<FieldModel>, tc: bool, k: int)
    requires
        spells_fields(toks, pos, fs, tc),
        1 <= k <= fs.len(),
    ensures
        (k < fs.len() || tc) ==> punct_at_spec(toks, pos + fields_tokens(fs.subrange(0, k)).len(), ','),
        (k == fs.len() && !tc) ==> punct_at_spec(toks, pos + fields_tokens(fs.subrange(0, k)).len(), '}'),
        ends_type(toks, pos + fields_tokens(fs.subrange(0, k)).len()),
        k < fs.len() ==> spells_field(toks, pos + fields_tokens(fs.subrange(0, k)).len() + 1, fs[k]) && toks[pos
            + fields_tokens(fs.subrange(0, k)).len() + 1]@ is Ident && pos + fields_tokens(fs.subrange(0, k + 1)).len()
            == pos + fields_tokens(fs.subrange(0, k)).len() + 1 + field_tokens(fs[k]).len(),
        k == fs.len() && tc ==> punct_at_spec(toks, pos + fields_tokens(fs.subrange(0, k)).len() + 1, '}'),
    decreases fs.len() - k,
{
    if k < fs.len() {
        lemma_fields_prefix(toks, pos, fs, k + 1);
        lemma_fields_step(fs, k);
        let head = fields_tokens(fs.subrange(0, k));
        let h = pos + head.len();
        lemma_at_concat(toks, pos, head, punct(',') + field_tokens(fs[k]));
        lemma_at_concat(toks, h, punct(','), field_tokens(fs[k]));
        lemma_at_index(toks, h, punct(','), 0);
        lemma_field_parts(toks, h + 1, fs[k]);
        lemma_fields_after(toks, pos, fs, tc, k + 1);
    } else {
        assert(fs.subrange(0, k) =~= fs);
    }
}

pub proof fn lemma_fields_first(toks: Seq<Token>, pos: int, fs: Seq<FieldModel>, tc: bool)
    requires
        spells_fields(toks, pos, fs, tc),
    ensures
        spells_field(toks, pos, fs[0]),
        fields_tokens(fs.subrange(0, 1)) == field_tokens(fs[0]),
{
    lemma_fields_prefix(toks, pos, fs, 1);
    assert(fields_tokens(fs.subrange(0, 1)) == field_tokens(fs[0]));
    lemma_fields_after(toks, pos, fs, tc, 1);
}

pub proof fn lemma_record_parts(toks: Seq<Token>, pos: int, r: RecordModel, tc: bool)
    requires
        spells_record(toks, pos, r, tc),
    ensures
        pos < toks.len(),
        (r.vis == Visibility::Public) == (toks[pos]@ == TokenModel::Ident(kw_pub())),
        toks[pos + vis_tokens(r.vis).len()]@ == TokenModel::Ident(kw_struct()),
        toks[pos + vis_tokens(r.vis).len() + 1]@ == TokenModel::Ident(r.name),
        toks[pos + vis_tokens(r.vis).len() + 2]@ == TokenModel::Punct('{'),
        spells_fields(toks, pos + vis_tokens(r.vis).len() + 3, r.fields, tc),
        pos + record_tokens(r, tc).len() == pos + vis_tokens(r.vis).len() + 3 + fields_tokens(r.fields).len() + (
        if tc {
            2int
        } else {
            1int
        }),
{
    let v = vis_tokens(r.vis);
    let head = v + ident(kw_struct()) + ident(r.name) + punct('{');
    let comma: Seq<TokenModel> = if tc {
        punct(',')
    } else {
        Seq::empty()
    };
    assert(record_tokens(r, tc) == head + fields_tokens(r.fields) + comma + punct('}'));
    lemma_at_concat(toks, pos, head + fields_tokens(r.fields) + comma, punct('}'));
    lemma_at_concat(toks, pos, head + fields_tokens(r.fields), comma);
    lemma_at_concat(toks, pos, head, fields_tokens(r.fields));
    lemma_at_concat(toks, pos, v + ident(kw_struct()) + ident(r.name), punct('{'));
    lemma_at_concat(toks, pos, v + ident(kw_struct()), ident(r.name));
    lemma_at_concat(toks, pos, v, ident(kw_struct()));
    lemma_at_index(toks, pos + v.len(), ident(kw_struct()), 0);
    lemma_at_index(toks, pos + v.len() + 1, ident(r.name), 0);
    lemma_at_index(toks, pos + v.len() + 2, punct('{'), 0);
    let c = pos + head.len() + fields_tokens(r.fields).len();
    lemma_at_index(toks, c + comma.len(), punct('}'), 0);
    if tc {
        lemma_at_index(toks, c, comma, 0);
    }
    if r.vis == Visibility::Public {
        lemma_at_index(toks, pos, v, 0);
    } else {
        assert(kw_struct() != kw_pub());
    }
}

/// Parses a field list starting at `start`, up to the closing `}`; also
/// tells whether the list ended with a `,`. It succeeds on every field list
/// spelled there, and returns exactly those fields.
pub fn parse_fields(toks: &Vec<Token>, start: usize) -> (r: Result<(Vec<Field>, usize, bool), SyntaxError>)
    requires
        start <= toks.len(),
    ensures
        r matches Err(e) ==> start <= syntax_position(e) <= toks.len(),
        r matches Ok((fields, cur, tc)) ==> start < cur <= toks.len() && fields.len() >= 1 && span(
            toks@,
            start as int,
            cur as int,
        ) == fields_tokens(fields@.map_values(|f: Field| f@)) && (tc ==> punct_at_spec(toks@, cur as int, ',')),
        forall|fs: Seq<FieldModel>, tc: bool| #[trigger]
            spells_fields(toks@, start as int, fs, tc) ==> (r matches Ok((fields, cur, t)) && fields@.map_values(
                |f: Field| f@,
            ) == fs && t == tc),
{
    let mut fields: Vec<Field> = Vec::new();
    let (f, first_end) = match parse_field(toks, start) {
        Ok(x) => x,
        Err(e) => {
            proof {
                assert forall|fs: Seq<FieldModel>, tc: bool| !#[trigger] spells_fields(toks@, start as int, fs, tc) by {
                    if spells_fields(toks@, start as int, fs, tc) {
                        lemma_fields_first(toks@, start as int, fs, tc);
                    }
                }
            }
            return Err(e);
        },
    };
    fields.push(f);
    let mut cur = first_end;
    let mut trailing_comma = false;
    proof {
        assert(fields@.map_values(|f: Field| f@) =~= seq![f@]);
        assert forall|fs: Seq<FieldModel>, tc: bool| #[trigger] spells_fields(toks@, start as int, fs, tc) implies fields.len()
            <= fs.len() && fields@.map_values(|f: Field| f@) == fs.subrange(0, fields.len() as int) by {
            lemma_fields_first(toks@, start as int, fs, tc);
            assert(spells_field(toks@, start as int, fs[0]));
            assert(fields@.map_values(|f: Field| f@) =~= fs.subrange(0, 1));
        }
    }
    loop
        invariant_except_break
            !trailing_comma,
        invariant
            start < cur <= toks.len(),
            fields.len() >= 1,
            span(toks@, start as int, cur as int) == fields_tokens(fields@.map_values(|f: Field| f@)),
            forall|fs: Seq<FieldModel>, tc: bool| #[trigger]
                spells_fields(toks@, start as int, fs, tc) ==> fields.len() <= fs.len() && fields@.map_values(
                    |f: Field| f@,
                ) == fs.subrange(0, fields.len() as int),
        ensures
            start < cur <= toks.len(),
            fields.len() >= 1,
            span(toks@, start as int, cur as int) == fields_tokens(fields@.map_values(|f: Field| f@)),
            trailing_comma ==> punct_at_spec(toks@, cur as int, ','),
            forall|fs: Seq<FieldModel>, tc: bool| #[trigger]
                spells_fields(toks@, start as int, fs, tc) ==> fields@.map_values(|f: Field| f@) == fs && tc
                    == trailing_comma,
        decreases toks.len() - cur,
    {
        let k = fields.len();
        proof {
            assert forall|fs: Seq<FieldModel>, tc: bool| #[trigger] spells_fields(toks@, start as int, fs, tc) implies cur
                == start + fields_tokens(fs.subrange(0, k as int)).len() by {
            }
        }
        if !punct_at(toks, cur, ',') {
            proof {
                assert forall|fs: Seq<FieldModel>, tc: bool| #[trigger]
                    spells_fields(toks@, start as int, fs, tc) implies fields@.map_values(|f: Field| f@) == fs && tc
                    == trailing_comma by {
                    lemma_fields_after(toks@, start as int, fs, tc, k as int);
                    assert(fs.subrange(0, k as int) =~= fs);
                }
            }
            break;
        }
        if punct_at(toks, cur + 1, '}') {
            trailing_comma = true;
            proof {
                assert forall|fs: Seq<FieldModel>, tc: bool| #[trigger]
                    spells_fields(toks@, start as int, fs, tc) implies fields@.map_values(|f: Field| f@) == fs && tc
                    == trailing_comma by {
                    lemma_fields_after(toks@, start as int, fs, tc, k as int);
                    assert(fs.subrange(0, k as int) =~= fs);
                }
            }
            break;
        }
        proof {
            assert forall|fs: Seq<FieldModel>, tc: bool| #[trigger] spells_fields(toks@, start as int, fs, tc) implies (k
                as int) < fs.len() && spells_field(toks@, cur + 1, fs[k as int]) by {
                lemma_fields_after(toks@, start as int, fs, tc, k as int);
                if k as int == fs.len() {
                    assert(fs.subrange(0, k as int) =~= fs);
                }
            }
        }
        let (f, end) = match parse_field(toks, cur + 1) {
            Ok(x) => x,
            Err(e) => {
                proof {
                    assert forall|fs: Seq<FieldModel>, tc: bool| !#[trigger] spells_fields(toks@, start as int, fs, tc) by {
                        if spells_fields(toks@, start as int, fs, tc) {
                            assert(spells_field(toks@, cur + 1, fs[k as int]));
                        }
                    }
                }
                return Err(e);
            },
        };
        let ghost before = fields@.map_values(|f: Field| f@);
        fields.push(f);
        proof {
            let after = fields@.map_values(|f: Field| f@);
            assert(after.subrange(0, after.len() - 1) =~= before);
            lemma_span_extend(toks@, start as int, cur as int, end as int);
            lemma_span_extend(toks@, cur as int, cur + 1, end as int);
            lemma_span_one(toks@, cur as int);
            assert forall|fs: Seq<FieldModel>, tc: bool| #[trigger] spells_fields(toks@, start as int, fs, tc) implies fields.len()
                <= fs.len() && fields@.map_values(|f: Field| f@) == fs.subrange(0, fields.len() as int) by {
                assert(spells_field(toks@, cur + 1, fs[k as int]));
                assert(after =~= fs.subrange(0, k + 1));
            }
        }
        cur = end;
    }
    Ok((fields, cur, trailing_comma))
}

impl Definition {
    /// Parses a plain record definition, `[pub] struct NAME { fields }`,
    /// starting at `pos`. It succeeds on every record spelled there, and
    /// returns exactly that record.
    #[verifier::rlimit(50)]
    pub fn parse(toks: &Vec<Token>, pos: usize) -> (r: Result<(Definition, usize), SyntaxError>)
        requires
            pos <= toks.len(),
        ensures
            r matches Err(e) ==> pos <= syntax_position(e) <= toks.len(),
            r matches Ok((d, end)) ==> pos < end <= toks.len() && span(toks@, pos as int, end as int)
                == record_tokens(d.record@, d.trailing_comma) && d.position < toks.len()
                && toks@[d.position as int]@ == TokenModel::Ident(d.record.name@),
            record_head(toks@, pos as int) ==> (r matches Err(e) ==> after_vis(toks@, pos as int) + 3
                <= syntax_position(e)),
            forall|m: RecordModel, tc: bool| #[trigger]
                spells_record(toks@, pos as int, m, tc) ==> (r matches Ok((d, end)) && d.record@ == m
                    && d.trailing_comma == tc && end == pos + record_tokens(m, tc).len()),
    {
        let (vis, p) = parse_visibility(toks, pos);
        proof {
            reveal_strlit("struct");
            assert("struct"@ =~= kw_struct());
            assert forall|m: RecordModel, tc: bool| #[trigger] spells_record(toks@, pos as int, m, tc) implies vis
                == m.vis && p == pos + vis_tokens(m.vis).len() by {
                lemma_record_parts(toks@, pos as int, m, tc);
            }
        }
        if !keyword_at(toks, p, "struct") {
            proof {
                assert forall|m: RecordModel, tc: bool| !#[trigger] spells_record(toks@, pos as int, m, tc) by {
                    if spells_record(toks@, pos as int, m, tc) {
                        lemma_record_parts(toks@, pos as int, m, tc);
                    }
                }
            }
            return Err(unexpected(p, "`struct`"));
        }
        let name = match ident_at(toks, p + 1) {
            Some(s) => s.clone(),
            None => {
                proof {
                    assert forall|m: RecordModel, tc: bool| !#[trigger] spells_record(toks@, pos as int, m, tc) by {
                        if spells_record(toks@, pos as int, m, tc) {
                            lemma_record_parts(toks@, pos as int, m, tc);
                        }
                    }
                }
                return Err(unexpected(p + 1, "a type name"));
            },
        };
        if !punct_at(toks, p + 2, '{') {
            proof {
                assert forall|m: RecordModel, tc: bool| !#[trigger] spells_record(toks@, pos as int, m, tc) by {
                    if spells_record(toks@, pos as int, m, tc) {
                        lemma_record_parts(toks@, pos as int, m, tc);
                    }
                }
            }
            return Err(unexpected(p + 2, "`{`"));
        }
        let start = p + 3;
        proof {
            assert forall|m: RecordModel, tc: bool| #[trigger] spells_record(toks@, pos as int, m, tc) implies name@
                == m.name && spells_fields(toks@, start as int, m.fields, tc) && spells_field(
                toks@,
                start as int,
                m.fields[0],
            ) by {
                lemma_record_parts(toks@, pos as int, m, tc);
                lemma_fields_first(toks@, start as int, m.fields, tc);
            }
        }
        let (fields, cur, trailing_comma) = match parse_fields(toks, start) {
            Ok(x) => x,
            Err(e) => {
                proof {
                    assert forall|m: RecordModel, tc: bool| !#[trigger] spells_record(toks@, pos as int, m, tc) by {
                        if spells_record(toks@, pos as int, m, tc) {
                            assert(spells_fields(toks@, start as int, m.fields, tc));
                        }
                    }
                }
                return Err(e);
            },
        };
        let close = if trailing_comma {
            cur + 1
        } else {
            cur
        };
        if !punct_at(toks, close, '}') {
            proof {
                assert forall|m: RecordModel, tc: bool| !#[trigger] spells_record(toks@, pos as int, m, tc) by {
                    if spells_record(toks@, pos as int, m, tc) {
                        lemma_record_parts(toks@, pos as int, m, tc);
                        assert(spells_fields(toks@, start as int, m.fields, tc));
                        lemma_fields_after(toks@, start as int, m.fields, tc, m.fields.len() as int);
                        assert(m.fields.subrange(0, m.fields.len() as int) =~= m.fields);
                    }
                }
            }
            return Err(unexpected(close, "`,` or `}`"));
        }
        let record = Record { vis, name, fields };
        let d = Definition { record, position: p + 1, trailing_comma };
        proof {
            lemma_record_tokens(toks@, pos as int, p as int, cur as int, close as int, d.record@, trailing_comma);
            assert forall|m: RecordModel, tc: bool| #[trigger] spells_record(toks@, pos as int, m, tc) implies d.record@
                == m && d.trailing_comma == tc && close + 1 == pos + record_tokens(m, tc).len() by {
                lemma_record_parts(toks@, pos as int, m, tc);
                assert(spells_fields(toks@, start as int, m.fields, tc));
            }
        }
        Ok((d, close + 1))
    }
}

/// `toks` holds the parenthesized list of names `ns` from `pos` on.
pub open spec fn spells_names(toks: Seq<Token>, pos: int, ns: Seq<Seq<char>>) -> bool {
    at(toks, pos, punct('(') + names_tokens(ns) + punct(')'))
}

pub proof fn lemma_names_step(ns: Seq<Seq<char>>, k: int)
    requires
        1 <= k < ns.len(),
    ensures
        names_tokens(ns.subrange(0, k + 1)) == names_tokens(ns.subrange(0, k)) + (punct(',') + ident(ns[k])),
{
    let r = ns.subrange(0, k + 1);
    assert(r.subrange(0, k) =~= ns.subrange(0, k));
    assert(names_tokens(r) =~= names_tokens(ns.subrange(0, k)) + (punct(',') + ident(ns[k])));
}

pub proof fn lemma_names_prefix(toks: Seq<Token>, pos: int, ns: Seq<Seq<char>>, k: int)
    requires
        1 <= k <= ns.len(),
        at(toks, pos, names_tokens(ns)),
    ensures
        at(toks, pos, names_tokens(ns.subrange(0, k))),
    decreases ns.len() - k,
{
    if k < ns.len() {
        lemma_names_prefix(toks, pos, ns, k + 1);
        lemma_names_step(ns, k);
        lemma_at_concat(toks, pos, names_tokens(ns.subrange(0, k)), punct(',') + ident(ns[k]));
    } else {
        assert(ns.subrange(0, k) =~= ns);
    }
}

pub proof fn lemma_names_len(ns: Seq<Seq<char>>)
    ensures
        ns.len() >= 1 ==> names_tokens(ns).len() == 2 * ns.len() - 1,
        ns.len() == 0 ==> names_tokens(ns).len() == 0,
    decreases ns.len(),
{
    if ns.len() > 1 {
        lemma_names_len(ns.subrange(0, ns.len() - 1));
    }
}

/// The parts of a spelled list of names: `(`, then the names, then `)`;
/// after the first `k` names comes `,` and the next name.
pub proof fn lemma_names_parts(toks: Seq<Token>, pos: int, ns: Seq<Seq<char>>, k: int)
    requires
        spells_names(toks, pos, ns),
        0 <= k <= ns.len(),
    ensures
        pos + 2 + names_tokens(ns).len() <= toks.len(),
        ns.len() >= 1 ==> names_tokens(ns).len() == 2 * ns.len() - 1,
        ns.len() == 0 ==> names_tokens(ns).len() == 0,
        k >= 1 ==> names_tokens(ns.subrange(0, k)).len() == 2 * k - 1,
        toks[pos]@ == TokenModel::Punct('('),
        toks[pos + 1 + names_tokens(ns).len()]@ == TokenModel::Punct(')'),
        at(toks, pos + 1, names_tokens(ns)),
        ns.len() == 0 ==> toks[pos + 1]@ == TokenModel::Punct(')'),
        k == 0 && k < ns.len() ==> toks[pos + 1]@ == TokenModel::Ident(ns[0]),
        1 <= k < ns.len() ==> toks[pos + 1 + names_tokens(ns.subrange(0, k)).len()]@ == TokenModel::Punct(',')
            && toks[pos + 2 + names_tokens(ns.subrange(0, k)).len()]@ == TokenModel::Ident(ns[k]),
{
    lemma_names_len(ns);
    lemma_names_len(ns.subrange(0, k));
    lemma_at_concat(toks, pos, punct('(') + names_tokens(ns), punct(')'));
    lemma_at_concat(toks, pos, punct('('), names_tokens(ns));
    lemma_at_index(toks, pos, punct('('), 0);
    lemma_at_index(toks, pos + 1 + names_tokens(ns).len(), punct(')'), 0);
    if ns.len() > 0 {
        lemma_names_prefix(toks, pos + 1, ns, 1);
        assert(names_tokens(ns.subrange(0, 1)) == ident(ns[0]));
        lemma_at_index(toks, pos + 1, ident(ns[0]), 0);
    }
    if 1 <= k < ns.len() {
        lemma_names_prefix(toks, pos + 1, ns, k + 1);
        lemma_names_step(ns, k);
        let head = names_tokens(ns.subrange(0, k));
        lemma_at_concat(toks, pos + 1, head, punct(',') + ident(ns[k]));
        lemma_at_index(toks, pos + 1 + head.len(), punct(',') + ident(ns[k]), 0);
        lemma_at_index(toks, pos + 1 + head.len(), punct(',') + ident(ns[k]), 1);
    }
}

/// The names of a parenthesized list, `(A, B, ...)`.
#[derive(Debug, PartialEq, Eq)]
pub struct AngleBracketedIdents {
    pub items: Vec<String>,
    /// Token index of the opening parenthesis.
    pub span: usize,
}

impl AngleBracketedIdents {
    /// Parses `( [NAME (, NAME)*] )` starting at `pos`. It succeeds on every
    /// list of names spelled there, and returns exactly those names.
    pub fn parse(toks: &Vec<Token>, pos: usize) -> (r: Result<(AngleBracketedIdents, usize), SyntaxError>)
        requires
            pos <= toks.len(),
        ensures
            r matches Err(e) ==> pos <= syntax_position(e) <= toks.len(),
            r matches Ok((l, end)) ==> pos < end <= toks.len() && l.span == pos && span(
                toks@,
                pos as int,
                end as int,
            ) == punct('(') + names_tokens(names_of(l.items)) + punct(')'),
            forall|ns: Seq<Seq<char>>| #[trigger]
                spells_names(toks@, pos as int, ns) ==> (r matches Ok((l, end)) && names_of(l.items) == ns && end
                    == pos + 2 + names_tokens(ns).len()),
    {
        if !punct_at(toks, pos, '(') {
            proof {
                assert forall|ns: Seq<Seq<char>>| !#[trigger] spells_names(toks@, pos as int, ns) by {
                    if spells_names(toks@, pos as int, ns) {
                        lemma_names_parts(toks@, pos as int, ns, 0);
                    }
                }
            }
            return Err(unexpected(pos, "`(`"));
        }
        let mut items: Vec<String> = Vec::new();
        let mut cur = pos + 1;
        proof {
            lemma_span_one(toks@, pos as int);
            assert(names_of(items) =~= Seq::<Seq<char>>::empty());
        }
        if let Some(first) = ident_at(toks, cur) {
            items.push(first.clone());
            proof {
                lemma_span_extend(toks@, pos as int, cur as int, cur + 1);
                lemma_span_one(toks@, cur as int);
                assert(names_of(items) =~= seq![first@]);
                assert forall|ns: Seq<Seq<char>>| #[trigger] spells_names(toks@, pos as int, ns) implies 1
                    <= ns.len() && names_of(items) == ns.subrange(0, 1) by {
                    lemma_names_parts(toks@, pos as int, ns, 0);
                    assert(names_of(items) =~= ns.subrange(0, 1));
                }
            }
            cur = cur + 1;
            let mut more = punct_at(toks, cur, ',');
            while more
                invariant
                    pos < cur <= toks.len(),
                    items.len() >= 1,
                    more == punct_at_spec(toks@, cur as int, ','),
                    span(toks@, pos as int, cur as int) == punct('(') + names_tokens(names_of(items)),
                    forall|ns: Seq<Seq<char>>| #[trigger]
                        spells_names(toks@, pos as int, ns) ==> items.len() <= ns.len() && names_of(items)
                            == ns.subrange(0, items.len() as int),
                decreases toks.len() - cur,
            {
                let k = items.len();
                proof {
                    assert forall|ns: Seq<Seq<char>>| #[trigger] spells_names(toks@, pos as int, ns) implies (k as int)
                        < ns.len() && cur + 1 < toks.len() && toks@[cur + 1]@ == TokenModel::Ident(ns[k as int]) by {
                        lemma_names_parts(toks@, pos as int, ns, k as int);
                        assert(names_of(items) == ns.subrange(0, k as int));
                        assert(span(toks@, pos as int, cur as int).len() == cur - pos);
                        assert((punct('(') + names_tokens(names_of(items))).len() == 1 + names_tokens(
                            names_of(items),
                        ).len());
                        assert(cur == pos + 1 + names_tokens(ns.subrange(0, k as int)).len());
                        if k as int == ns.len() {
                            assert(ns.subrange(0, k as int) =~= ns);
                            assert(toks@[cur as int]@ == TokenModel::Punct(')'));
                            assert(false);
                        }
                    }
                }
                let next = match ident_at(toks, cur + 1) {
                    Some(s) => s.clone(),
                    None => {
                        proof {
                            assert forall|ns: Seq<Seq<char>>| !#[trigger] spells_names(toks@, pos as int, ns) by {
                                if spells_names(toks@, pos as int, ns) {
                                    assert(toks@[cur + 1]@ == TokenModel::Ident(ns[k as int]));
                                }
                            }
                        }
                        return Err(unexpected(cur + 1, "a type name"));
                    },
                };
                let ghost before = names_of(items);
                items.push(next);
                proof {
                    let after = names_of(items);
                    assert(after.subrange(0, after.len() - 1) =~= before);
                    lemma_span_extend(toks@, pos as int, cur as int, cur + 2);
                    assert(span(toks@, cur as int, cur + 2) =~= punct(',') + ident(next@));
                    assert(punct('(') + names_tokens(after) =~= punct('(') + names_tokens(before) + (punct(',')
                        + ident(next@)));
                    assert forall|ns: Seq<Seq<char>>| #[trigger] spells_names(toks@, pos as int, ns) implies items.len()
                        <= ns.len() && names_of(items) == ns.subrange(0, items.len() as int) by {
                        assert(after =~= ns.subrange(0, k + 1));
                    }
                }
                cur = cur + 2;
                more = punct_at(toks, cur, ',');
            }
            proof {
                assert forall|ns: Seq<Seq<char>>| #[trigger] spells_names(toks@, pos as int, ns) implies names_of(
                    items,
                ) == ns by {
                    let k = items.len() as int;
                    lemma_names_parts(toks@, pos as int, ns, k);
                    assert(names_of(items) == ns.subrange(0, k));
                    assert(span(toks@, pos as int, cur as int).len() == cur - pos);
                    assert((punct('(') + names_tokens(names_of(items))).len() == 1 + names_tokens(
                        names_of(items),
                    ).len());
                    assert(cur == pos + 1 + names_tokens(ns.subrange(0, k)).len());
                    if k < ns.len() {
                        assert(toks@[cur as int]@ == TokenModel::Punct(','));
                        assert(false);
                    }
                    assert(ns.subrange(0, k) =~= ns);
                }
            }
        } else {
            proof {
                assert forall|ns: Seq<Seq<char>>| #[trigger] spells_names(toks@, pos as int, ns) implies names_of(
                    items,
                ) == ns by {
                    lemma_names_parts(toks@, pos as int, ns, 0);
                    assert(ns =~= Seq::<Seq<char>>::empty());
                }
            }
        }
        proof {
            assert forall|ns: Seq<Seq<char>>| #[trigger] spells_names(toks@, pos as int, ns) implies cur == pos + 1
                + names_tokens(ns).len() && punct_at_spec(toks@, cur as int, ')') by {
                lemma_names_parts(toks@, pos as int, ns, 0);
            }
        }
        if !punct_at(toks, cur, ')') {
            return Err(unexpected(cur, "`,` or `)`"));
        }
        proof {
            lemma_span_extend(toks@, pos as int, cur as int, cur + 1);
            lemma_span_one(toks@, cur as int);
        }
        Ok((AngleBracketedIdents { items, span: pos }, cur + 1))
    }
}

/// The one name of a parameter list; a `ParameterCount` error when there
/// is not exactly one.
pub fn validate_one_param(params: AngleBracketedIdents) -> (r: Result<String, SyntaxError>)
    ensures
        r is Ok <==> params.items.len() == 1,
        r matches Ok(s) ==> s@ == params.items[0]@,
        r matches Err(e) ==> (e == (SyntaxError::ParameterCount { position: params.span, found: params.items.len() })),
{
    let num_params = params.items.len();
    if num_params != 1 {
        return Err(SyntaxError::ParameterCount { position: params.span, found: num_params });
    }
    Ok(params.items[0].clone())
}

/// `toks` spells the utility operation `op` from `pos` on.
pub open spec fn spells_utility(toks: Seq<Token>, pos: int, op: UtilityOperation) -> bool {
    at(toks, pos, op_tokens(CompositeOperation::UtilityOp(op)))
}

pub proof fn lemma_utility_parts(toks: Seq<Token>, pos: int, op: UtilityOperation)
    requires
        spells_utility(toks, pos, op),
    ensures
        toks[pos]@ == TokenModel::Ident(
            match op {
                UtilityOperation::Required(_) => kw_required(),
                UtilityOperation::Optional(_) => kw_optional(),
            },
        ),
        spells_names(toks, pos + 1, seq![op_target(CompositeOperation::UtilityOp(op))]),
        op_tokens(CompositeOperation::UtilityOp(op)).len() == 4,
{
    let whole = op_tokens(CompositeOperation::UtilityOp(op));
    let n = op_target(CompositeOperation::UtilityOp(op));
    lemma_at_index(toks, pos, whole, 0);
    lemma_at_index(toks, pos, whole, 1);
    lemma_at_index(toks, pos, whole, 2);
    lemma_at_index(toks, pos, whole, 3);
    assert(names_tokens(seq![n]) == ident(n));
    assert(span(toks, pos + 1, pos + 4) =~= punct('(') + names_tokens(seq![n]) + punct(')'));
}

/// `toks` holds the identifier `op` at `pos`, followed by the parenthesized
/// list of names `ns`.
pub open spec fn spells_call(toks: Seq<Token>, pos: int, op: Seq<char>, ns: Seq<Seq<char>>) -> bool {
    0 <= pos < toks.len() && toks[pos]@ == TokenModel::Ident(op) && spells_names(toks, pos + 1, ns)
}

/// An operation `op(ns)` that is not a utility operation: the operator is
/// neither `Required` nor `Optional`, or the list does not hold one name.
pub open spec fn call_fails(op: Seq<char>, ns: Seq<Seq<char>>) -> bool {
    (op != kw_required() && op != kw_optional()) || ns.len() != 1
}

/// The error for a failing `op(ns)` at `pos`: an unknown operator names
/// the operator; otherwise the count of names found is reported.
pub open spec fn call_error(pos: int, op: Seq<char>, ns: Seq<Seq<char>>, e: SyntaxError) -> bool {
    if op != kw_required() && op != kw_optional() {
        e matches SyntaxError::UnknownOperator { position, name } && position == pos && name@ == op
    } else {
        e matches SyntaxError::ParameterCount { position, found } && position == pos + 1 && found == ns.len()
    }
}

impl UtilityOperation {
    /// Parses `Required(NAME)` or `Optional(NAME)` starting at `pos`; also
    /// returns the token index of `NAME`. It succeeds on every such
    /// operation spelled there, and returns exactly that operation.
    pub fn parse(toks: &Vec<Token>, pos: usize) -> (r: Result<(UtilityOperation, usize, usize), SyntaxError>)
        requires
            pos <= toks.len(),
        ensures
            r matches Err(e) ==> pos <= syntax_position(e) <= toks.len(),
            r matches Ok((op, end, t)) ==> pos < end <= toks.len() && span(toks@, pos as int, end as int)
                == op_tokens(CompositeOperation::UtilityOp(op)) && t < toks.len() && toks@[t as int]@
                == TokenModel::Ident(op_target(CompositeOperation::UtilityOp(op))),
            forall|u: UtilityOperation| #[trigger]
                spells_utility(toks@, pos as int, u) ==> (r matches Ok((op, end, t)) && op_model(
                    CompositeOperation::UtilityOp(op),
                ) == op_model(CompositeOperation::UtilityOp(u)) && end == pos + 4),
            forall|op: Seq<char>, ns: Seq<Seq<char>>| #[trigger]
                spells_call(toks@, pos as int, op, ns) && call_fails(op, ns) ==> (r matches Err(e) && call_error(
                    pos as int,
                    op,
                    ns,
                    e,
                )),
    {
        proof {
            reveal_strlit("Required");
            reveal_strlit("Optional");
            assert("Required"@ =~= kw_required());
            assert("Optional"@ =~= kw_optional());
        }
        let operator = match ident_at(toks, pos) {
            Some(s) => s,
            None => {
                proof {
                    assert forall|u: UtilityOperation| !#[trigger] spells_utility(toks@, pos as int, u) by {
                        if spells_utility(toks@, pos as int, u) {
                            lemma_utility_parts(toks@, pos as int, u);
                        }
                    }
                }
                return Err(unexpected(pos, "`Required` or `Optional`"));
            },
        };
        let (params, end) = match AngleBracketedIdents::parse(toks, pos + 1) {
            Ok(x) => x,
            Err(e) => {
                proof {
                    assert forall|u: UtilityOperation| !#[trigger] spells_utility(toks@, pos as int, u) by {
                        if spells_utility(toks@, pos as int, u) {
                            lemma_utility_parts(toks@, pos as int, u);
                        }
                    }
                    assert forall|op: Seq<char>, ns: Seq<Seq<char>>| !#[trigger] spells_call(
                        toks@,
                        pos as int,
                        op,
                        ns,
                    ) by {
                        if spells_call(toks@, pos as int, op, ns) {
                            assert(spells_names(toks@, pos + 1, ns));
                        }
                    }
                }
                return Err(e);
            },
        };
        let ghost names = params.items@.map_values(|s: String| s@);
        let is_required = *operator == String::from_str("Required");
        let is_optional = *operator == String::from_str("Optional");
        proof {
            assert forall|u: UtilityOperation| #[trigger] spells_utility(toks@, pos as int, u) implies names == seq![
                op_target(CompositeOperation::UtilityOp(u)),
            ] && end == pos + 4 && (u is Required <==> is_required) && (u is Optional <==> is_optional) by {
                lemma_utility_parts(toks@, pos as int, u);
                assert(kw_required() != kw_optional());
            }
        }
        proof {
            assert forall|op: Seq<char>, ns: Seq<Seq<char>>| #[trigger] spells_call(toks@, pos as int, op, ns) implies operator@
                == op && names == ns && is_required == (op == kw_required()) && is_optional == (op
                == kw_optional()) by {
                assert(spells_names(toks@, pos + 1, ns));
            }
        }
        if !is_required && !is_optional {
            return Err(SyntaxError::UnknownOperator { position: pos, name: operator.clone() });
        }
        let param = match validate_one_param(params) {
            Ok(x) => x,
            Err(e) => {
                proof {
                    assert forall|op: Seq<char>, ns: Seq<Seq<char>>| #[trigger]
                        spells_call(toks@, pos as int, op, ns) && call_fails(op, ns) implies call_error(
                        pos as int,
                        op,
                        ns,
                        e,
                    ) by {
                        assert(names.len() == ns.len());
                    }
                }
                return Err(e);
            },
        };
        proof {
            assert forall|op: Seq<char>, ns: Seq<Seq<char>>| #[trigger] spells_call(toks@, pos as int, op, ns) implies !call_fails(
                op,
                ns,
            ) by {
                assert(names.len() == ns.len());
            }
        }
        proof {
            assert(names.len() == 1 && names[0] == param@);
            lemma_span_extend(toks@, pos as int, pos + 1, end as int);
            lemma_span_one(toks@, pos as int);
            let tail = span(toks@, pos + 1, end as int);
            assert(tail =~= punct('(') + ident(param@) + punct(')'));
            assert(tail[1] == toks@[pos + 2]@);
        }
        if is_required {
            let op = UtilityOperation::Required(param);
            proof {
                assert(span(toks@, pos as int, end as int) =~= op_tokens(CompositeOperation::UtilityOp(op)));
            }
            Ok((op, end, pos + 2))
        } else {
            let op = UtilityOperation::Optional(param);
            proof {
                assert(span(toks@, pos as int, end as int) =~= op_tokens(CompositeOperation::UtilityOp(op)));
            }
            Ok((op, end, pos + 2))
        }
    }
}

/// `toks` spells the operation `op` from `pos` on; an alias is not followed
/// by `(`.
pub open spec fn spells_op(toks: Seq<Token>, pos: int, op: CompositeOperation) -> bool {
    at(toks, pos, op_tokens(op)) && (op is TypeAlias ==> !punct_at_spec(toks, pos + 1, '('))
}

impl CompositeOperation {
    /// Parses the right-hand side of a composite declaration starting at
    /// `pos`: a bare name not followed by `(` is an alias, anything else a
    /// utility operation. Also returns the token index of the referenced name.
    /// It succeeds on every operation spelled there, and returns exactly that
    /// operation.
    pub fn parse(toks: &Vec<Token>, pos: usize) -> (r: Result<(CompositeOperation, usize, usize), SyntaxError>)
        requires
            pos <= toks.len(),
        ensures
            r matches Err(e) ==> pos <= syntax_position(e) <= toks.len(),
            r matches Ok((op, end, t)) ==> pos < end <= toks.len() && span(toks@, pos as int, end as int)
                == op_tokens(op) && t < toks.len() && toks@[t as int]@ == TokenModel::Ident(op_target(op)),
            forall|o: CompositeOperation| #[trigger]
                spells_op(toks@, pos as int, o) ==> (r matches Ok((op, end, t)) && op_model(op) == op_model(o)
                    && end == pos + op_tokens(o).len()),
            forall|op: Seq<char>, ns: Seq<Seq<char>>| #[trigger]
                spells_call(toks@, pos as int, op, ns) && call_fails(op, ns) ==> (r matches Err(e) && call_error(
                    pos as int,
                    op,
                    ns,
                    e,
                )),
    {
        proof {
            assert forall|op: Seq<char>, ns: Seq<Seq<char>>| #[trigger] spells_call(toks@, pos as int, op, ns) implies punct_at_spec(
                toks@,
                pos + 1,
                '(',
            ) by {
                lemma_names_parts(toks@, pos + 1, ns, 0);
            }
        }
        proof {
            assert forall|o: CompositeOperation| #[trigger] spells_op(toks@, pos as int, o) implies (toks@[pos as int]@
                is Ident) && (o is UtilityOp <==> punct_at_spec(toks@, pos + 1, '(')) && (o matches CompositeOperation::UtilityOp(
                u,
            ) ==> spells_utility(toks@, pos as int, u)) && (o matches CompositeOperation::TypeAlias(a)
                ==> toks@[pos as int]@ == TokenModel::Ident(a@)) by {
                match o {
                    CompositeOperation::UtilityOp(u) => {
                        lemma_utility_parts(toks@, pos as int, u);
                        lemma_at_index(toks@, pos as int, op_tokens(o), 1);
                    },
                    CompositeOperation::TypeAlias(a) => {
                        lemma_at_index(toks@, pos as int, op_tokens(o), 0);
                    },
                }
            }
        }
        match ident_at(toks, pos) {
            Some(s) => {
                if punct_at(toks, pos + 1, '(') {
                    match UtilityOperation::parse(toks, pos) {
                        Ok((uo, end, t)) => Ok((CompositeOperation::UtilityOp(uo), end, t)),
                        Err(e) => Err(e),
                    }
                } else {
                    let op = CompositeOperation::TypeAlias(s.clone());
                    proof {
                        lemma_span_one(toks@, pos as int);
                    }
                    Ok((op, pos + 1, pos))
                }
            },
            None => Err(unexpected(pos, "a type alias or utility operation")),
        }
    }
}

pub proof fn lemma_composite_tokens(toks: Seq<Token>, pos: int, p: int, q: int, end: int, c: CompositeStruct)
    requires
        0 <= pos <= p,
        p + 3 <= q <= end <= toks.len(),
        span(toks, pos, p) == vis_tokens(c.vis),
        toks[p]@ == TokenModel::Ident(kw_struct()),
        toks[p + 1]@ == TokenModel::Ident(c.name@),
        toks[p + 2]@ == TokenModel::Punct('='),
        span(toks, p + 3, q) == op_tokens(c.composite_operation),
        c.semicolon ==> end == q + 1 && toks[q]@ == TokenModel::Punct(';'),
        !c.semicolon ==> end == q,
    ensures
        span(toks, pos, end) == composite_tokens(c),
{
    lemma_span_extend(toks, pos, p, end);
    lemma_span_extend(toks, p, p + 3, end);
    lemma_span_extend(toks, p + 3, q, end);
    assert(span(toks, p, p + 3) =~= ident(kw_struct()) + ident(c.name@) + punct('='));
    if c.semicolon {
        lemma_span_one(toks, q);
    } else {
        assert(span(toks, q, end) =~= Seq::<TokenModel>::empty());
    }
    assert(span(toks, pos, end) =~= composite_tokens(c));
}

/// `toks` spells the composite declaration `c` from `pos` on; without a
/// `;`, the declaration is followed by neither `;` nor `(`.
pub open spec fn spells_composite(toks: Seq<Token>, pos: int, c: CompositeStruct) -> bool {
    at(toks, pos, composite_tokens(c)) && (!c.semicolon ==> !punct_at_spec(
        toks,
        pos + composite_tokens(c).len(),
        ';',
    ) && !punct_at_spec(toks, pos + composite_tokens(c).len(), '('))
}

pub proof fn lemma_composite_parts(toks: Seq<Token>, pos: int, c: CompositeStruct)
    requires
        at(toks, pos, composite_tokens(c)),
    ensures
        pos < toks.len(),
        (c.vis == Visibility::Public) == (toks[pos]@ == TokenModel::Ident(kw_pub())),
        toks[pos + vis_tokens(c.vis).len()]@ == TokenModel::Ident(kw_struct()),
        toks[pos + vis_tokens(c.vis).len() + 1]@ == TokenModel::Ident(c.name@),
        toks[pos + vis_tokens(c.vis).len() + 2]@ == TokenModel::Punct('='),
        at(toks, pos + vis_tokens(c.vis).len() + 3, op_tokens(c.composite_operation)),
        c.semicolon ==> toks[pos + vis_tokens(c.vis).len() + 3 + op_tokens(c.composite_operation).len()]@
            == TokenModel::Punct(';'),
        pos + composite_tokens(c).len() == pos + vis_tokens(c.vis).len() + 3 + op_tokens(c.composite_operation).len()
            + (if c.semicolon {
            1int
        } else {
            0int
        }),
{
    let v = vis_tokens(c.vis);
    let head = v + ident(kw_struct()) + ident(c.name@) + punct('=');
    let semi: Seq<TokenModel> = if c.semicolon {
        punct(';')
    } else {
        Seq::empty()
    };
    assert(composite_tokens(c) == head + op_tokens(c.composite_operation) + semi);
    lemma_at_concat(toks, pos, head + op_tokens(c.composite_operation), semi);
    lemma_at_concat(toks, pos, head, op_tokens(c.composite_operation));
    lemma_at_concat(toks, pos, v + ident(kw_struct()) + ident(c.name@), punct('='));
    lemma_at_concat(toks, pos, v + ident(kw_struct()), ident(c.name@));
    lemma_at_concat(toks, pos, v, ident(kw_struct()));
    lemma_at_index(toks, pos + v.len(), ident(kw_struct()), 0);
    lemma_at_index(toks, pos + v.len() + 1, ident(c.name@), 0);
    lemma_at_index(toks, pos + v.len() + 2, punct('='), 0);
    if c.semicolon {
        lemma_at_index(toks, pos + head.len() + op_tokens(c.composite_operation).len(), semi, 0);
    }
    if c.vis == Visibility::Public {
        lemma_at_index(toks, pos, v, 0);
    } else {
        assert(kw_struct() != kw_pub());
    }
}

/// Model of a composite declaration, leaving out token positions.
pub open spec fn composite_model(c: CompositeStruct) -> (Visibility, Seq<char>, OpModel, bool) {
    (c.vis, c.name@, op_model(c.composite_operation), c.semicolon)
}

/// The index after an optional `pub` at `pos`.
pub open spec fn after_vis(toks: Seq<Token>, pos: int) -> int {
    if 0 <= pos < toks.len() && toks[pos]@ == TokenModel::Ident(kw_pub()) {
        pos + 1
    } else {
        pos
    }
}

/// `toks` holds `[pub] struct NAME {` from `pos` on.
pub open spec fn record_head(toks: Seq<Token>, pos: int) -> bool {
    let p = after_vis(toks, pos);
    p + 2 < toks.len() && toks[p]@ == TokenModel::Ident(kw_struct()) && toks[p + 1]@ is Ident && toks[p + 2]@
        == TokenModel::Punct('{')
}

/// `toks` holds `[pub] struct NAME =` from `pos` on.
pub open spec fn composite_head(toks: Seq<Token>, pos: int) -> bool {
    let p = after_vis(toks, pos);
    p + 2 < toks.len() && toks[p]@ == TokenModel::Ident(kw_struct()) && toks[p + 1]@ is Ident && toks[p + 2]@
        == TokenModel::Punct('=')
}

impl CompositeStruct {
    /// Parses a composite declaration, `[pub] struct NAME = operation [;]`,
    /// starting at `pos`. It succeeds on every declaration spelled there, and
    /// returns exactly that declaration.
    pub fn parse(toks: &Vec<Token>, pos: usize) -> (r: Result<(CompositeStruct, usize), SyntaxError>)
        requires
            pos <= toks.len(),
        ensures
            r matches Err(e) ==> pos <= syntax_position(e) <= toks.len(),
            r matches Ok((c, end)) ==> pos < end <= toks.len() && span(toks@, pos as int, end as int)
                == composite_tokens(c) && c.name_position < toks.len() && toks@[c.name_position as int]@
                == TokenModel::Ident(c.name@) && c.target_position < toks.len()
                && toks@[c.target_position as int]@ == TokenModel::Ident(op_target(c.composite_operation)),
            forall|d: CompositeStruct| #[trigger]
                spells_composite(toks@, pos as int, d) ==> (r matches Ok((c, end)) && composite_model(c)
                    == composite_model(d) && end == pos + composite_tokens(d).len()),
            composite_head(toks@, pos as int) ==> (r matches Err(e) ==> after_vis(toks@, pos as int) + 3
                <= syntax_position(e)),
            composite_head(toks@, pos as int) ==> forall|op: Seq<char>, ns: Seq<Seq<char>>| #[trigger]
                spells_call(toks@, after_vis(toks@, pos as int) + 3, op, ns) && call_fails(op, ns) ==> (r matches Err(
                    e,
                ) && call_error(after_vis(toks@, pos as int) + 3, op, ns, e)),
    {
        proof {
            reveal_strlit("struct");
            assert("struct"@ =~= kw_struct());
        }
        let (vis, p) = parse_visibility(toks, pos);
        proof {
            assert forall|d: CompositeStruct| #[trigger] spells_composite(toks@, pos as int, d) implies vis == d.vis
                && p == pos + vis_tokens(d.vis).len() && toks@[p as int]@ == TokenModel::Ident(kw_struct()) && toks@[p
                + 1]@ == TokenModel::Ident(d.name@) && toks@[p + 2]@ == TokenModel::Punct('=') && spells_op(
                toks@,
                p + 3,
                d.composite_operation,
            ) && (punct_at_spec(toks@, p + 3 + op_tokens(d.composite_operation).len(), ';') == d.semicolon) by {
                lemma_composite_parts(toks@, pos as int, d);
                if d.composite_operation is TypeAlias {
                    if d.semicolon {
                        assert(!punct_at_spec(toks@, p + 4, '('));
                    }
                }
            }
        }
        if !keyword_at(toks, p, "struct") {
            return Err(unexpected(p, "`struct`"));
        }
        let name = match ident_at(toks, p + 1) {
            Some(s) => s.clone(),
            None => return Err(unexpected(p + 1, "a type name")),
        };
        if !punct_at(toks, p + 2, '=') {
            return Err(unexpected(p + 2, "`=`"));
        }
        let (composite_operation, q, target_position) = match CompositeOperation::parse(toks, p + 3) {
            Ok(x) => x,
            Err(e) => {
                proof {
                    assert forall|d: CompositeStruct| !#[trigger] spells_composite(toks@, pos as int, d) by {
                        if spells_composite(toks@, pos as int, d) {
                            assert(spells_op(toks@, p + 3, d.composite_operation));
                        }
                    }
                }
                return Err(e);
            },
        };
        let semicolon = punct_at(toks, q, ';');
        let end = if semicolon {
            q + 1
        } else {
            q
        };
        let c = CompositeStruct { vis, name, composite_operation, semicolon, name_position: p + 1, target_position };
        proof {
            lemma_composite_tokens(toks@, pos as int, p as int, q as int, end as int, c);
            assert forall|d: CompositeStruct| #[trigger] spells_composite(toks@, pos as int, d) implies composite_model(
                c,
            ) == composite_model(d) && end == pos + composite_tokens(d).len() by {
                assert(spells_op(toks@, p + 3, d.composite_operation));
                lemma_composite_parts(toks@, pos as int, d);
            }
        }
        Ok((c, end))
    }
}

/// `toks` spells `item` from `pos` on.
pub open spec fn spells_item(toks: Seq<Token>, pos: int, item: InputType) -> bool {
    match item {
        InputType::CompositeStruct(c) => spells_composite(toks, pos, c),
        InputType::Definition(d) => spells_record(toks, pos, d.record@, d.trailing_comma),
    }
}

/// The error for an item at `pos` that does not parse. After an optional
/// `pub`, `struct` and a name must come; then `=` commits to a composite
/// declaration, whose malformed operation is reported as such, and `{` to
/// a record definition. Any other token there is reported as not being one
/// of the two alternatives.
pub open spec fn item_error(toks: Seq<Token>, pos: int, e: SyntaxError) -> bool {
    let p = after_vis(toks, pos);
    if !(p < toks.len() && toks[p]@ == TokenModel::Ident(kw_struct())) {
        e matches SyntaxError::Unexpected { position, expected } && position == p && expected@ == "`struct`"@
    } else if !(p + 1 < toks.len() && toks[p + 1]@ is Ident) {
        e matches SyntaxError::Unexpected { position, expected } && position == p + 1 && expected@
            == "a type name"@
    } else if punct_at_spec(toks, p + 2, '=') {
        &&& p + 3 <= syntax_position(e) <= toks.len()
        &&& forall|op: Seq<char>, ns: Seq<Seq<char>>| #[trigger]
            spells_call(toks, p + 3, op, ns) && call_fails(op, ns) ==> call_error(p + 3, op, ns, e)
    } else if punct_at_spec(toks, p + 2, '{') {
        p + 3 <= syntax_position(e) <= toks.len()
    } else {
        e == SyntaxError::NotAnItem { position: (p + 2) as usize }
    }
}

/// Each position stored in `item` indexes the token of the name it
/// stands for.
pub open spec fn positions_ok(toks: Seq<Token>, item: InputType) -> bool {
    match item {
        InputType::CompositeStruct(c) => c.name_position < toks.len() && toks[c.name_position as int]@
            == TokenModel::Ident(c.name@) && c.target_position < toks.len() && toks[c.target_position as int]@
            == TokenModel::Ident(op_target(c.composite_operation)),
        InputType::Definition(d) => d.position < toks.len() && toks[d.position as int]@ == TokenModel::Ident(
            d.record.name@,
        ),
    }
}

impl InputType {
    /// Parses one item starting at `pos`. After `[pub] struct NAME`, a `=`
    /// makes it a composite declaration and a `{` a record definition. It
    /// succeeds on every item spelled there, and returns exactly that item.
    pub fn parse(toks: &Vec<Token>, pos: usize) -> (r: Result<(InputType, usize), SyntaxError>)
        requires
            pos <= toks.len(),
        ensures
            r matches Ok((item, end)) ==> pos < end <= toks.len() && span(toks@, pos as int, end as int)
                == item_tokens(item) && positions_ok(toks@, item),
            forall|i: InputType| #[trigger]
                spells_item(toks@, pos as int, i) ==> (r matches Ok((item, end)) && item_model(item) == item_model(i)
                    && end == pos + item_tokens(i).len()),
            r matches Err(e) ==> item_error(toks@, pos as int, e),
    {
        proof {
            reveal_strlit("struct");
            assert("struct"@ =~= kw_struct());
        }
        let (_, p) = parse_visibility(toks, pos);
        proof {
            assert(p == after_vis(toks@, pos as int));
            assert forall|i: InputType| #[trigger] spells_item(toks@, pos as int, i) implies p + 2 < toks.len()
                && toks@[p as int]@ == TokenModel::Ident(kw_struct()) && toks@[p + 1]@ is Ident && (i is CompositeStruct
                ==> toks@[p + 2]@ == TokenModel::Punct('=')) && (i is Definition ==> toks@[p + 2]@ == TokenModel::Punct(
                '{',
            )) by {
                match i {
                    InputType::CompositeStruct(c) => {
                        lemma_composite_parts(toks@, pos as int, c);
                        lemma_at_index(toks@, pos as int, composite_tokens(c), 0);
                    },
                    InputType::Definition(d) => {
                        lemma_record_parts(toks@, pos as int, d.record@, d.trailing_comma);
                    },
                }
            }
        }
        if !keyword_at(toks, p, "struct") {
            return Err(unexpected(p, "`struct`"));
        }
        if ident_at(toks, p + 1).is_none() {
            return Err(unexpected(p + 1, "a type name"));
        }
        if punct_at(toks, p + 2, '=') {
            match CompositeStruct::parse(toks, pos) {
                Ok((c, end)) => {
                    proof {
                        assert forall|i: InputType| #[trigger] spells_item(toks@, pos as int, i) implies item_model(
                            InputType::CompositeStruct(c),
                        ) == item_model(i) && end == pos + item_tokens(i).len() by {
                            if let InputType::CompositeStruct(d) = i {
                                assert(spells_composite(toks@, pos as int, d));
                            }
                        }
                    }
                    Ok((InputType::CompositeStruct(c), end))
                },
                Err(e) => {
                    proof {
                        assert(composite_head(toks@, pos as int));
                        assert forall|i: InputType| !#[trigger] spells_item(toks@, pos as int, i) by {
                            if let InputType::CompositeStruct(d) = i {
                                if spells_item(toks@, pos as int, i) {
                                    assert(spells_composite(toks@, pos as int, d));
                                }
                            }
                        }
                    }
                    Err(e)
                },
            }
        } else if punct_at(toks, p + 2, '{') {
            match Definition::parse(toks, pos) {
                Ok((d, end)) => {
                    proof {
                        assert forall|i: InputType| #[trigger] spells_item(toks@, pos as int, i) implies item_model(
                            InputType::Definition(d),
                        ) == item_model(i) && end == pos + item_tokens(i).len() by {
                            if let InputType::Definition(d2) = i {
                                assert(spells_record(toks@, pos as int, d2.record@, d2.trailing_comma));
                            }
                        }
                    }
                    Ok((InputType::Definition(d), end))
                },
                Err(e) => {
                    proof {
                        assert forall|i: InputType| !#[trigger] spells_item(toks@, pos as int, i) by {
                            if let InputType::Definition(d2) = i {
                                if spells_item(toks@, pos as int, i) {
                                    assert(spells_record(toks@, pos as int, d2.record@, d2.trailing_comma));
                                }
                            }
                        }
                    }
                    Err(e)
                },
            }
        } else {
            Err(SyntaxError::NotAnItem { position: p + 2 })
        }
    }
}

/// An item the grammar can spell: a record has at least one field, and
/// every field is spellable.
pub open spec fn item_wf(item: InputType) -> bool {
    match item {
        InputType::CompositeStruct(_) => true,
        InputType::Definition(d) => record_wf(d.record@),
    }
}

/// `toks` is exactly the spelling of `items`, each of them spellable.
pub open spec fn spells_items(toks: Seq<Token>, items: Seq<InputType>) -> bool {
    toks_model(toks) == items_tokens(items) && forall|i: int| 0 <= i < items.len() ==> item_wf(#[trigger] items[i])
}

pub proof fn lemma_item_first(item: InputType)
    ensures
        item_tokens(item).len() >= 1,
        item_tokens(item)[0] is Ident,
{
    match item {
        InputType::CompositeStruct(c) => {
            let v = vis_tokens(c.vis);
            let rest = ident(kw_struct()) + ident(c.name@) + punct('=') + op_tokens(c.composite_operation) + (
            if c.semicolon {
                punct(';')
            } else {
                Seq::empty()
            });
            assert(composite_tokens(c) =~= v + rest);
            assert(rest[0] == TokenModel::Ident(kw_struct()));
        },
        InputType::Definition(d) => {
            let r = d.record@;
            let v = vis_tokens(r.vis);
            let rest = ident(kw_struct()) + ident(r.name) + punct('{') + fields_tokens(r.fields) + (
            if d.trailing_comma {
                punct(',')
            } else {
                Seq::empty()
            }) + punct('}');
            assert(record_tokens(r, d.trailing_comma) =~= v + rest);
            assert(rest[0] == TokenModel::Ident(kw_struct()));
        },
    }
}

pub proof fn lemma_items_prefix(toks: Seq<Token>, items: Seq<InputType>, k: int)
    requires
        0 <= k <= items.len(),
        at(toks, 0, items_tokens(items)),
    ensures
        at(toks, 0, items_tokens(items.subrange(0, k))),
    decreases items.len() - k,
{
    if k < items.len() {
        lemma_items_prefix(toks, items, k + 1);
        let r = items.subrange(0, k + 1);
        assert(r.subrange(0, k) =~= items.subrange(0, k));
        lemma_at_concat(toks, 0, items_tokens(items.subrange(0, k)), item_tokens(items[k]));
    } else {
        assert(items.subrange(0, k) =~= items);
    }
}

/// Each item is spelled where the tokens of the items before it end.
pub proof fn lemma_items_at(toks: Seq<Token>, items: Seq<InputType>, k: int)
    requires
        spells_items(toks, items),
        0 <= k < items.len(),
    ensures
        spells_item(toks, items_tokens(items.subrange(0, k)).len() as int, items[k]),
        items_tokens(items.subrange(0, k + 1)).len() == items_tokens(items.subrange(0, k)).len() + item_tokens(
            items[k],
        ).len(),
        items_tokens(items.subrange(0, k)).len() < toks.len(),
{
    assert(span(toks, 0, toks.len() as int) =~= toks_model(toks));
    lemma_items_prefix(toks, items, k + 1);
    let r = items.subrange(0, k + 1);
    assert(r.subrange(0, k) =~= items.subrange(0, k));
    let h = items_tokens(items.subrange(0, k)).len() as int;
    lemma_at_concat(toks, 0, items_tokens(items.subrange(0, k)), item_tokens(items[k]));
    lemma_item_first(items[k]);
    let e = h + item_tokens(items[k]).len();
    if k + 1 < items.len() {
        lemma_items_prefix(toks, items, k + 2);
        let r2 = items.subrange(0, k + 2);
        assert(r2.subrange(0, k + 1) =~= items.subrange(0, k + 1));
        lemma_at_concat(toks, 0, items_tokens(items.subrange(0, k + 1)), item_tokens(items[k + 1]));
        lemma_item_first(items[k + 1]);
        lemma_at_index(toks, e, item_tokens(items[k + 1]), 0);
    } else {
        assert(items.subrange(0, k + 1) =~= items);
    }
}

impl TypeInput {
    /// Parses a whole token sequence into items, in order. It succeeds on
    /// every sequence that spells items, and returns exactly those items.
    pub fn parse(toks: &Vec<Token>) -> (r: Result<TypeInput, SyntaxError>)
        ensures
            r matches Ok(input) ==> toks_model(toks@) == items_tokens(input.items@),
            forall|items: Seq<InputType>| #[trigger]
                spells_items(toks@, items) ==> (r matches Ok(input) && input.items.len() == items.len() && forall|
                    i: int,
                | 0 <= i < items.len() ==> item_model(#[trigger] input.items[i]) == item_model(items[i])),
            r matches Ok(input) ==> forall|i: int|
                0 <= i < input.items.len() ==> positions_ok(toks@, #[trigger] input.items[i]),
            r matches Err(e) ==> exists|done: Seq<InputType>|
                at(toks@, 0, #[trigger] items_tokens(done)) && item_error(toks@, items_tokens(done).len() as int, e),
    {
        let mut items: Vec<InputType> = Vec::new();
        let mut cur: usize = 0;
        proof {
            assert(span(toks@, 0, 0) =~= items_tokens(items@));
            assert forall|m: Seq<InputType>| #[trigger] spells_items(toks@, m) implies items.len() <= m.len() && (
            forall|i: int| 0 <= i < items.len() ==> item_model(#[trigger] items[i]) == item_model(m[i])) && cur
                == items_tokens(m.subrange(0, items.len() as int)).len() by {
                assert(m.subrange(0, 0) =~= Seq::<InputType>::empty());
            }
        }
        while cur < toks.len()
            invariant
                cur <= toks.len(),
                span(toks@, 0, cur as int) == items_tokens(items@),
                forall|i: int| 0 <= i < items.len() ==> positions_ok(toks@, #[trigger] items[i]),
                forall|m: Seq<InputType>| #[trigger]
                    spells_items(toks@, m) ==> items.len() <= m.len() && (forall|i: int|
                        0 <= i < items.len() ==> item_model(#[trigger] items[i]) == item_model(m[i])) && cur
                        == items_tokens(m.subrange(0, items.len() as int)).len(),
            decreases toks.len() - cur,
        {
            let k = items.len();
            proof {
                assert forall|m: Seq<InputType>| #[trigger] spells_items(toks@, m) implies (k as int) < m.len()
                    && spells_item(toks@, cur as int, m[k as int]) by {
                    if k as int == m.len() {
                        assert(m.subrange(0, k as int) =~= m);
                        assert(toks_model(toks@).len() == toks.len());
                    } else {
                        lemma_items_at(toks@, m, k as int);
                    }
                }
            }
            let (item, end) = match InputType::parse(toks, cur) {
                Ok(x) => x,
                Err(e) => {
                    proof {
                        assert forall|m: Seq<InputType>| !#[trigger] spells_items(toks@, m) by {
                            if spells_items(toks@, m) {
                                assert(spells_item(toks@, cur as int, m[k as int]));
                            }
                        }
                        assert(at(toks@, 0, items_tokens(items@)));
                    }
                    return Err(e);
                },
            };
            let ghost before = items@;
            items.push(item);
            proof {
                assert(items@.subrange(0, items@.len() - 1) =~= before);
                assert forall|i: int| 0 <= i < items.len() implies positions_ok(toks@, #[trigger] items[i]) by {
                    if i < k {
                        assert(items[i] == before[i]);
                    }
                }
                lemma_span_extend(toks@, 0, cur as int, end as int);
                assert forall|m: Seq<InputType>| #[trigger] spells_items(toks@, m) implies items.len() <= m.len() && (
                forall|i: int| 0 <= i < items.len() ==> item_model(#[trigger] items[i]) == item_model(m[i])) && end
                    == items_tokens(m.subrange(0, items.len() as int)).len() by {
                    assert(spells_item(toks@, cur as int, m[k as int]));
                    lemma_items_at(toks@, m, k as int);
                    assert forall|i: int| 0 <= i < items.len() implies item_model(#[trigger] items[i]) == item_model(
                        m[i],
                    ) by {
                        if i < k {
                            assert(items[i] == before[i]);
                        }
                    }
                }
            }
            cur = end;
        }
        proof {
            assert(span(toks@, 0, cur as int) =~= toks_model(toks@));
            assert forall|m: Seq<InputType>| #[trigger] spells_items(toks@, m) implies items.len() == m.len() by {
                if items.len() < m.len() {
                    lemma_items_at(toks@, m, items.len() as int);
                }
            }
        }
        Ok(TypeInput { items })
    }
}

} // verus!
