use vstd::prelude::*;
use vstd::string::StringExecFns;

use crate::record::{Field, FieldModel, Record, RecordModel, Visibility};
use crate::state::State;
use crate::type_expr::{arg_model, args_model, lemma_args_model, ArgModel, GenericArg, TypeExpr, TypeModel};

verus! {

/// Path segments joined by `::`.
pub open spec fn render_path(p: Seq<Seq<char>>) -> Seq<char>
    decreases p.len(),
{
    if p.len() == 0 {
        Seq::empty()
    } else if p.len() == 1 {
        p[0]
    } else {
        render_path(p.subrange(0, p.len() - 1)) + seq![':', ':'] + p[p.len() - 1]
    }
}

/// A type as written: `a::B<X, 'y>`.
pub open spec fn render_type(t: TypeModel) -> Seq<char>
    decreases t,
{
    render_path(t.path) + if t.args.len() == 0 {
        Seq::empty()
    } else {
        seq!['<'] + render_args(t.args) + seq!['>']
    }
}

/// Generic arguments joined by `, `.
pub open spec fn render_args(args: Seq<ArgModel>) -> Seq<char>
    decreases args,
{
    if args.len() == 0 {
        Seq::empty()
    } else if args.len() == 1 {
        render_arg(args[0])
    } else {
        render_args(args.subrange(0, args.len() - 1)) + seq![',', ' '] + render_arg(args[args.len() - 1])
    }
}

pub open spec fn render_arg(a: ArgModel) -> Seq<char>
    decreases a,
{
    match a {
        ArgModel::Type(t) => render_type(t),
        ArgModel::Opaque(s) => s,
    }
}

pub open spec fn render_vis(v: Visibility) -> Seq<char> {
    if v == Visibility::Public {
        seq!['p', 'u', 'b', ' ']
    } else {
        Seq::empty()
    }
}

/// A field as written: `[pub ]name: Type`.
pub open spec fn render_field(f: FieldModel) -> Seq<char> {
    render_vis(f.vis) + f.name + seq![':', ' '] + render_type(f.ty)
}

/// Fields joined by `, `.
pub open spec fn render_fields(fs: Seq<FieldModel>) -> Seq<char>
    decreases fs.len(),
{
    if fs.len() == 0 {
        Seq::empty()
    } else if fs.len() == 1 {
        render_field(fs[0])
    } else {
        render_fields(fs.subrange(0, fs.len() - 1)) + seq![',', ' '] + render_field(fs[fs.len() - 1])
    }
}

/// A record definition as written: `[pub ]struct Name { a: A, b: B }`.
pub open spec fn render_record(r: RecordModel) -> Seq<char> {
    render_vis(r.vis) + seq!['s', 't', 'r', 'u', 'c', 't', ' '] + r.name + seq![' ', '{', ' ']
        + render_fields(r.fields) + if r.fields.len() == 0 {
        seq!['}']
    } else {
        seq![' ', '}']
    }
}

/// Records one after another, each ended by a line break.
pub open spec fn render_all(rs: Seq<RecordModel>) -> Seq<char>
    decreases rs.len(),
{
    if rs.len() == 0 {
        Seq::empty()
    } else {
        render_all(rs.subrange(0, rs.len() - 1)) + render_record(rs[rs.len() - 1]) + seq!['\n']
    }
}

fn write_path(path: &Vec<String>, out: &mut String)
    ensures
        final(out)@ == old(out)@ + render_path(path@.map_values(|s: String| s@)),
{
    let ghost p = path@.map_values(|s: String| s@);
    let ghost start = out@;
    let mut i: usize = 0;
    while i < path.len()
        invariant
            i <= path.len(),
            p == path@.map_values(|s: String| s@),
            out@ == start + render_path(p.subrange(0, i as int)),
        decreases path.len() - i,
    {
        if i > 0 {
            out.append("::");
        }
        out.append(path[i].as_str());
        proof {
            reveal_strlit("::");
            let q = p.subrange(0, i + 1);
            assert(q.subrange(0, i as int) =~= p.subrange(0, i as int));
            if i == 0 {
                assert(render_path(p.subrange(0, 0)) =~= Seq::<char>::empty());
            }
        }
        i += 1;
        proof {
            assert(out@ =~= start + render_path(p.subrange(0, i as int)));
        }
    }
    proof {
        assert(p.subrange(0, i as int) =~= p);
    }
}

fn write_args(args: &Vec<GenericArg>, out: &mut String)
    ensures
        final(out)@ == old(out)@ + render_args(args_model(*args, args.len() as nat)),
    decreases *args, 1nat,
{
    let ghost m = args_model(*args, args.len() as nat);
    let ghost start = out@;
    proof {
        lemma_args_model(*args, args.len() as nat);
    }
    let mut i: usize = 0;
    while i < args.len()
        invariant
            i <= args.len(),
            m == args_model(*args, args.len() as nat),
            m.len() == args.len(),
            forall|j: int| 0 <= j < m.len() ==> #[trigger] m[j] == arg_model(args[j]),
            out@ == start + render_args(m.subrange(0, i as int)),
        decreases args.len() - i,
    {
        if i > 0 {
            out.append(", ");
        }
        proof {
            assert(decreases_to!(*args => args[i as int]));
        }
        write_arg(&args[i], out);
        proof {
            reveal_strlit(", ");
            let q = m.subrange(0, i + 1);
            assert(q.subrange(0, i as int) =~= m.subrange(0, i as int));
            assert(q[i as int] == m[i as int]);
        }
        i += 1;
        proof {
            assert(out@ =~= start + render_args(m.subrange(0, i as int)));
        }
    }
    proof {
        assert(m.subrange(0, i as int) =~= m);
    }
}

fn write_arg(a: &GenericArg, out: &mut String)
    ensures
        final(out)@ == old(out)@ + render_arg(arg_model(*a)),
    decreases *a, 0nat,
{
    match a {
        GenericArg::Type(t) => write_type(t, out),
        GenericArg::Opaque(s) => {
            out.append(s.as_str());
        },
    }
}

/// Appends `t` as written to `out`.
pub fn write_type(t: &TypeExpr, out: &mut String)
    ensures
        final(out)@ == old(out)@ + render_type(t@),
    decreases *t, 2nat,
{
    let ghost start = out@;
    write_path(&t.path, out);
    proof {
        lemma_args_model(t.args, t.args.len() as nat);
    }
    if t.args.len() > 0 {
        out.append("<");
        write_args(&t.args, out);
        out.append(">");
        proof {
            reveal_strlit("<");
            reveal_strlit(">");
        }
    }
    proof {
        assert(out@ =~= start + render_type(t@));
    }
}

/// Appends `f` as written to `out`.
pub fn write_field(f: &Field, out: &mut String)
    ensures
        final(out)@ == old(out)@ + render_field(f@),
{
    let ghost start = out@;
    if f.vis == Visibility::Public {
        out.append("pub ");
    }
    out.append(f.name.as_str());
    out.append(": ");
    write_type(&f.ty, out);
    proof {
        reveal_strlit("pub ");
        reveal_strlit(": ");
        assert(out@ =~= start + render_field(f@));
    }
}

/// Appends `r` as written to `out`.
pub fn write_record(r: &Record, out: &mut String)
    ensures
        final(out)@ == old(out)@ + render_record(r@),
{
    let ghost start = out@;
    if r.vis == Visibility::Public {
        out.append("pub ");
    }
    out.append("struct ");
    out.append(r.name.as_str());
    out.append(" { ");
    let ghost head = out@;
    let ghost fs = r@.fields;
    let mut i: usize = 0;
    while i < r.fields.len()
        invariant
            i <= r.fields.len(),
            fs == r@.fields,
            out@ == head + render_fields(fs.subrange(0, i as int)),
        decreases r.fields.len() - i,
    {
        if i > 0 {
            out.append(", ");
        }
        write_field(&r.fields[i], out);
        proof {
            reveal_strlit(", ");
            let q = fs.subrange(0, i + 1);
            assert(q.subrange(0, i as int) =~= fs.subrange(0, i as int));
            assert(q[i as int] == r.fields[i as int]@);
        }
        i += 1;
        proof {
            assert(out@ =~= head + render_fields(fs.subrange(0, i as int)));
        }
    }
    if r.fields.len() == 0 {
        out.append("}");
    } else {
        out.append(" }");
    }
    proof {
        reveal_strlit("pub ");
        reveal_strlit("struct ");
        reveal_strlit(" { ");
        reveal_strlit("}");
        reveal_strlit(" }");
        assert(fs.subrange(0, i as int) =~= fs);
        assert(out@ =~= start + render_record(r@));
    }
}

impl State {
    /// The registry rendered as record definitions, one per line, in
    /// ascending order of name.
    pub fn expand(&self) -> (r: String)
        ensures
            r@ == render_all(self.records()),
    {
        let mut out = String::new();
        let ghost rs = self.records();
        let mut i: usize = 0;
        while i < self.variables.len()
            invariant
                i <= self.variables.len(),
                rs == self.records(),
                out@ == render_all(rs.subrange(0, i as int)),
            decreases self.variables.len() - i,
        {
            let ghost before = out@;
            write_record(&self.variables[i], &mut out);
            out.append("\n");
            proof {
                reveal_strlit("\n");
                let q = rs.subrange(0, i + 1);
                assert(q.subrange(0, i as int) =~= rs.subrange(0, i as int));
                assert(q[i as int] == self.variables[i as int]@);
            }
            i += 1;
            proof {
                assert(out@ =~= render_all(rs.subrange(0, i as int)));
            }
        }
        proof {
            assert(rs.subrange(0, i as int) =~= rs);
        }
        out
    }
}

} // verus!
