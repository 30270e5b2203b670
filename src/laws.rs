use vstd::prelude::*;

use crate::errors::ResolveFailure;
use crate::item::{item_name, item_position, op_target, InputType};
use crate::processor::{lemma_resolve_err_persists, resolve, step};
use crate::record::{optional_fields, required_fields, FieldModel, RecordModel};
use crate::emit::render_all;
use crate::name_order::{lemma_name_lt_irreflexive, lemma_name_lt_transitive, name_lt};
use crate::state::{lemma_view_at, State};
use crate::type_expr::{first_type_arg, unwrap_required, wrap_optional, wrapped_in_option, TypeModel};

verus! {

/// After a successful resolution the registry holds exactly the names that
/// the items define.
pub proof fn lemma_resolve_keys(items: Seq<InputType>)
    requires
        resolve(items) is Ok,
    ensures
        forall|k: Seq<char>|
            #[trigger] resolve(items)->Ok_0.contains_key(k) <==> exists|i: int|
                0 <= i < items.len() && item_name(#[trigger] items[i]) == k,
    decreases items.len(),
{
    if items.len() > 0 {
        let prev = items.drop_last();
        lemma_resolve_keys(prev);
        let m0 = resolve(prev)->Ok_0;
        let m = resolve(items)->Ok_0;
        assert forall|k: Seq<char>| #[trigger] m.contains_key(k) <==> exists|i: int|
            0 <= i < items.len() && item_name(#[trigger] items[i]) == k by {
            if m.contains_key(k) {
                if k == item_name(items.last()) {
                    assert(item_name(items[items.len() - 1]) == k);
                } else {
                    assert(m0.contains_key(k));
                    let i = choose|i: int| 0 <= i < prev.len() && item_name(#[trigger] prev[i]) == k;
                    assert(items[i] == prev[i]);
                }
            }
            if exists|i: int| 0 <= i < items.len() && item_name(#[trigger] items[i]) == k {
                let i = choose|i: int| 0 <= i < items.len() && item_name(#[trigger] items[i]) == k;
                if i < items.len() - 1 {
                    assert(prev[i] == items[i]);
                    assert(m0.contains_key(k));
                }
            }
        }
    }
}

/// No two items may define the same name: whenever two items share one, the
/// invocation fails, and unless it failed earlier, it fails with a conflict
/// at the second of them, whatever kind of item either is.
pub proof fn law_unique_names(items: Seq<InputType>, i: int, j: int)
    requires
        0 <= i < j < items.len(),
        item_name(items[i]) == item_name(items[j]),
    ensures
        resolve(items) is Err,
        resolve(items.subrange(0, j)) is Ok ==> resolve(items) == Err::<
            Map<Seq<char>, RecordModel>,
            ResolveFailure,
        >(ResolveFailure::Conflict(item_name(items[j]), item_position(items[j]))),
{
    let before = items.subrange(0, j);
    let upto = items.subrange(0, j + 1);
    assert(upto.drop_last() =~= before);
    assert(upto.last() == items[j]);
    if resolve(before) is Ok {
        lemma_resolve_keys(before);
        assert(before[i] == items[i]);
        assert(resolve(before)->Ok_0.contains_key(item_name(items[j])));
        assert(resolve(upto) == step(resolve(before)->Ok_0, items[j]));
        lemma_resolve_err_persists(items, j + 1);
    } else {
        lemma_resolve_err_persists(items, j);
    }
}

/// A composite declaration may only refer to a name defined by an item
/// before it: when none does (the name is defined later, or nowhere), and
/// resolution reaches the declaration without failing or conflicting, the
/// invocation fails with `NotFound` for that name.
pub proof fn law_forward_reference_rejected(items: Seq<InputType>, j: int)
    requires
        0 <= j < items.len(),
        items[j] is CompositeStruct,
        forall|k: int|
            0 <= k < j ==> item_name(#[trigger] items[k]) != op_target(
                items[j]->CompositeStruct_0.composite_operation,
            ),
        forall|k: int| 0 <= k < j ==> item_name(#[trigger] items[k]) != item_name(items[j]),
        resolve(items.subrange(0, j)) is Ok,
    ensures
        resolve(items) == Err::<Map<Seq<char>, RecordModel>, ResolveFailure>(
            ResolveFailure::NotFound(
                op_target(items[j]->CompositeStruct_0.composite_operation),
                items[j]->CompositeStruct_0.target_position,
            ),
        ),
{
    let before = items.subrange(0, j);
    let upto = items.subrange(0, j + 1);
    assert(upto.drop_last() =~= before);
    assert(upto.last() == items[j]);
    lemma_resolve_keys(before);
    let m = resolve(before)->Ok_0;
    let c = items[j]->CompositeStruct_0;
    if m.contains_key(item_name(items[j])) {
        let k = choose|k: int| 0 <= k < before.len() && item_name(#[trigger] before[k]) == item_name(items[j]);
        assert(before[k] == items[k]);
    }
    if m.contains_key(op_target(c.composite_operation)) {
        let k = choose|k: int|
            0 <= k < before.len() && item_name(#[trigger] before[k]) == op_target(c.composite_operation);
        assert(before[k] == items[k]);
    }
    assert(resolve(upto) == step(m, items[j]));
    lemma_resolve_err_persists(items, j + 1);
}

/// `Optional` leaves a field that is already optional as it is.
pub proof fn law_optional_keeps_optional_field(fs: Seq<FieldModel>, i: int)
    requires
        0 <= i < fs.len(),
        wrapped_in_option(fs[i].ty),
    ensures
        optional_fields(fs)[i] == fs[i],
{
}

/// `Optional` is idempotent: applied twice it gives what it gives once.
pub proof fn law_optional_idempotent(fs: Seq<FieldModel>)
    ensures
        optional_fields(optional_fields(fs)) == optional_fields(fs),
{
    let once = optional_fields(fs);
    assert forall|i: int| 0 <= i < once.len() implies wrapped_in_option(#[trigger] once[i].ty) by {
        if !wrapped_in_option(fs[i].ty) {
            assert(once[i].ty.path[0] == seq!['O', 'p', 't', 'i', 'o', 'n']);
        }
    }
    assert(optional_fields(once) =~= once);
}

/// `Required` undoes `Optional` on a type that is not optional.
pub proof fn law_required_undoes_optional_type(t: TypeModel)
    requires
        !wrapped_in_option(t),
    ensures
        unwrap_required(wrap_optional(t)) == t,
{
    let w = wrap_optional(t);
    assert(w.args.drop_first().len() == 0);
    assert(first_type_arg(w.args) == Some(t));
}

/// `Required` after `Optional` gives back the fields of a record none of
/// whose fields is optional.
pub proof fn law_required_undoes_optional(fs: Seq<FieldModel>)
    requires
        forall|i: int| 0 <= i < fs.len() ==> !wrapped_in_option(#[trigger] fs[i].ty),
    ensures
        required_fields(optional_fields(fs)) == fs,
{
    let back = required_fields(optional_fields(fs));
    assert forall|i: int| 0 <= i < fs.len() implies #[trigger] back[i] == fs[i] by {
        law_required_undoes_optional_type(fs[i].ty);
    }
    assert(back =~= fs);
}

/// `Required` leaves a field whose type is not optional exactly as it is.
pub proof fn law_required_keeps_plain_field(fs: Seq<FieldModel>, i: int)
    requires
        0 <= i < fs.len(),
        !wrapped_in_option(fs[i].ty),
    ensures
        required_fields(fs)[i] == fs[i],
{
}

/// Records in strictly ascending order of name.
pub open spec fn ascending(rs: Seq<RecordModel>) -> bool {
    forall|i: int, j: int| 0 <= i < j < rs.len() ==> name_lt(#[trigger] rs[i].name, #[trigger] rs[j].name)
}

/// Two ascending sequences of the same records are one sequence.
pub proof fn lemma_ascending_unique(a: Seq<RecordModel>, b: Seq<RecordModel>)
    requires
        ascending(a),
        ascending(b),
        forall|r: RecordModel| a.contains(r) <==> b.contains(r),
    ensures
        a == b,
    decreases a.len(),
{
    if a.len() == 0 {
        if b.len() > 0 {
            assert(b.contains(b[0]));
        }
        assert(a =~= b);
    } else if b.len() == 0 {
        assert(a.contains(a[0]));
    } else {
        assert(a.contains(a[0]));
        assert(b.contains(b[0]));
        let k = choose|k: int| 0 <= k < b.len() && b[k] == a[0];
        let l = choose|l: int| 0 <= l < a.len() && a[l] == b[0];
        if a[0] != b[0] {
            assert(k > 0 && l > 0);
            assert(name_lt(a[0].name, a[l].name));
            assert(name_lt(b[0].name, b[k].name));
            lemma_name_lt_transitive(a[0].name, b[0].name, a[0].name);
            lemma_name_lt_irreflexive(a[0].name);
        }
        let a1 = a.drop_first();
        let b1 = b.drop_first();
        assert forall|r: RecordModel| a1.contains(r) <==> b1.contains(r) by {
            if a1.contains(r) {
                let i = choose|i: int| 0 <= i < a1.len() && a1[i] == r;
                assert(a[i + 1] == r);
                assert(a.contains(r));
                let j = choose|j: int| 0 <= j < b.len() && b[j] == r;
                if j == 0 {
                    assert(name_lt(a[0].name, a[i + 1].name));
                    lemma_name_lt_irreflexive(r.name);
                }
                assert(b1[j - 1] == r);
            }
            if b1.contains(r) {
                let j = choose|j: int| 0 <= j < b1.len() && b1[j] == r;
                assert(b[j + 1] == r);
                assert(b.contains(r));
                let i = choose|i: int| 0 <= i < a.len() && a[i] == r;
                if i == 0 {
                    assert(name_lt(b[0].name, b[j + 1].name));
                    lemma_name_lt_irreflexive(r.name);
                }
                assert(a1[i - 1] == r);
            }
        }
        lemma_ascending_unique(a1, b1);
        assert(a =~= seq![a[0]] + a1);
        assert(b =~= seq![b[0]] + b1);
    }
}

/// The emitted definitions are ordered by name, not by declaration: two
/// registries that hold the same records, whatever order they were filled
/// in, emit the same text, and that text lists the records in strictly
/// ascending order of name.
pub proof fn law_emission_order(s1: State, s2: State)
    requires
        s1.wf(),
        s2.wf(),
        s1@ == s2@,
    ensures
        ascending(s1.records()),
        render_all(s1.records()) == render_all(s2.records()),
{
    let a = s1.records();
    let b = s2.records();
    assert(ascending(a));
    assert(ascending(b));
    assert forall|r: RecordModel| a.contains(r) implies b.contains(r) by {
        let i = choose|i: int| 0 <= i < a.len() && a[i] == r;
        lemma_view_at(s1, i);
        assert(s2.has(r.name));
        let j = s2.index_of(r.name);
        lemma_view_at(s2, j);
        assert(b[j] == r);
    }
    assert forall|r: RecordModel| b.contains(r) implies a.contains(r) by {
        let j = choose|j: int| 0 <= j < b.len() && b[j] == r;
        lemma_view_at(s2, j);
        assert(s1.has(r.name));
        let i = s1.index_of(r.name);
        lemma_view_at(s1, i);
        assert(a[i] == r);
    }
    lemma_ascending_unique(a, b);
}

} // verus!
