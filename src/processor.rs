use vstd::prelude::*;

use crate::errors::{failure_model, generate_not_found_error, ComposeError, ResolveFailure};
use crate::item::{
    get_item_name, get_item_position, item_model, item_name, item_position, op_model, op_target,
    CompositeOperation, CompositeStruct, InputType, TypeInput, UtilityOperation,
};
use crate::record::{
    assign_struct_name, optional_fields, renamed, optional_suffix, process_optional, process_required,
    required_fields, required_suffix, Record, RecordModel, Visibility,
};
use crate::state::State;

verus! {

/// What a composite operation makes of the record it refers to, before the
/// result is renamed.
pub open spec fn operation_result(op: CompositeOperation, source: RecordModel) -> RecordModel {
    match op {
        CompositeOperation::TypeAlias(_) => source,
        CompositeOperation::UtilityOp(UtilityOperation::Required(_)) => RecordModel {
            vis: source.vis,
            name: source.name + required_suffix(),
            fields: required_fields(source.fields),
        },
        CompositeOperation::UtilityOp(UtilityOperation::Optional(_)) => RecordModel {
            vis: source.vis,
            name: source.name + optional_suffix(),
            fields: optional_fields(source.fields),
        },
    }
}

/// The record a composite declaration defines from the record it refers to:
/// the operation's result, named after the declaration, public when the
/// declaration is.
pub open spec fn composed(c: CompositeStruct, source: RecordModel) -> RecordModel {
    let r = operation_result(c.composite_operation, source);
    RecordModel {
        vis: if c.vis == Visibility::Public {
            Visibility::Public
        } else {
            r.vis
        },
        name: c.name@,
        fields: r.fields,
    }
}

/// One step of resolution: the registry after `item`, or the failure.
pub open spec fn step(m: Map<Seq<char>, RecordModel>, item: InputType) -> Result<
    Map<Seq<char>, RecordModel>,
    ResolveFailure,
> {
    let name = item_name(item);
    if m.contains_key(name) {
        Err(ResolveFailure::Conflict(name, item_position(item)))
    } else {
        match item {
            InputType::Definition(d) => Ok(m.insert(name, d.record@)),
            InputType::CompositeStruct(c) => {
                let target = op_target(c.composite_operation);
                if !m.contains_key(target) {
                    Err(ResolveFailure::NotFound(target, c.target_position))
                } else {
                    Ok(m.insert(name, composed(c, m[target])))
                }
            },
        }
    }
}

/// Resolution of `items` in order from an empty registry, stopping at the
/// first failure.
pub open spec fn resolve(items: Seq<InputType>) -> Result<Map<Seq<char>, RecordModel>, ResolveFailure>
    decreases items.len(),
{
    if items.len() == 0 {
        Ok(Map::empty())
    } else {
        match resolve(items.drop_last()) {
            Ok(m) => step(m, items.last()),
            Err(e) => Err(e),
        }
    }
}

/// A failure in a prefix is the failure of the whole.
pub proof fn lemma_resolve_err_persists(items: Seq<InputType>, i: int)
    requires
        0 <= i <= items.len(),
        resolve(items.subrange(0, i)) is Err,
    ensures
        resolve(items) == resolve(items.subrange(0, i)),
    decreases items.len() - i,
{
    if i < items.len() {
        let next = items.subrange(0, i + 1);
        assert(next.drop_last() =~= items.subrange(0, i));
        lemma_resolve_err_persists(items, i + 1);
    } else {
        assert(items.subrange(0, i) =~= items);
    }
}

/// Fails with a conflict when `key` is already registered.
pub fn validate_no_conflicts(state: &State, key: &String, position: usize) -> (r: Result<(), ComposeError>)
    requires
        state.wf(),
    ensures
        r is Err <==> state@.contains_key(key@),
        r matches Err(e) ==> failure_model(e) == Some(ResolveFailure::Conflict(key@, position)),
{
    if state.contains_key(key) {
        return Err(ComposeError::Conflict { name: key.clone(), position });
    }
    Ok(())
}

/// A copy of the record registered as `composite`; `NotFound` at `position`
/// when there is none.
pub fn process_type_alias(state: &State, composite: &String, position: usize) -> (r: Result<Record, ComposeError>)
    requires
        state.wf(),
    ensures
        r is Ok <==> state@.contains_key(composite@),
        r matches Ok(rec) ==> rec@ == state@[composite@],
        r matches Err(e) ==> failure_model(e) == Some(ResolveFailure::NotFound(composite@, position)),
{
    match state.lookup(composite) {
        None => Err(generate_not_found_error(composite, position)),
        Some(structure) => Ok(structure.duplicate()),
    }
}

/// Applies `Required` or `Optional` to the record the operation refers to;
/// `NotFound` at `position` when there is none.
pub fn process_utility_operator(state: &State, utility_operation: &UtilityOperation, position: usize) -> (r:
    Result<Record, ComposeError>)
    requires
        state.wf(),
    ensures
        r is Ok <==> state@.contains_key(op_target(CompositeOperation::UtilityOp(*utility_operation))),
        r matches Ok(rec) ==> rec@ == operation_result(
            CompositeOperation::UtilityOp(*utility_operation),
            state@[op_target(CompositeOperation::UtilityOp(*utility_operation))],
        ),
        r matches Err(e) ==> failure_model(e) == Some(
            ResolveFailure::NotFound(op_target(CompositeOperation::UtilityOp(*utility_operation)), position),
        ),
{
    match utility_operation {
        UtilityOperation::Required(ident) => match state.lookup(ident) {
            None => Err(generate_not_found_error(ident, position)),
            Some(structure) => Ok(process_required(structure)),
        },
        UtilityOperation::Optional(ident) => match state.lookup(ident) {
            None => Err(generate_not_found_error(ident, position)),
            Some(structure) => Ok(process_optional(structure)),
        },
    }
}

/// Applies a composite operation to the record it refers to; `NotFound` at
/// `position` when there is none.
pub fn process_composite_operation(state: &State, composite_operation: &CompositeOperation, position: usize) -> (r:
    Result<Record, ComposeError>)
    requires
        state.wf(),
    ensures
        r is Ok <==> state@.contains_key(op_target(*composite_operation)),
        r matches Ok(rec) ==> rec@ == operation_result(
            *composite_operation,
            state@[op_target(*composite_operation)],
        ),
        r matches Err(e) ==> failure_model(e) == Some(
            ResolveFailure::NotFound(op_target(*composite_operation), position),
        ),
{
    match composite_operation {
        CompositeOperation::TypeAlias(aliased) => process_type_alias(state, aliased, position),
        CompositeOperation::UtilityOp(uo) => process_utility_operator(state, uo, position),
    }
}

/// The record a composite declaration defines, before it is named; `pub`
/// on the declaration makes it public.
pub fn process_composite_struct(state: &State, comp: &CompositeStruct) -> (r: Result<Record, ComposeError>)
    requires
        state.wf(),
    ensures
        r is Ok <==> state@.contains_key(op_target(comp.composite_operation)),
        r matches Ok(rec) ==> renamed(rec@, comp.name@) == composed(
            *comp,
            state@[op_target(comp.composite_operation)],
        ),
        r matches Err(e) ==> failure_model(e) == Some(
            ResolveFailure::NotFound(op_target(comp.composite_operation), comp.target_position),
        ),
{
    let mut processed = process_composite_operation(state, &comp.composite_operation, comp.target_position)?;
    if comp.vis == Visibility::Public {
        processed.vis = Visibility::Public;
    }
    Ok(processed)
}

/// Registers `structure` under the name `assignment`.
pub fn apply_structure(state: &mut State, assignment: &String, structure: Record)
    requires
        old(state).wf(),
        !old(state)@.contains_key(assignment@),
    ensures
        final(state).wf(),
        final(state)@ == old(state)@.insert(assignment@, renamed(structure@, assignment@)),
{
    let named = assign_struct_name(structure, assignment.clone());
    state.insert(named);
}

/// Resolves the items in declaration order into a registry, stopping at the
/// first conflict or missing reference.
pub fn process_input(input: TypeInput) -> (r: Result<State, ComposeError>)
    ensures
        r matches Ok(s) ==> s.wf() && resolve(input.items@) == Ok::<
            Map<Seq<char>, RecordModel>,
            ResolveFailure,
        >(s@),
        r matches Err(e) ==> resolve(input.items@) == Err::<Map<Seq<char>, RecordModel>, ResolveFailure>(
            failure_model(e)->0,
        ) && failure_model(e) is Some,
{
    let mut state = State::new();
    let items = &input.items;
    let mut i: usize = 0;
    proof {
        assert(items@.subrange(0, 0) =~= Seq::<InputType>::empty());
    }
    while i < items.len()
        invariant
            items@ == input.items@,
            i <= items.len(),
            state.wf(),
            resolve(items@.subrange(0, i as int)) == Ok::<Map<Seq<char>, RecordModel>, ResolveFailure>(
                state@,
            ),
        decreases items.len() - i,
    {
        let item = &items[i];
        let assignment = get_item_name(item);
        let ghost prefix = items@.subrange(0, i as int + 1);
        proof {
            assert(prefix.drop_last() =~= items@.subrange(0, i as int));
            assert(prefix.last() == *item);
        }
        let checked = validate_no_conflicts(&state, assignment, get_item_position(item));
        if let Err(e) = checked {
            proof {
                assert(resolve(prefix) == step(state@, *item));
                assert(resolve(prefix) == Err::<Map<Seq<char>, RecordModel>, ResolveFailure>(
                    failure_model(e)->0,
                ));
                lemma_resolve_err_persists(items@, i as int + 1);
            }
            return Err(e);
        }
        match item {
            InputType::CompositeStruct(comp) => {
                match process_composite_struct(&state, comp) {
                    Ok(structure) => {
                        apply_structure(&mut state, assignment, structure);
                    },
                    Err(e) => {
                        proof {
                            assert(resolve(prefix) == step(state@, *item));
                            assert(resolve(prefix) == Err::<Map<Seq<char>, RecordModel>, ResolveFailure>(
                                failure_model(e)->0,
                            ));
                            lemma_resolve_err_persists(items@, i as int + 1);
                        }
                        return Err(e);
                    },
                }
            },
            InputType::Definition(def) => {
                let structure = def.record.duplicate();
                apply_structure(&mut state, assignment, structure);
                proof {
                    assert(renamed(def.record@, assignment@) == def.record@);
                }
            },
        }
        i += 1;
    }
    proof {
        assert(items@.subrange(0, i as int) =~= items@);
    }
    Ok(state)
}

/// `item` is a composite declaration that refers to `n` at token `p`.
pub open spec fn refers_at(item: InputType, n: Seq<char>, p: usize) -> bool {
    match item {
        InputType::CompositeStruct(c) => op_target(c.composite_operation) == n && c.target_position == p,
        InputType::Definition(_) => false,
    }
}

/// A resolution failure comes from an item: a conflict carries the name and
/// position of the item that repeats a name; a missing name, the target and
/// target position of a composite declaration.
pub proof fn lemma_resolve_failure_source(items: Seq<InputType>)
    requires
        resolve(items) is Err,
    ensures
        resolve(items)->Err_0 matches ResolveFailure::Conflict(n, p) ==> exists|i: int|
            0 <= i < items.len() && item_name(#[trigger] items[i]) == n && item_position(items[i]) == p,
        resolve(items)->Err_0 matches ResolveFailure::NotFound(n, p) ==> exists|i: int|
            0 <= i < items.len() && refers_at(#[trigger] items[i], n, p),
    decreases items.len(),
{
    let prev = items.drop_last();
    let last = items.len() - 1;
    assert(items[last] == items.last());
    if resolve(prev) is Err {
        lemma_resolve_failure_source(prev);
        match resolve(prev)->Err_0 {
            ResolveFailure::Conflict(n, p) => {
                let i = choose|i: int| 0 <= i < prev.len() && item_name(#[trigger] prev[i]) == n && item_position(prev[i]) == p;
                assert(items[i] == prev[i]);
            },
            ResolveFailure::NotFound(n, p) => {
                let i = choose|i: int|
                    0 <= i < prev.len() && refers_at(#[trigger] prev[i], n, p);
                assert(items[i] == prev[i]);
            },
        }
    }
}

pub proof fn lemma_op_model(a: CompositeOperation, b: CompositeOperation, source: RecordModel)
    requires
        op_model(a) == op_model(b),
    ensures
        op_target(a) == op_target(b),
        operation_result(a, source) == operation_result(b, source),
{
    match a {
        CompositeOperation::TypeAlias(_) => {},
        CompositeOperation::UtilityOp(UtilityOperation::Required(_)) => {},
        CompositeOperation::UtilityOp(UtilityOperation::Optional(_)) => {},
    }
}

/// Resolution sees items only through their models: items with equal
/// models resolve alike, and to the same registry when they succeed.
pub proof fn lemma_resolve_models(a: Seq<InputType>, b: Seq<InputType>)
    requires
        a.len() == b.len(),
        forall|i: int| 0 <= i < a.len() ==> item_model(#[trigger] a[i]) == item_model(b[i]),
    ensures
        (resolve(a) is Ok) == (resolve(b) is Ok),
        resolve(a) is Ok ==> resolve(a)->Ok_0 == resolve(b)->Ok_0,
    decreases a.len(),
{
    if a.len() > 0 {
        let pa = a.drop_last();
        let pb = b.drop_last();
        assert forall|i: int| 0 <= i < pa.len() implies item_model(#[trigger] pa[i]) == item_model(pb[i]) by {
            assert(pa[i] == a[i] && pb[i] == b[i]);
        }
        lemma_resolve_models(pa, pb);
        let x = a.last();
        let y = b.last();
        assert(item_model(x) == item_model(y)) by {
            assert(x == a[a.len() - 1] && y == b[b.len() - 1]);
        }
        if resolve(pa) is Ok {
            let m = resolve(pa)->Ok_0;
            match (x, y) {
                (InputType::CompositeStruct(c), InputType::CompositeStruct(d)) => {
                    lemma_op_model(c.composite_operation, d.composite_operation, m[op_target(c.composite_operation)]);
                },
                (InputType::Definition(c), InputType::Definition(d)) => {},
                (InputType::CompositeStruct(c), InputType::Definition(d)) => {},
                (InputType::Definition(c), InputType::CompositeStruct(d)) => {},
            }
        }
    }
}

} // verus!
