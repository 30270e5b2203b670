use vstd::prelude::*;

use crate::emit::render_all;
use crate::errors::{failure_model, ComposeError, ResolveFailure, SyntaxError};
use crate::item::{item_model, item_name, item_position, InputType, TypeInput};
use crate::laws::law_emission_order;
use crate::parser::{at, item_error, items_tokens, positions_ok, spells_items};
use crate::processor::{
    lemma_resolve_failure_source, lemma_resolve_models, process_input, refers_at, resolve,
};
use crate::record::RecordModel;
use crate::state::State;
use crate::token::{toks_model, Token, TokenModel};

verus! {

/// Whether `text` is what the items spelled by `toks` compose to: they
/// resolve without failure and `text` renders the resulting registry in
/// ascending order of name.
pub open spec fn composes_to(toks: Seq<Token>, text: Seq<char>) -> bool {
    exists|items: Seq<InputType>, s: State|
        #![trigger items_tokens(items), s.records()]
        toks_model(toks) == items_tokens(items) && s.wf() && resolve(items) == Ok::<
            Map<Seq<char>, RecordModel>,
            ResolveFailure,
        >(s@) && text == render_all(s.records())
}

/// Whether the items spelled by `toks` fail to resolve with the failure of
/// `e`.
pub open spec fn fails_with(toks: Seq<Token>, e: ComposeError) -> bool {
    exists|items: Seq<InputType>|
        toks_model(toks) == #[trigger] items_tokens(items) && failure_model(e) is Some && resolve(items)
            == Err::<Map<Seq<char>, RecordModel>, ResolveFailure>(failure_model(e)->0)
}

/// Whether the syntax error `e` is the error of the first item that does
/// not parse, after a prefix of `toks` that spells items.
pub open spec fn syntax_error_at(toks: Seq<Token>, e: SyntaxError) -> bool {
    exists|done: Seq<InputType>|
        at(toks, 0, #[trigger] items_tokens(done)) && item_error(toks, items_tokens(done).len() as int, e)
}

/// Parses the tokens, resolves the items in order, and renders the registry.
/// A syntax error comes exactly when the tokens spell no sequence of items,
/// and is the error of the first item that does not parse. Otherwise the
/// result is the rendering of the resolved registry, or the first
/// resolution failure, which points at the token of the name it is about.
pub fn composite_type_processing_pipeline(toks: &Vec<Token>) -> (r: Result<String, ComposeError>)
    ensures
        r matches Ok(text) ==> composes_to(toks@, text@),
        r matches Err(e) ==> (e is Syntax || fails_with(toks@, e)),
        (exists|items: Seq<InputType>| #[trigger] spells_items(toks@, items)) ==> !(r matches Err(
            ComposeError::Syntax(_),
        )),
        r matches Err(ComposeError::Syntax(e)) ==> syntax_error_at(toks@, e),
        r matches Err(ComposeError::Conflict { name, position }) ==> position < toks.len() && toks@[position as int]@
            == TokenModel::Ident(name@),
        r matches Err(ComposeError::NotFound { name, position }) ==> position < toks.len() && toks@[position as int]@
            == TokenModel::Ident(name@),
        forall|items: Seq<InputType>, s: State|
            #![trigger spells_items(toks@, items), s.records()]
            spells_items(toks@, items) && s.wf() && resolve(items) == Ok::<Map<Seq<char>, RecordModel>, ResolveFailure>(
                s@,
            ) ==> (r matches Ok(text) && text@ == render_all(s.records())),
        forall|items: Seq<InputType>| #[trigger]
            spells_items(toks@, items) && resolve(items) is Err ==> (r matches Err(e) && !(e is Syntax)),
{
    let input = match TypeInput::parse(toks) {
        Ok(input) => input,
        Err(e) => {
            proof {
                assert forall|items: Seq<InputType>| !#[trigger] spells_items(toks@, items) by {
                }
            }
            return Err(ComposeError::Syntax(e));
        },
    };
    let ghost items = input.items@;
    proof {
        assert forall|other: Seq<InputType>| #[trigger] spells_items(toks@, other) implies (resolve(items) is Ok)
            == (resolve(other) is Ok) && (resolve(items) is Ok ==> resolve(items)->Ok_0 == resolve(other)->Ok_0) by {
            assert forall|i: int| 0 <= i < items.len() implies item_model(#[trigger] items[i])
                == item_model(other[i]) by {
                assert(items[i] == input.items[i]);
            }
            lemma_resolve_models(items, other);
        }
    }
    match process_input(input) {
        Ok(state) => {
            let text = state.expand();
            proof {
                assert(toks_model(toks@) == items_tokens(items) && state.wf() && resolve(items) == Ok::<
                    Map<Seq<char>, RecordModel>,
                    ResolveFailure,
                >(state@) && text@ == render_all(state.records()));
                assert forall|other: Seq<InputType>, s: State|
                    #![trigger spells_items(toks@, other), s.records()]
                    spells_items(toks@, other) && s.wf() && resolve(other) == Ok::<
                        Map<Seq<char>, RecordModel>,
                        ResolveFailure,
                    >(s@) implies text@ == render_all(s.records()) by {
                    law_emission_order(state, s);
                }
            }
            Ok(text)
        },
        Err(e) => {
            proof {
                assert(toks_model(toks@) == items_tokens(items));
                lemma_resolve_failure_source(items);
                match e {
                    ComposeError::Conflict { ref name, position } => {
                        let i = choose|i: int|
                            0 <= i < items.len() && item_name(#[trigger] items[i]) == name@
                                && item_position(items[i]) == position;
                        assert(items[i] == input.items[i]);
                        assert(positions_ok(toks@, items[i]));
                    },
                    ComposeError::NotFound { ref name, position } => {
                        let i = choose|i: int|
                            0 <= i < items.len() && refers_at(#[trigger] items[i], name@, position);
                        assert(items[i] == input.items[i]);
                        assert(positions_ok(toks@, items[i]));
                    },
                    ComposeError::Syntax(_) => {},
                }
            }
            Err(e)
        },
    }
}

} // verus!
