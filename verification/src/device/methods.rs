//! Contracts of device types whose mandatory actions are set by method
//! calls.

use crate::device::{
    allowed_hazards_name, const_hazards, contract_actions, contract_view, get_allowed_hazards,
    get_mandatory_actions, AscotDevice, AscotDeviceView, MandatoryActions, MandatoryActionsView,
};
use crate::hazards::texts_of;
use crate::syntax::{as_ints, node_text, nodes_of_kind, NodeKind, SyntaxTree, SyntaxTreeView};
use crate::text::{snake_case, to_snake_case};
use vstd::prelude::*;

verus! {

/// The action that identifier `j` names: its text in `snake_case`.
pub open spec fn action_name_at(tree: SyntaxTreeView, j: int) -> Option<Seq<char>> {
    match node_text(tree, j) {
        Some(text) => Some(snake_case(text)),
        None => None,
    }
}

/// The names of the actions that the enumeration at node `actions_enum`
/// declares, in the order of declaration.
pub open spec fn actions_names(tree: SyntaxTreeView, actions_enum: int) -> Seq<Seq<char>> {
    nodes_of_kind(tree.nodes, actions_enum, NodeKind::Identifier).filter_map(
        |j: int| action_name_at(tree, j),
    )
}

/// Reads the names of the mandatory actions from the enumeration of actions.
pub fn get_actions_names(tree: &SyntaxTree, actions_enum: usize) -> (names: Vec<String>)
    requires
        tree.wf(),
        actions_enum < tree@.nodes.len(),
    ensures
        texts_of(names@) == actions_names(tree@, actions_enum as int),
{
    let identifiers = tree.all_of_kind(actions_enum, NodeKind::Identifier);
    let ghost found = as_ints(identifiers@);
    let ghost pick = |j: int| action_name_at(tree@, j);
    let mut names: Vec<String> = Vec::new();
    let mut i: usize = 0;
    assert(found.take(0).filter_map(pick) =~= Seq::<Seq<char>>::empty());
    while i < identifiers.len()
        invariant
            i <= identifiers.len(),
            tree.wf(),
            found == as_ints(identifiers@),
            forall|a: int|
                0 <= a < identifiers@.len() ==> #[trigger] identifiers@[a] < tree@.nodes.len(),
            pick == |j: int| action_name_at(tree@, j),
            texts_of(names@) == found.take(i as int).filter_map(pick),
        decreases identifiers.len() - i,
    {
        proof {
            found.lemma_filter_map_take_succ(pick, i as int);
        }
        let ghost before = texts_of(names@);
        match tree.utf8_text(identifiers[i]) {
            Some(text) => {
                let name = to_snake_case(text.as_str());
                names.push(name);
                assert(texts_of(names@) =~= before + seq![name@]);
            },
            None => {},
        }
        i += 1;
    }
    assert(found.take(found.len() as int) =~= found);
    names
}

/// The contract of a device type whose file declares its actions in the
/// enumeration at node `actions_enum`.
pub open spec fn methods_contract(
    name: Seq<char>,
    tree: SyntaxTreeView,
    actions_enum: int,
) -> Option<AscotDeviceView> {
    match const_hazards(tree, allowed_hazards_name()) {
        Some(allowed_hazards) => Some(
            AscotDeviceView {
                name,
                mandatory_actions: MandatoryActionsView::Methods(
                    contract_actions(tree, actions_names(tree, actions_enum)),
                ),
                allowed_hazards,
            },
        ),
        None => None,
    }
}

/// Builds the contract of a device type whose mandatory actions are set by
/// method calls.
pub fn handle(device_name: &str, tree: &SyntaxTree, actions_enum: usize) -> (device: Option<
    AscotDevice,
>)
    requires
        tree.wf(),
        actions_enum < tree@.nodes.len(),
    ensures
        contract_view(device) == methods_contract(device_name@, tree@, actions_enum as int),
        device is Some ==> device.unwrap().wf(),
{
    let allowed_hazards = get_allowed_hazards(tree)?;
    let actions_names = get_actions_names(tree, actions_enum);
    let mandatory_actions = get_mandatory_actions(tree, &actions_names);
    Some(
        AscotDevice {
            name: device_name.to_owned(),
            mandatory_actions: MandatoryActions::Methods(mandatory_actions),
            allowed_hazards,
        },
    )
}

} // verus!
