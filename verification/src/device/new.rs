//! Contracts of device types whose mandatory actions are the parameters of
//! the constructor.

use crate::device::{
    allowed_hazards_name, const_hazards, contract_action, contract_view, get_allowed_hazards,
    get_new_function, hazards_from_const, new_function, positional_views, AscotDevice,
    AscotDeviceView, DeviceAction, DeviceActionView, MandatoryActions, MandatoryActionsView,
};
use crate::hazards::texts_of;
use crate::text::to_ascii_uppercase;
use crate::syntax::{
    as_ints, first_child, node_text, nodes_of_kind, NodeKind, SyntaxTree, SyntaxTreeView,
};
use vstd::prelude::*;

verus! {

/// The name of the parameter at node `parameter`: the text of its first
/// identifier.
pub open spec fn parameter_name(tree: SyntaxTreeView, parameter: int) -> Option<Seq<char>> {
    match first_child(tree.nodes, parameter, NodeKind::Identifier) {
        Some(identifier) => node_text(tree, identifier),
        None => None,
    }
}

/// The names of the parameters of the function at node `function`, in
/// order.
pub open spec fn new_parameters(tree: SyntaxTreeView, function: int) -> Seq<Seq<char>> {
    match first_child(tree.nodes, function, NodeKind::Parameters) {
        Some(parameters) => nodes_of_kind(tree.nodes, parameters, NodeKind::Parameter).filter_map(
            |parameter: int| parameter_name(tree, parameter),
        ),
        None => Seq::empty(),
    }
}

/// Reads the names of the constructor's parameters, which name the
/// mandatory actions.
pub fn get_new_parameters(tree: &SyntaxTree, function: usize) -> (names: Vec<String>)
    requires
        tree.wf(),
        function < tree@.nodes.len(),
    ensures
        texts_of(names@) == new_parameters(tree@, function as int),
{
    let mut names: Vec<String> = Vec::new();
    let parameters = match tree.first_child_of_kind(function, NodeKind::Parameters) {
        Some(parameters) => parameters,
        None => {
            assert(texts_of(names@) =~= Seq::<Seq<char>>::empty());
            return names;
        },
    };
    let each = tree.all_of_kind(parameters, NodeKind::Parameter);
    let ghost found = as_ints(each@);
    let ghost pick = |parameter: int| parameter_name(tree@, parameter);
    let mut i: usize = 0;
    assert(found.take(0).filter_map(pick) =~= Seq::<Seq<char>>::empty());
    assert(texts_of(names@) =~= Seq::<Seq<char>>::empty());
    while i < each.len()
        invariant
            i <= each.len(),
            tree.wf(),
            found == as_ints(each@),
            forall|a: int| 0 <= a < each@.len() ==> #[trigger] each@[a] < tree@.nodes.len(),
            pick == |parameter: int| parameter_name(tree@, parameter),
            texts_of(names@) == found.take(i as int).filter_map(pick),
        decreases each.len() - i,
    {
        proof {
            found.lemma_filter_map_take_succ(pick, i as int);
        }
        let ghost before = texts_of(names@);
        match tree.first_child_of_kind(each[i], NodeKind::Identifier) {
            Some(identifier) => {
                match tree.utf8_text(identifier) {
                    Some(name) => {
                        names.push(name);
                        assert(texts_of(names@) =~= before + seq![name@]);
                    },
                    None => {},
                }
            },
            None => {},
        }
        i += 1;
    }
    assert(found.take(found.len() as int) =~= found);
    names
}

/// The actions by position: at the position of each parameter, the action
/// that the parameter names, and nothing where its hazards cannot be read.
pub open spec fn positional_actions(tree: SyntaxTreeView, names: Seq<Seq<char>>) -> Seq<
    Option<DeviceActionView>,
> {
    Seq::new(names.len(), |i: int| contract_action(tree, names[i]))
}

/// Builds the mandatory actions of the constructor at node `function`: each
/// parameter names one, at the parameter's position.
pub fn get_mandatory_actions(tree: &SyntaxTree, function: usize) -> (actions: Vec<
    Option<DeviceAction>,
>)
    requires
        tree.wf(),
        function < tree@.nodes.len(),
    ensures
        positional_views(actions@) == positional_actions(
            tree@,
            new_parameters(tree@, function as int),
        ),
        forall|i: int|
            0 <= i < actions@.len() && (#[trigger] actions@[i]) is Some
                ==> actions@[i].unwrap().wf(),
{
    let actions_names = get_new_parameters(tree, function);
    let ghost names = texts_of(actions_names@);
    let mut actions: Vec<Option<DeviceAction>> = Vec::new();
    let mut i: usize = 0;
    while i < actions_names.len()
        invariant
            i <= actions_names.len(),
            tree.wf(),
            names == texts_of(actions_names@),
            actions@.len() == i,
            forall|k: int|
                0 <= k < i ==> (#[trigger] positional_views(actions@)[k]) == contract_action(
                    tree@,
                    names[k],
                ),
            forall|k: int|
                0 <= k < i && (#[trigger] actions@[k]) is Some ==> actions@[k].unwrap().wf(),
        decreases actions_names.len() - i,
    {
        let name = &actions_names[i];
        let key = to_ascii_uppercase(name.as_str());
        let action = match hazards_from_const(tree, key.as_str()) {
            Some(hazards) => Some(DeviceAction { name: name.clone(), hazards }),
            None => None,
        };
        let ghost before = actions@;
        actions.push(action);
        assert forall|k: int| 0 <= k < i + 1 implies (#[trigger] positional_views(actions@)[k])
            == contract_action(tree@, names[k]) by {
            if k < i {
                assert(positional_views(before)[k] == contract_action(tree@, names[k]));
                assert(actions@[k] == before[k]);
            }
        }
        i += 1;
    }
    assert(positional_views(actions@) =~= positional_actions(tree@, names));
    actions
}

/// The contract of a device type whose file declares its actions as the
/// parameters of the constructor. `None` where the file has no constructor.
pub open spec fn new_contract(name: Seq<char>, tree: SyntaxTreeView) -> Option<AscotDeviceView> {
    match (const_hazards(tree, allowed_hazards_name()), new_function(tree)) {
        (Some(allowed_hazards), Some(function)) => Some(
            AscotDeviceView {
                name,
                mandatory_actions: MandatoryActionsView::New(
                    positional_actions(tree, new_parameters(tree, function)),
                ),
                allowed_hazards,
            },
        ),
        _ => None,
    }
}

/// Builds the contract of a device type whose mandatory actions are handed
/// to the constructor.
pub fn handle(device_name: &str, tree: &SyntaxTree) -> (device: Option<AscotDevice>)
    requires
        tree.wf(),
    ensures
        contract_view(device) == new_contract(device_name@, tree@),
        device is Some ==> device.unwrap().wf(),
{
    let allowed_hazards = get_allowed_hazards(tree)?;
    let function = get_new_function(tree)?;
    let mandatory_actions = get_mandatory_actions(tree, function);
    Some(
        AscotDevice {
            name: device_name.to_owned(),
            mandatory_actions: MandatoryActions::New(mandatory_actions),
            allowed_hazards,
        },
    )
}

} // verus!
