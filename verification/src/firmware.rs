//! Compliance records: what a device instance in firmware supplies, held
//! against the contract of its device type.

use crate::concurrent::{collected, ConcurrentRunner};
use crate::device::{AscotDevice, DeviceAction, DeviceActionView, MandatoryActions};
use crate::hazards::{difference, hazards_from_text, hazards_in, sets_difference, HazardSet};
use crate::pattern::{
    all_captures, all_groups, args_pattern, first_capture, first_group, get_method_call,
    method_pattern, method_re, view_of,
};
use crate::syntax::{has_ancestor, in_subtree, node_text, NodeKind, SyntaxTree, SyntaxTreeView};
use crate::text::{chars_of, contains, contains_text, second_argument, second_field};
use vstd::prelude::*;

verus! {

/// A mandatory action as an instance supplies it.
pub struct MandatoryAction {
    /// Name of the action.
    pub name: String,
    /// Hazards that the instance declares for it.
    pub hazards: HazardSet,
    /// Hazards that the contract requires for it.
    pub mandatory_hazards: HazardSet,
    /// Required hazards that the instance does not declare.
    pub missing_hazards: HazardSet,
    /// Declared hazards that the device type does not allow.
    pub not_allowed_hazards: HazardSet,
}

/// What a `MandatoryAction` stands for.
pub struct MandatoryActionView {
    pub name: Seq<char>,
    pub hazards: Seq<Seq<char>>,
    pub mandatory_hazards: Seq<Seq<char>>,
    pub missing_hazards: Seq<Seq<char>>,
    pub not_allowed_hazards: Seq<Seq<char>>,
}

impl View for MandatoryAction {
    type V = MandatoryActionView;

    open spec fn view(&self) -> MandatoryActionView {
        MandatoryActionView {
            name: self.name@,
            hazards: self.hazards@,
            mandatory_hazards: self.mandatory_hazards@,
            missing_hazards: self.missing_hazards@,
            not_allowed_hazards: self.not_allowed_hazards@,
        }
    }
}

/// The record of `action` supplied with the hazards `supplied`, on a device
/// that allows `allowed`: what is missing is what is required and not
/// supplied, what is not allowed is what is supplied and not allowed.
pub open spec fn checked_action(
    action: DeviceActionView,
    supplied: Seq<Seq<char>>,
    allowed: Seq<Seq<char>>,
) -> MandatoryActionView {
    MandatoryActionView {
        name: action.name,
        hazards: supplied,
        mandatory_hazards: action.hazards,
        missing_hazards: difference(action.hazards, supplied),
        not_allowed_hazards: difference(supplied, allowed),
    }
}

impl MandatoryAction {
    /// Holds the hazards that an instance supplies for `action` against what
    /// the action requires and the device allows.
    pub fn new(action: &DeviceAction, hazards: HazardSet, allowed_hazards: &HazardSet) -> (record:
        MandatoryAction)
        requires
            action.wf(),
            hazards.wf(),
        ensures
            record@ == checked_action(action@, hazards@, allowed_hazards@),
            record.missing_hazards.set() == action.hazards.set().difference(hazards.set()),
            record.not_allowed_hazards.set() == hazards.set().difference(allowed_hazards.set()),
    {
        let missing_hazards = sets_difference(&action.hazards, &hazards);
        let not_allowed_hazards = sets_difference(&hazards, allowed_hazards);
        MandatoryAction {
            name: action.name.clone(),
            hazards,
            mandatory_hazards: action.hazards.cloned(),
            missing_hazards,
            not_allowed_hazards,
        }
    }

    /// Whether the action declares every required hazard and none that is not
    /// allowed.
    pub fn is_compliant(&self) -> (r: bool)
        ensures
            r == (self@.missing_hazards.len() == 0 && self@.not_allowed_hazards.len() == 0),
    {
        self.missing_hazards.is_empty() && self.not_allowed_hazards.is_empty()
    }
}

/// The views of a list of mandatory actions.
pub open spec fn mandatory_views(actions: Seq<MandatoryAction>) -> Seq<MandatoryActionView> {
    Seq::new(actions.len(), |i: int| actions[i]@)
}

/// An action that an instance adds beyond the mandatory ones.
pub struct OptionalAction {
    /// Name of the action.
    pub name: String,
    /// Hazards that the instance declares for it.
    pub hazards: HazardSet,
    /// Declared hazards that the device type does not allow.
    pub not_allowed_hazards: HazardSet,
}

/// What an `OptionalAction` stands for.
pub struct OptionalActionView {
    pub name: Seq<char>,
    pub hazards: Seq<Seq<char>>,
    pub not_allowed_hazards: Seq<Seq<char>>,
}

impl View for OptionalAction {
    type V = OptionalActionView;

    open spec fn view(&self) -> OptionalActionView {
        OptionalActionView {
            name: self.name@,
            hazards: self.hazards@,
            not_allowed_hazards: self.not_allowed_hazards@,
        }
    }
}

/// The optional action `name` that declares `hazards`, on a device that
/// allows `allowed`: of what it declares, what is not allowed.
pub open spec fn added_action(
    name: Seq<char>,
    hazards: Seq<Seq<char>>,
    allowed: Seq<Seq<char>>,
) -> OptionalActionView {
    OptionalActionView { name, hazards, not_allowed_hazards: difference(hazards, allowed) }
}

impl OptionalAction {
    /// Holds the hazards that an instance declares for an action it adds
    /// against what the device allows.
    pub fn new(name: String, hazards: HazardSet, allowed_hazards: &HazardSet) -> (record:
        OptionalAction)
        requires
            hazards.wf(),
        ensures
            record@ == added_action(name@, hazards@, allowed_hazards@),
            record.not_allowed_hazards.set() == hazards.set().difference(allowed_hazards.set()),
    {
        let not_allowed_hazards = sets_difference(&hazards, allowed_hazards);
        OptionalAction { name, hazards, not_allowed_hazards }
    }
}

/// The views of a list of optional actions.
pub open spec fn optional_views(actions: Seq<OptionalAction>) -> Seq<OptionalActionView> {
    Seq::new(actions.len(), |i: int| actions[i]@)
}

/// The hazards named in a piece of code, each where it is first named.
pub fn get_hazards(code: &str) -> (hazards: Option<HazardSet>)
    ensures
        crate::hazards::set_view(hazards) == hazards_in(code@),
        hazards is Some ==> hazards.unwrap().wf(),
{
    hazards_from_text(code)
}

/// The name of the call that adds an optional action.
pub open spec fn add_action_name() -> Seq<char> {
    "add_action"@
}

/// The optional action that the argument text `arguments` of one adding call
/// describes: its name is the second argument of the first parenthesised list
/// in that text. `None` where the text holds no such list or the list no
/// second argument.
pub open spec fn optional_action(arguments: Seq<char>, allowed: Seq<Seq<char>>) -> Option<
    OptionalActionView,
> {
    match (hazards_in(arguments), first_group(args_pattern(), arguments)) {
        (Some(hazards), Some(list)) => match second_field(list) {
            Some(name) => Some(added_action(name, hazards, allowed)),
            None => None,
        },
        _ => None,
    }
}

/// The optional action of one match of the adding call, if it describes one.
pub open spec fn optional_of_match(group: Option<Seq<char>>, allowed: Seq<Seq<char>>) -> Option<
    OptionalActionView,
> {
    match group {
        Some(arguments) => optional_action(arguments, allowed),
        None => None,
    }
}

/// The optional actions of the instance text `code`, in the order of their
/// calls. `None` where the pattern of the adding call is refused.
pub open spec fn optional_actions(code: Seq<char>, allowed: Seq<Seq<char>>) -> Option<
    Seq<OptionalActionView>,
> {
    match all_groups(method_pattern(add_action_name()), code) {
        Some(groups) => Some(
            groups.filter_map(|group: Option<Seq<char>>| optional_of_match(group, allowed)),
        ),
        None => None,
    }
}

/// The views of an optional list of optional actions.
pub open spec fn optional_list_view(actions: Option<Vec<OptionalAction>>) -> Option<
    Seq<OptionalActionView>,
> {
    match actions {
        Some(actions) => Some(optional_views(actions@)),
        None => None,
    }
}

/// Reads one optional action from the argument text of an adding call.
pub fn read_optional_action(arguments: &str, allowed_hazards: &HazardSet) -> (action: Option<
    OptionalAction,
>)
    ensures
        match action {
            Some(action) => optional_action(arguments@, allowed_hazards@) == Some(action@),
            None => optional_action(arguments@, allowed_hazards@) is None,
        },
{
    let hazards = get_hazards(arguments)?;
    let list = first_capture("\\((?s)(.*?)\\)", arguments)?;
    let name = second_argument(list.as_str())?;
    Some(OptionalAction::new(name, hazards, allowed_hazards))
}

/// The optional actions that the instance text `device_instance` adds, each
/// with the hazards it declares and those among them that the device does not
/// allow.
pub fn get_optional_actions(device_instance: &str, ascot_device: &AscotDevice) -> (actions: Option<
    Vec<OptionalAction>,
>)
    ensures
        optional_list_view(actions) == optional_actions(
            device_instance@,
            ascot_device@.allowed_hazards,
        ),
{
    let pattern = method_re("add_action");
    let found = all_captures(pattern.as_str(), device_instance)?;
    let ghost allowed = ascot_device@.allowed_hazards;
    let ghost groups = all_groups(method_pattern(add_action_name()), device_instance@).unwrap();
    let ghost pick = |group: Option<Seq<char>>| optional_of_match(group, allowed);
    let mut actions: Vec<OptionalAction> = Vec::new();
    let mut i: usize = 0;
    assert(groups.take(0).filter_map(pick) =~= Seq::<OptionalActionView>::empty());
    while i < found.len()
        invariant
            i <= found.len(),
            allowed == ascot_device@.allowed_hazards,
            groups.len() == found@.len(),
            forall|j: int| 0 <= j < found@.len() ==> groups[j] == view_of(found@[j]),
            pick == |group: Option<Seq<char>>| optional_of_match(group, allowed),
            optional_views(actions@) == groups.take(i as int).filter_map(pick),
        decreases found.len() - i,
    {
        proof {
            groups.lemma_filter_map_take_succ(pick, i as int);
        }
        let ghost before = optional_views(actions@);
        match &found[i] {
            Some(arguments) => {
                match read_optional_action(arguments.as_str(), &ascot_device.allowed_hazards) {
                    Some(action) => {
                        actions.push(action);
                        assert(optional_views(actions@) =~= before + seq![action@]);
                    },
                    None => {},
                }
            },
            None => {},
        }
        i += 1;
    }
    assert(groups.take(groups.len() as int) =~= groups);
    Some(actions)
}

/// The record of what stands at position `pos` of a constructor call: the
/// contract's action at that position, supplied with the hazards found
/// there. `None` where nothing was found there, or the contract has no
/// action there.
pub open spec fn paired_at(
    actions: Seq<Option<DeviceActionView>>,
    supplied: Seq<Option<Seq<Seq<char>>>>,
    pos: int,
    allowed: Seq<Seq<char>>,
) -> Option<MandatoryActionView> {
    match supplied[pos] {
        Some(hazards) => if pos < actions.len() {
            match actions[pos] {
                Some(action) => Some(checked_action(action, hazards, allowed)),
                None => None,
            }
        } else {
            None
        },
        None => None,
    }
}

/// The records of a constructor call: what was found at position `pos` is
/// held against the action at position `pos` of the contract.
pub open spec fn paired_by_position(
    actions: Seq<Option<DeviceActionView>>,
    supplied: Seq<Option<Seq<Seq<char>>>>,
    allowed: Seq<Seq<char>>,
) -> Seq<MandatoryActionView> {
    Seq::new(supplied.len(), |pos: int| paired_at(actions, supplied, pos, allowed)).filter_map(
        |record: Option<MandatoryActionView>| record,
    )
}

/// The views of a list of optional hazard sets.
pub open spec fn supplied_views(supplied: Seq<Option<HazardSet>>) -> Seq<Option<Seq<Seq<char>>>> {
    Seq::new(supplied.len(), |pos: int| crate::hazards::set_view(supplied[pos]))
}

/// Holds the hazards found at each position of a constructor call against
/// the action at that position of the contract.
pub fn pair_by_position(
    actions: &Vec<Option<DeviceAction>>,
    supplied: &Vec<Option<HazardSet>>,
    allowed_hazards: &HazardSet,
) -> (records: Vec<MandatoryAction>)
    requires
        forall|i: int|
            0 <= i < actions@.len() && (#[trigger] actions@[i]) is Some
                ==> actions@[i].unwrap().wf(),
        forall|i: int|
            0 <= i < supplied@.len() && (#[trigger] supplied@[i]) is Some
                ==> supplied@[i].unwrap().wf(),
    ensures
        mandatory_views(records@) == paired_by_position(
            crate::device::positional_views(actions@),
            supplied_views(supplied@),
            allowed_hazards@,
        ),
{
    let ghost contract = crate::device::positional_views(actions@);
    let ghost allowed = allowed_hazards@;
    let ghost found = supplied_views(supplied@);
    let ghost each = Seq::new(found.len(), |pos: int| paired_at(contract, found, pos, allowed));
    let ghost keep = |record: Option<MandatoryActionView>| record;
    let mut records: Vec<MandatoryAction> = Vec::new();
    let mut pos: usize = 0;
    assert(each.take(0).filter_map(keep) =~= Seq::<MandatoryActionView>::empty());
    while pos < supplied.len()
        invariant
            pos <= supplied.len(),
            forall|i: int|
            0 <= i < actions@.len() && (#[trigger] actions@[i]) is Some
                ==> actions@[i].unwrap().wf(),
            forall|i: int|
                0 <= i < supplied@.len() && (#[trigger] supplied@[i]) is Some
                    ==> supplied@[i].unwrap().wf(),
            contract == crate::device::positional_views(actions@),
            allowed == allowed_hazards@,
            found == supplied_views(supplied@),
            each == Seq::new(found.len(), |pos: int| paired_at(contract, found, pos, allowed)),
            keep == |record: Option<MandatoryActionView>| record,
            mandatory_views(records@) == each.take(pos as int).filter_map(keep),
        decreases supplied.len() - pos,
    {
        proof {
            each.lemma_filter_map_take_succ(keep, pos as int);
        }
        let ghost before = mandatory_views(records@);
        match &supplied[pos] {
            Some(hazards) => {
                if pos < actions.len() {
                    match &actions[pos] {
                        Some(action) => {
                            let record = MandatoryAction::new(
                                action,
                                hazards.cloned(),
                                allowed_hazards,
                            );
                            records.push(record);
                            assert(mandatory_views(records@) =~= before + seq![record@]);
                        },
                        None => {},
                    }
                }
            },
            None => {},
        }
        pos += 1;
    }
    assert(each.take(each.len() as int) =~= each);
    records
}

/// The hazards that each parenthesised list of a constructor call names.
pub open spec fn supplied_hazards(groups: Seq<Option<Seq<char>>>) -> Seq<Option<Seq<Seq<char>>>> {
    Seq::new(
        groups.len(),
        |pos: int|
            match groups[pos] {
                Some(argument) => hazards_in(argument),
                None => None,
            },
    )
}

/// The records of the mandatory actions that the constructor call text
/// `new_call` supplies. `None` where the pattern of an argument list is
/// refused.
pub open spec fn new_actions(
    actions: Seq<Option<DeviceActionView>>,
    new_call: Seq<char>,
    allowed: Seq<Seq<char>>,
) -> Option<Seq<MandatoryActionView>> {
    match all_groups(args_pattern(), new_call) {
        Some(groups) => Some(paired_by_position(actions, supplied_hazards(groups), allowed)),
        None => None,
    }
}

/// The views of an optional list of mandatory actions.
pub open spec fn mandatory_list_view(actions: Option<Vec<MandatoryAction>>) -> Option<
    Seq<MandatoryActionView>,
> {
    match actions {
        Some(actions) => Some(mandatory_views(actions@)),
        None => None,
    }
}

/// The mandatory actions that a constructor call supplies: the parenthesised
/// list at position `n` of `new_call` is held against the action at position
/// `n` of the contract.
pub fn get_new_actions(
    actions: &Vec<Option<DeviceAction>>,
    new_call: &str,
    allowed_hazards: &HazardSet,
) -> (records: Option<Vec<MandatoryAction>>)
    requires
        forall|i: int|
            0 <= i < actions@.len() && (#[trigger] actions@[i]) is Some
                ==> actions@[i].unwrap().wf(),
    ensures
        mandatory_list_view(records) == new_actions(
            crate::device::positional_views(actions@),
            new_call@,
            allowed_hazards@,
        ),
{
    let found = all_captures("\\((?s)(.*?)\\)", new_call)?;
    let ghost groups = all_groups(args_pattern(), new_call@).unwrap();
    let mut supplied: Vec<Option<HazardSet>> = Vec::new();
    let mut pos: usize = 0;
    while pos < found.len()
        invariant
            pos <= found.len(),
            groups == crate::pattern::views_of(found@),
            supplied@.len() == pos,
            forall|i: int|
                0 <= i < pos ==> crate::hazards::set_view(#[trigger] supplied@[i])
                    == supplied_hazards(groups)[i],
            forall|i: int|
                0 <= i < pos && (#[trigger] supplied@[i]) is Some ==> supplied@[i].unwrap().wf(),
        decreases found.len() - pos,
    {
        let hazards = match &found[pos] {
            Some(argument) => get_hazards(argument.as_str()),
            None => None,
        };
        supplied.push(hazards);
        pos += 1;
    }
    assert(supplied_views(supplied@) =~= supplied_hazards(groups));
    Some(pair_by_position(actions, &supplied, allowed_hazards))
}

/// What an instance holds of one mandatory action that is set by a method
/// call.
pub enum MethodCall {
    /// The instance holds no call of the action.
    Absent,
    /// The instance calls the action, and the hazards of the call cannot be
    /// read.
    Unread,
    /// The instance calls the action with these hazards.
    Found(HazardSet),
}

/// What a `MethodCall` stands for.
pub enum MethodCallView {
    Absent,
    Unread,
    Found(Seq<Seq<char>>),
}

impl View for MethodCall {
    type V = MethodCallView;

    open spec fn view(&self) -> MethodCallView {
        match self {
            MethodCall::Absent => MethodCallView::Absent,
            MethodCall::Unread => MethodCallView::Unread,
            MethodCall::Found(hazards) => MethodCallView::Found(hazards@),
        }
    }
}

/// The views of a list of calls.
pub open spec fn call_views(calls: Seq<MethodCall>) -> Seq<MethodCallView> {
    Seq::new(calls.len(), |i: int| calls[i]@)
}

/// The record of `action` as `call` supplies it; none where the action is
/// not called or its hazards cannot be read.
pub open spec fn record_of_call(
    action: DeviceActionView,
    call: MethodCallView,
    allowed: Seq<Seq<char>>,
) -> Option<MandatoryActionView> {
    match call {
        MethodCallView::Found(hazards) => Some(checked_action(action, hazards, allowed)),
        _ => None,
    }
}

/// The name of `action` where it is not called.
pub open spec fn name_of_absent(action: DeviceActionView, call: MethodCallView) -> Option<
    Seq<char>,
> {
    match call {
        MethodCallView::Absent => Some(action.name),
        _ => None,
    }
}

/// The records of the actions that are called, in the order of the contract:
/// `calls` holds at each position what was found of the action at that
/// position.
pub open spec fn records_by_name(
    actions: Seq<DeviceActionView>,
    calls: Seq<MethodCallView>,
    allowed: Seq<Seq<char>>,
) -> Seq<MandatoryActionView> {
    Seq::new(actions.len(), |i: int| record_of_call(actions[i], calls[i], allowed)).filter_map(
        |record: Option<MandatoryActionView>| record,
    )
}

/// The names of the actions that are not called, in the order of the
/// contract.
pub open spec fn names_of_absent(actions: Seq<DeviceActionView>, calls: Seq<MethodCallView>) -> Seq<
    Seq<char>,
> {
    Seq::new(actions.len(), |i: int| name_of_absent(actions[i], calls[i])).filter_map(
        |name: Option<Seq<char>>| name,
    )
}

/// Holds what was found of each mandatory action against the contract: the
/// records of the actions that are called, and the names of those that are
/// not.
pub fn pair_by_name(
    actions: &Vec<DeviceAction>,
    calls: &Vec<MethodCall>,
    allowed_hazards: &HazardSet,
) -> (paired: (Vec<MandatoryAction>, Vec<String>))
    requires
        calls@.len() == actions@.len(),
        forall|i: int| 0 <= i < actions@.len() ==> (#[trigger] actions@[i]).wf(),
        forall|i: int|
            0 <= i < calls@.len() && (#[trigger] calls@[i]) is Found ==> calls@[i]->Found_0.wf(),
    ensures
        mandatory_views(paired.0@) == records_by_name(
            crate::device::action_views(actions@),
            call_views(calls@),
            allowed_hazards@,
        ),
        crate::hazards::texts_of(paired.1@) == names_of_absent(
            crate::device::action_views(actions@),
            call_views(calls@),
        ),
{
    let ghost contract = crate::device::action_views(actions@);
    let ghost found = call_views(calls@);
    let ghost allowed = allowed_hazards@;
    let ghost each = Seq::new(
        contract.len(),
        |i: int| record_of_call(contract[i], found[i], allowed),
    );
    let ghost each_name = Seq::new(contract.len(), |i: int| name_of_absent(contract[i], found[i]));
    let ghost keep = |record: Option<MandatoryActionView>| record;
    let ghost keep_name = |name: Option<Seq<char>>| name;
    let mut records: Vec<MandatoryAction> = Vec::new();
    let mut names: Vec<String> = Vec::new();
    let mut i: usize = 0;
    assert(each.take(0).filter_map(keep) =~= Seq::<MandatoryActionView>::empty());
    assert(each_name.take(0).filter_map(keep_name) =~= Seq::<Seq<char>>::empty());
    while i < actions.len()
        invariant
            i <= actions.len(),
            calls@.len() == actions@.len(),
            forall|i: int| 0 <= i < actions@.len() ==> (#[trigger] actions@[i]).wf(),
            forall|i: int|
                0 <= i < calls@.len() && (#[trigger] calls@[i]) is Found
                    ==> calls@[i]->Found_0.wf(),
            contract == crate::device::action_views(actions@),
            found == call_views(calls@),
            allowed == allowed_hazards@,
            each == Seq::new(
                contract.len(),
                |i: int| record_of_call(contract[i], found[i], allowed),
            ),
            each_name == Seq::new(
                contract.len(),
                |i: int| name_of_absent(contract[i], found[i]),
            ),
            keep == |record: Option<MandatoryActionView>| record,
            keep_name == |name: Option<Seq<char>>| name,
            mandatory_views(records@) == each.take(i as int).filter_map(keep),
            crate::hazards::texts_of(names@) == each_name.take(i as int).filter_map(keep_name),
        decreases actions.len() - i,
    {
        proof {
            each.lemma_filter_map_take_succ(keep, i as int);
            each_name.lemma_filter_map_take_succ(keep_name, i as int);
        }
        let ghost before = mandatory_views(records@);
        let ghost before_names = crate::hazards::texts_of(names@);
        let action = &actions[i];
        match &calls[i] {
            MethodCall::Found(hazards) => {
                let record = MandatoryAction::new(action, hazards.cloned(), allowed_hazards);
                records.push(record);
                assert(mandatory_views(records@) =~= before + seq![record@]);
            },
            MethodCall::Absent => {
                names.push(action.name.clone());
                assert(crate::hazards::texts_of(names@) =~= before_names + seq![action.name@]);
            },
            MethodCall::Unread => {},
        }
        i += 1;
    }
    assert(each.take(each.len() as int) =~= each);
    assert(each_name.take(each_name.len() as int) =~= each_name);
    (records, names)
}

/// What the instance text `code` holds of `action`: its call is the first
/// call of its name that a dot follows.
pub open spec fn call_of(action: DeviceActionView, code: Seq<char>) -> MethodCallView {
    match first_group(method_pattern(action.name), code) {
        Some(call) => match hazards_in(call) {
            Some(hazards) => MethodCallView::Found(hazards),
            None => MethodCallView::Unread,
        },
        None => MethodCallView::Absent,
    }
}

/// What the instance text `code` holds of each of `actions`.
pub open spec fn found_calls(actions: Seq<DeviceActionView>, code: Seq<char>) -> Seq<
    MethodCallView,
> {
    Seq::new(actions.len(), |i: int| call_of(actions[i], code))
}

/// The records of those of `actions` that the instance text `code` sets, in
/// the order of the contract.
pub open spec fn methods_actions(
    actions: Seq<DeviceActionView>,
    code: Seq<char>,
    allowed: Seq<Seq<char>>,
) -> Seq<MandatoryActionView> {
    records_by_name(actions, found_calls(actions, code), allowed)
}

/// The names of those of `actions` that the instance text `code` does not
/// set, in the order of the contract.
pub open spec fn missing_names(actions: Seq<DeviceActionView>, code: Seq<char>) -> Seq<Seq<char>> {
    names_of_absent(actions, found_calls(actions, code))
}

/// A device instantiation found in firmware.
pub struct DeviceInstance {
    /// Text of the whole instantiation, chained calls included.
    pub code: String,
    /// Row and column at which it starts.
    pub position: (usize, usize),
}

/// Looks in an instance for the call of each mandatory action.
pub fn get_method_calls(actions: &Vec<DeviceAction>, device_instance: &DeviceInstance) -> (calls:
    Vec<MethodCall>)
    ensures
        calls@.len() == actions@.len(),
        call_views(calls@) == found_calls(
            crate::device::action_views(actions@),
            device_instance.code@,
        ),
        forall|i: int|
            0 <= i < calls@.len() && (#[trigger] calls@[i]) is Found ==> calls@[i]->Found_0.wf(),
{
    let ghost contract = crate::device::action_views(actions@);
    let ghost code = device_instance.code@;
    let mut calls: Vec<MethodCall> = Vec::new();
    let mut i: usize = 0;
    while i < actions.len()
        invariant
            i <= actions.len(),
            contract == crate::device::action_views(actions@),
            code == device_instance.code@,
            calls@.len() == i,
            forall|k: int| 0 <= k < i ==> (#[trigger] calls@[k])@ == call_of(contract[k], code),
            forall|k: int|
                0 <= k < i && (#[trigger] calls@[k]) is Found ==> calls@[k]->Found_0.wf(),
        decreases actions.len() - i,
    {
        let action = &actions[i];
        let call = match get_method_call(device_instance.code.as_str(), action.name.as_str()) {
            Some(call) => match get_hazards(call.as_str()) {
                Some(hazards) => MethodCall::Found(hazards),
                None => MethodCall::Unread,
            },
            None => MethodCall::Absent,
        };
        calls.push(call);
        i += 1;
    }
    assert(call_views(calls@) =~= found_calls(contract, code));
    calls
}

/// The mandatory actions that an instance sets by method calls, each with
/// the hazards that the call declares.
pub fn get_methods_actions(
    actions: &Vec<DeviceAction>,
    device_instance: &DeviceInstance,
    ascot_device: &AscotDevice,
) -> (records: Option<Vec<MandatoryAction>>)
    requires
        forall|i: int| 0 <= i < actions@.len() ==> (#[trigger] actions@[i]).wf(),
    ensures
        mandatory_list_view(records) == Some(
            methods_actions(
                crate::device::action_views(actions@),
                device_instance.code@,
                ascot_device@.allowed_hazards,
            ),
        ),
{
    let calls = get_method_calls(actions, device_instance);
    let paired = pair_by_name(actions, &calls, &ascot_device.allowed_hazards);
    Some(paired.0)
}

/// The names of the mandatory actions that an instance does not set.
pub fn get_missing_actions(actions: &Vec<DeviceAction>, device_instance: &DeviceInstance) -> (names:
    Vec<String>)
    requires
        forall|i: int| 0 <= i < actions@.len() ==> (#[trigger] actions@[i]).wf(),
    ensures
        crate::hazards::texts_of(names@) == missing_names(
            crate::device::action_views(actions@),
            device_instance.code@,
        ),
{
    let calls = get_method_calls(actions, device_instance);
    let paired = pair_by_name(actions, &calls, &HazardSet::new());
    paired.1
}

/// The compliance record of one device instance.
pub struct Device {
    /// Name of the device type.
    pub name: String,
    /// Row and column at which the instance starts.
    pub position: (usize, usize),
    /// The mandatory actions that the instance supplies.
    pub mandatory_actions: Vec<MandatoryAction>,
    /// The mandatory actions that the instance does not set. There for a
    /// device whose actions are set by method calls, and for no other.
    pub missing_mandatory_actions: Option<Vec<String>>,
    /// The optional actions that the instance adds.
    pub optional_actions: Vec<OptionalAction>,
    /// Hazards that the device type allows.
    pub allowed_hazards: HazardSet,
}

/// What a `Device` stands for.
pub struct DeviceView {
    pub name: Seq<char>,
    pub position: (usize, usize),
    pub mandatory_actions: Seq<MandatoryActionView>,
    pub missing_mandatory_actions: Option<Seq<Seq<char>>>,
    pub optional_actions: Seq<OptionalActionView>,
    pub allowed_hazards: Seq<Seq<char>>,
}

impl View for Device {
    type V = DeviceView;

    open spec fn view(&self) -> DeviceView {
        DeviceView {
            name: self.name@,
            position: self.position,
            mandatory_actions: mandatory_views(self.mandatory_actions@),
            missing_mandatory_actions: match self.missing_mandatory_actions {
                Some(names) => Some(crate::hazards::texts_of(names@)),
                None => None,
            },
            optional_actions: optional_views(self.optional_actions@),
            allowed_hazards: self.allowed_hazards@,
        }
    }
}

/// The text that calls the constructor of the device type `device_name`.
pub open spec fn constructor_of(device_name: Seq<char>) -> Seq<char> {
    device_name + "::new"@
}

/// The mandatory part of a record: the supplied actions and, for a device
/// whose actions are set by method calls, the names of those not set. `None`
/// where the device takes its actions in the constructor and the instance
/// text holds no constructor call followed by a dot.
pub open spec fn mandatory_part(
    code: Seq<char>,
    device: crate::device::AscotDeviceView,
) -> Option<(Seq<MandatoryActionView>, Option<Seq<Seq<char>>>)> {
    match device.mandatory_actions {
        crate::device::MandatoryActionsView::New(actions) => match first_group(
            method_pattern(constructor_of(device.name)),
            code,
        ) {
            Some(new_call) => match new_actions(actions, new_call, device.allowed_hazards) {
                Some(records) => Some((records, None)),
                None => None,
            },
            None => None,
        },
        crate::device::MandatoryActionsView::Methods(actions) => Some(
            (
                methods_actions(actions, code, device.allowed_hazards),
                Some(missing_names(actions, code)),
            ),
        ),
    }
}

/// The compliance record of the instance with text `code` at `position`,
/// held against the contract `device`.
pub open spec fn device_record(
    code: Seq<char>,
    position: (usize, usize),
    device: crate::device::AscotDeviceView,
) -> Option<DeviceView> {
    match (mandatory_part(code, device), optional_actions(code, device.allowed_hazards)) {
        (Some((mandatory_actions, missing_mandatory_actions)), Some(optional_actions)) => Some(
            DeviceView {
                name: device.name,
                position,
                mandatory_actions,
                missing_mandatory_actions,
                optional_actions,
                allowed_hazards: device.allowed_hazards,
            },
        ),
        _ => None,
    }
}

/// The view of an optional record.
pub open spec fn record_view(record: Option<Device>) -> Option<DeviceView> {
    match record {
        Some(record) => Some(record@),
        None => None,
    }
}

/// Builds the compliance record of a device instance: the mandatory actions
/// it supplies, those it leaves out, and the optional actions it adds, each
/// with its hazards held against the contract.
pub fn build_device(device_instance: DeviceInstance, ascot_device: &AscotDevice) -> (record: Option<
    Device,
>)
    requires
        ascot_device.wf(),
    ensures
        record_view(record) == device_record(
            device_instance.code@,
            device_instance.position,
            ascot_device@,
        ),
{
    let (mandatory_actions, missing_mandatory_actions) = match &ascot_device.mandatory_actions {
        MandatoryActions::New(actions) => {
            let mut constructor = ascot_device.name.clone();
            constructor.append("::new");
            let new_call = get_method_call(device_instance.code.as_str(), constructor.as_str())?;
            let mandatory_actions = get_new_actions(
                actions,
                new_call.as_str(),
                &ascot_device.allowed_hazards,
            )?;
            (mandatory_actions, None)
        },
        MandatoryActions::Methods(actions) => {
            let calls = get_method_calls(actions, &device_instance);
            let paired = pair_by_name(actions, &calls, &ascot_device.allowed_hazards);
            (paired.0, Some(paired.1))
        },
    };
    let optional_actions = get_optional_actions(device_instance.code.as_str(), ascot_device)?;
    Some(
        Device {
            name: ascot_device.name.clone(),
            position: device_instance.position,
            mandatory_actions,
            missing_mandatory_actions,
            optional_actions,
            allowed_hazards: ascot_device.allowed_hazards.cloned(),
        },
    )
}

/// What a `DeviceInstance` stands for.
pub struct DeviceInstanceView {
    pub code: Seq<char>,
    pub position: (usize, usize),
}

impl View for DeviceInstance {
    type V = DeviceInstanceView;

    open spec fn view(&self) -> DeviceInstanceView {
        DeviceInstanceView { code: self.code@, position: self.position }
    }
}

/// The views of a list of instances.
pub open spec fn instance_views(instances: Seq<DeviceInstance>) -> Seq<DeviceInstanceView> {
    Seq::new(instances.len(), |i: int| instances[i]@)
}

/// The instance of the device type `device_name` that node `j` is: a call
/// expression whose text holds the constructor's name and which lies in no
/// other call expression, so that it spans the constructor call with every
/// call chained to it.
pub open spec fn instance_at(tree: SyntaxTreeView, j: int, device_name: Seq<char>) -> Option<
    DeviceInstanceView,
> {
    if in_subtree(tree.nodes, 0, j) && tree.nodes[j].kind == NodeKind::CallExpression {
        match node_text(tree, j) {
            Some(code) => if contains_text(code, constructor_of(device_name)) && !has_ancestor(
                tree.nodes,
                j,
                NodeKind::CallExpression,
            ) {
                Some(DeviceInstanceView { code, position: tree.nodes[j].position })
            } else {
                None
            },
            None => None,
        }
    } else {
        None
    }
}

/// The instances of the device type `device_name` in a file, in document
/// order.
pub open spec fn device_instances(tree: SyntaxTreeView, device_name: Seq<char>) -> Seq<
    DeviceInstanceView,
> {
    Seq::new(tree.nodes.len(), |j: int| j).filter_map(
        |j: int| instance_at(tree, j, device_name),
    )
}

/// Finds the instances of a device type in a firmware file.
pub fn get_device_instances(tree: &SyntaxTree, ascot_device: &AscotDevice) -> (instances: Vec<
    DeviceInstance,
>)
    requires
        tree.wf(),
    ensures
        instance_views(instances@) == device_instances(tree@, ascot_device.name@),
{
    let mut instances: Vec<DeviceInstance> = Vec::new();
    let count = tree.len();
    let ghost all = Seq::new(tree@.nodes.len(), |j: int| j);
    let ghost pick = |j: int| instance_at(tree@, j, ascot_device.name@);
    assert(all.take(0).filter_map(pick) =~= Seq::<DeviceInstanceView>::empty());
    assert(instance_views(instances@) =~= Seq::<DeviceInstanceView>::empty());
    if count == 0 {
        assert(all.take(0) =~= all);
        return instances;
    }
    let mut constructor = ascot_device.name.clone();
    constructor.append("::new");
    let needle = chars_of(constructor.as_str());
    let end = tree.subtree_end(0);
    let mut j: usize = 0;
    while j < count
        invariant
            j <= count == tree@.nodes.len(),
            tree.wf(),
            end <= count,
            needle@ == constructor_of(ascot_device.name@),
            forall|k: int| in_subtree(tree@.nodes, 0, k) <==> 0 <= k < end,
            all == Seq::new(tree@.nodes.len(), |j: int| j),
            pick == |j: int| instance_at(tree@, j, ascot_device.name@),
            instance_views(instances@) == all.take(j as int).filter_map(pick),
        decreases count - j,
    {
        proof {
            all.lemma_filter_map_take_succ(pick, j as int);
        }
        let ghost before = instance_views(instances@);
        let node = tree.node(j);
        if j < end && node.kind == NodeKind::CallExpression {
            match tree.utf8_text(j) {
                Some(code) => {
                    let haystack = chars_of(code.as_str());
                    if contains(&haystack, &needle) && !tree.has_ancestor_of_kind(
                        j,
                        NodeKind::CallExpression,
                    ) {
                        let instance = DeviceInstance { code, position: node.position };
                        instances.push(instance);
                        assert(instance_views(instances@) =~= before + seq![instance@]);
                    }
                },
                None => {},
            }
        }
        j += 1;
    }
    assert(all.take(count as int) =~= all);
    instances
}

/// The views of a list of records.
pub open spec fn device_views(devices: Seq<Device>) -> Seq<DeviceView> {
    Seq::new(devices.len(), |i: int| devices[i]@)
}

/// The records of the instances of one device type in a file.
pub open spec fn records_of(tree: SyntaxTreeView, device: crate::device::AscotDeviceView) -> Seq<
    DeviceView,
> {
    device_instances(tree, device.name).filter_map(
        |instance: DeviceInstanceView| device_record(instance.code, instance.position, device),
    )
}

/// The records of a file: those of the first device type, then those of the
/// second, and so on.
pub open spec fn file_records(
    tree: SyntaxTreeView,
    devices: Seq<crate::device::AscotDeviceView>,
) -> Seq<DeviceView>
    decreases devices.len(),
{
    if devices.len() == 0 {
        Seq::empty()
    } else {
        file_records(tree, devices.drop_last()) + records_of(tree, devices.last())
    }
}

/// A firmware source file, parsed.
pub struct FirmwareFile {
    /// Path of the file.
    pub path: String,
    /// Syntax tree of the file.
    pub ast: SyntaxTree,
}

impl FirmwareFile {
    /// The firmware file at `path` with the syntax tree `ast`.
    pub fn new(path: String, ast: SyntaxTree) -> (file: FirmwareFile)
        ensures
            file.path == path,
            file.ast == ast,
    {
        FirmwareFile { path, ast }
    }
}

/// The compliance report of one firmware file.
pub struct FileManifest {
    /// Path of the file.
    pub file: String,
    /// Records of the device instances in the file.
    pub devices: Vec<Device>,
}

/// What a `FileManifest` stands for.
pub struct FileManifestView {
    pub file: Seq<char>,
    pub devices: Seq<DeviceView>,
}

impl View for FileManifest {
    type V = FileManifestView;

    open spec fn view(&self) -> FileManifestView {
        FileManifestView { file: self.file@, devices: device_views(self.devices@) }
    }
}

/// The report of the file at `path`: its records, and no report where it has
/// none.
pub open spec fn file_manifest(
    path: Seq<char>,
    tree: SyntaxTreeView,
    devices: Seq<crate::device::AscotDeviceView>,
) -> Option<FileManifestView> {
    let records = file_records(tree, devices);
    if records.len() > 0 {
        Some(FileManifestView { file: path, devices: records })
    } else {
        None
    }
}

/// The view of an optional report.
pub open spec fn manifest_view(manifest: Option<FileManifest>) -> Option<FileManifestView> {
    match manifest {
        Some(manifest) => Some(manifest@),
        None => None,
    }
}

/// Every contract of the list is well formed.
pub open spec fn contracts_wf(devices: Seq<AscotDevice>) -> bool {
    forall|i: int| 0 <= i < devices.len() ==> (#[trigger] devices[i]).wf()
}

/// Scans a firmware file for the instances of every device type and holds
/// each against its contract. A file without records gives no report.
pub fn get_file_manifest(firmware_file: &FirmwareFile, ascot_devices: &Vec<AscotDevice>) -> (manifest:
    Option<FileManifest>)
    requires
        firmware_file.ast.wf(),
        contracts_wf(ascot_devices@),
    ensures
        manifest_view(manifest) == file_manifest(
            firmware_file.path@,
            firmware_file.ast@,
            crate::device::contract_views(ascot_devices@),
        ),
{
    let ghost tree = firmware_file.ast@;
    let ghost contracts = crate::device::contract_views(ascot_devices@);
    let mut devices: Vec<Device> = Vec::new();
    let mut d: usize = 0;
    assert(contracts.take(0) =~= Seq::<crate::device::AscotDeviceView>::empty());
    assert(device_views(devices@) =~= Seq::<DeviceView>::empty());
    while d < ascot_devices.len()
        invariant
            d <= ascot_devices.len(),
            firmware_file.ast.wf(),
            contracts_wf(ascot_devices@),
            tree == firmware_file.ast@,
            contracts == crate::device::contract_views(ascot_devices@),
            device_views(devices@) == file_records(tree, contracts.take(d as int)),
        decreases ascot_devices.len() - d,
    {
        let ascot_device = &ascot_devices[d];
        let instances = get_device_instances(&firmware_file.ast, ascot_device);
        let ghost found = instance_views(instances@);
        let ghost pick = |instance: DeviceInstanceView|
            device_record(instance.code, instance.position, ascot_device@);
        let ghost base = device_views(devices@);
        let ghost mut added: Seq<DeviceView> = Seq::empty();
        let mut i: usize = 0;
        assert(found.take(0).filter_map(pick) =~= Seq::<DeviceView>::empty());
        assert(base + added =~= base);
        while i < instances.len()
            invariant
                i <= instances.len(),
                ascot_device.wf(),
                found == instance_views(instances@),
                pick == |instance: DeviceInstanceView|
                    device_record(instance.code, instance.position, ascot_device@),
                added == found.take(i as int).filter_map(pick),
                device_views(devices@) == base + added,
            decreases instances.len() - i,
        {
            proof {
                found.lemma_filter_map_take_succ(pick, i as int);
            }
            let ghost before = device_views(devices@);
            let instance = DeviceInstance {
                code: instances[i].code.clone(),
                position: instances[i].position,
            };
            match build_device(instance, ascot_device) {
                Some(device) => {
                    devices.push(device);
                    proof {
                        assert(device_views(devices@) =~= before + seq![device@]);
                        added = added + seq![device@];
                        assert(base + added =~= before + seq![device@]);
                    }
                },
                None => {},
            }
            i += 1;
        }
        proof {
            assert(found.take(found.len() as int) =~= found);
            assert(contracts.take(d + 1).drop_last() =~= contracts.take(d as int));
            assert(contracts.take(d + 1).last() == ascot_device@);
        }
        d += 1;
    }
    assert(contracts.take(contracts.len() as int) =~= contracts);
    if devices.len() == 0 {
        None
    } else {
        Some(FileManifest { file: firmware_file.path.clone(), devices })
    }
}

/// The pass that scans firmware files against the contracts of the device
/// types.
pub struct Analyzer<'a> {
    ascot_devices: &'a Vec<AscotDevice>,
}

impl<'a> Analyzer<'a> {
    /// The contracts that the pass scans against.
    pub closed spec fn contracts(&self) -> Seq<AscotDevice> {
        self.ascot_devices@
    }

    /// The scanning pass against `ascot_devices`.
    pub fn new(ascot_devices: &'a Vec<AscotDevice>) -> (analyzer: Analyzer<'a>)
        ensures
            analyzer.contracts() == ascot_devices@,
    {
        Analyzer { ascot_devices }
    }
}

impl<'a> ConcurrentRunner for Analyzer<'a> {
    type ProducerItem = FirmwareFile;

    type ConsumerItem = FileManifest;

    open spec fn accepts(&self, item: &FirmwareFile) -> bool {
        item.ast.wf() && contracts_wf(self.contracts())
    }

    open spec fn yields(&self, item: &FirmwareFile, out: Option<FileManifest>) -> bool {
        manifest_view(out) == file_manifest(
            item.path@,
            item.ast@,
            crate::device::contract_views(self.contracts()),
        )
    }

    fn consumer(&self, item: &FirmwareFile) -> (out: Option<FileManifest>) {
        get_file_manifest(item, self.ascot_devices)
    }
}

/// The views of a list of reports.
pub open spec fn manifest_views(manifest: Seq<FileManifest>) -> Seq<FileManifestView> {
    Seq::new(manifest.len(), |i: int| manifest[i]@)
}

/// The report of a firmware file against `devices`.
pub open spec fn manifest_of_file(
    file: FirmwareFile,
    devices: Seq<crate::device::AscotDeviceView>,
) -> Option<FileManifestView> {
    file_manifest(file.path@, file.ast@, devices)
}

/// The manifest of the firmware files against `devices`: the reports of the
/// files that have one, in the order of the files.
pub open spec fn manifest_of(
    files: Seq<FirmwareFile>,
    devices: Seq<crate::device::AscotDeviceView>,
) -> Seq<FileManifestView> {
    files.filter_map(|file: FirmwareFile| manifest_of_file(file, devices))
}

/// What the scanning pass collects is the manifest of the files.
pub proof fn lemma_collected_manifest(
    analyzer: &Analyzer,
    files: Seq<FirmwareFile>,
    manifest: Seq<FileManifest>,
)
    requires
        collected(analyzer, files, manifest),
    ensures
        manifest_views(manifest) == manifest_of(
            files,
            crate::device::contract_views(analyzer.contracts()),
        ),
    decreases files.len(),
{
    let devices = crate::device::contract_views(analyzer.contracts());
    let pick = |file: FirmwareFile| manifest_of_file(file, devices);
    if files.len() == 0 {
        assert(manifest_views(manifest) =~= manifest_of(files, devices));
    } else {
        if analyzer.yields(&files.last(), None) && collected(analyzer, files.drop_last(), manifest) {
            lemma_collected_manifest(analyzer, files.drop_last(), manifest);
            assert(pick(files.last()) is None);
        } else {
            lemma_collected_manifest(analyzer, files.drop_last(), manifest.drop_last());
            assert(pick(files.last()) == Some(manifest.last()@));
            assert(manifest_views(manifest) =~= manifest_views(manifest.drop_last()) + seq![
                manifest.last()@,
            ]);
        }
    }
}

/// Every report of a manifest holds a record: a file without one has no
/// entry.
pub proof fn lemma_no_empty_report(
    files: Seq<FirmwareFile>,
    devices: Seq<crate::device::AscotDeviceView>,
    i: int,
)
    requires
        0 <= i < manifest_of(files, devices).len(),
    ensures
        manifest_of(files, devices)[i].devices.len() > 0,
    decreases files.len(),
{
    let pick = |file: FirmwareFile| manifest_of_file(file, devices);
    if files.len() > 0 {
        let head = manifest_of(files.drop_last(), devices);
        if i < head.len() {
            lemma_no_empty_report(files.drop_last(), devices, i);
        }
    }
}

/// Whether a record of a mandatory action declares every required hazard
/// and none that is not allowed.
pub open spec fn fully_compliant(record: MandatoryActionView) -> bool {
    record.missing_hazards.len() == 0 && record.not_allowed_hazards.len() == 0
}

/// For every action and every set of supplied hazards: the missing hazards
/// are the required ones without the supplied ones, the hazards that are not
/// allowed are the supplied ones without the allowed ones, and the action is
/// fully compliant exactly where the required hazards are all supplied and
/// the supplied ones all allowed.
pub proof fn lemma_hazard_differences(
    action: DeviceActionView,
    supplied: Seq<Seq<char>>,
    allowed: Seq<Seq<char>>,
)
    ensures
        checked_action(action, supplied, allowed).missing_hazards.to_set()
            == action.hazards.to_set().difference(supplied.to_set()),
        checked_action(action, supplied, allowed).not_allowed_hazards.to_set()
            == supplied.to_set().difference(allowed.to_set()),
        fully_compliant(checked_action(action, supplied, allowed)) <==> action.hazards.to_set().subset_of(
            supplied.to_set(),
        ) && supplied.to_set().subset_of(allowed.to_set()),
{
    crate::hazards::lemma_difference(action.hazards, supplied);
    crate::hazards::lemma_difference(supplied, allowed);
    let missing = difference(action.hazards, supplied);
    let not_allowed = difference(supplied, allowed);
    if missing.len() > 0 {
        assert(missing.contains(missing[0]));
        assert(action.hazards.to_set().contains(missing[0]));
    } else {
        assert forall|name: Seq<char>| action.hazards.to_set().contains(name) implies supplied.to_set().contains(
            name,
        ) by {
            if !supplied.contains(name) {
                assert(missing.contains(name));
            }
        }
    }
    if not_allowed.len() > 0 {
        assert(not_allowed.contains(not_allowed[0]));
        assert(supplied.to_set().contains(not_allowed[0]));
    } else {
        assert forall|name: Seq<char>| supplied.to_set().contains(name) implies allowed.to_set().contains(
            name,
        ) by {
            if !allowed.contains(name) {
                assert(not_allowed.contains(name));
            }
        }
    }
}

/// An item that `pick` keeps stands in what `filter_map` returns.
pub proof fn lemma_filter_map_keeps<A, B>(items: Seq<A>, pick: spec_fn(A) -> Option<B>, i: int)
    requires
        0 <= i < items.len(),
        pick(items[i]) is Some,
    ensures
        items.filter_map(pick).contains(pick(items[i]).unwrap()),
    decreases items.len(),
{
    let kept = items.filter_map(pick);
    if i == items.len() - 1 {
        assert(kept[kept.len() - 1] == pick(items[i]).unwrap());
    } else {
        lemma_filter_map_keeps(items.drop_last(), pick, i);
        let head = items.drop_last().filter_map(pick);
        let at = choose|at: int| 0 <= at < head.len() && head[at] == pick(items[i]).unwrap();
        assert(kept[at] == pick(items[i]).unwrap());
    }
}

/// In every record, each mandatory action has its differences computed from
/// its own hazards alone: the missing ones from what it requires and
/// declares, those not allowed from what it declares and the device allows.
pub proof fn lemma_record_differences(
    code: Seq<char>,
    position: (usize, usize),
    device: crate::device::AscotDeviceView,
    k: int,
)
    requires
        device_record(code, position, device) is Some,
        0 <= k < device_record(code, position, device).unwrap().mandatory_actions.len(),
    ensures
        ({
            let record = device_record(code, position, device).unwrap().mandatory_actions[k];
            &&& record.missing_hazards == difference(record.mandatory_hazards, record.hazards)
            &&& record.not_allowed_hazards == difference(record.hazards, device.allowed_hazards)
        }),
{
    let records = device_record(code, position, device).unwrap().mandatory_actions;
    let allowed = device.allowed_hazards;
    let keep = |record: Option<MandatoryActionView>| record;
    assert(records.contains(records[k]));
    match device.mandatory_actions {
        crate::device::MandatoryActionsView::New(actions) => {
            let new_call = first_group(method_pattern(constructor_of(device.name)), code).unwrap();
            let groups = all_groups(args_pattern(), new_call).unwrap();
            let supplied = supplied_hazards(groups);
            let each = Seq::new(
                supplied.len(),
                |pos: int| paired_at(actions, supplied, pos, allowed),
            );
            each.lemma_filter_map_contains(keep, records[k]);
            let from = choose|from: Option<MandatoryActionView>| #[trigger]
                each.contains(from) && keep(from) == Some(records[k]);
            let pos = choose|pos: int| 0 <= pos < each.len() && each[pos] == from;
            assert(paired_at(actions, supplied, pos, allowed) == Some(records[k]));
        },
        crate::device::MandatoryActionsView::Methods(actions) => {
            let calls = found_calls(actions, code);
            let each = Seq::new(
                actions.len(),
                |i: int| record_of_call(actions[i], calls[i], allowed),
            );
            each.lemma_filter_map_contains(keep, records[k]);
            let from = choose|from: Option<MandatoryActionView>| #[trigger]
                each.contains(from) && keep(from) == Some(records[k]);
            let i = choose|i: int| 0 <= i < each.len() && each[i] == from;
            assert(record_of_call(actions[i], calls[i], allowed) == Some(records[k]));
        },
    }
}

/// The record of a device that takes its actions in the constructor never
/// lists missing mandatory actions.
pub proof fn lemma_positional_has_no_missing_actions(
    code: Seq<char>,
    position: (usize, usize),
    device: crate::device::AscotDeviceView,
)
    requires
        device.mandatory_actions is New,
        device_record(code, position, device) is Some,
    ensures
        device_record(code, position, device).unwrap().missing_mandatory_actions is None,
{
}

/// Every record of the actions that are called bears the name of an action
/// that the instance text calls.
pub proof fn lemma_record_is_called(
    actions: Seq<DeviceActionView>,
    code: Seq<char>,
    allowed: Seq<Seq<char>>,
    k: int,
)
    requires
        0 <= k < methods_actions(actions, code, allowed).len(),
    ensures
        first_group(method_pattern(methods_actions(actions, code, allowed)[k].name), code) is Some,
        exists|i: int|
            0 <= i < actions.len() && (#[trigger] actions[i]).name == methods_actions(
                actions,
                code,
                allowed,
            )[k].name,
{
    let records = methods_actions(actions, code, allowed);
    let calls = found_calls(actions, code);
    let each = Seq::new(actions.len(), |i: int| record_of_call(actions[i], calls[i], allowed));
    let keep = |record: Option<MandatoryActionView>| record;
    assert(records.contains(records[k]));
    each.lemma_filter_map_contains(keep, records[k]);
    let from = choose|from: Option<MandatoryActionView>| #[trigger]
        each.contains(from) && keep(from) == Some(records[k]);
    let i = choose|i: int| 0 <= i < each.len() && each[i] == from;
    assert(record_of_call(actions[i], calls[i], allowed) == Some(records[k]));
    assert(actions[i].name == records[k].name);
}

/// Every name that is listed as missing is the name of an action that the
/// instance text does not call.
pub proof fn lemma_missing_is_not_called(actions: Seq<DeviceActionView>, code: Seq<char>, k: int)
    requires
        0 <= k < missing_names(actions, code).len(),
    ensures
        first_group(method_pattern(missing_names(actions, code)[k]), code) is None,
        exists|i: int|
            0 <= i < actions.len() && (#[trigger] actions[i]).name == missing_names(
                actions,
                code,
            )[k],
{
    let names = missing_names(actions, code);
    let calls = found_calls(actions, code);
    let each = Seq::new(actions.len(), |i: int| name_of_absent(actions[i], calls[i]));
    let keep = |name: Option<Seq<char>>| name;
    assert(names.contains(names[k]));
    each.lemma_filter_map_contains(keep, names[k]);
    let from = choose|from: Option<Seq<char>>| #[trigger]
        each.contains(from) && keep(from) == Some(names[k]);
    let i = choose|i: int| 0 <= i < each.len() && each[i] == from;
    assert(name_of_absent(actions[i], calls[i]) == Some(names[k]));
    assert(actions[i].name == names[k]);
}

/// An action of a device whose actions are set by method calls, of which the
/// instance text holds no call, is listed as missing, and no mandatory
/// action of the record bears its name.
pub proof fn lemma_absent_action_is_missing(
    code: Seq<char>,
    position: (usize, usize),
    device: crate::device::AscotDeviceView,
    i: int,
)
    requires
        device.mandatory_actions is Methods,
        0 <= i < device.mandatory_actions->Methods_0.len(),
        first_group(method_pattern(device.mandatory_actions->Methods_0[i].name), code) is None,
        device_record(code, position, device) is Some,
    ensures
        ({
            let record = device_record(code, position, device).unwrap();
            let name = device.mandatory_actions->Methods_0[i].name;
            &&& record.missing_mandatory_actions is Some
            &&& record.missing_mandatory_actions.unwrap().contains(name)
            &&& forall|k: int|
                0 <= k < record.mandatory_actions.len() ==> (
                #[trigger] record.mandatory_actions[k]).name != name
        }),
{
    let actions = device.mandatory_actions->Methods_0;
    let record = device_record(code, position, device).unwrap();
    let name = actions[i].name;
    let allowed = device.allowed_hazards;
    let calls = found_calls(actions, code);
    let each_name = Seq::new(actions.len(), |j: int| name_of_absent(actions[j], calls[j]));
    lemma_filter_map_keeps(each_name, |name: Option<Seq<char>>| name, i);
    assert forall|k: int| 0 <= k < record.mandatory_actions.len() implies (
    #[trigger] record.mandatory_actions[k]).name != name by {
        lemma_record_is_called(actions, code, allowed, k);
    }
}

/// The name of `action` where it is called with hazards that can be read.
pub open spec fn name_of_called(action: DeviceActionView, call: MethodCallView) -> Option<
    Seq<char>,
> {
    match call {
        MethodCallView::Found(_) => Some(action.name),
        _ => None,
    }
}

/// The names of the actions that are called, in the order of the contract.
pub open spec fn names_of_called(actions: Seq<DeviceActionView>, calls: Seq<MethodCallView>) -> Seq<
    Seq<char>,
> {
    Seq::new(actions.len(), |i: int| name_of_called(actions[i], calls[i])).filter_map(
        |name: Option<Seq<char>>| name,
    )
}

/// The names of a list of records.
pub open spec fn record_names(records: Seq<MandatoryActionView>) -> Seq<Seq<char>> {
    Seq::new(records.len(), |k: int| records[k].name)
}

/// The names of the records that are kept are the names that are kept.
pub proof fn lemma_names_of_kept(
    each: Seq<Option<MandatoryActionView>>,
    names: Seq<Option<Seq<char>>>,
)
    requires
        each.len() == names.len(),
        forall|i: int|
            0 <= i < each.len() ==> (#[trigger] names[i]) == match each[i] {
                Some(record) => Some(record.name),
                None => None,
            },
    ensures
        record_names(each.filter_map(|record: Option<MandatoryActionView>| record))
            == names.filter_map(|name: Option<Seq<char>>| name),
    decreases each.len(),
{
    let keep = |record: Option<MandatoryActionView>| record;
    let keep_name = |name: Option<Seq<char>>| name;
    if each.len() == 0 {
        assert(record_names(each.filter_map(keep)) =~= names.filter_map(keep_name));
    } else {
        lemma_names_of_kept(each.drop_last(), names.drop_last());
        let head = each.drop_last().filter_map(keep);
        assert(names[names.len() - 1] == match each[each.len() - 1] {
            Some(record) => Some(record.name),
            None => None,
        });
        match each.last() {
            Some(record) => {
                assert(record_names(head + seq![record]) =~= record_names(head) + seq![
                    record.name,
                ]);
            },
            None => {},
        }
    }
}

/// The records of the actions that are called bear the names of those
/// actions, in the order of the contract.
pub proof fn lemma_record_names(
    actions: Seq<DeviceActionView>,
    calls: Seq<MethodCallView>,
    allowed: Seq<Seq<char>>,
)
    ensures
        record_names(records_by_name(actions, calls, allowed)) == names_of_called(actions, calls),
{
    lemma_names_of_kept(
        Seq::new(actions.len(), |i: int| record_of_call(actions[i], calls[i], allowed)),
        Seq::new(actions.len(), |i: int| name_of_called(actions[i], calls[i])),
    );
}

/// The two picks of a list that between them keep each item once keep as
/// many items as the list holds.
pub proof fn lemma_split_counts<A, B>(first: Seq<Option<A>>, second: Seq<Option<B>>)
    requires
        first.len() == second.len(),
        forall|i: int| 0 <= i < first.len() ==> ((#[trigger] first[i]) is Some) != (second[i] is Some),
    ensures
        first.filter_map(|item: Option<A>| item).len() + second.filter_map(
            |item: Option<B>| item,
        ).len() == first.len(),
    decreases first.len(),
{
    if first.len() > 0 {
        assert(first[first.len() - 1] is Some != second[second.len() - 1] is Some);
        lemma_split_counts(first.drop_last(), second.drop_last());
    }
}

/// The record of an instance of a device whose actions are set by method
/// calls, where the pattern of the adding call is accepted and the hazards
/// of every call that is found can be read. There is a record. Its mandatory
/// actions are those of the contract that the instance calls, its missing
/// names are those that it does not call, each in the order of the contract;
/// between them they hold every action of the contract once, and no name
/// that is missing is the name of a mandatory action of the record.
pub proof fn lemma_named_record(
    code: Seq<char>,
    position: (usize, usize),
    device: crate::device::AscotDeviceView,
)
    requires
        device.mandatory_actions is Methods,
        optional_actions(code, device.allowed_hazards) is Some,
        forall|i: int|
            0 <= i < device.mandatory_actions->Methods_0.len() ==> !(#[trigger] call_of(
                device.mandatory_actions->Methods_0[i],
                code,
            ) is Unread),
    ensures
        device_record(code, position, device) is Some,
        ({
            let actions = device.mandatory_actions->Methods_0;
            let record = device_record(code, position, device).unwrap();
            &&& record.missing_mandatory_actions == Some(missing_names(actions, code))
            &&& record.mandatory_actions == methods_actions(actions, code, device.allowed_hazards)
            &&& record_names(record.mandatory_actions) == names_of_called(
                actions,
                found_calls(actions, code),
            )
            &&& record.mandatory_actions.len() + missing_names(actions, code).len()
                == actions.len()
            &&& forall|k: int, m: int|
                0 <= k < record.mandatory_actions.len() && 0 <= m < missing_names(
                    actions,
                    code,
                ).len() ==> (#[trigger] record.mandatory_actions[k]).name != (
                #[trigger] missing_names(actions, code)[m])
        }),
{
    let actions = device.mandatory_actions->Methods_0;
    let allowed = device.allowed_hazards;
    let calls = found_calls(actions, code);
    let each = Seq::new(actions.len(), |i: int| record_of_call(actions[i], calls[i], allowed));
    let each_name = Seq::new(actions.len(), |i: int| name_of_absent(actions[i], calls[i]));
    assert forall|i: int| 0 <= i < each.len() implies ((#[trigger] each[i]) is Some) != (
    each_name[i] is Some) by {
        assert(!(call_of(actions[i], code) is Unread));
    }
    lemma_split_counts(each, each_name);
    lemma_record_names(actions, calls, allowed);
    let record = device_record(code, position, device).unwrap();
    assert forall|k: int, m: int|
        0 <= k < record.mandatory_actions.len() && 0 <= m < missing_names(
            actions,
            code,
        ).len() implies (#[trigger] record.mandatory_actions[k]).name != (#[trigger] missing_names(
        actions,
        code,
    )[m]) by {
        lemma_record_is_called(actions, code, allowed, k);
        lemma_missing_is_not_called(actions, code, m);
    }
}

/// An optional action of a record carries the hazards it declares and, of
/// those, the ones that the device does not allow: nothing is required of
/// it, so nothing of it can be missing.
pub proof fn lemma_optional_differences(
    code: Seq<char>,
    position: (usize, usize),
    device: crate::device::AscotDeviceView,
    k: int,
)
    requires
        device_record(code, position, device) is Some,
        0 <= k < device_record(code, position, device).unwrap().optional_actions.len(),
    ensures
        ({
            let action = device_record(code, position, device).unwrap().optional_actions[k];
            action.not_allowed_hazards == difference(action.hazards, device.allowed_hazards)
        }),
{
    let actions = device_record(code, position, device).unwrap().optional_actions;
    let allowed = device.allowed_hazards;
    let groups = all_groups(method_pattern(add_action_name()), code).unwrap();
    let pick = |group: Option<Seq<char>>| optional_of_match(group, allowed);
    assert(actions.contains(actions[k]));
    groups.lemma_filter_map_contains(pick, actions[k]);
}

} // verus!
