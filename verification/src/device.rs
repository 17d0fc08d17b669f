//! Hazard contracts of device types.

pub mod methods;
pub mod new;

use crate::concurrent::{collected, ConcurrentRunner};
use crate::hazards::{hazards_from_text, hazards_in, set_view, texts_of, HazardSet};
use crate::pattern::view_of;
use crate::syntax::{
    first_match, in_subtree, index_view, is_child, lemma_first_match, node_text, NodeKind,
    SyntaxTree, SyntaxTreeView,
};
use crate::text::{chars_of, contains, contains_text, to_ascii_uppercase, to_camel_case, upper_case};
use vstd::prelude::*;

verus! {

/// An action of a device type and the hazards it must declare.
pub struct DeviceAction {
    /// Name of the action.
    pub name: String,
    /// Hazards that every use of the action must declare.
    pub hazards: HazardSet,
}

/// What a `DeviceAction` stands for.
pub struct DeviceActionView {
    pub name: Seq<char>,
    pub hazards: Seq<Seq<char>>,
}

impl View for DeviceAction {
    type V = DeviceActionView;

    open spec fn view(&self) -> DeviceActionView {
        DeviceActionView { name: self.name@, hazards: self.hazards@ }
    }
}

impl DeviceAction {
    /// The required hazards form a set.
    pub open spec fn wf(&self) -> bool {
        self.hazards.wf()
    }
}

/// The views of a list of actions.
pub open spec fn action_views(actions: Seq<DeviceAction>) -> Seq<DeviceActionView> {
    Seq::new(actions.len(), |i: int| actions[i]@)
}

/// The views of a list of actions by position.
pub open spec fn positional_views(actions: Seq<Option<DeviceAction>>) -> Seq<
    Option<DeviceActionView>,
> {
    Seq::new(
        actions.len(),
        |i: int|
            match actions[i] {
                Some(action) => Some(action@),
                None => None,
            },
    )
}

/// The mandatory actions of a device type.
pub enum MandatoryActions {
    /// Actions handed to the constructor: the index is the parameter's
    /// position. A position is empty where the hazards of its parameter
    /// could not be read.
    New(Vec<Option<DeviceAction>>),
    /// Actions set by method calls, in the order of their declaration.
    Methods(Vec<DeviceAction>),
}

/// What a `MandatoryActions` stands for.
pub enum MandatoryActionsView {
    New(Seq<Option<DeviceActionView>>),
    Methods(Seq<DeviceActionView>),
}

impl View for MandatoryActions {
    type V = MandatoryActionsView;

    open spec fn view(&self) -> MandatoryActionsView {
        match self {
            MandatoryActions::New(actions) => MandatoryActionsView::New(
                positional_views(actions@),
            ),
            MandatoryActions::Methods(actions) => MandatoryActionsView::Methods(
                action_views(actions@),
            ),
        }
    }
}

impl MandatoryActions {
    /// Every action is well formed.
    pub open spec fn wf(&self) -> bool {
        match self {
            MandatoryActions::New(actions) => forall|i: int|
                0 <= i < actions@.len() && (#[trigger] actions@[i]) is Some
                    ==> actions@[i].unwrap().wf(),
            MandatoryActions::Methods(actions) => forall|i: int|
                0 <= i < actions@.len() ==> (#[trigger] actions@[i]).wf(),
        }
    }
}

/// The hazard contract of a device type.
pub struct AscotDevice {
    /// Name of the device type.
    pub name: String,
    /// Actions that every instance must supply.
    pub mandatory_actions: MandatoryActions,
    /// Hazards that an instance may declare.
    pub allowed_hazards: HazardSet,
}

/// What an `AscotDevice` stands for.
pub struct AscotDeviceView {
    pub name: Seq<char>,
    pub mandatory_actions: MandatoryActionsView,
    pub allowed_hazards: Seq<Seq<char>>,
}

impl View for AscotDevice {
    type V = AscotDeviceView;

    open spec fn view(&self) -> AscotDeviceView {
        AscotDeviceView {
            name: self.name@,
            mandatory_actions: self.mandatory_actions@,
            allowed_hazards: self.allowed_hazards@,
        }
    }
}

impl AscotDevice {
    /// The hazard lists of the contract are sets.
    pub open spec fn wf(&self) -> bool {
        self.allowed_hazards.wf() && self.mandatory_actions.wf()
    }
}

/// Whether node `j` has kind `kind` and the text `text`.
pub open spec fn has_kind_and_text(
    tree: SyntaxTreeView,
    j: int,
    kind: NodeKind,
    text: Seq<char>,
) -> bool {
    tree.nodes[j].kind == kind && node_text(tree, j) == Some(text)
}

/// Whether node `i` has kind `node_kind` and a child of kind `child_kind`
/// whose text is `child_text`.
pub open spec fn is_node_where_child(
    tree: SyntaxTreeView,
    i: int,
    node_kind: NodeKind,
    child_kind: NodeKind,
    child_text: Seq<char>,
) -> bool {
    &&& tree.nodes[i].kind == node_kind
    &&& exists|j: int|
        is_child(tree.nodes, i, j) && #[trigger] has_kind_and_text(tree, j, child_kind, child_text)
}

/// Tests whether node `i` has kind `node_kind` and a child of kind
/// `child_kind` whose text is `child_text`.
pub fn node_where_child(
    tree: &SyntaxTree,
    i: usize,
    node_kind: NodeKind,
    child_kind: NodeKind,
    child_text: &str,
) -> (r: bool)
    requires
        tree.wf(),
        i < tree@.nodes.len(),
    ensures
        r == is_node_where_child(tree@, i as int, node_kind, child_kind, child_text@),
{
    if !(tree.node(i).kind == node_kind) {
        return false;
    }
    assert(tree@.nodes[i as int].kind == node_kind);
    let wanted = child_text.to_owned();
    let depth = tree.node(i).depth;
    let end = tree.subtree_end(i);
    let mut j: usize = i + 1;
    while j < end
        invariant
            i < j <= end <= tree@.nodes.len(),
            tree.wf(),
            wanted@ == child_text@,
            tree@.nodes[i as int].kind == node_kind,
            depth == tree@.nodes[i as int].depth,
            forall|k: int| in_subtree(tree@.nodes, i as int, k) <==> i <= k < end,
            forall|k: int|
                is_child(tree@.nodes, i as int, k) && k < j ==> !#[trigger] has_kind_and_text(
                    tree@,
                    k,
                    child_kind,
                    child_text@,
                ),
        decreases end - j,
    {
        let node = tree.node(j);
        assert(in_subtree(tree@.nodes, i as int, j as int));
        assert(tree@.nodes[j as int].depth > depth);
        if node.depth - 1 == depth && node.kind == child_kind {
            match tree.utf8_text(j) {
                Some(text) => {
                    if text == wanted {
                        assert(is_child(tree@.nodes, i as int, j as int));
                        assert(has_kind_and_text(tree@, j as int, child_kind, child_text@));
                        return true;
                    }
                },
                None => {},
            }
        }
        j += 1;
    }
    false
}

/// The first child of the root that declares the enumeration `Actions`.
pub open spec fn actions_enum(tree: SyntaxTreeView) -> Option<int> {
    first_match(
        0,
        tree.nodes.len() as int,
        |j: int|
            is_child(tree.nodes, 0, j) && is_node_where_child(
                tree,
                j,
                NodeKind::EnumItem,
                NodeKind::TypeIdentifier,
                "Actions"@,
            ),
    )
}

/// Finds the enumeration of the mandatory actions: the first child of the
/// root that is an enumeration named `Actions`.
pub fn find_actions_enum(tree: &SyntaxTree) -> (found: Option<usize>)
    requires
        tree.wf(),
    ensures
        index_view(found) == actions_enum(tree@),
        found is Some ==> found.unwrap() < tree@.nodes.len(),
{
    let ghost pred = |j: int|
        is_child(tree@.nodes, 0, j) && is_node_where_child(
            tree@,
            j,
            NodeKind::EnumItem,
            NodeKind::TypeIdentifier,
            "Actions"@,
        );
    if tree.len() == 0 {
        return None;
    }
    let count = tree.len();
    let depth = tree.node(0).depth;
    let end = tree.subtree_end(0);
    let mut j: usize = 1;
    while j < end
        invariant
            1 <= j <= end <= count == tree@.nodes.len(),
            tree.wf(),
            depth == tree@.nodes[0].depth,
            forall|k: int| in_subtree(tree@.nodes, 0, k) <==> 0 <= k < end,
            pred == |j: int|
                is_child(tree@.nodes, 0, j) && is_node_where_child(
                    tree@,
                    j,
                    NodeKind::EnumItem,
                    NodeKind::TypeIdentifier,
                    "Actions"@,
                ),
            forall|k: int| 0 <= k < j ==> !#[trigger] pred(k),
        decreases end - j,
    {
        let node = tree.node(j);
        assert(in_subtree(tree@.nodes, 0, j as int));
        assert(tree@.nodes[j as int].depth > depth);
        if node.depth - 1 == depth && node_where_child(
            tree,
            j,
            NodeKind::EnumItem,
            NodeKind::TypeIdentifier,
            "Actions",
        ) {
            proof {
                lemma_first_match(0, count as int, pred, j as int);
            }
            return Some(j);
        }
        j += 1;
    }
    proof {
        assert forall|k: int| 0 <= k < count implies !#[trigger] pred(k) by {
            if k >= end {
                assert(!in_subtree(tree@.nodes, 0, k));
            }
        }
        lemma_first_match(0, count as int, pred, count as int);
    }
    None
}

/// The first node, in document order, that declares a function `new`.
pub open spec fn new_function(tree: SyntaxTreeView) -> Option<int> {
    first_match(
        0,
        tree.nodes.len() as int,
        |j: int|
            in_subtree(tree.nodes, 0, j) && is_node_where_child(
                tree,
                j,
                NodeKind::FunctionItem,
                NodeKind::Identifier,
                "new"@,
            ),
    )
}

/// Finds the constructor of the device: the first function named `new`.
pub fn get_new_function(tree: &SyntaxTree) -> (found: Option<usize>)
    requires
        tree.wf(),
    ensures
        index_view(found) == new_function(tree@),
        found is Some ==> found.unwrap() < tree@.nodes.len(),
{
    let ghost pred = |j: int|
        in_subtree(tree@.nodes, 0, j) && is_node_where_child(
            tree@,
            j,
            NodeKind::FunctionItem,
            NodeKind::Identifier,
            "new"@,
        );
    if tree.len() == 0 {
        return None;
    }
    let count = tree.len();
    let end = tree.subtree_end(0);
    let mut j: usize = 0;
    while j < end
        invariant
            j <= end <= count == tree@.nodes.len(),
            tree.wf(),
            forall|k: int| in_subtree(tree@.nodes, 0, k) <==> 0 <= k < end,
            pred == |j: int|
                in_subtree(tree@.nodes, 0, j) && is_node_where_child(
                    tree@,
                    j,
                    NodeKind::FunctionItem,
                    NodeKind::Identifier,
                    "new"@,
                ),
            forall|k: int| 0 <= k < j ==> !#[trigger] pred(k),
        decreases end - j,
    {
        if node_where_child(tree, j, NodeKind::FunctionItem, NodeKind::Identifier, "new") {
            proof {
                lemma_first_match(0, count as int, pred, j as int);
            }
            return Some(j);
        }
        j += 1;
    }
    proof {
        assert forall|k: int| 0 <= k < count implies !#[trigger] pred(k) by {
            if k >= end {
                assert(!in_subtree(tree@.nodes, 0, k));
            }
        }
        lemma_first_match(0, count as int, pred, count as int);
    }
    None
}

/// Whether node `j` declares a constant whose text holds `name`.
pub open spec fn is_const_with(tree: SyntaxTreeView, j: int, name: Seq<char>) -> bool {
    &&& tree.nodes[j].kind == NodeKind::ConstItem
    &&& match node_text(tree, j) {
        Some(text) => contains_text(text, name),
        None => false,
    }
}

/// The text of the first constant declaration, in document order, that holds
/// `name`. Where several constants hold `name`, the first one stands.
pub open spec fn const_text(tree: SyntaxTreeView, name: Seq<char>) -> Option<Seq<char>> {
    match first_match(
        0,
        tree.nodes.len() as int,
        |j: int| in_subtree(tree.nodes, 0, j) && is_const_with(tree, j, name),
    ) {
        Some(j) => node_text(tree, j),
        None => None,
    }
}

/// Searches the file for the first constant declaration whose text holds
/// `name`, and returns that text.
pub fn search_const(tree: &SyntaxTree, name: &str) -> (text: Option<String>)
    requires
        tree.wf(),
    ensures
        view_of(text) == const_text(tree@, name@),
{
    let ghost pred = |j: int| in_subtree(tree@.nodes, 0, j) && is_const_with(tree@, j, name@);
    if tree.len() == 0 {
        return None;
    }
    let needle = chars_of(name);
    let count = tree.len();
    let end = tree.subtree_end(0);
    let mut j: usize = 0;
    while j < end
        invariant
            j <= end <= count == tree@.nodes.len(),
            tree.wf(),
            needle@ == name@,
            forall|k: int| in_subtree(tree@.nodes, 0, k) <==> 0 <= k < end,
            pred == |j: int| in_subtree(tree@.nodes, 0, j) && is_const_with(tree@, j, name@),
            forall|k: int| 0 <= k < j ==> !#[trigger] pred(k),
        decreases end - j,
    {
        if tree.node(j).kind == NodeKind::ConstItem {
            match tree.utf8_text(j) {
                Some(text) => {
                    let haystack = chars_of(text.as_str());
                    if contains(&haystack, &needle) {
                        proof {
                            lemma_first_match(0, count as int, pred, j as int);
                        }
                        return Some(text);
                    }
                },
                None => {},
            }
        }
        j += 1;
    }
    proof {
        assert forall|k: int| 0 <= k < count implies !#[trigger] pred(k) by {
            if k >= end {
                assert(!in_subtree(tree@.nodes, 0, k));
            }
        }
        lemma_first_match(0, count as int, pred, count as int);
    }
    None
}

/// The hazards of the constant that holds `const_name`: those that its text
/// names, and none where the file has no such constant.
pub open spec fn const_hazards(tree: SyntaxTreeView, const_name: Seq<char>) -> Option<
    Seq<Seq<char>>,
> {
    match const_text(tree, const_name) {
        Some(text) => hazards_in(text),
        None => Some(Seq::empty()),
    }
}

/// Reads the hazards that the constant `const_name` declares.
pub fn hazards_from_const(tree: &SyntaxTree, const_name: &str) -> (hazards: Option<HazardSet>)
    requires
        tree.wf(),
    ensures
        set_view(hazards) == const_hazards(tree@, const_name@),
        hazards is Some ==> hazards.unwrap().wf(),
{
    match search_const(tree, const_name) {
        Some(text) => hazards_from_text(text.as_str()),
        None => Some(HazardSet::new()),
    }
}

/// The name of the constant that lists the allowed hazards.
pub open spec fn allowed_hazards_name() -> Seq<char> {
    "ALLOWED_HAZARDS"@
}

/// Reads the hazards that the device type allows.
pub fn get_allowed_hazards(tree: &SyntaxTree) -> (hazards: Option<HazardSet>)
    requires
        tree.wf(),
    ensures
        set_view(hazards) == const_hazards(tree@, allowed_hazards_name()),
        hazards is Some ==> hazards.unwrap().wf(),
{
    hazards_from_const(tree, "ALLOWED_HAZARDS")
}

/// The action named `name`: its required hazards are those of the constant
/// whose text holds the name in upper case.
pub open spec fn contract_action(tree: SyntaxTreeView, name: Seq<char>) -> Option<
    DeviceActionView,
> {
    match const_hazards(tree, upper_case(name)) {
        Some(hazards) => Some(DeviceActionView { name, hazards }),
        None => None,
    }
}

/// The actions named `names`, in that order. A name whose hazards cannot
/// be read is left out.
pub open spec fn contract_actions(tree: SyntaxTreeView, names: Seq<Seq<char>>) -> Seq<
    DeviceActionView,
> {
    names.filter_map(|name: Seq<char>| contract_action(tree, name))
}

/// Builds the mandatory actions named `actions_names`, each with the hazards
/// that its constant declares. A name whose hazards cannot be read is left
/// out.
pub fn get_mandatory_actions(tree: &SyntaxTree, actions_names: &Vec<String>) -> (actions: Vec<
    DeviceAction,
>)
    requires
        tree.wf(),
    ensures
        action_views(actions@) == contract_actions(tree@, texts_of(actions_names@)),
        forall|i: int| 0 <= i < actions@.len() ==> (#[trigger] actions@[i]).wf(),
{
    let ghost names = texts_of(actions_names@);
    let ghost pick = |name: Seq<char>| contract_action(tree@, name);
    let mut actions: Vec<DeviceAction> = Vec::new();
    let mut i: usize = 0;
    assert(names.take(0).filter_map(pick) =~= Seq::<DeviceActionView>::empty());
    assert(action_views(actions@) =~= Seq::<DeviceActionView>::empty());
    while i < actions_names.len()
        invariant
            i <= actions_names.len(),
            tree.wf(),
            names == texts_of(actions_names@),
            pick == |name: Seq<char>| contract_action(tree@, name),
            action_views(actions@) == names.take(i as int).filter_map(pick),
            forall|k: int| 0 <= k < actions@.len() ==> (#[trigger] actions@[k]).wf(),
        decreases actions_names.len() - i,
    {
        proof {
            names.lemma_filter_map_take_succ(pick, i as int);
        }
        let ghost before = action_views(actions@);
        let name = &actions_names[i];
        let key = to_ascii_uppercase(name.as_str());
        match hazards_from_const(tree, key.as_str()) {
            Some(hazards) => {
                let action = DeviceAction { name: name.clone(), hazards };
                actions.push(action);
                assert(action_views(actions@) =~= before + seq![action@]);
            },
            None => {},
        }
        i += 1;
    }
    assert(names.take(names.len() as int) =~= names);
    actions
}

/// Whether a file with the stem `name` declares a device: every file of the
/// devices' directory does, but for the one that lists its modules.
pub fn is_device_name(name: &str) -> (r: bool)
    ensures
        r == (name@ != "mod"@),
{
    let module_index = "mod".to_owned();
    let stem = name.to_owned();
    !(stem == module_index)
}

/// A source file of a device type, parsed.
pub struct DeviceFile {
    /// Name of the device type.
    pub name: String,
    /// Syntax tree of the file.
    pub ast: SyntaxTree,
}

impl DeviceFile {
    /// The device file with the stem `name`: its device is named by the stem
    /// in `CamelCase`.
    pub fn new(name: &str, ast: SyntaxTree) -> (file: DeviceFile)
        ensures
            file.name@ == crate::text::camel_case(name@),
            file.ast == ast,
    {
        DeviceFile { name: to_camel_case(name), ast }
    }
}

/// The contract that the file with syntax tree `tree` declares for the
/// device type `name`: by an enumeration of actions where the file has one,
/// else by the parameters of its constructor.
pub open spec fn device_contract(name: Seq<char>, tree: SyntaxTreeView) -> Option<
    AscotDeviceView,
> {
    match actions_enum(tree) {
        Some(found) => methods::methods_contract(name, tree, found),
        None => new::new_contract(name, tree),
    }
}

/// The view of an optional contract.
pub open spec fn contract_view(device: Option<AscotDevice>) -> Option<AscotDeviceView> {
    match device {
        Some(device) => Some(device@),
        None => None,
    }
}

/// Extracts the hazard contract of a device type from its source file.
pub fn get_ascot_device(device_file: &DeviceFile) -> (device: Option<AscotDevice>)
    requires
        device_file.ast.wf(),
    ensures
        contract_view(device) == device_contract(device_file.name@, device_file.ast@),
        device is Some ==> device.unwrap().wf(),
{
    match find_actions_enum(&device_file.ast) {
        Some(found) => methods::handle(device_file.name.as_str(), &device_file.ast, found),
        None => new::handle(device_file.name.as_str(), &device_file.ast),
    }
}

/// The pass that extracts the contracts of the device types.
pub struct DeviceProducer;

impl DeviceProducer {
    /// The extraction pass.
    pub fn new() -> (producer: DeviceProducer) {
        DeviceProducer
    }
}

impl ConcurrentRunner for DeviceProducer {
    type ProducerItem = DeviceFile;

    type ConsumerItem = AscotDevice;

    open spec fn accepts(&self, item: &DeviceFile) -> bool {
        item.ast.wf()
    }

    open spec fn yields(&self, item: &DeviceFile, out: Option<AscotDevice>) -> bool {
        &&& contract_view(out) == device_contract(item.name@, item.ast@)
        &&& out is Some ==> out.unwrap().wf()
    }

    fn consumer(&self, item: &DeviceFile) -> (out: Option<AscotDevice>) {
        get_ascot_device(item)
    }
}

/// The views of a list of contracts.
pub open spec fn contract_views(devices: Seq<AscotDevice>) -> Seq<AscotDeviceView> {
    Seq::new(devices.len(), |i: int| devices[i]@)
}

/// The contract that a device file declares.
pub open spec fn contract_of_file(file: DeviceFile) -> Option<AscotDeviceView> {
    device_contract(file.name@, file.ast@)
}

/// The contracts that the device files declare, in the order of the files. A
/// file that declares none leaves no trace.
pub open spec fn contracts_of(files: Seq<DeviceFile>) -> Seq<AscotDeviceView> {
    files.filter_map(|file: DeviceFile| contract_of_file(file))
}

/// What the extraction pass collects is the contracts that the files
/// declare, and each of them is well formed.
pub proof fn lemma_collected_contracts(
    producer: &DeviceProducer,
    files: Seq<DeviceFile>,
    devices: Seq<AscotDevice>,
)
    requires
        collected(producer, files, devices),
    ensures
        contract_views(devices) == contracts_of(files),
        forall|i: int| 0 <= i < devices.len() ==> (#[trigger] devices[i]).wf(),
    decreases files.len(),
{
    let pick = |file: DeviceFile| contract_of_file(file);
    if files.len() == 0 {
        assert(contract_views(devices) =~= contracts_of(files));
    } else {
        if producer.yields(&files.last(), None) && collected(producer, files.drop_last(), devices) {
            lemma_collected_contracts(producer, files.drop_last(), devices);
            assert(pick(files.last()) is None);
        } else {
            lemma_collected_contracts(producer, files.drop_last(), devices.drop_last());
            assert(pick(files.last()) == Some(devices.last()@));
            assert(contract_views(devices) =~= contract_views(devices.drop_last()) + seq![
                devices.last()@,
            ]);
            assert forall|i: int| 0 <= i < devices.len() implies (#[trigger] devices[i]).wf() by {
                if i < devices.len() - 1 {
                    assert(devices.drop_last()[i].wf());
                }
            }
        }
    }
}

} // verus!
