//! An in-memory model of an IR module: its values and metadata nodes, held in
//! an arena and named by their index.

use vstd::prelude::*;

verus! {

/// The identity of a node: its index in the module's arena.
pub type NodeId = usize;

/// The operand that holds the name of a type or subprogram record.
pub const NAME_OPERAND: usize = 2;

/// The operand that holds the child list of a composite type record.
pub const ELEMENTS_OPERAND: usize = 4;

/// The operand that holds the file name of a file record.
pub const FILENAME_OPERAND: usize = 0;

/// The file name that stands for a file that could not be resolved.
pub open spec fn unknown() -> Seq<char> {
    "unknown"@
}

/// The name that a file record carries when the compiler knew no file.
pub open spec fn placeholder() -> Seq<char> {
    "<unknown>"@
}

/// The kinds of debug-info record that the repair distinguishes.
#[derive(Clone, Copy, Debug, PartialEq, Eq, Structural)]
pub enum MetadataKind {
    CompositeType,
    DerivedType,
    Subprogram,
    GlobalVariable,
    CommonBlock,
    Other,
}

/// What a node is: a value of some class, or a metadata node.
#[derive(Clone, Copy, Debug, PartialEq, Eq, Structural)]
pub enum NodeKind {
    /// A value with no operands of its own, such as a function parameter.
    Value,
    /// A value that uses other values, such as a constant expression or a
    /// global alias.
    User,
    /// A function or a global variable: a user that carries metadata.
    GlobalObject,
    /// An instruction: a user that carries metadata.
    Instruction,
    /// A metadata node.
    Metadata(MetadataKind),
}

impl NodeKind {
    /// Whether a node of this kind is an instruction.
    pub open spec fn spec_is_instruction(self) -> bool {
        self is Instruction
    }

    /// Whether a node of this kind is a metadata node.
    pub open spec fn spec_is_mdnode(self) -> bool {
        self is Metadata
    }

    /// Whether a node of this kind is a value that uses other values.
    pub open spec fn spec_is_user(self) -> bool {
        self is User || self is GlobalObject || self is Instruction
    }

    /// Whether a node of this kind is a function or a global variable.
    pub open spec fn spec_is_globalobject(self) -> bool {
        self is GlobalObject
    }

    /// Whether the metadata attached to a node of this kind can be listed.
    pub open spec fn spec_can_get_all_metadata(self) -> bool {
        self.is_globalobject() || self.is_instruction()
    }

    /// Whether a node of this kind has operands to walk.
    pub open spec fn spec_can_get_operands(self) -> bool {
        self.is_mdnode() || self.is_user()
    }

    /// Whether a node of this kind is an instruction.
    #[verifier::when_used_as_spec(spec_is_instruction)]
    pub fn is_instruction(self) -> (yes: bool)
        ensures
            yes == self.spec_is_instruction(),
    {
        matches!(self, NodeKind::Instruction)
    }

    /// Whether a node of this kind is a metadata node.
    #[verifier::when_used_as_spec(spec_is_mdnode)]
    pub fn is_mdnode(self) -> (yes: bool)
        ensures
            yes == self.spec_is_mdnode(),
    {
        matches!(self, NodeKind::Metadata(_))
    }

    /// Whether a node of this kind is a value that uses other values.
    #[verifier::when_used_as_spec(spec_is_user)]
    pub fn is_user(self) -> (yes: bool)
        ensures
            yes == self.spec_is_user(),
    {
        matches!(self, NodeKind::User | NodeKind::GlobalObject | NodeKind::Instruction)
    }

    /// Whether a node of this kind is a function or a global variable.
    #[verifier::when_used_as_spec(spec_is_globalobject)]
    pub fn is_globalobject(self) -> (yes: bool)
        ensures
            yes == self.spec_is_globalobject(),
    {
        matches!(self, NodeKind::GlobalObject)
    }

    /// Whether the metadata attached to a node of this kind can be listed.
    #[verifier::when_used_as_spec(spec_can_get_all_metadata)]
    pub fn can_get_all_metadata(self) -> (yes: bool)
        ensures
            yes == self.spec_can_get_all_metadata(),
    {
        self.is_globalobject() || self.is_instruction()
    }

    /// Whether a node of this kind has operands to walk.
    #[verifier::when_used_as_spec(spec_can_get_operands)]
    pub fn can_get_operands(self) -> (yes: bool)
        ensures
            yes == self.spec_can_get_operands(),
    {
        self.is_mdnode() || self.is_user()
    }
}

/// One operand of a node: another node, or a primitive field.
#[derive(Debug, PartialEq, Eq)]
pub enum Operand {
    /// No operand.
    Null,
    /// A string token.
    Text(String),
    /// A node list without elements.
    EmptyList,
    /// Another node of the module.
    Node(NodeId),
}

impl Operand {
    /// A copy of the operand.
    pub fn duplicate(&self) -> (copy: Operand)
        ensures
            copy@ == self@,
    {
        match self {
            Operand::Null => Operand::Null,
            Operand::Text(s) => Operand::Text(s.clone()),
            Operand::EmptyList => Operand::EmptyList,
            Operand::Node(id) => Operand::Node(*id),
        }
    }
}

/// The mathematical value of an [`Operand`].
pub enum OperandView {
    Null,
    Text(Seq<char>),
    EmptyList,
    Node(NodeId),
}

impl OperandView {
    /// The node that the operand refers to, if it refers to one.
    pub open spec fn handle(self) -> Option<NodeId> {
        match self {
            OperandView::Node(id) => Some(id),
            _ => None,
        }
    }
}

impl View for Operand {
    type V = OperandView;

    open spec fn view(&self) -> OperandView {
        match self {
            Operand::Null => OperandView::Null,
            Operand::Text(s) => OperandView::Text(s@),
            Operand::EmptyList => OperandView::EmptyList,
            Operand::Node(id) => OperandView::Node(*id),
        }
    }
}

/// A piece of metadata attached to a global object or an instruction.
#[derive(Clone, Copy, Debug, PartialEq, Eq, Structural)]
pub struct Attachment {
    /// The slot that the metadata is attached at.
    pub kind: u32,
    /// The attached metadata node.
    pub metadata: NodeId,
}

/// A node of the module.
#[derive(Debug, PartialEq, Eq)]
pub struct Node {
    pub kind: NodeKind,
    /// The DWARF tag of a debug-info record, where one could be recovered.
    pub tag: Option<u16>,
    /// The source line that a debug-info record carries.
    pub line: u32,
    pub operands: Vec<Operand>,
    pub attachments: Vec<Attachment>,
}

/// The mathematical value of a [`Node`].
pub struct NodeView {
    pub kind: NodeKind,
    pub tag: Option<u16>,
    pub line: u32,
    pub operands: Seq<OperandView>,
    pub attachments: Seq<Attachment>,
}

impl NodeView {
    /// The node with one operand replaced, where it has that operand.
    pub open spec fn with_operand(self, index: int, operand: OperandView) -> NodeView {
        if 0 <= index < self.operands.len() {
            NodeView { operands: self.operands.update(index, operand), ..self }
        } else {
            self
        }
    }
}

impl View for Node {
    type V = NodeView;

    open spec fn view(&self) -> NodeView {
        NodeView {
            kind: self.kind,
            tag: self.tag,
            line: self.line,
            operands: self.operands@.map_values(|o: Operand| o@),
            attachments: self.attachments@,
        }
    }
}

/// A function of the module: its value, its parameters, and the
/// instructions of each of its basic blocks.
#[derive(Debug, PartialEq, Eq)]
pub struct Function {
    pub value: NodeId,
    pub params: Vec<NodeId>,
    pub blocks: Vec<Vec<NodeId>>,
}

/// The mathematical value of a [`Function`].
pub struct FunctionView {
    pub value: NodeId,
    pub params: Seq<NodeId>,
    pub blocks: Seq<Seq<NodeId>>,
}

impl FunctionView {
    /// Whether a walk starts from `node` on account of this function: the
    /// function itself, one of its parameters or one of its instructions.
    pub open spec fn has_root(self, node: NodeId) -> bool {
        ||| self.value == node
        ||| self.params.contains(node)
        ||| exists|b: int| 0 <= b < self.blocks.len() && (#[trigger] self.blocks[b]).contains(node)
    }
}

impl View for Function {
    type V = FunctionView;

    open spec fn view(&self) -> FunctionView {
        FunctionView {
            value: self.value,
            params: self.params@,
            blocks: self.blocks@.map_values(|b: Vec<NodeId>| b@),
        }
    }
}

/// A module: the arena of its nodes, and the roots that a walk starts from.
#[derive(Debug, PartialEq, Eq)]
pub struct Module {
    pub nodes: Vec<Node>,
    pub globals: Vec<NodeId>,
    pub aliases: Vec<NodeId>,
    pub functions: Vec<Function>,
}

/// The mathematical value of a [`Module`].
pub struct ModuleView {
    pub nodes: Seq<NodeView>,
    pub globals: Seq<NodeId>,
    pub aliases: Seq<NodeId>,
    pub functions: Seq<FunctionView>,
}

impl View for Module {
    type V = ModuleView;

    open spec fn view(&self) -> ModuleView {
        ModuleView {
            nodes: self.nodes@.map_values(|n: Node| n@),
            globals: self.globals@,
            aliases: self.aliases@,
            functions: self.functions@.map_values(|f: Function| f@),
        }
    }
}

impl ModuleView {
    /// Whether `handle` names a node of the module. A null handle names
    /// none, and neither does an index beyond the arena.
    pub open spec fn resolves(self, handle: Option<NodeId>) -> bool {
        handle matches Some(id) && id < self.nodes.len()
    }

    /// The kind of the node that `handle` names.
    pub open spec fn node_kind(self, handle: Option<NodeId>) -> Option<NodeKind> {
        if self.resolves(handle) {
            Some(self.nodes[handle->0 as int].kind)
        } else {
            None
        }
    }

    /// The number of operands of a node; none where there is no such node.
    pub open spec fn operand_count(self, handle: Option<NodeId>) -> nat {
        if self.resolves(handle) {
            self.nodes[handle->0 as int].operands.len()
        } else {
            0
        }
    }

    /// One operand of a node; null where the node or the operand is missing.
    pub open spec fn operand(self, handle: Option<NodeId>, index: int) -> OperandView {
        if 0 <= index < self.operand_count(handle) {
            self.nodes[handle->0 as int].operands[index]
        } else {
            OperandView::Null
        }
    }

    /// The text of a string operand; none where the operand is no string.
    pub open spec fn text(self, handle: Option<NodeId>, index: int) -> Option<Seq<char>> {
        match self.operand(handle, index) {
            OperandView::Text(s) => Some(s),
            _ => None,
        }
    }

    /// The name that a type or subprogram record carries: its name operand,
    /// or the empty string where that is no string.
    pub open spec fn record_name(self, handle: Option<NodeId>) -> Seq<char> {
        match self.text(handle, NAME_OPERAND as int) {
            Some(s) => s,
            None => Seq::empty(),
        }
    }

    /// The file name of a file record: its file name operand, or
    /// [`unknown`] where the file is not resolved, which is where that
    /// operand is no string or is the [`placeholder`].
    pub open spec fn filename(self, file: Option<NodeId>) -> Seq<char> {
        match self.text(file, FILENAME_OPERAND as int) {
            Some(s) => if s == placeholder() {
                unknown()
            } else {
                s
            },
            None => unknown(),
        }
    }

    /// The line that a record carries; zero where there is no such node.
    pub open spec fn record_line(self, handle: Option<NodeId>) -> u32 {
        if self.resolves(handle) {
            self.nodes[handle->0 as int].line
        } else {
            0
        }
    }

    /// The DWARF tag of a node, where it has one.
    pub open spec fn structural_tag(self, handle: Option<NodeId>) -> Option<u16> {
        if self.resolves(handle) {
            self.nodes[handle->0 as int].tag
        } else {
            None
        }
    }

    /// The number of pieces of metadata attached to a node.
    pub open spec fn attachment_count(self, handle: Option<NodeId>) -> nat {
        if self.resolves(handle) {
            self.nodes[handle->0 as int].attachments.len()
        } else {
            0
        }
    }

    /// One piece of metadata attached to a node.
    pub open spec fn attachment(self, handle: Option<NodeId>, index: int) -> Option<Attachment> {
        if 0 <= index < self.attachment_count(handle) {
            Some(self.nodes[handle->0 as int].attachments[index])
        } else {
            None
        }
    }

    /// Whether the node `from` refers to the node `to`: by an operand, if a
    /// node of its kind has operands to walk, or by the metadata attached to
    /// it, if a node of its kind carries any.
    pub open spec fn refers(self, from: NodeId, to: NodeId) -> bool {
        let kind = self.node_kind(Some(from))->0;
        &&& self.resolves(Some(from))
        &&& self.resolves(Some(to))
        &&& {
            ||| kind.can_get_operands() && exists|j: int|
                0 <= j < self.operand_count(Some(from)) && (#[trigger] self.operand(
                    Some(from),
                    j,
                )).handle() == Some(to)
            ||| kind.can_get_all_metadata() && exists|j: int|
                0 <= j < self.attachment_count(Some(from)) && (#[trigger] self.attachment(
                    Some(from),
                    j,
                ))->0.metadata == to
        }
    }

    /// Whether each node of `path` refers to the next.
    pub open spec fn is_path(self, path: Seq<NodeId>) -> bool {
        forall|i: int| 0 <= i < path.len() - 1 ==> self.refers(#[trigger] path[i], path[i + 1])
    }

    /// Whether a walk of the module starts from `node`: a global variable,
    /// a global alias, a function, a parameter or an instruction.
    pub open spec fn is_root(self, node: NodeId) -> bool {
        ||| self.globals.contains(node)
        ||| self.aliases.contains(node)
        ||| exists|f: int|
            0 <= f < self.functions.len() && (#[trigger] self.functions[f]).has_root(node)
    }

    /// Whether `later` is this module but for the names and the child lists
    /// of its records: the same roots, the same nodes with their kinds,
    /// tags, lines and attached metadata, and the same operands except at
    /// [`NAME_OPERAND`] and [`ELEMENTS_OPERAND`].
    pub open spec fn keeps_shape(self, later: ModuleView) -> bool {
        &&& later.globals == self.globals
        &&& later.aliases == self.aliases
        &&& later.functions == self.functions
        &&& later.nodes.len() == self.nodes.len()
        &&& forall|i: int|
            0 <= i < self.nodes.len() ==> {
                let (old_node, new_node) = (#[trigger] self.nodes[i], later.nodes[i]);
                &&& new_node.kind == old_node.kind
                &&& new_node.tag == old_node.tag
                &&& new_node.line == old_node.line
                &&& new_node.attachments == old_node.attachments
                &&& new_node.operands.len() == old_node.operands.len()
                &&& forall|j: int|
                    0 <= j < old_node.operands.len() && j != NAME_OPERAND && j != ELEMENTS_OPERAND
                        ==> #[trigger] new_node.operands[j] == old_node.operands[j]
            }
    }

    /// The module with one operand of one node replaced. Nothing changes
    /// where the node or the operand is missing.
    pub open spec fn replace_operand(
        self,
        handle: Option<NodeId>,
        index: int,
        operand: OperandView,
    ) -> ModuleView {
        if 0 <= index < self.operand_count(handle) {
            let id = handle->0 as int;
            ModuleView {
                nodes: self.nodes.update(id, self.nodes[id].with_operand(index, operand)),
                ..self
            }
        } else {
            self
        }
    }
}

impl Module {
    /// The kind of the node that `handle` names.
    pub fn node_kind(&self, handle: Option<NodeId>) -> (kind: Option<NodeKind>)
        ensures
            kind == self@.node_kind(handle),
    {
        match handle {
            Some(id) if id < self.nodes.len() => Some(self.nodes[id].kind),
            _ => None,
        }
    }

    /// The number of operands of a node.
    pub fn operand_count(&self, handle: Option<NodeId>) -> (count: usize)
        ensures
            count == self@.operand_count(handle),
    {
        match handle {
            Some(id) if id < self.nodes.len() => self.nodes[id].operands.len(),
            _ => 0,
        }
    }

    /// The node that an operand refers to; none for a primitive field and
    /// for a missing operand.
    pub fn operand(&self, handle: Option<NodeId>, index: usize) -> (target: Option<NodeId>)
        ensures
            target == self@.operand(handle, index as int).handle(),
    {
        if index < self.operand_count(handle) {
            match handle {
                Some(id) => match &self.nodes[id].operands[index] {
                    Operand::Node(target) => Some(*target),
                    _ => None,
                },
                None => None,
            }
        } else {
            None
        }
    }

    /// The text of a string operand.
    pub fn text(&self, handle: Option<NodeId>, index: usize) -> (text: Option<String>)
        ensures
            text.is_some() == self@.text(handle, index as int).is_some(),
            text matches Some(s) ==> s@ == self@.text(handle, index as int)->0,
    {
        if index < self.operand_count(handle) {
            match handle {
                Some(id) => match &self.nodes[id].operands[index] {
                    Operand::Text(s) => Some(s.clone()),
                    _ => None,
                },
                None => None,
            }
        } else {
            None
        }
    }

    /// The name that a type or subprogram record carries.
    pub fn record_name(&self, handle: Option<NodeId>) -> (name: String)
        ensures
            name@ == self@.record_name(handle),
    {
        match self.text(handle, NAME_OPERAND) {
            Some(s) => s,
            None => String::new(),
        }
    }

    /// The file name of a file record.
    pub fn filename(&self, file: Option<NodeId>) -> (name: String)
        ensures
            name@ == self@.filename(file),
    {
        match self.text(file, FILENAME_OPERAND) {
            Some(s) => {
                let placeholder = "<unknown>".to_owned();
                if s == placeholder {
                    "unknown".to_owned()
                } else {
                    s
                }
            },
            None => "unknown".to_owned(),
        }
    }

    /// The line that a record carries.
    pub fn record_line(&self, handle: Option<NodeId>) -> (line: u32)
        ensures
            line == self@.record_line(handle),
    {
        match handle {
            Some(id) if id < self.nodes.len() => self.nodes[id].line,
            _ => 0,
        }
    }

    /// The DWARF tag of a node, where it has one.
    pub fn structural_tag(&self, handle: Option<NodeId>) -> (tag: Option<u16>)
        ensures
            tag == self@.structural_tag(handle),
    {
        match handle {
            Some(id) if id < self.nodes.len() => self.nodes[id].tag,
            _ => None,
        }
    }

    /// The number of pieces of metadata attached to a node.
    pub fn attachment_count(&self, handle: Option<NodeId>) -> (count: usize)
        ensures
            count == self@.attachment_count(handle),
    {
        match handle {
            Some(id) if id < self.nodes.len() => self.nodes[id].attachments.len(),
            _ => 0,
        }
    }

    /// One piece of metadata attached to a node.
    pub fn attachment(&self, handle: Option<NodeId>, index: usize) -> (attachment: Option<
        Attachment,
    >)
        ensures
            attachment == self@.attachment(handle, index as int),
    {
        if index < self.attachment_count(handle) {
            match handle {
                Some(id) => Some(self.nodes[id].attachments[index]),
                None => None,
            }
        } else {
            None
        }
    }

    /// Replaces one operand of one node in place, and reports whether the
    /// node has that operand.
    pub fn replace_operand(
        &mut self,
        handle: Option<NodeId>,
        index: usize,
        operand: Operand,
    ) -> (done: bool)
        ensures
            done == (index < old(self)@.operand_count(handle)),
            final(self)@ == old(self)@.replace_operand(handle, index as int, operand@),
    {
        if index < self.operand_count(handle) {
            match handle {
                Some(id) => {
                    self.nodes[id].operands[index] = operand;
                    proof {
                        let before = old(self)@;
                        let after = before.replace_operand(handle, index as int, operand@);
                        assert(self@.nodes[id as int].operands =~= after.nodes[id as int].operands);
                        assert(self@.nodes =~= after.nodes);
                        assert(self@.functions =~= after.functions);
                    }
                    true
                },
                None => false,
            }
        } else {
            false
        }
    }
}

} // verus!
