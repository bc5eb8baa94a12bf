//! The repair as a mathematical function on the state of a pass.

use crate::dwarf::{POINTER_TYPE, STRUCTURE_TYPE};
use crate::effects::{EditView, WarningView};
use crate::ir::{
    Attachment, FunctionView, MetadataKind, ModuleView, NodeId, NodeKind, OperandView,
    ELEMENTS_OPERAND, NAME_OPERAND,
};
use crate::location::recovered_location;
use crate::rules::is_map_name;
use crate::sanitize::sanitized;
use vstd::prelude::*;
use vstd::set_lib::{lemma_int_range, lemma_len_subset, set_int_range};

verus! {

/// The state of a pass over one module.
pub struct Pass {
    /// The module, as repaired so far.
    pub module: ModuleView,
    /// The identities of the nodes discovered so far.
    pub visited: Set<u64>,
    /// The path from the root of the walk to the node being visited.
    pub stack: Seq<NodeId>,
    /// The changes made so far, in order.
    pub edits: Seq<EditView>,
    /// The warnings raised so far, in order.
    pub warnings: Seq<WarningView>,
    /// The nodes that the repair rules were applied to so far, in order.
    pub dispatched: Seq<NodeId>,
}

impl Pass {
    /// The state of a pass that has not started.
    pub open spec fn start(module: ModuleView) -> Pass {
        Pass {
            module,
            visited: Set::empty(),
            stack: Seq::empty(),
            edits: Seq::empty(),
            warnings: Seq::empty(),
            dispatched: Seq::empty(),
        }
    }

    /// One operand of one node is replaced in place and the change is
    /// recorded. Nothing happens where the node has no such operand.
    pub open spec fn replace(self, node: NodeId, index: usize, operand: OperandView) -> Pass {
        if index < self.module.operand_count(Some(node)) {
            Pass {
                module: self.module.replace_operand(Some(node), index as int, operand),
                edits: self.edits.push(EditView::ReplaceOperand { node, index, operand }),
                ..self
            }
        } else {
            self
        }
    }

    /// A warning is raised.
    pub open spec fn warn(self, warning: WarningView) -> Pass {
        Pass { warnings: self.warnings.push(warning), ..self }
    }

    /// The repair of a structure type record. Its name is sanitized, or
    /// erased where it is the name of a hash map. Where the structure is an
    /// enum whose variants carry data, a warning with its name and the best
    /// location is raised, and its children and its name are erased.
    pub open spec fn fix_structure(self, node: NodeId) -> Pass {
        let name = self.module.record_name(Some(node));
        let renamed = self.replace(
            node,
            NAME_OPERAND,
            OperandView::Text(
                if is_map_name(name) {
                    Seq::empty()
                } else {
                    sanitized(name)
                },
            ),
        );
        if renamed.module.has_variant_part(node) {
            let (filename, line) = recovered_location(renamed.module, renamed.stack);
            renamed.warn(WarningView { filename, line, name }).replace(
                node,
                ELEMENTS_OPERAND,
                OperandView::EmptyList,
            ).replace(node, NAME_OPERAND, OperandView::Text(Seq::empty()))
        } else {
            renamed
        }
    }

    /// The repair of one node by the rule for its kind and tag. Nodes of
    /// other kinds and tags stay as they are.
    pub open spec fn repair(self, node: NodeId) -> Pass {
        let tag = self.module.structural_tag(Some(node));
        match self.module.node_kind(Some(node)) {
            Some(NodeKind::Metadata(MetadataKind::CompositeType)) => {
                if tag == Some(STRUCTURE_TYPE) {
                    self.fix_structure(node)
                } else {
                    self
                }
            },
            Some(NodeKind::Metadata(MetadataKind::DerivedType)) => {
                if tag == Some(POINTER_TYPE) {
                    self.replace(node, NAME_OPERAND, OperandView::Text(Seq::empty()))
                } else {
                    self
                }
            },
            Some(NodeKind::Metadata(MetadataKind::Subprogram)) => {
                self.replace(
                    node,
                    NAME_OPERAND,
                    OperandView::Text(sanitized(self.module.record_name(Some(node)))),
                )
            },
            _ => self,
        }
    }

    /// The repair rules are applied to one node, and that is recorded.
    pub open spec fn mdnode(self, node: NodeId) -> Pass {
        let repaired = self.repair(node);
        Pass { dispatched: repaired.dispatched.push(node), ..repaired }
    }

    /// The indices of the nodes that are not discovered yet.
    pub open spec fn unvisited(self) -> Set<int> {
        Set::new(|i: int| 0 <= i < self.module.nodes.len() && !self.visited.contains(i as u64))
    }

    /// Whether `later` may follow this state in a pass: the arena has kept
    /// its size, and what was discovered is discovered still.
    pub open spec fn grows_to(self, later: Pass) -> bool {
        &&& later.module.nodes.len() == self.module.nodes.len()
        &&& self.visited.subset_of(later.visited)
    }

    /// The state that a walk goes on from after a nested walk has yielded
    /// `later`. It is `later`: every walk yields a state that this one grows
    /// to, as [`lemma_discover_grows`] shows. Spelling that out here is what
    /// makes the walk well-founded.
    pub open spec fn resume(self, later: Pass) -> Pass {
        if self.grows_to(later) {
            later
        } else {
            self
        }
    }

    /// A node is marked as discovered and put on top of the stack.
    pub open spec fn enter(self, node: NodeId) -> Pass {
        Pass { visited: self.visited.insert(node as u64), stack: self.stack.push(node), ..self }
    }

    /// The node on top of the stack is taken off.
    pub open spec fn leave(self) -> Pass {
        Pass { stack: self.stack.drop_last(), ..self }
    }

    /// A piece of metadata is attached again to the node that carries it, in
    /// the way that fits an instruction or a global object, and that is
    /// recorded.
    pub open spec fn reattach(self, node: NodeId, attachment: Attachment) -> Pass {
        let edit = if self.module.node_kind(Some(node)) == Some(NodeKind::Instruction) {
            EditView::SetMetadata { node, kind: attachment.kind, metadata: attachment.metadata }
        } else {
            EditView::GlobalSetMetadata {
                node,
                kind: attachment.kind,
                metadata: attachment.metadata,
            }
        };
        Pass { edits: self.edits.push(edit), ..self }
    }

    /// The walk from one node, depth first. A handle that names no node, and
    /// a node that is discovered already, are left alone. Any other node is
    /// marked as discovered and put on the stack; if it is a metadata node,
    /// it is repaired; then the metadata attached to it is walked, then its
    /// operands; last it is taken off the stack.
    pub open spec fn discover(self, value: Option<NodeId>) -> Pass
        decreases self.unvisited().len(), 0nat, 0nat,
    {
        if !self.module.resolves(value) || self.visited.contains(value->0 as u64) {
            self
        } else {
            let node = value->0;
            let kind = self.module.nodes[node as int].kind;
            let entered = self.enter(node);
            let fixed = if kind.is_mdnode() {
                entered.mdnode(node)
            } else {
                entered
            };
            let attached = if kind.can_get_all_metadata() {
                proof {
                    lemma_enter_shrinks(self, node);
                    lemma_mdnode_grows(entered, node);
                    lemma_grows_shrinks(entered, fixed);
                }
                fixed.resume(
                    fixed.discover_attachments(node, 0, fixed.module.attachment_count(value)),
                )
            } else {
                fixed
            };
            let walked = if kind.can_get_operands() {
                proof {
                    lemma_enter_shrinks(self, node);
                    lemma_mdnode_grows(entered, node);
                    lemma_grows_shrinks(entered, fixed);
                    lemma_grows_shrinks(fixed, attached);
                }
                attached.discover_operands(node, 0, attached.module.operand_count(value))
            } else {
                attached
            };
            walked.leave()
        }
    }

    /// The walk of the metadata attached to `node`, from the piece at
    /// `from` up to `count`. Each piece is walked and then attached again,
    /// so that the node ends up with the repaired metadata.
    pub open spec fn discover_attachments(self, node: NodeId, from: nat, count: nat) -> Pass
        decreases self.unvisited().len(), 1nat, count - from,
    {
        if from >= count {
            self
        } else {
            let next = match self.module.attachment(Some(node), from as int) {
                Some(attachment) => self.resume(self.discover(Some(attachment.metadata))).reattach(
                    node,
                    attachment,
                ),
                None => self,
            };
            proof {
                lemma_grows_shrinks(self, next);
            }
            next.discover_attachments(node, from + 1, count)
        }
    }

    /// The walk of the operands of `node`, from the operand at `from` up to
    /// `count`, in order. Primitive fields are passed over.
    pub open spec fn discover_operands(self, node: NodeId, from: nat, count: nat) -> Pass
        decreases self.unvisited().len(), 1nat, count - from,
    {
        if from >= count {
            self
        } else {
            let next = self.resume(
                self.discover(self.module.operand(Some(node), from as int).handle()),
            );
            proof {
                lemma_grows_shrinks(self, next);
            }
            next.discover_operands(node, from + 1, count)
        }
    }

    /// The walks from each of `roots` in turn, from the one at `from` on.
    pub open spec fn discover_all(self, roots: Seq<NodeId>, from: nat) -> Pass
        decreases roots.len() - from,
    {
        if from >= roots.len() {
            self
        } else {
            self.discover(Some(roots[from as int])).discover_all(roots, from + 1)
        }
    }

    /// The walks from those operands of an instruction that are
    /// instructions themselves, from the operand at `from` up to `count`.
    pub open spec fn discover_instruction_operands(
        self,
        instruction: NodeId,
        from: nat,
        count: nat,
    ) -> Pass
        decreases count - from,
    {
        if from >= count {
            self
        } else {
            let operand = self.module.operand(Some(instruction), from as int).handle();
            let next = if self.module.node_kind(operand) == Some(NodeKind::Instruction) {
                self.discover(operand)
            } else {
                self
            };
            next.discover_instruction_operands(instruction, from + 1, count)
        }
    }

    /// The walk from an instruction, after the walks from the instructions
    /// that it uses.
    pub open spec fn discover_instruction(self, instruction: NodeId) -> Pass {
        self.discover_instruction_operands(
            instruction,
            0,
            self.module.operand_count(Some(instruction)),
        ).discover(Some(instruction))
    }

    /// The walks from the instructions of a basic block, from the one at
    /// `from` on.
    pub open spec fn discover_block(self, block: Seq<NodeId>, from: nat) -> Pass
        decreases block.len() - from,
    {
        if from >= block.len() {
            self
        } else {
            self.discover_instruction(block[from as int]).discover_block(block, from + 1)
        }
    }

    /// The walks of the basic blocks of a function, from the one at `from`
    /// on.
    pub open spec fn discover_blocks(self, blocks: Seq<Seq<NodeId>>, from: nat) -> Pass
        decreases blocks.len() - from,
    {
        if from >= blocks.len() {
            self
        } else {
            self.discover_block(blocks[from as int], 0).discover_blocks(blocks, from + 1)
        }
    }

    /// The walks that a function gives rise to: from the function itself,
    /// then from each of its parameters, then from its instructions, block
    /// by block.
    pub open spec fn discover_function(self, function: FunctionView) -> Pass {
        self.discover(Some(function.value)).discover_all(function.params, 0).discover_blocks(
            function.blocks,
            0,
        )
    }

    /// The walks that the functions give rise to, from the one at `from` on.
    pub open spec fn discover_functions(self, functions: Seq<FunctionView>, from: nat) -> Pass
        decreases functions.len() - from,
    {
        if from >= functions.len() {
            self
        } else {
            self.discover_function(functions[from as int]).discover_functions(functions, from + 1)
        }
    }

    /// The whole pass: the walks from the global variables, then from the
    /// global aliases, then those of the functions.
    pub open spec fn run(self) -> Pass {
        self.discover_all(self.module.globals, 0).discover_all(
            self.module.aliases,
            0,
        ).discover_functions(self.module.functions, 0)
    }
}

/// The nodes that are not discovered yet are finitely many.
pub proof fn lemma_unvisited_finite(pass: Pass)
    ensures
        pass.unvisited().finite(),
        pass.unvisited().len() <= pass.module.nodes.len(),
{
    let all = set_int_range(0, pass.module.nodes.len() as int);
    lemma_int_range(0, pass.module.nodes.len() as int);
    lemma_len_subset(pass.unvisited(), all);
}

/// As a pass goes on, the nodes that are not discovered yet get no more.
pub proof fn lemma_grows_shrinks(pass: Pass, later: Pass)
    requires
        pass.grows_to(later),
    ensures
        later.unvisited().len() <= pass.unvisited().len(),
{
    lemma_unvisited_finite(pass);
    lemma_len_subset(later.unvisited(), pass.unvisited());
}

/// Discovering a node that was not discovered leaves fewer to discover.
pub proof fn lemma_enter_shrinks(pass: Pass, node: NodeId)
    requires
        node < pass.module.nodes.len(),
        !pass.visited.contains(node as u64),
    ensures
        pass.enter(node).unvisited().len() < pass.unvisited().len(),
{
    lemma_unvisited_finite(pass);
    let rest = pass.unvisited().remove(node as int);
    lemma_len_subset(pass.enter(node).unvisited(), rest);
}

/// A repair neither adds a node nor forgets a discovery.
pub proof fn lemma_mdnode_grows(pass: Pass, node: NodeId)
    ensures
        pass.grows_to(pass.mdnode(node)),
        pass.mdnode(node).visited == pass.visited,
        pass.mdnode(node).stack == pass.stack,
{
}

/// A walk from a node yields a state that the state before it grows to, so
/// the walk that contains it goes on from what it yields.
pub proof fn lemma_discover_grows(pass: Pass, value: Option<NodeId>)
    ensures
        pass.grows_to(pass.discover(value)),
        pass.resume(pass.discover(value)) == pass.discover(value),
    decreases pass.unvisited().len(), 0nat, 0nat,
{
    if pass.module.resolves(value) && !pass.visited.contains(value->0 as u64) {
        let node = value->0;
        let kind = pass.module.nodes[node as int].kind;
        let entered = pass.enter(node);
        let fixed = if kind.is_mdnode() {
            entered.mdnode(node)
        } else {
            entered
        };
        lemma_enter_shrinks(pass, node);
        lemma_mdnode_grows(entered, node);
        lemma_grows_shrinks(entered, fixed);
        let attached = if kind.can_get_all_metadata() {
            lemma_discover_attachments_grows(fixed, node, 0, fixed.module.attachment_count(value));
            fixed.resume(fixed.discover_attachments(node, 0, fixed.module.attachment_count(value)))
        } else {
            fixed
        };
        lemma_grows_shrinks(fixed, attached);
        if kind.can_get_operands() {
            lemma_discover_operands_grows(attached, node, 0, attached.module.operand_count(value));
        }
    }
}

/// The walk of the metadata attached to a node yields a state that the state
/// before it grows to.
pub proof fn lemma_discover_attachments_grows(pass: Pass, node: NodeId, from: nat, count: nat)
    ensures
        pass.grows_to(pass.discover_attachments(node, from, count)),
    decreases pass.unvisited().len(), 1nat, count - from,
{
    if from < count {
        let next = match pass.module.attachment(Some(node), from as int) {
            Some(attachment) => {
                lemma_discover_grows(pass, Some(attachment.metadata));
                pass.resume(pass.discover(Some(attachment.metadata))).reattach(node, attachment)
            },
            None => pass,
        };
        lemma_grows_shrinks(pass, next);
        lemma_discover_attachments_grows(next, node, from + 1, count);
    }
}

/// The walk of the operands of a node yields a state that the state before
/// it grows to.
pub proof fn lemma_discover_operands_grows(pass: Pass, node: NodeId, from: nat, count: nat)
    ensures
        pass.grows_to(pass.discover_operands(node, from, count)),
    decreases pass.unvisited().len(), 1nat, count - from,
{
    if from < count {
        let operand = pass.module.operand(Some(node), from as int).handle();
        lemma_discover_grows(pass, operand);
        let next = pass.resume(pass.discover(operand));
        lemma_grows_shrinks(pass, next);
        lemma_discover_operands_grows(next, node, from + 1, count);
    }
}

/// The walk of the metadata attached to a node, one piece on.
pub proof fn lemma_discover_attachments_step(pass: Pass, node: NodeId, from: nat, count: nat)
    requires
        from < count,
    ensures
        pass.discover_attachments(node, from, count) == (match pass.module.attachment(
            Some(node),
            from as int,
        ) {
            Some(attachment) => pass.resume(pass.discover(Some(attachment.metadata))).reattach(
                node,
                attachment,
            ),
            None => pass,
        }).discover_attachments(node, from + 1, count),
{
}

/// The walk of the operands of a node, one operand on.
pub proof fn lemma_discover_operands_step(pass: Pass, node: NodeId, from: nat, count: nat)
    requires
        from < count,
    ensures
        pass.discover_operands(node, from, count) == pass.resume(
            pass.discover(pass.module.operand(Some(node), from as int).handle()),
        ).discover_operands(node, from + 1, count),
{
}

} // verus!
