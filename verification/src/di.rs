//! The pass that repairs the debug info of a module.

use crate::cache::Cache;
use crate::dwarf::{dw_tag_pointer_type, dw_tag_structure_type, dw_tag_variant_part};
use crate::effects::{edit_views, warning_views, Edit, Warning, WarningView};
use crate::ir::{
    Attachment, MetadataKind, Module, NodeId, NodeKind, Operand, OperandView, ELEMENTS_OPERAND,
    NAME_OPERAND,
};
use crate::laws::{lemma_pointer_loses_its_name, lemma_variant_enum_is_stripped};
use crate::location::{recover_location, recovered_location};
use crate::origin::{
    lemma_discovered_from_step, lemma_from_uses_step, lemma_link_self,
    lemma_uses_come_from_user, lemma_walk_from_root_stays,
};
use crate::pass::{
    lemma_discover_attachments_step, lemma_discover_operands_step, lemma_enter_shrinks,
    lemma_grows_shrinks, lemma_mdnode_grows, Pass,
};
use crate::progress::{
    lemma_enter_dispatches_once, lemma_enter_moves, lemma_goes_to_reflexive,
    lemma_goes_to_transitive, lemma_leave_moves, lemma_moves_to_transitive,
    lemma_reattach_goes, lemma_repair_keeps_shape, lemma_value_is_untouched,
    lemma_walks_to_reflexive, lemma_walks_to_transitive,
};
use crate::reach::{
    lemma_attachments_seen_persists, lemma_blocks_seen_persists, lemma_closed_enter,
    lemma_closed_leave, lemma_closed_mdnode, lemma_closed_pass_reaches_all,
    lemma_functions_seen_persists, lemma_operands_seen_persists, lemma_seen_all_persists,
    lemma_seen_first_persists, lemma_seen_persists, lemma_start_is_closed,
};
use crate::sanitize::sanitize_type_name;
use crate::text::starts_with;
use vstd::prelude::*;

verus! {

/// A pass over one module: the module, and what the walk has seen and done.
pub struct DIFix {
    module: Module,
    cache: Cache,
    node_stack: Vec<NodeId>,
    edits: Vec<Edit>,
    warnings: Vec<Warning>,
    dispatched: Ghost<Seq<NodeId>>,
}

impl View for DIFix {
    type V = Pass;

    closed spec fn view(&self) -> Pass {
        Pass {
            module: self.module@,
            visited: self.cache@,
            stack: self.node_stack@,
            edits: edit_views(self.edits@),
            warnings: warning_views(self.warnings@),
            dispatched: self.dispatched@,
        }
    }
}

impl DIFix {
    /// A pass over `module` that has not started: nothing is discovered,
    /// the stack is empty, and nothing is recorded.
    pub fn new(module: Module) -> (fix: DIFix)
        ensures
            fix@ == Pass::start(module@),
            fix@.closed(),
            fix@.dispatched_once(),
    {
        proof {
            lemma_start_is_closed(module@);
        }
        let fix = DIFix {
            module,
            cache: Cache::new(),
            node_stack: Vec::new(),
            edits: Vec::new(),
            warnings: Vec::new(),
            dispatched: Ghost(Seq::empty()),
        };
        assert(fix@.edits =~= Seq::empty());
        assert(fix@.warnings =~= Seq::empty());
        fix
    }

    /// The module, as repaired so far.
    pub fn module(&self) -> (module: &Module)
        ensures
            module@ == self@.module,
    {
        &self.module
    }

    /// The changes made so far, in order.
    pub fn edits(&self) -> (edits: &Vec<Edit>)
        ensures
            edit_views(edits@) == self@.edits,
    {
        &self.edits
    }

    /// The warnings raised so far, in order.
    pub fn warnings(&self) -> (warnings: &Vec<Warning>)
        ensures
            warning_views(warnings@) == self@.warnings,
    {
        &self.warnings
    }

    /// Ends the pass and hands out the module, the changes made and the
    /// warnings raised.
    pub fn finish(self) -> (parts: (Module, Vec<Edit>, Vec<Warning>))
        ensures
            parts.0@ == self@.module,
            edit_views(parts.1@) == self@.edits,
            warning_views(parts.2@) == self@.warnings,
    {
        (self.module, self.edits, self.warnings)
    }

    /// Replaces one operand of one node and records the change.
    fn replace(&mut self, node: NodeId, index: usize, operand: Operand)
        ensures
            final(self)@ == old(self)@.replace(node, index, operand@),
    {
        let copy = operand.duplicate();
        if self.module.replace_operand(Some(node), index, operand) {
            self.edits.push(Edit::ReplaceOperand { node, index, operand: copy });
            assert(self@.edits =~= old(self)@.replace(node, index, operand@).edits);
        }
    }

    /// Raises a warning.
    fn warn(&mut self, warning: Warning)
        ensures
            final(self)@ == old(self)@.warn(warning@),
    {
        self.warnings.push(warning);
        assert(self@.warnings =~= old(self)@.warn(warning@).warnings);
    }

    /// Repairs a structure type record.
    fn fix_structure(&mut self, value: NodeId)
        ensures
            final(self)@ == old(self)@.fix_structure(value),
    {
        let handle = Some(value);
        let name = self.module.record_name(handle);
        if starts_with(name.as_str(), "HashMap<") {
            // The loader knows a map by a structure without a name.
            self.replace(value, NAME_OPERAND, Operand::Text(String::new()));
        } else {
            // Generic parameters make the name no identifier.
            let clean = sanitize_type_name(name.clone());
            self.replace(value, NAME_OPERAND, Operand::Text(clean));
        }
        // An enum whose variants carry data is told by its first child, a
        // variant part. It cannot be described: it is emptied.
        let elements = self.module.operand(handle, ELEMENTS_OPERAND);
        if self.module.operand_count(elements) > 0 {
            let element = self.module.operand(elements, 0);
            if self.module.structural_tag(element) == Some(dw_tag_variant_part()) {
                let (filename, line) = recover_location(&self.module, &self.node_stack);
                self.warn(Warning { filename, line, name });
                self.replace(value, ELEMENTS_OPERAND, Operand::EmptyList);
                self.replace(value, NAME_OPERAND, Operand::Text(String::new()));
            }
        }
    }

    /// Applies to one node the repair rule for its kind and tag.
    ///
    /// An enum whose variants carry data loses its name and its children,
    /// and one warning is raised for it, with the name that it had and the
    /// location that the stack gives; no other node gives rise to a
    /// warning. A pointer type loses its name and nothing else.
    pub fn mdnode(&mut self, value: NodeId)
        ensures
            final(self)@ == old(self)@.mdnode(value),
            old(self)@.module.keeps_shape(final(self)@.module),
            old(self)@.module.is_variant_enum(value) ==> {
                let (filename, line) = recovered_location(old(self)@.module, old(self)@.stack);
                let name = old(self)@.module.record_name(Some(value));
                &&& final(self)@.module.operand(Some(value), NAME_OPERAND as int)
                    == OperandView::Text(Seq::empty())
                &&& final(self)@.module.operand(Some(value), ELEMENTS_OPERAND as int)
                    == OperandView::EmptyList
                &&& final(self)@.warnings == old(self)@.warnings.push(
                    WarningView { filename, line, name },
                )
            },
            !old(self)@.module.is_variant_enum(value) ==> final(self)@.warnings == old(
                self,
            )@.warnings,
            old(self)@.module.is_named_pointer(value) ==> {
                &&& final(self)@.module.operand(Some(value), NAME_OPERAND as int)
                    == OperandView::Text(Seq::empty())
                &&& forall|j: int|
                    j != NAME_OPERAND ==> final(self)@.module.operand(Some(value), j) == old(
                        self,
                    )@.module.operand(Some(value), j)
            },
    {
        proof {
            lemma_repair_keeps_shape(self@, value);
            if self@.module.is_variant_enum(value) {
                lemma_variant_enum_is_stripped(self@, value);
            }
            if self@.module.is_named_pointer(value) {
                lemma_pointer_loses_its_name(self@, value);
            }
        }
        let handle = Some(value);
        let tag = self.module.structural_tag(handle);
        match self.module.node_kind(handle) {
            Some(NodeKind::Metadata(MetadataKind::CompositeType)) => {
                if tag == Some(dw_tag_structure_type()) {
                    self.fix_structure(value);
                }
            },
            Some(NodeKind::Metadata(MetadataKind::DerivedType)) => {
                if tag == Some(dw_tag_pointer_type()) {
                    // The name of a pointer type spells out its pointee.
                    self.replace(value, NAME_OPERAND, Operand::Text(String::new()));
                }
            },
            Some(NodeKind::Metadata(MetadataKind::Subprogram)) => {
                let name = self.module.record_name(handle);
                let clean = sanitize_type_name(name);
                self.replace(value, NAME_OPERAND, Operand::Text(clean));
            },
            _ => {},
        }
        self.dispatched = Ghost(self.dispatched@.push(value));
    }

    /// Records that a piece of metadata is attached again to its node.
    fn reattach(&mut self, node: NodeId, attachment: Attachment)
        ensures
            final(self)@ == old(self)@.reattach(node, attachment),
    {
        let Attachment { kind, metadata } = attachment;
        let edit = match self.module.node_kind(Some(node)) {
            Some(NodeKind::Instruction) => Edit::SetMetadata { node, kind, metadata },
            _ => Edit::GlobalSetMetadata { node, kind, metadata },
        };
        self.edits.push(edit);
        assert(self@.edits =~= old(self)@.reattach(node, attachment).edits);
    }

    /// Walks the graph from `value`, depth first, and repairs every metadata
    /// node that it discovers.
    ///
    /// The walk ends on every graph, cyclic or not: a node that is
    /// discovered already is never entered again, so no node is repaired
    /// twice. When the walk is over, the node is discovered, the stack is
    /// as it was found, the walk is through with all that the newly
    /// discovered nodes refer to, and each of them is one that a path leads
    /// to from `value`.
    pub fn discover(&mut self, value: Option<NodeId>)
        ensures
            final(self)@ == old(self)@.discover(value),
            old(self)@.goes_to(final(self)@),
            final(self)@.seen(value),
            final(self)@.discovered_from(old(self)@, value),
        decreases old(self)@.unvisited().len(),
    {
        proof {
            lemma_goes_to_reflexive(self@);
        }
        let kind = match self.module.node_kind(value) {
            Some(kind) => kind,
            None => {
                return ;
            },
        };
        let node = match value {
            Some(node) => node,
            None => {
                return ;
            },
        };
        let key = node as u64;
        if self.cache.hit(&key) {
            return ;
        }
        self.node_stack.push(node);
        let ghost entered = self@;
        assert(entered == old(self)@.enter(node));

        if kind.is_mdnode() {
            self.mdnode(node);
        }
        let ghost fixed = self@;
        proof {
            lemma_enter_shrinks(old(self)@, node);
            lemma_mdnode_grows(entered, node);
            lemma_grows_shrinks(entered, fixed);
            lemma_enter_moves(old(self)@, node);
            lemma_link_self(fixed, node);
            assert(fixed.comes_from(value, node));
            assert(entered.stack.last() == node);
            if old(self)@.dispatched_once() {
                lemma_enter_dispatches_once(old(self)@, node);
            }
            if old(self)@.closed() {
                lemma_closed_enter(old(self)@, node);
                lemma_closed_mdnode(entered, node);
            }
            lemma_goes_to_reflexive(fixed);
        }

        if kind.can_get_all_metadata() {
            let count = self.module.attachment_count(value);
            let mut index: usize = 0;
            while index < count
                invariant
                    index <= count,
                    value == Some(node),
                    node < fixed.module.nodes.len(),
                    fixed.visited.contains(node as u64),
                    fixed.module.node_kind(value) == Some(kind),
                    kind.can_get_all_metadata(),
                    count == fixed.module.attachment_count(value),
                    old(self)@.moves_to(fixed),
                    fixed.goes_to(self@),
                    fixed.unvisited().len() < old(self)@.unvisited().len(),
                    self@.discovered_from(old(self)@, value),
                    self@.attachments_seen(node, index as int),
                    self@.discover_attachments(node, index as nat, count as nat)
                        == fixed.discover_attachments(node, 0, count as nat),
                decreases count - index,
            {
                let ghost before = self@;
                proof {
                    lemma_grows_shrinks(fixed, before);
                    lemma_moves_to_transitive(old(self)@, fixed, before);
                    lemma_goes_to_reflexive(before);
                }
                match self.module.attachment(value, index) {
                    Some(attachment) => {
                        self.discover(Some(attachment.metadata));
                        let ghost walked = self@;
                        // The metadata is repaired by now: the node gets it back.
                        self.reattach(node, attachment);
                        proof {
                            lemma_reattach_goes(walked, node, attachment);
                            lemma_goes_to_transitive(fixed, before, walked);
                            lemma_moves_to_transitive(old(self)@, before, walked);
                            lemma_attachments_seen_persists(fixed, walked, node, 0);
                            assert(walked.module.attachment(value, index as int) == Some(
                                attachment,
                            ));
                            lemma_discovered_from_step(
                                old(self)@,
                                before,
                                walked,
                                node,
                                Some(attachment.metadata),
                            );
                            lemma_discovered_from_step(old(self)@, walked, self@, node, None);
                            lemma_seen_persists(walked, self@, Some(attachment.metadata));
                            lemma_goes_to_transitive(before, walked, self@);
                        }
                    },
                    None => {},
                }
                proof {
                    lemma_discover_attachments_step(before, node, index as nat, count as nat);
                    lemma_goes_to_transitive(fixed, before, self@);
                    lemma_attachments_seen_persists(before, self@, node, index as int);
                    assert(self@.attachments_seen(node, index + 1));
                }
                index += 1;
            }
        }
        let ghost attached = self@;
        proof {
            lemma_grows_shrinks(fixed, attached);
            lemma_moves_to_transitive(old(self)@, fixed, attached);
            lemma_attachments_seen_persists(fixed, attached, node, 0);
            lemma_goes_to_reflexive(attached);
        }

        if kind.can_get_operands() {
            let count = self.module.operand_count(value);
            let mut index: usize = 0;
            while index < count
                invariant
                    index <= count,
                    value == Some(node),
                    node < attached.module.nodes.len(),
                    attached.visited.contains(node as u64),
                    attached.module.node_kind(value) == Some(kind),
                    kind.can_get_operands(),
                    count == attached.module.operand_count(value),
                    old(self)@.moves_to(attached),
                    attached.goes_to(self@),
                    attached.unvisited().len() < old(self)@.unvisited().len(),
                    self@.discovered_from(old(self)@, value),
                    self@.operands_seen(node, index as int),
                    self@.discover_operands(node, index as nat, count as nat)
                        == attached.discover_operands(node, 0, count as nat),
                decreases count - index,
            {
                let ghost before = self@;
                proof {
                    lemma_grows_shrinks(attached, before);
                    lemma_moves_to_transitive(old(self)@, attached, before);
                }
                let operand = self.module.operand(value, index);
                self.discover(operand);
                proof {
                    lemma_discover_operands_step(before, node, index as nat, count as nat);
                    lemma_goes_to_transitive(attached, before, self@);
                    lemma_operands_seen_persists(before, self@, node, index as int);
                    assert(self@.operands_seen(node, index + 1));
                    assert(self@.module.operand(value, index as int).handle() == operand);
                    lemma_discovered_from_step(old(self)@, before, self@, node, operand);
                }
                index += 1;
            }
        }

        let ghost walked = self@;
        self.node_stack.pop();
        proof {
            assert(self@ == walked.leave());
            assert(self@.stack =~= old(self)@.stack);
            lemma_operands_seen_persists(attached, walked, node, 0);
            lemma_moves_to_transitive(old(self)@, attached, walked);
            lemma_leave_moves(walked);
            lemma_moves_to_transitive(old(self)@, walked, self@);
            lemma_discovered_from_step(old(self)@, walked, self@, node, None);
            if old(self)@.closed() {
                if kind.can_get_all_metadata() {
                    lemma_attachments_seen_persists(
                        attached,
                        walked,
                        node,
                        attached.module.attachment_count(value) as int,
                    );
                }
                assert(walked.settled(node));
                lemma_closed_leave(walked, node);
            }
        }
    }

    /// Walks from the global variables of the module, in order.
    fn discover_globals(&mut self)
        ensures
            final(self)@ == old(self)@.discover_all(old(self)@.module.globals, 0),
            old(self)@.walks_to(final(self)@),
            final(self)@.seen_all(old(self)@.module.globals),
    {
        let ghost roots = self@.module.globals;
        let count = self.module.globals.len();
        let mut index: usize = 0;
        proof {
            lemma_walks_to_reflexive(self@);
        }
        while index < count
            invariant
                index <= count,
                count == roots.len(),
                self@.module.globals == roots,
                old(self)@.walks_to(self@),
                self@.seen_first(roots, index as int),
                self@.discover_all(roots, index as nat) == old(self)@.discover_all(roots, 0),
            decreases count - index,
        {
            let ghost before = self@;
            let sym = self.module.globals[index];
            self.discover(Some(sym));
            proof {
                assert(before.module.globals[index as int] == sym);
                lemma_walk_from_root_stays(before, self@, sym);
                lemma_walks_to_transitive(old(self)@, before, self@);
                lemma_seen_first_persists(before, self@, roots, index as int);
            }
            index += 1;
        }
    }

    /// Walks from the global aliases of the module, in order.
    fn discover_aliases(&mut self)
        ensures
            final(self)@ == old(self)@.discover_all(old(self)@.module.aliases, 0),
            old(self)@.walks_to(final(self)@),
            final(self)@.seen_all(old(self)@.module.aliases),
    {
        let ghost roots = self@.module.aliases;
        let count = self.module.aliases.len();
        let mut index: usize = 0;
        proof {
            lemma_walks_to_reflexive(self@);
        }
        while index < count
            invariant
                index <= count,
                count == roots.len(),
                self@.module.aliases == roots,
                old(self)@.walks_to(self@),
                self@.seen_first(roots, index as int),
                self@.discover_all(roots, index as nat) == old(self)@.discover_all(roots, 0),
            decreases count - index,
        {
            let ghost before = self@;
            let sym = self.module.aliases[index];
            self.discover(Some(sym));
            proof {
                assert(before.module.aliases[index as int] == sym);
                lemma_walk_from_root_stays(before, self@, sym);
                lemma_walks_to_transitive(old(self)@, before, self@);
                lemma_seen_first_persists(before, self@, roots, index as int);
            }
            index += 1;
        }
    }

    /// Walks from the parameters of one function, in order.
    fn discover_params(&mut self, function: usize)
        requires
            function < old(self)@.module.functions.len(),
        ensures
            final(self)@ == old(self)@.discover_all(
                old(self)@.module.functions[function as int].params,
                0,
            ),
            old(self)@.walks_to(final(self)@),
            final(self)@.seen_all(old(self)@.module.functions[function as int].params),
    {
        let ghost roots = self@.module.functions[function as int].params;
        let count = self.module.functions[function].params.len();
        let mut index: usize = 0;
        proof {
            lemma_walks_to_reflexive(self@);
        }
        while index < count
            invariant
                index <= count,
                count == roots.len(),
                function < self@.module.functions.len(),
                self@.module.functions[function as int].params == roots,
                old(self)@.walks_to(self@),
                self@.seen_first(roots, index as int),
                self@.discover_all(roots, index as nat) == old(self)@.discover_all(roots, 0),
            decreases count - index,
        {
            let ghost before = self@;
            let param = self.module.functions[function].params[index];
            self.discover(Some(param));
            proof {
                assert(roots[index as int] == param);
                assert(before.module.functions[function as int].has_root(param));
                lemma_walk_from_root_stays(before, self@, param);
                lemma_walks_to_transitive(old(self)@, before, self@);
                lemma_seen_first_persists(before, self@, roots, index as int);
            }
            index += 1;
        }
    }

    /// Walks from one instruction, after the instructions that it uses: the
    /// debug info of what an instruction consumes is repaired before the
    /// instruction is looked at.
    fn discover_instruction(&mut self, instruction: NodeId)
        requires
            old(self)@.module.is_root(instruction),
            old(self)@.module.blocks_hold_instructions() ==> old(
                self,
            )@.module.is_instruction_or_none(instruction),
        ensures
            final(self)@ == old(self)@.discover_instruction(instruction),
            old(self)@.walks_to(final(self)@),
            final(self)@.seen(Some(instruction)),
    {
        let handle = Some(instruction);
        let count = self.module.operand_count(handle);
        let mut index: usize = 0;
        let ghost bound = self@.module.blocks_hold_instructions() && self@.module.resolves(handle);
        proof {
            lemma_goes_to_reflexive(self@);
        }
        while index < count
            invariant
                index <= count,
                handle == Some(instruction),
                count == old(self)@.module.operand_count(handle),
                bound == (old(self)@.module.blocks_hold_instructions() && old(
                    self,
                )@.module.resolves(handle)),
                bound ==> old(self)@.module.node_kind(handle) == Some(NodeKind::Instruction),
                old(self)@.goes_to(self@),
                bound ==> self@.discovered_from_uses(old(self)@, instruction),
                self@.discover_instruction_operands(instruction, index as nat, count as nat)
                    == old(self)@.discover_instruction_operands(instruction, 0, count as nat),
            decreases count - index,
        {
            let ghost before = self@;
            proof {
                lemma_goes_to_reflexive(before);
                if bound {
                    lemma_value_is_untouched(old(self)@, before, instruction);
                }
            }
            let operand = self.module.operand(handle, index);
            let ghost target = if before.module.node_kind(operand) == Some(NodeKind::Instruction) {
                operand
            } else {
                None
            };
            match self.module.node_kind(operand) {
                Some(NodeKind::Instruction) => {
                    self.discover(operand);
                },
                _ => {},
            }
            proof {
                lemma_goes_to_transitive(old(self)@, before, self@);
                if bound {
                    lemma_value_is_untouched(old(self)@, self@, instruction);
                    assert(self@.module.operand(handle, index as int).handle() == operand);
                    lemma_from_uses_step(old(self)@, before, self@, instruction, target);
                }
            }
            index += 1;
        }
        let ghost before = self@;
        self.discover(handle);
        proof {
            lemma_goes_to_transitive(old(self)@, before, self@);
            if bound {
                lemma_value_is_untouched(old(self)@, before, instruction);
                lemma_value_is_untouched(old(self)@, self@, instruction);
                lemma_uses_come_from_user(old(self)@, before, self@, instruction);
                lemma_walk_from_root_stays(old(self)@, self@, instruction);
            } else if old(self)@.module.blocks_hold_instructions() {
                assert(before == old(self)@);
                assert forall|node: NodeId|
                    node < self@.module.nodes.len() && self@.visited.contains(node as u64) && !old(
                        self,
                    )@.visited.contains(node as u64) implies #[trigger] self@.comes_from_root(
                    node,
                ) by {
                    assert(self@.comes_from(handle, node));
                }
            }
        }
    }

    /// Walks from the instructions of one basic block, in order.
    fn discover_block(&mut self, function: usize, block: usize)
        requires
            function < old(self)@.module.functions.len(),
            block < old(self)@.module.functions[function as int].blocks.len(),
        ensures
            final(self)@ == old(self)@.discover_block(
                old(self)@.module.functions[function as int].blocks[block as int],
                0,
            ),
            old(self)@.walks_to(final(self)@),
            final(self)@.seen_all(
                old(self)@.module.functions[function as int].blocks[block as int],
            ),
    {
        let ghost instructions = self@.module.functions[function as int].blocks[block as int];
        let count = self.module.functions[function].blocks[block].len();
        let mut index: usize = 0;
        proof {
            lemma_walks_to_reflexive(self@);
        }
        while index < count
            invariant
                index <= count,
                count == instructions.len(),
                function < self@.module.functions.len(),
                block < self@.module.functions[function as int].blocks.len(),
                self@.module.functions[function as int].blocks[block as int] == instructions,
                old(self)@.walks_to(self@),
                self@.seen_first(instructions, index as int),
                self@.discover_block(instructions, index as nat) == old(self)@.discover_block(
                    instructions,
                    0,
                ),
            decreases count - index,
        {
            let ghost before = self@;
            let instruction = self.module.functions[function].blocks[block][index];
            proof {
                assert(instructions[index as int] == instruction);
                assert(before.module.functions[function as int].has_root(instruction));
                if before.module.blocks_hold_instructions() {
                    assert(before.module.is_instruction_or_none(
                        before.module.functions[function as int].blocks[block as int][index as int],
                    ));
                }
            }
            self.discover_instruction(instruction);
            proof {
                lemma_walks_to_transitive(old(self)@, before, self@);
                lemma_seen_first_persists(before, self@, instructions, index as int);
            }
            index += 1;
        }
    }

    /// Walks what one function gives rise to: the function itself, its
    /// parameters, and its instructions, block by block.
    fn discover_function(&mut self, function: usize)
        requires
            function < old(self)@.module.functions.len(),
        ensures
            final(self)@ == old(self)@.discover_function(
                old(self)@.module.functions[function as int],
            ),
            old(self)@.walks_to(final(self)@),
            final(self)@.function_seen(old(self)@.module.functions[function as int]),
    {
        let ghost subject = self@.module.functions[function as int];
        let value = self.module.functions[function].value;
        self.discover(Some(value));
        let ghost entered = self@;
        proof {
            assert(subject.has_root(value));
            lemma_walk_from_root_stays(old(self)@, entered, value);
        }
        self.discover_params(function);
        let ghost bound = self@;
        proof {
            lemma_walks_to_transitive(old(self)@, entered, bound);
            lemma_seen_persists(entered, bound, Some(value));
        }
        let count = self.module.functions[function].blocks.len();
        let mut block: usize = 0;
        while block < count
            invariant
                block <= count,
                count == subject.blocks.len(),
                function < self@.module.functions.len(),
                self@.module.functions[function as int] == subject,
                old(self)@.walks_to(self@),
                self@.seen(Some(subject.value)),
                self@.seen_all(subject.params),
                self@.blocks_seen(subject.blocks, block as int),
                self@.discover_blocks(subject.blocks, block as nat) == bound.discover_blocks(
                    subject.blocks,
                    0,
                ),
            decreases count - block,
        {
            let ghost before = self@;
            self.discover_block(function, block);
            proof {
                lemma_walks_to_transitive(old(self)@, before, self@);
                lemma_seen_persists(before, self@, Some(subject.value));
                lemma_seen_all_persists(before, self@, subject.params);
                lemma_blocks_seen_persists(before, self@, subject.blocks, block as int);
            }
            block += 1;
        }
    }

    /// Runs the pass: walks the module from its global variables, then from
    /// its global aliases, then from each function, its parameters and its
    /// instructions, and repairs every metadata node on the way.
    ///
    /// The module keeps its shape; the metadata nodes discovered are
    /// repaired, each once, and no other node is touched; and the edits
    /// recorded, replayed in order on the module as it was, give the module
    /// as it is. On a pass that has not walked yet, every node that a path
    /// leads to from a root is discovered; and in a module whose basic
    /// blocks hold instructions, no other node is.
    pub fn run(&mut self)
        ensures
            final(self)@ == old(self)@.run(),
            old(self)@.walks_to(final(self)@),
            final(self)@.roots_seen(),
            old(self)@.closed() && old(self)@.stack.len() == 0 ==> final(self)@.reaches_all(),
    {
        self.discover_globals();
        let ghost first = self@;
        self.discover_aliases();
        let ghost second = self@;
        proof {
            lemma_walks_to_transitive(old(self)@, first, second);
            lemma_seen_all_persists(first, second, first.module.globals);
        }
        let ghost functions = self@.module.functions;
        let count = self.module.functions.len();
        let mut function: usize = 0;
        while function < count
            invariant
                function <= count,
                count == functions.len(),
                self@.module.functions == functions,
                self@.module.globals == second.module.globals,
                self@.module.aliases == second.module.aliases,
                old(self)@.walks_to(self@),
                self@.seen_all(second.module.globals),
                self@.seen_all(second.module.aliases),
                self@.functions_seen(functions, function as int),
                self@.discover_functions(functions, function as nat) == second.discover_functions(
                    functions,
                    0,
                ),
            decreases count - function,
        {
            let ghost before = self@;
            self.discover_function(function);
            proof {
                lemma_walks_to_transitive(old(self)@, before, self@);
                lemma_seen_all_persists(before, self@, second.module.globals);
                lemma_seen_all_persists(before, self@, second.module.aliases);
                lemma_functions_seen_persists(before, self@, functions, function as int);
            }
            function += 1;
        }
        proof {
            if old(self)@.closed() && old(self)@.stack.len() == 0 {
                lemma_closed_pass_reaches_all(self@);
            }
        }
    }
}

} // verus!
