//! The edits as a record of the repair: replayed on the module as it was,
//! they give the module as it is.

use crate::effects::{EditView, WarningView};
use crate::ir::{Attachment, ModuleView, NodeId, OperandView, ELEMENTS_OPERAND, NAME_OPERAND};
use crate::location::recovered_location;
use crate::pass::Pass;
use crate::rules::is_map_name;
use crate::sanitize::sanitized;
use vstd::prelude::*;

verus! {

impl ModuleView {
    /// The module after one edit. Replacing an operand changes the module;
    /// attaching metadata again leaves it as it is.
    pub open spec fn apply(self, edit: EditView) -> ModuleView {
        match edit {
            EditView::ReplaceOperand { node, index, operand } => self.replace_operand(
                Some(node),
                index as int,
                operand,
            ),
            _ => self,
        }
    }

    /// The module after a list of edits, made in order.
    pub open spec fn replay(self, edits: Seq<EditView>) -> ModuleView
        decreases edits.len(),
    {
        if edits.len() == 0 {
            self
        } else {
            self.replay(edits.drop_last()).apply(edits.last())
        }
    }
}

impl Pass {
    /// Whether the edits recorded since this state, replayed on the module
    /// of this state, give the module of `later`.
    pub open spec fn replays_to(self, later: Pass) -> bool {
        &&& self.edits.len() <= later.edits.len()
        &&& later.edits.take(self.edits.len() as int) == self.edits
        &&& later.module == self.module.replay(later.edits.skip(self.edits.len() as int))
    }
}

/// Replaying one edit more.
pub proof fn lemma_replay_push(module: ModuleView, edits: Seq<EditView>, edit: EditView)
    ensures
        module.replay(edits.push(edit)) == module.replay(edits).apply(edit),
{
    assert(edits.push(edit).drop_last() =~= edits);
}

/// Replaying two lists of edits, one after the other, is replaying them as
/// one list.
pub proof fn lemma_replay_concat(module: ModuleView, first: Seq<EditView>, second: Seq<EditView>)
    ensures
        module.replay(first + second) == module.replay(first).replay(second),
    decreases second.len(),
{
    if second.len() == 0 {
        assert(first + second =~= first);
    } else {
        lemma_replay_concat(module, first, second.drop_last());
        assert((first + second).drop_last() =~= first + second.drop_last());
    }
}

/// A state replays to itself.
pub proof fn lemma_replays_to_reflexive(pass: Pass)
    ensures
        pass.replays_to(pass),
{
    assert(pass.edits.take(pass.edits.len() as int) =~= pass.edits);
    assert(pass.edits.skip(pass.edits.len() as int) =~= Seq::<EditView>::empty());
}

/// Replaying carries over from step to step.
pub proof fn lemma_replays_to_transitive(first: Pass, second: Pass, third: Pass)
    requires
        first.replays_to(second),
        second.replays_to(third),
    ensures
        first.replays_to(third),
{
    let (a, b) = (first.edits.len() as int, second.edits.len() as int);
    assert(third.edits.take(a) =~= third.edits.take(b).take(a));
    assert(third.edits.skip(a) =~= second.edits.skip(a) + third.edits.skip(b));
    lemma_replay_concat(first.module, second.edits.skip(a), third.edits.skip(b));
}

/// A step that records nothing and leaves the module alone replays.
pub proof fn lemma_replays_to_same(pass: Pass, later: Pass)
    requires
        later.module == pass.module,
        later.edits == pass.edits,
    ensures
        pass.replays_to(later),
{
    lemma_replays_to_reflexive(pass);
}

/// Replacing an operand replays.
pub proof fn lemma_replace_replays(pass: Pass, node: NodeId, index: usize, operand: OperandView)
    ensures
        pass.replays_to(pass.replace(node, index, operand)),
{
    let later = pass.replace(node, index, operand);
    if index < pass.module.operand_count(Some(node)) {
        let edit = EditView::ReplaceOperand { node, index, operand };
        let n = pass.edits.len() as int;
        assert(later.edits.take(n) =~= pass.edits);
        assert(later.edits.skip(n) =~= Seq::<EditView>::empty().push(edit));
        lemma_replay_push(pass.module, Seq::empty(), edit);
    } else {
        lemma_replays_to_reflexive(pass);
    }
}

/// Attaching metadata again replays.
pub proof fn lemma_reattach_replays(pass: Pass, node: NodeId, attachment: Attachment)
    ensures
        pass.replays_to(pass.reattach(node, attachment)),
{
    let later = pass.reattach(node, attachment);
    let n = pass.edits.len() as int;
    assert(later.edits.take(n) =~= pass.edits);
    assert(later.edits.skip(n) =~= Seq::<EditView>::empty().push(later.edits.last()));
    lemma_replay_push(pass.module, Seq::empty(), later.edits.last());
}

/// Repairing a node replays.
pub proof fn lemma_mdnode_replays(pass: Pass, node: NodeId)
    ensures
        pass.replays_to(pass.mdnode(node)),
{
    let name = pass.module.record_name(Some(node));
    let first = OperandView::Text(
        if is_map_name(name) {
            Seq::empty()
        } else {
            sanitized(name)
        },
    );
    let erased = OperandView::Text(Seq::empty());
    lemma_replace_replays(pass, node, NAME_OPERAND, first);
    lemma_replace_replays(pass, node, NAME_OPERAND, erased);
    lemma_replace_replays(pass, node, NAME_OPERAND, OperandView::Text(sanitized(name)));
    let renamed = pass.replace(node, NAME_OPERAND, first);
    let (filename, line) = recovered_location(renamed.module, renamed.stack);
    let warned = renamed.warn(WarningView { filename, line, name });
    lemma_replays_to_same(renamed, warned);
    let stripped = warned.replace(node, ELEMENTS_OPERAND, OperandView::EmptyList);
    lemma_replace_replays(warned, node, ELEMENTS_OPERAND, OperandView::EmptyList);
    let emptied = stripped.replace(node, NAME_OPERAND, erased);
    lemma_replace_replays(stripped, node, NAME_OPERAND, erased);
    lemma_replays_to_transitive(pass, renamed, warned);
    lemma_replays_to_transitive(pass, warned, stripped);
    lemma_replays_to_transitive(pass, stripped, emptied);
    lemma_replays_to_reflexive(pass);
    lemma_replays_to_same(pass.repair(node), pass.mdnode(node));
    if pass.repair(node) == pass {
        lemma_replays_to_same(pass, pass.mdnode(node));
    } else {
        lemma_replays_to_transitive(pass, pass.repair(node), pass.mdnode(node));
    }
}

} // verus!
