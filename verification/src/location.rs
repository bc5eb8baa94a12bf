//! Recovery of a source location from the ancestors of a node.

use crate::ir::{unknown, MetadataKind, Module, ModuleView, NodeId, NodeKind};
use vstd::prelude::*;

verus! {

/// The operand in which a record of the given kind names its file. Only
/// global variable records and common block records are looked at.
pub open spec fn spec_file_operand_index(kind: Option<NodeKind>) -> Option<usize> {
    match kind {
        Some(NodeKind::Metadata(MetadataKind::GlobalVariable)) => Some(2),
        Some(NodeKind::Metadata(MetadataKind::CommonBlock)) => Some(3),
        _ => None,
    }
}

/// The operand in which a record of the given kind names its file.
#[verifier::when_used_as_spec(spec_file_operand_index)]
pub fn file_operand_index(kind: Option<NodeKind>) -> (index: Option<usize>)
    ensures
        index == spec_file_operand_index(kind),
{
    match kind {
        Some(NodeKind::Metadata(MetadataKind::GlobalVariable)) => Some(2),
        Some(NodeKind::Metadata(MetadataKind::CommonBlock)) => Some(3),
        _ => None,
    }
}

/// The location that one node offers: the name of its file and its own
/// line, where its kind names a file and that file's name is known.
pub open spec fn location_at(module: ModuleView, node: NodeId) -> Option<(Seq<char>, u32)> {
    match file_operand_index(module.node_kind(Some(node))) {
        Some(index) => {
            let file = module.operand(Some(node), index as int).handle();
            let filename = module.filename(file);
            if filename == unknown() {
                None
            } else {
                Some((filename, module.record_line(Some(node))))
            }
        },
        None => None,
    }
}

/// The location that the nearest node of the stack offers, the top of the
/// stack being the nearest; `("unknown", 0)` where none offers one.
pub open spec fn recovered_location(module: ModuleView, stack: Seq<NodeId>) -> (Seq<char>, u32)
    decreases stack.len(),
{
    if stack.len() == 0 {
        (unknown(), 0)
    } else {
        match location_at(module, stack.last()) {
            Some(location) => location,
            None => recovered_location(module, stack.drop_last()),
        }
    }
}

/// Nodes of the stack that offer no location do not count: what is
/// recovered is what the stack below them gives.
pub proof fn lemma_recovered_skips(module: ModuleView, stack: Seq<NodeId>, depth: int)
    requires
        0 <= depth <= stack.len(),
        forall|j: int| depth <= j < stack.len() ==> location_at(module, stack[j]) is None,
    ensures
        recovered_location(module, stack) == recovered_location(module, stack.take(depth)),
    decreases stack.len(),
{
    if depth < stack.len() {
        lemma_recovered_skips(module, stack.drop_last(), depth);
        assert(stack.drop_last().take(depth) =~= stack.take(depth));
    } else {
        assert(stack.take(depth) =~= stack);
    }
}

/// The location is that of the nearest node that offers one.
pub proof fn lemma_recovered_is_nearest(module: ModuleView, stack: Seq<NodeId>, at: int)
    requires
        0 <= at < stack.len(),
        location_at(module, stack[at]) is Some,
        forall|j: int| at < j < stack.len() ==> location_at(module, stack[j]) is None,
    ensures
        recovered_location(module, stack) == location_at(module, stack[at])->0,
{
    lemma_recovered_skips(module, stack, at + 1);
    assert(stack.take(at + 1).last() == stack[at]);
}

/// Where no node of the stack offers a location, the fallback comes back.
pub proof fn lemma_recovered_fallback(module: ModuleView, stack: Seq<NodeId>)
    requires
        forall|j: int| 0 <= j < stack.len() ==> location_at(module, stack[j]) is None,
    ensures
        recovered_location(module, stack) == (unknown(), 0u32),
{
    lemma_recovered_skips(module, stack, 0);
}

/// The location that one node offers.
pub fn locate(module: &Module, node: NodeId) -> (location: Option<(String, u32)>)
    ensures
        location is None ==> location_at(module@, node) is None,
        location matches Some((filename, line)) ==> location_at(module@, node) == Some(
            (filename@, line),
        ),
{
    match file_operand_index(module.node_kind(Some(node))) {
        Some(index) => {
            let file = module.operand(Some(node), index);
            let filename = module.filename(file);
            let sentinel = "unknown".to_owned();
            if filename == sentinel {
                None
            } else {
                // The node has a plausible file name, so its line is trusted too.
                Some((filename, module.record_line(Some(node))))
            }
        },
        None => None,
    }
}

/// Finds the best source location for the node on top of `stack`: that of
/// the nearest node of the stack that offers one.
///
/// Where no node of the stack offers a location, the answer is
/// `("unknown", 0)`.
pub fn recover_location(module: &Module, stack: &Vec<NodeId>) -> (location: (String, u32))
    ensures
        location.0@ == recovered_location(module@, stack@).0,
        location.1 == recovered_location(module@, stack@).1,
        (forall|j: int| 0 <= j < stack.len() ==> location_at(module@, stack[j]) is None) ==> {
            &&& location.0@ == unknown()
            &&& location.1 == 0
        },
{
    proof {
        if forall|j: int| 0 <= j < stack.len() ==> location_at(module@, stack[j]) is None {
            lemma_recovered_fallback(module@, stack@);
        }
    }
    let mut depth = stack.len();
    assert(stack@.take(depth as int) =~= stack@);
    while depth > 0
        invariant
            depth <= stack.len(),
            recovered_location(module@, stack@) == recovered_location(
                module@,
                stack@.take(depth as int),
            ),
        decreases depth,
    {
        depth -= 1;
        assert(stack@.take(depth + 1).last() == stack[depth as int]);
        assert(stack@.take(depth + 1).drop_last() =~= stack@.take(depth as int));
        match locate(module, stack[depth]) {
            Some(location) => {
                return location;
            },
            None => {},
        }
    }
    ("unknown".to_owned(), 0)
}

} // verus!
