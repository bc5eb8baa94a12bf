//! What the repair does to a module, recorded in order: the operands it
//! replaces, the metadata it attaches again, and the warnings it raises.

use crate::digits::{digits, push_digits};
use crate::ir::{NodeId, Operand, OperandView};
use vstd::prelude::*;
use vstd::string::StringExecFns;

verus! {

/// One change to the module.
#[derive(Debug, PartialEq, Eq)]
pub enum Edit {
    /// An operand of a metadata node was replaced in place.
    ReplaceOperand { node: NodeId, index: usize, operand: Operand },
    /// Metadata was attached again to an instruction, at the slot `kind`.
    SetMetadata { node: NodeId, kind: u32, metadata: NodeId },
    /// Metadata was attached again to a global object, at the slot `kind`.
    GlobalSetMetadata { node: NodeId, kind: u32, metadata: NodeId },
}

/// The mathematical value of an [`Edit`].
pub enum EditView {
    ReplaceOperand { node: NodeId, index: usize, operand: OperandView },
    SetMetadata { node: NodeId, kind: u32, metadata: NodeId },
    GlobalSetMetadata { node: NodeId, kind: u32, metadata: NodeId },
}

impl View for Edit {
    type V = EditView;

    open spec fn view(&self) -> EditView {
        match self {
            Edit::ReplaceOperand { node, index, operand } => EditView::ReplaceOperand {
                node: *node,
                index: *index,
                operand: operand@,
            },
            Edit::SetMetadata { node, kind, metadata } => EditView::SetMetadata {
                node: *node,
                kind: *kind,
                metadata: *metadata,
            },
            Edit::GlobalSetMetadata { node, kind, metadata } => EditView::GlobalSetMetadata {
                node: *node,
                kind: *kind,
                metadata: *metadata,
            },
        }
    }
}

/// The mathematical values of a list of edits.
pub open spec fn edit_views(edits: Seq<Edit>) -> Seq<EditView> {
    edits.map_values(|e: Edit| e@)
}

/// A type that the target format cannot describe, and whose description was
/// therefore taken out.
#[derive(Debug, PartialEq, Eq)]
pub struct Warning {
    /// The file that the type was found in, as far as it could be recovered.
    pub filename: String,
    /// The line in that file.
    pub line: u32,
    /// The name of the type.
    pub name: String,
}

/// The mathematical value of a [`Warning`].
pub struct WarningView {
    pub filename: Seq<char>,
    pub line: u32,
    pub name: Seq<char>,
}

impl View for Warning {
    type V = WarningView;

    open spec fn view(&self) -> WarningView {
        WarningView { filename: self.filename@, line: self.line, name: self.name@ }
    }
}

/// The mathematical values of a list of warnings.
pub open spec fn warning_views(warnings: Seq<Warning>) -> Seq<WarningView> {
    warnings.map_values(|w: Warning| w@)
}

impl WarningView {
    /// The text of the warning.
    pub open spec fn message(self) -> Seq<char> {
        "at "@ + self.filename + ":"@ + digits(self.line as nat, 10) + ": enum "@ + self.name
            + ": not emitting BTF for type - see "@ + "http://none-yet"@
    }
}

impl Warning {
    /// The text of the warning: where the type stands, its name, and that
    /// no description of it is emitted.
    pub fn message(&self) -> (text: String)
        ensures
            text@ == self@.message(),
    {
        let link = "http://none-yet";
        let mut text = "at ".to_owned();
        text.append(self.filename.as_str());
        text.append(":");
        push_digits(&mut text, self.line, 10);
        text.append(": enum ");
        text.append(self.name.as_str());
        text.append(": not emitting BTF for type - see ");
        text.append(link);
        text
    }
}

} // verus!
