//! The reference decoder: a mathematical reading of the wire format, plus
//! an executable decoder proved equal to it.
//!
//! Decoding walks four-byte tag groups: it reads up to four tags from the
//! current group, consuming each tag's operand bytes from the running
//! operand cursor, and moves to the next group (which starts at the current
//! operand cursor) when the group is exhausted. `Stop` terminates; `NoOp`
//! decodes to no operation.

use vstd::prelude::*;

use crate::element::ebs_view;
use crate::element::eb_view;
use crate::element::AttrName;
use crate::element::ElementBuilder;
use crate::element::ElementView;
use crate::element::NameView;
use crate::element::TagName;
use crate::ids::MaybeId;
use crate::ids::NodeId;
use crate::wire::EncSt;
use crate::wire::OpView;
use crate::wire::OP_APPEND_CHILDREN;
use crate::wire::OP_BUILD_FULL_ELEMENT;
use crate::wire::OP_CLONE_NODE;
use crate::wire::OP_CLONE_NODE_CHILDREN;
use crate::wire::OP_CREATE_ELEMENT;
use crate::wire::OP_CREATE_TEXT_NODE;
use crate::wire::OP_FIRST_CHILD;
use crate::wire::OP_INSERT_AFTER;
use crate::wire::OP_INSERT_BEFORE;
use crate::wire::OP_NEXT_SIBLING;
use crate::wire::OP_NO_OP;
use crate::wire::OP_PARENT_NODE;
use crate::wire::OP_REMOVE;
use crate::wire::OP_REMOVE_ATTRIBUTE;
use crate::wire::OP_REMOVE_STYLE;
use crate::wire::OP_REPLACE_WITH;
use crate::wire::OP_SET_ATTRIBUTE;
use crate::wire::OP_SET_LAST_NODE;
use crate::wire::OP_SET_STYLE;
use crate::wire::OP_SET_TEXT;
use crate::wire::OP_STOP;
use crate::wire::OP_STORE_WITH_ID;

verus! {

/// The decoder state: the current group's start, the next tag slot within
/// it, the operand cursor, and the text-stream offset.
#[verifier::ext_equal]
pub struct DecSt {
    pub group_start: int,
    pub slot: int,
    pub cursor: int,
    pub stroff: int,
}

/// The decoder's starting state: no group read yet, so the exhausted-slot
/// count forces the first group to be opened at offset zero.
pub open spec fn dec_init() -> DecSt {
    DecSt { group_start: 0, slot: 4, cursor: 0, stroff: 0 }
}

/// The decoder state that has consumed exactly what an encoder state has
/// produced.
pub open spec fn dec_of(st: EncSt) -> DecSt {
    DecSt {
        group_start: st.group_start,
        slot: st.tag_pos - st.group_start + 1,
        cursor: st.msg.len() as int,
        stroff: st.strs.len() as int,
    }
}

/// A 16-bit little-endian read.
pub open spec fn rd_u16(m: Seq<u8>, c: int) -> u16 {
    (m[c] + m[c + 1] * 256) as u16
}

/// A 32-bit little-endian read.
pub open spec fn rd_u32(m: Seq<u8>, c: int) -> u32 {
    (m[c] + m[c + 1] * 256 + m[c + 2] * 65536 + m[c + 3] * 16777216) as u32
}

/// Read a node reference's operand bytes, given its discriminant flag.
pub open spec fn dec_mid(f: bool, m: Seq<u8>, c: int) -> Option<(MaybeId, int)> {
    if f {
        if c + 4 <= m.len() {
            Option::Some((MaybeId::Node(NodeId(rd_u32(m, c))), c + 4))
        } else {
            Option::None
        }
    } else {
        Option::Some((MaybeId::LastNode, c))
    }
}

/// Read a counted list of four-byte ids.
pub open spec fn dec_ids(m: Seq<u8>, c: int, n: nat) -> Option<(Seq<NodeId>, int)>
    decreases n,
{
    if n == 0 {
        Option::Some((Seq::empty(), c))
    } else if 0 <= c && c + 4 <= m.len() {
        match dec_ids(m, c + 4, (n - 1) as nat) {
            Option::Some((rest, c2)) => Option::Some(
                (seq![NodeId(rd_u32(m, c))] + rest, c2),
            ),
            Option::None => Option::None,
        }
    } else {
        Option::None
    }
}

/// Read a discriminant-prefixed id list, closed by a zero byte.
pub open spec fn dec_prefixed_ids(m: Seq<u8>, c: int) -> Option<(Seq<NodeId>, int)>
    decreases m.len() - c,
{
    if !(0 <= c && c < m.len()) {
        Option::None
    } else if m[c] == 0 {
        Option::Some((Seq::empty(), c + 1))
    } else if m[c] == 1 && c + 5 <= m.len() {
        match dec_prefixed_ids(m, c + 5) {
            Option::Some((rest, c2)) => Option::Some(
                (seq![NodeId(rd_u32(m, c + 1))] + rest, c2),
            ),
            Option::None => Option::None,
        }
    } else {
        Option::None
    }
}

/// Read a length-prefixed text: a two-byte length from the instruction
/// stream, the bytes from the text stream.
pub open spec fn dec_text(m: Seq<u8>, s: Seq<u8>, c: int, so: int) -> Option<(Seq<u8>, int, int)> {
    if 0 <= c && c + 2 <= m.len() && 0 <= so {
        let n = rd_u16(m, c) as int;
        if so + n <= s.len() {
            Option::Some((s.subrange(so, so + n), c + 2, so + n))
        } else {
            Option::None
        }
    } else {
        Option::None
    }
}

/// Read a tag or attribute descriptor.
pub open spec fn dec_name(m: Seq<u8>, s: Seq<u8>, c: int, so: int) -> Option<
    (NameView, int, int),
> {
    if 0 <= c && c < m.len() {
        if m[c] != 255 {
            Option::Some((NameView::Code(m[c]), c + 1, so))
        } else {
            match dec_text(m, s, c + 1, so) {
                Option::Some((t, c2, so2)) => Option::Some((NameView::Custom(t), c2, so2)),
                Option::None => Option::None,
            }
        }
    } else {
        Option::None
    }
}

/// Read an optional id: a one-byte discriminant, then four id bytes.
pub open spec fn dec_opt_id(m: Seq<u8>, c: int) -> Option<(Option<NodeId>, int)> {
    if 0 <= c && c < m.len() {
        if m[c] == 0 {
            Option::Some((Option::None, c + 1))
        } else if m[c] == 1 && c + 5 <= m.len() {
            Option::Some((Option::Some(NodeId(rd_u32(m, c + 1))), c + 5))
        } else {
            Option::None
        }
    } else {
        Option::None
    }
}

/// Read one whole subtree description, depth-first.
pub open spec fn dec_element(m: Seq<u8>, s: Seq<u8>, c: int, so: int) -> Option<
    (ElementView, int, int),
>
    decreases m.len() - c, 0int,
{
    if !(0 <= c && c <= m.len() && 0 <= so && so <= s.len()) {
        Option::None
    } else {
        match dec_name(m, s, c, so) {
            Option::None => Option::None,
            Option::Some((tag, c1, so1)) => {
                if !(c < c1 <= m.len() && so <= so1 <= s.len()) {
                    Option::None
                } else {
                    match dec_opt_id(m, c1) {
                        Option::None => Option::None,
                        Option::Some((id, c2)) => {
                            if !(c2 <= m.len() && c2 + 2 <= m.len()) {
                                Option::None
                            } else {
                                let na = rd_u16(m, c2) as int;
                                match dec_attr_list(m, s, c2 + 2, so1, na as nat) {
                                    Option::None => Option::None,
                                    Option::Some((attrs, c3, so3)) => {
                                        if !(c2 + 2 <= c3 <= m.len() && so1 <= so3 <= s.len() && c3
                                            + 2 <= m.len()) {
                                            Option::None
                                        } else {
                                            let nc = rd_u16(m, c3) as int;
                                            match dec_eb_list(m, s, c3 + 2, so3, nc as nat) {
                                                Option::None => Option::None,
                                                Option::Some((children, c4, so4)) => Option::Some(
                                                    (
                                                        ElementView { id, tag, attrs, children },
                                                        c4,
                                                        so4,
                                                    ),
                                                ),
                                            }
                                        }
                                    },
                                }
                            }
                        },
                    }
                }
            },
        }
    }
}

/// Read a counted attribute list.
pub open spec fn dec_attr_list(m: Seq<u8>, s: Seq<u8>, c: int, so: int, n: nat) -> Option<
    (Seq<(NameView, Seq<u8>)>, int, int),
>
    decreases m.len() - c, 1int, n,
{
    if !(0 <= c && c <= m.len() && 0 <= so && so <= s.len()) {
        Option::None
    } else if n == 0 {
        Option::Some((Seq::empty(), c, so))
    } else {
        match dec_name(m, s, c, so) {
            Option::None => Option::None,
            Option::Some((name, c1, so1)) => {
                if !(c < c1 <= m.len() && so <= so1 <= s.len()) {
                    Option::None
                } else {
                    match dec_text(m, s, c1, so1) {
                        Option::None => Option::None,
                        Option::Some((value, c2, so2)) => {
                            if !(c1 < c2 <= m.len() && so1 <= so2 <= s.len()) {
                                Option::None
                            } else {
                                match dec_attr_list(m, s, c2, so2, (n - 1) as nat) {
                                    Option::None => Option::None,
                                    Option::Some((rest, c3, so3)) => Option::Some(
                                        (seq![(name, value)] + rest, c3, so3),
                                    ),
                                }
                            }
                        },
                    }
                }
            },
        }
    }
}

/// Read a counted child list.
pub open spec fn dec_eb_list(m: Seq<u8>, s: Seq<u8>, c: int, so: int, n: nat) -> Option<
    (Seq<ElementView>, int, int),
>
    decreases m.len() - c, 1int, n,
{
    if !(0 <= c && c <= m.len() && 0 <= so && so <= s.len()) {
        Option::None
    } else if n == 0 {
        Option::Some((Seq::empty(), c, so))
    } else {
        match dec_element(m, s, c, so) {
            Option::None => Option::None,
            Option::Some((e, c1, so1)) => {
                if !(c < c1 <= m.len() && so <= so1 <= s.len()) {
                    Option::None
                } else {
                    match dec_eb_list(m, s, c1, so1, (n - 1) as nat) {
                        Option::None => Option::None,
                        Option::Some((rest, c2, so2)) => Option::Some(
                            (seq![e] + rest, c2, so2),
                        ),
                    }
                }
            },
        }
    }
}

/// Read the operand bytes of one operation, given its tag code and the
/// two flag bits of its tag byte.
pub open spec fn dec_operands(
    code: u8,
    f0: bool,
    f1: bool,
    m: Seq<u8>,
    s: Seq<u8>,
    c: int,
    so: int,
) -> Option<(OpView, int, int)> {
    if code == OP_FIRST_CHILD {
        Option::Some((OpView::FirstChild, c, so))
    } else if code == OP_NEXT_SIBLING {
        Option::Some((OpView::NextSibling, c, so))
    } else if code == OP_PARENT_NODE {
        Option::Some((OpView::ParentNode, c, so))
    } else if code == OP_STORE_WITH_ID {
        if 0 <= c && c + 4 <= m.len() {
            Option::Some((OpView::StoreWithId { id: NodeId(rd_u32(m, c)) }, c + 4, so))
        } else {
            Option::None
        }
    } else if code == OP_SET_LAST_NODE {
        if 0 <= c && c + 4 <= m.len() {
            Option::Some((OpView::SetLastNode { id: NodeId(rd_u32(m, c)) }, c + 4, so))
        } else {
            Option::None
        }
    } else if code == OP_APPEND_CHILDREN || code == OP_REPLACE_WITH || code == OP_INSERT_AFTER
        || code == OP_INSERT_BEFORE {
        match dec_mid(f0, m, c) {
            Option::None => Option::None,
            Option::Some((root, c1)) => {
                if !f1 {
                    if 0 <= c1 && c1 + 4 <= m.len() {
                        let node = NodeId(rd_u32(m, c1));
                        let op = if code == OP_APPEND_CHILDREN {
                            OpView::AppendChild { root, child: node }
                        } else if code == OP_REPLACE_WITH {
                            OpView::ReplaceWith { root, node }
                        } else if code == OP_INSERT_AFTER {
                            OpView::InsertAfter { root, node }
                        } else {
                            OpView::InsertBefore { root, node }
                        };
                        Option::Some((op, c1 + 4, so))
                    } else {
                        Option::None
                    }
                } else {
                    if 0 <= c1 && c1 + 4 <= m.len() {
                        let n = rd_u32(m, c1) as nat;
                        match dec_ids(m, c1 + 4, n) {
                            Option::None => Option::None,
                            Option::Some((nodes, c2)) => {
                                let op = if code == OP_APPEND_CHILDREN {
                                    OpView::AppendChildren { root, children: nodes }
                                } else if code == OP_REPLACE_WITH {
                                    OpView::ReplaceWithNodes { root, nodes }
                                } else if code == OP_INSERT_AFTER {
                                    OpView::InsertNodesAfter { root, nodes }
                                } else {
                                    OpView::InsertNodesBefore { root, nodes }
                                };
                                Option::Some((op, c2, so))
                            },
                        }
                    } else {
                        Option::None
                    }
                }
            },
        }
    } else if code == OP_REMOVE {
        match dec_mid(f0, m, c) {
            Option::None => Option::None,
            Option::Some((id, c1)) => Option::Some((OpView::Remove { id }, c1, so)),
        }
    } else if code == OP_CREATE_TEXT_NODE {
        match dec_text(m, s, c, so) {
            Option::None => Option::None,
            Option::Some((text, c1, so1)) => match dec_mid(f0, m, c1) {
                Option::None => Option::None,
                Option::Some((id, c2)) => Option::Some(
                    (OpView::CreateTextNode { text, id }, c2, so1),
                ),
            },
        }
    } else if code == OP_CREATE_ELEMENT {
        match dec_name(m, s, c, so) {
            Option::None => Option::None,
            Option::Some((tag, c1, so1)) => {
                if f0 {
                    if 0 <= c1 && c1 + 4 <= m.len() {
                        Option::Some(
                            (
                                OpView::CreateElement {
                                    tag,
                                    id: Option::Some(NodeId(rd_u32(m, c1))),
                                },
                                c1 + 4,
                                so1,
                            ),
                        )
                    } else {
                        Option::None
                    }
                } else {
                    Option::Some((OpView::CreateElement { tag, id: Option::None }, c1, so1))
                }
            },
        }
    } else if code == OP_SET_TEXT {
        match dec_mid(f0, m, c) {
            Option::None => Option::None,
            Option::Some((root, c1)) => match dec_text(m, s, c1, so) {
                Option::None => Option::None,
                Option::Some((text, c2, so2)) => Option::Some(
                    (OpView::SetText { root, text }, c2, so2),
                ),
            },
        }
    } else if code == OP_SET_ATTRIBUTE {
        match dec_mid(f0, m, c) {
            Option::None => Option::None,
            Option::Some((root, c1)) => match dec_name(m, s, c1, so) {
                Option::None => Option::None,
                Option::Some((attr, c2, so2)) => match dec_text(m, s, c2, so2) {
                    Option::None => Option::None,
                    Option::Some((value, c3, so3)) => Option::Some(
                        (OpView::SetAttribute { root, attr, value }, c3, so3),
                    ),
                },
            },
        }
    } else if code == OP_REMOVE_ATTRIBUTE {
        match dec_mid(f0, m, c) {
            Option::None => Option::None,
            Option::Some((root, c1)) => match dec_name(m, s, c1, so) {
                Option::None => Option::None,
                Option::Some((attr, c2, so2)) => Option::Some(
                    (OpView::RemoveAttribute { root, attr }, c2, so2),
                ),
            },
        }
    } else if code == OP_SET_STYLE {
        match dec_mid(f0, m, c) {
            Option::None => Option::None,
            Option::Some((id, c1)) => match dec_text(m, s, c1, so) {
                Option::None => Option::None,
                Option::Some((style, c2, so2)) => match dec_text(m, s, c2, so2) {
                    Option::None => Option::None,
                    Option::Some((value, c3, so3)) => Option::Some(
                        (OpView::SetStyle { id, style, value }, c3, so3),
                    ),
                },
            },
        }
    } else if code == OP_REMOVE_STYLE {
        match dec_mid(f0, m, c) {
            Option::None => Option::None,
            Option::Some((id, c1)) => match dec_text(m, s, c1, so) {
                Option::None => Option::None,
                Option::Some((style, c2, so2)) => Option::Some(
                    (OpView::RemoveStyle { id, style }, c2, so2),
                ),
            },
        }
    } else if code == OP_CLONE_NODE {
        match dec_mid(f0, m, c) {
            Option::None => Option::None,
            Option::Some((id, c1)) => match dec_mid(f1, m, c1) {
                Option::None => Option::None,
                Option::Some((new_id, c2)) => Option::Some(
                    (OpView::CloneNode { id, new_id }, c2, so),
                ),
            },
        }
    } else if code == OP_CLONE_NODE_CHILDREN {
        match dec_mid(f0, m, c) {
            Option::None => Option::None,
            Option::Some((id, c1)) => match dec_prefixed_ids(m, c1) {
                Option::None => Option::None,
                Option::Some((new_ids, c2)) => Option::Some(
                    (OpView::CloneNodeChildren { id, new_ids }, c2, so),
                ),
            },
        }
    } else if code == OP_BUILD_FULL_ELEMENT {
        match dec_element(m, s, c, so) {
            Option::None => Option::None,
            Option::Some((root, c1, so1)) => Option::Some(
                (OpView::BuildFullElement { root }, c1, so1),
            ),
        }
    } else {
        Option::None
    }
}

/// Run the decoder from a state until the `Stop` tag: the semantic
/// operations (padding skipped) and the raw tag codes read, terminator
/// included.
pub open spec fn dec_run(m: Seq<u8>, s: Seq<u8>, st: DecSt) -> Option<(Seq<OpView>, Seq<u8>)>
    decreases m.len() - st.cursor, 4 - st.slot,
{
    if !(0 <= st.cursor <= m.len() && 0 <= st.slot <= 4 && 0 <= st.stroff <= s.len()) {
        Option::None
    } else if st.slot == 4 {
        if st.cursor + 4 <= m.len() {
            dec_run(
                m,
                s,
                DecSt { group_start: st.cursor, slot: 0, cursor: st.cursor + 4, stroff: st.stroff },
            )
        } else {
            Option::None
        }
    } else {
        let gpos = st.group_start + st.slot;
        if !(0 <= gpos < m.len()) {
            Option::None
        } else {
            let tb = m[gpos];
            let code = (tb % 32) as u8;
            let f0 = (tb / 32) % 2 == 1;
            let f1 = (tb / 64) % 2 == 1;
            if code == OP_STOP {
                Option::Some((Seq::empty(), seq![OP_STOP]))
            } else if code == OP_NO_OP {
                match dec_run(m, s, DecSt { slot: st.slot + 1, ..st }) {
                    Option::None => Option::None,
                    Option::Some((ops, codes)) => Option::Some((ops, seq![OP_NO_OP] + codes)),
                }
            } else {
                match dec_operands(code, f0, f1, m, s, st.cursor, st.stroff) {
                    Option::None => Option::None,
                    Option::Some((op, c2, so2)) => {
                        if !(st.cursor <= c2 <= m.len() && st.stroff <= so2 <= s.len()) {
                            Option::None
                        } else {
                            match dec_run(
                                m,
                                s,
                                DecSt { slot: st.slot + 1, cursor: c2, stroff: so2, ..st },
                            ) {
                                Option::None => Option::None,
                                Option::Some((ops, codes)) => Option::Some(
                                    (seq![op] + ops, seq![code] + codes),
                                ),
                            }
                        }
                    },
                }
            }
        }
    }
}

/// The semantic content of an operation log: padding dropped.
pub open spec fn semantic_ops(ops: Seq<OpView>) -> Seq<OpView>
    decreases ops.len(),
{
    if ops.len() == 0 {
        Seq::empty()
    } else if ops[0] is NoOp {
        semantic_ops(ops.subrange(1, ops.len() as int))
    } else {
        seq![ops[0]] + semantic_ops(ops.subrange(1, ops.len() as int))
    }
}

/// The raw tag codes of an operation log, in order.
pub open spec fn op_codes(ops: Seq<OpView>) -> Seq<u8>
    decreases ops.len(),
{
    if ops.len() == 0 {
        Seq::empty()
    } else {
        seq![crate::wire::op_code_of(ops[0])] + op_codes(ops.subrange(1, ops.len() as int))
    }
}

/// Decode a full instruction/text stream pair from the start.
pub open spec fn spec_decode(m: Seq<u8>, s: Seq<u8>) -> Option<Seq<OpView>> {
    match dec_run(m, s, dec_init()) {
        Option::Some((ops, codes)) => Option::Some(ops),
        Option::None => Option::None,
    }
}

/// A decoded operation, with owned operand values.
#[derive(Debug, PartialEq, Eq)]
pub enum Operation {
    FirstChild,
    NextSibling,
    ParentNode,
    StoreWithId { id: NodeId },
    SetLastNode { id: NodeId },
    AppendChild { root: MaybeId, child: NodeId },
    AppendChildren { root: MaybeId, children: Vec<NodeId> },
    ReplaceWith { root: MaybeId, node: NodeId },
    ReplaceWithNodes { root: MaybeId, nodes: Vec<NodeId> },
    InsertAfter { root: MaybeId, node: NodeId },
    InsertNodesAfter { root: MaybeId, nodes: Vec<NodeId> },
    InsertBefore { root: MaybeId, node: NodeId },
    InsertNodesBefore { root: MaybeId, nodes: Vec<NodeId> },
    Remove { id: MaybeId },
    CreateTextNode { text: Vec<u8>, id: MaybeId },
    CreateElement { tag: TagName, id: Option<NodeId> },
    SetText { root: MaybeId, text: Vec<u8> },
    SetAttribute { root: MaybeId, attr: AttrName, value: Vec<u8> },
    RemoveAttribute { root: MaybeId, attr: AttrName },
    SetStyle { id: MaybeId, style: Vec<u8>, value: Vec<u8> },
    RemoveStyle { id: MaybeId, style: Vec<u8> },
    CloneNode { id: MaybeId, new_id: MaybeId },
    CloneNodeChildren { id: MaybeId, new_ids: Vec<NodeId> },
    BuildFullElement { root: ElementBuilder },
    NoOp,
}

impl View for Operation {
    type V = OpView;

    open spec fn view(&self) -> OpView {
        match self {
            Operation::FirstChild => OpView::FirstChild,
            Operation::NextSibling => OpView::NextSibling,
            Operation::ParentNode => OpView::ParentNode,
            Operation::StoreWithId { id } => OpView::StoreWithId { id: *id },
            Operation::SetLastNode { id } => OpView::SetLastNode { id: *id },
            Operation::AppendChild { root, child } => OpView::AppendChild {
                root: *root,
                child: *child,
            },
            Operation::AppendChildren { root, children } => OpView::AppendChildren {
                root: *root,
                children: children@,
            },
            Operation::ReplaceWith { root, node } => OpView::ReplaceWith {
                root: *root,
                node: *node,
            },
            Operation::ReplaceWithNodes { root, nodes } => OpView::ReplaceWithNodes {
                root: *root,
                nodes: nodes@,
            },
            Operation::InsertAfter { root, node } => OpView::InsertAfter {
                root: *root,
                node: *node,
            },
            Operation::InsertNodesAfter { root, nodes } => OpView::InsertNodesAfter {
                root: *root,
                nodes: nodes@,
            },
            Operation::InsertBefore { root, node } => OpView::InsertBefore {
                root: *root,
                node: *node,
            },
            Operation::InsertNodesBefore { root, nodes } => OpView::InsertNodesBefore {
                root: *root,
                nodes: nodes@,
            },
            Operation::Remove { id } => OpView::Remove { id: *id },
            Operation::CreateTextNode { text, id } => OpView::CreateTextNode {
                text: text@,
                id: *id,
            },
            Operation::CreateElement { tag, id } => OpView::CreateElement {
                tag: tag@,
                id: *id,
            },
            Operation::SetText { root, text } => OpView::SetText { root: *root, text: text@ },
            Operation::SetAttribute { root, attr, value } => OpView::SetAttribute {
                root: *root,
                attr: attr@,
                value: value@,
            },
            Operation::RemoveAttribute { root, attr } => OpView::RemoveAttribute {
                root: *root,
                attr: attr@,
            },
            Operation::SetStyle { id, style, value } => OpView::SetStyle {
                id: *id,
                style: style@,
                value: value@,
            },
            Operation::RemoveStyle { id, style } => OpView::RemoveStyle {
                id: *id,
                style: style@,
            },
            Operation::CloneNode { id, new_id } => OpView::CloneNode {
                id: *id,
                new_id: *new_id,
            },
            Operation::CloneNodeChildren { id, new_ids } => OpView::CloneNodeChildren {
                id: *id,
                new_ids: new_ids@,
            },
            Operation::BuildFullElement { root } => OpView::BuildFullElement {
                root: eb_view(*root),
            },
            Operation::NoOp => OpView::NoOp,
        }
    }
}

/// The views of a decoded operation list.
pub open spec fn ops_view(s: Seq<Operation>) -> Seq<OpView> {
    s.map_values(|o: Operation| o@)
}

fn copy_range(s: &Vec<u8>, a: usize, b: usize) -> (r: Vec<u8>)
    requires
        a <= b <= s@.len(),
    ensures
        r@ == s@.subrange(a as int, b as int),
{
    let mut r: Vec<u8> = Vec::new();
    proof {
        assert(r@ =~= s@.subrange(a as int, a as int));
    }
    let mut i: usize = a;
    while i < b
        invariant
            a <= i <= b <= s@.len(),
            r@ == s@.subrange(a as int, i as int),
        decreases b - i,
    {
        r.push(s[i]);
        proof {
            assert(s@.subrange(a as int, i as int + 1) =~= s@.subrange(a as int, i as int).push(
                s@[i as int],
            ));
        }
        i = i + 1;
    }
    r
}

fn take_u16(m: &Vec<u8>, c: usize) -> (r: u16)
    requires
        c + 2 <= m@.len(),
    ensures
        r == rd_u16(m@, c as int),
{
    let _len = m.len();
    (m[c] as u16) + (m[c + 1] as u16) * 256
}

fn take_u32(m: &Vec<u8>, c: usize) -> (r: u32)
    requires
        c + 4 <= m@.len(),
    ensures
        r == rd_u32(m@, c as int),
{
    let _len = m.len();
    (m[c] as u32) + (m[c + 1] as u32) * 256 + (m[c + 2] as u32) * 65536 + (m[c + 3] as u32)
        * 16777216
}

fn dec_mid_x(f: bool, m: &Vec<u8>, c: usize) -> (r: Option<(MaybeId, usize)>)
    requires
        c <= m@.len(),
    ensures
        match r {
            Option::Some((v, c2)) => dec_mid(f, m@, c as int) == Option::Some((v, c2 as int))
                && c <= c2 <= m@.len(),
            Option::None => dec_mid(f, m@, c as int) is None,
        },
{
    if f {
        if m.len() - c >= 4 {
            Option::Some((MaybeId::Node(NodeId(take_u32(m, c))), c + 4))
        } else {
            Option::None
        }
    } else {
        Option::Some((MaybeId::LastNode, c))
    }
}

fn dec_ids_x(m: &Vec<u8>, c: usize, n: u32) -> (r: Option<(Vec<NodeId>, usize)>)
    requires
        c <= m@.len(),
    ensures
        match r {
            Option::Some((v, c2)) => dec_ids(m@, c as int, n as nat) == Option::Some(
                (v@, c2 as int),
            ) && c <= c2 <= m@.len(),
            Option::None => dec_ids(m@, c as int, n as nat) is None,
        },
    decreases n,
{
    if n == 0 {
        Option::Some((Vec::new(), c))
    } else if m.len() - c >= 4 {
        let id = NodeId(take_u32(m, c));
        match dec_ids_x(m, c + 4, n - 1) {
            Option::Some((rest, c2)) => {
                let mut v = rest;
                let ghost old_v = v@;
                v.insert(0, id);
                proof {
                    assert(v@ =~= seq![id] + old_v);
                }
                Option::Some((v, c2))
            },
            Option::None => Option::None,
        }
    } else {
        Option::None
    }
}

fn dec_prefixed_ids_x(m: &Vec<u8>, c: usize) -> (r: Option<(Vec<NodeId>, usize)>)
    requires
        c <= m@.len(),
    ensures
        match r {
            Option::Some((v, c2)) => dec_prefixed_ids(m@, c as int) == Option::Some(
                (v@, c2 as int),
            ) && c <= c2 <= m@.len(),
            Option::None => dec_prefixed_ids(m@, c as int) is None,
        },
    decreases m@.len() - c,
{
    if c >= m.len() {
        Option::None
    } else if m[c] == 0 {
        Option::Some((Vec::new(), c + 1))
    } else if m[c] == 1 && m.len() - c >= 5 {
        let id = NodeId(take_u32(m, c + 1));
        match dec_prefixed_ids_x(m, c + 5) {
            Option::Some((rest, c2)) => {
                let mut v = rest;
                let ghost old_v = v@;
                v.insert(0, id);
                proof {
                    assert(v@ =~= seq![id] + old_v);
                }
                Option::Some((v, c2))
            },
            Option::None => Option::None,
        }
    } else {
        Option::None
    }
}

fn dec_text_x(m: &Vec<u8>, s: &Vec<u8>, c: usize, so: usize) -> (r: Option<(Vec<u8>, usize, usize)>)
    requires
        c <= m@.len(),
        so <= s@.len(),
    ensures
        match r {
            Option::Some((t, c2, so2)) => dec_text(m@, s@, c as int, so as int) == Option::Some(
                (t@, c2 as int, so2 as int),
            ) && c <= c2 <= m@.len() && so <= so2 <= s@.len(),
            Option::None => dec_text(m@, s@, c as int, so as int) is None,
        },
{
    if m.len() - c >= 2 {
        let n = take_u16(m, c) as usize;
        if s.len() - so >= n {
            Option::Some((copy_range(s, so, so + n), c + 2, so + n))
        } else {
            Option::None
        }
    } else {
        Option::None
    }
}

fn dec_tag_name_x(m: &Vec<u8>, s: &Vec<u8>, c: usize, so: usize) -> (r: Option<
    (TagName, usize, usize),
>)
    requires
        c <= m@.len(),
        so <= s@.len(),
    ensures
        match r {
            Option::Some((t, c2, so2)) => dec_name(m@, s@, c as int, so as int) == Option::Some(
                (t@, c2 as int, so2 as int),
            ) && c < c2 <= m@.len() && so <= so2 <= s@.len(),
            Option::None => dec_name(m@, s@, c as int, so as int) is None,
        },
{
    if c < m.len() {
        let b = m[c];
        if b != 255 {
            Option::Some((TagName::Code(b), c + 1, so))
        } else {
            match dec_text_x(m, s, c + 1, so) {
                Option::Some((t, c2, so2)) => Option::Some((TagName::Custom(t), c2, so2)),
                Option::None => Option::None,
            }
        }
    } else {
        Option::None
    }
}

fn dec_attr_name_x(m: &Vec<u8>, s: &Vec<u8>, c: usize, so: usize) -> (r: Option<
    (AttrName, usize, usize),
>)
    requires
        c <= m@.len(),
        so <= s@.len(),
    ensures
        match r {
            Option::Some((t, c2, so2)) => dec_name(m@, s@, c as int, so as int) == Option::Some(
                (t@, c2 as int, so2 as int),
            ) && c < c2 <= m@.len() && so <= so2 <= s@.len(),
            Option::None => dec_name(m@, s@, c as int, so as int) is None,
        },
{
    if c < m.len() {
        let b = m[c];
        if b != 255 {
            Option::Some((AttrName::Code(b), c + 1, so))
        } else {
            match dec_text_x(m, s, c + 1, so) {
                Option::Some((t, c2, so2)) => Option::Some((AttrName::Custom(t), c2, so2)),
                Option::None => Option::None,
            }
        }
    } else {
        Option::None
    }
}

fn dec_opt_id_x(m: &Vec<u8>, c: usize) -> (r: Option<(Option<NodeId>, usize)>)
    requires
        c <= m@.len(),
    ensures
        match r {
            Option::Some((v, c2)) => dec_opt_id(m@, c as int) == Option::Some((v, c2 as int)) && c
                < c2 <= m@.len(),
            Option::None => dec_opt_id(m@, c as int) is None,
        },
{
    if c < m.len() {
        if m[c] == 0 {
            Option::Some((Option::None, c + 1))
        } else if m[c] == 1 && m.len() - c >= 5 {
            Option::Some((Option::Some(NodeId(take_u32(m, c + 1))), c + 5))
        } else {
            Option::None
        }
    } else {
        Option::None
    }
}

fn dec_element_x(m: &Vec<u8>, s: &Vec<u8>, c: usize, so: usize) -> (r: Option<
    (ElementBuilder, usize, usize),
>)
    requires
        c <= m@.len(),
        so <= s@.len(),
    ensures
        match r {
            Option::Some((e, c2, so2)) => dec_element(m@, s@, c as int, so as int) == Option::Some(
                (eb_view(e), c2 as int, so2 as int),
            ) && c < c2 <= m@.len() && so <= so2 <= s@.len(),
            Option::None => dec_element(m@, s@, c as int, so as int) is None,
        },
    decreases m@.len() - c, 0int,
{
    match dec_tag_name_x(m, s, c, so) {
        Option::None => Option::None,
        Option::Some((tag, c1, so1)) => {
            match dec_opt_id_x(m, c1) {
                Option::None => Option::None,
                Option::Some((id, c2)) => {
                    if m.len() - c2 >= 2 {
                        let na = take_u16(m, c2);
                        match dec_attr_list_x(m, s, c2 + 2, so1, na) {
                            Option::None => Option::None,
                            Option::Some((attrs, c3, so3)) => {
                                if m.len() - c3 >= 2 {
                                    let nc = take_u16(m, c3);
                                    match dec_eb_list_x(m, s, c3 + 2, so3, nc) {
                                        Option::None => Option::None,
                                        Option::Some((children, c4, so4)) => {
                                            let e = ElementBuilder { id, tag, attrs, children };
                                            proof {
                                                assert(eb_view(e).attrs =~= e.attrs@.map_values(
                                                    |a: (AttrName, Vec<u8>)| (a.0@, a.1@),
                                                ));
                                            }
                                            Option::Some((e, c4, so4))
                                        },
                                    }
                                } else {
                                    Option::None
                                }
                            },
                        }
                    } else {
                        Option::None
                    }
                },
            }
        },
    }
}

fn dec_attr_list_x(m: &Vec<u8>, s: &Vec<u8>, c: usize, so: usize, n: u16) -> (r: Option<
    (Vec<(AttrName, Vec<u8>)>, usize, usize),
>)
    requires
        c <= m@.len(),
        so <= s@.len(),
    ensures
        match r {
            Option::Some((v, c2, so2)) => dec_attr_list(m@, s@, c as int, so as int, n as nat)
                == Option::Some(
                (v@.map_values(|a: (AttrName, Vec<u8>)| (a.0@, a.1@)), c2 as int, so2 as int),
            ) && c <= c2 <= m@.len() && so <= so2 <= s@.len(),
            Option::None => dec_attr_list(m@, s@, c as int, so as int, n as nat) is None,
        },
    decreases m@.len() - c, 1int, n,
{
    if n == 0 {
        let v: Vec<(AttrName, Vec<u8>)> = Vec::new();
        proof {
            assert(v@.map_values(|a: (AttrName, Vec<u8>)| (a.0@, a.1@)) =~= Seq::<
                (NameView, Seq<u8>),
            >::empty());
        }
        Option::Some((v, c, so))
    } else {
        match dec_attr_name_x(m, s, c, so) {
            Option::None => Option::None,
            Option::Some((name, c1, so1)) => {
                match dec_text_x(m, s, c1, so1) {
                    Option::None => Option::None,
                    Option::Some((value, c2, so2)) => {
                        if c1 < c2 {
                            match dec_attr_list_x(m, s, c2, so2, n - 1) {
                                Option::None => Option::None,
                                Option::Some((rest, c3, so3)) => {
                                    let mut v = rest;
                                    let ghost old_v = v@;
                                    v.insert(0, (name, value));
                                    proof {
                                        assert(v@ =~= seq![(name, value)] + old_v);
                                        assert(v@.map_values(
                                            |a: (AttrName, Vec<u8>)| (a.0@, a.1@),
                                        ) =~= seq![(name@, value@)] + old_v.map_values(
                                            |a: (AttrName, Vec<u8>)| (a.0@, a.1@),
                                        ));
                                    }
                                    Option::Some((v, c3, so3))
                                },
                            }
                        } else {
                            Option::None
                        }
                    },
                }
            },
        }
    }
}

fn dec_eb_list_x(m: &Vec<u8>, s: &Vec<u8>, c: usize, so: usize, n: u16) -> (r: Option<
    (Vec<ElementBuilder>, usize, usize),
>)
    requires
        c <= m@.len(),
        so <= s@.len(),
    ensures
        match r {
            Option::Some((v, c2, so2)) => dec_eb_list(m@, s@, c as int, so as int, n as nat)
                == Option::Some((ebs_view(v@), c2 as int, so2 as int)) && c <= c2 <= m@.len() && so
                <= so2 <= s@.len(),
            Option::None => dec_eb_list(m@, s@, c as int, so as int, n as nat) is None,
        },
    decreases m@.len() - c, 1int, n,
{
    if n == 0 {
        let v: Vec<ElementBuilder> = Vec::new();
        Option::Some((v, c, so))
    } else {
        match dec_element_x(m, s, c, so) {
            Option::None => Option::None,
            Option::Some((e, c1, so1)) => {
                match dec_eb_list_x(m, s, c1, so1, n - 1) {
                    Option::None => Option::None,
                    Option::Some((rest, c2, so2)) => {
                        let mut v = rest;
                        let ghost old_v = v@;
                        v.insert(0, e);
                        proof {
                            assert(v@ =~= seq![e] + old_v);
                            assert((seq![e] + old_v).subrange(1, (seq![e] + old_v).len() as int)
                                =~= old_v);
                            assert(ebs_view(v@) =~= seq![eb_view(e)] + ebs_view(old_v));
                        }
                        Option::Some((v, c2, so2))
                    },
                }
            },
        }
    }
}

fn dec_operands_x(code: u8, f0: bool, f1: bool, m: &Vec<u8>, s: &Vec<u8>, c: usize, so: usize) -> (r:
    Option<(Operation, usize, usize)>)
    requires
        c <= m@.len(),
        so <= s@.len(),
    ensures
        match r {
            Option::Some((op, c2, so2)) => dec_operands(code, f0, f1, m@, s@, c as int, so as int)
                == Option::Some((op@, c2 as int, so2 as int)) && c <= c2 <= m@.len() && so <= so2
                <= s@.len(),
            Option::None => dec_operands(code, f0, f1, m@, s@, c as int, so as int) is None,
        },
{
    if code == OP_FIRST_CHILD {
        Option::Some((Operation::FirstChild, c, so))
    } else if code == OP_NEXT_SIBLING {
        Option::Some((Operation::NextSibling, c, so))
    } else if code == OP_PARENT_NODE {
        Option::Some((Operation::ParentNode, c, so))
    } else if code == OP_STORE_WITH_ID {
        if m.len() - c >= 4 {
            Option::Some((Operation::StoreWithId { id: NodeId(take_u32(m, c)) }, c + 4, so))
        } else {
            Option::None
        }
    } else if code == OP_SET_LAST_NODE {
        if m.len() - c >= 4 {
            Option::Some((Operation::SetLastNode { id: NodeId(take_u32(m, c)) }, c + 4, so))
        } else {
            Option::None
        }
    } else if code == OP_APPEND_CHILDREN || code == OP_REPLACE_WITH || code == OP_INSERT_AFTER
        || code == OP_INSERT_BEFORE {
        match dec_mid_x(f0, m, c) {
            Option::None => Option::None,
            Option::Some((root, c1)) => {
                if !f1 {
                    if m.len() - c1 >= 4 {
                        let node = NodeId(take_u32(m, c1));
                        let op = if code == OP_APPEND_CHILDREN {
                            Operation::AppendChild { root, child: node }
                        } else if code == OP_REPLACE_WITH {
                            Operation::ReplaceWith { root, node }
                        } else if code == OP_INSERT_AFTER {
                            Operation::InsertAfter { root, node }
                        } else {
                            Operation::InsertBefore { root, node }
                        };
                        Option::Some((op, c1 + 4, so))
                    } else {
                        Option::None
                    }
                } else {
                    if m.len() - c1 >= 4 {
                        let n = take_u32(m, c1);
                        match dec_ids_x(m, c1 + 4, n) {
                            Option::None => Option::None,
                            Option::Some((nodes, c2)) => {
                                let op = if code == OP_APPEND_CHILDREN {
                                    Operation::AppendChildren { root, children: nodes }
                                } else if code == OP_REPLACE_WITH {
                                    Operation::ReplaceWithNodes { root, nodes }
                                } else if code == OP_INSERT_AFTER {
                                    Operation::InsertNodesAfter { root, nodes }
                                } else {
                                    Operation::InsertNodesBefore { root, nodes }
                                };
                                Option::Some((op, c2, so))
                            },
                        }
                    } else {
                        Option::None
                    }
                }
            },
        }
    } else if code == OP_REMOVE {
        match dec_mid_x(f0, m, c) {
            Option::None => Option::None,
            Option::Some((id, c1)) => Option::Some((Operation::Remove { id }, c1, so)),
        }
    } else if code == OP_CREATE_TEXT_NODE {
        match dec_text_x(m, s, c, so) {
            Option::None => Option::None,
            Option::Some((text, c1, so1)) => match dec_mid_x(f0, m, c1) {
                Option::None => Option::None,
                Option::Some((id, c2)) => Option::Some(
                    (Operation::CreateTextNode { text, id }, c2, so1),
                ),
            },
        }
    } else if code == OP_CREATE_ELEMENT {
        match dec_tag_name_x(m, s, c, so) {
            Option::None => Option::None,
            Option::Some((tag, c1, so1)) => {
                if f0 {
                    if m.len() - c1 >= 4 {
                        Option::Some(
                            (
                                Operation::CreateElement {
                                    tag,
                                    id: Option::Some(NodeId(take_u32(m, c1))),
                                },
                                c1 + 4,
                                so1,
                            ),
                        )
                    } else {
                        Option::None
                    }
                } else {
                    Option::Some((Operation::CreateElement { tag, id: Option::None }, c1, so1))
                }
            },
        }
    } else if code == OP_SET_TEXT {
        match dec_mid_x(f0, m, c) {
            Option::None => Option::None,
            Option::Some((root, c1)) => match dec_text_x(m, s, c1, so) {
                Option::None => Option::None,
                Option::Some((text, c2, so2)) => Option::Some(
                    (Operation::SetText { root, text }, c2, so2),
                ),
            },
        }
    } else if code == OP_SET_ATTRIBUTE {
        match dec_mid_x(f0, m, c) {
            Option::None => Option::None,
            Option::Some((root, c1)) => match dec_attr_name_x(m, s, c1, so) {
                Option::None => Option::None,
                Option::Some((attr, c2, so2)) => match dec_text_x(m, s, c2, so2) {
                    Option::None => Option::None,
                    Option::Some((value, c3, so3)) => Option::Some(
                        (Operation::SetAttribute { root, attr, value }, c3, so3),
                    ),
                },
            },
        }
    } else if code == OP_REMOVE_ATTRIBUTE {
        match dec_mid_x(f0, m, c) {
            Option::None => Option::None,
            Option::Some((root, c1)) => match dec_attr_name_x(m, s, c1, so) {
                Option::None => Option::None,
                Option::Some((attr, c2, so2)) => Option::Some(
                    (Operation::RemoveAttribute { root, attr }, c2, so2),
                ),
            },
        }
    } else if code == OP_SET_STYLE {
        match dec_mid_x(f0, m, c) {
            Option::None => Option::None,
            Option::Some((id, c1)) => match dec_text_x(m, s, c1, so) {
                Option::None => Option::None,
                Option::Some((style, c2, so2)) => match dec_text_x(m, s, c2, so2) {
                    Option::None => Option::None,
                    Option::Some((value, c3, so3)) => Option::Some(
                        (Operation::SetStyle { id, style, value }, c3, so3),
                    ),
                },
            },
        }
    } else if code == OP_REMOVE_STYLE {
        match dec_mid_x(f0, m, c) {
            Option::None => Option::None,
            Option::Some((id, c1)) => match dec_text_x(m, s, c1, so) {
                Option::None => Option::None,
                Option::Some((style, c2, so2)) => Option::Some(
                    (Operation::RemoveStyle { id, style }, c2, so2),
                ),
            },
        }
    } else if code == OP_CLONE_NODE {
        match dec_mid_x(f0, m, c) {
            Option::None => Option::None,
            Option::Some((id, c1)) => match dec_mid_x(f1, m, c1) {
                Option::None => Option::None,
                Option::Some((new_id, c2)) => Option::Some(
                    (Operation::CloneNode { id, new_id }, c2, so),
                ),
            },
        }
    } else if code == OP_CLONE_NODE_CHILDREN {
        match dec_mid_x(f0, m, c) {
            Option::None => Option::None,
            Option::Some((id, c1)) => match dec_prefixed_ids_x(m, c1) {
                Option::None => Option::None,
                Option::Some((new_ids, c2)) => Option::Some(
                    (Operation::CloneNodeChildren { id, new_ids }, c2, so),
                ),
            },
        }
    } else if code == OP_BUILD_FULL_ELEMENT {
        match dec_element_x(m, s, c, so) {
            Option::None => Option::None,
            Option::Some((root, c1, so1)) => Option::Some(
                (Operation::BuildFullElement { root }, c1, so1),
            ),
        }
    } else {
        Option::None
    }
}

fn dec_run_x(
    m: &Vec<u8>,
    s: &Vec<u8>,
    group_start: usize,
    slot: u8,
    cursor: usize,
    stroff: usize,
) -> (r: Option<Vec<Operation>>)
    requires
        cursor <= m@.len(),
        stroff <= s@.len(),
        slot <= 4,
    ensures
        ({
            let d = DecSt {
                group_start: group_start as int,
                slot: slot as int,
                cursor: cursor as int,
                stroff: stroff as int,
            };
            match r {
                Option::Some(v) => match dec_run(m@, s@, d) {
                    Option::Some((ops, codes)) => ops_view(v@) == ops,
                    Option::None => false,
                },
                Option::None => dec_run(m@, s@, d) is None,
            }
        }),
    decreases m@.len() - cursor, 4 - slot,
{
    if slot == 4 {
        if m.len() - cursor >= 4 {
            dec_run_x(m, s, cursor, 0, cursor + 4, stroff)
        } else {
            Option::None
        }
    } else {
        if group_start < m.len() && (slot as usize) < m.len() - group_start {
            let gpos = group_start + slot as usize;
            let tb = m[gpos];
            let code = tb % 32;
            let f0 = (tb / 32) % 2 == 1;
            let f1 = (tb / 64) % 2 == 1;
            if code == OP_STOP {
                let v: Vec<Operation> = Vec::new();
                proof {
                    assert(ops_view(v@) =~= Seq::<OpView>::empty());
                }
                Option::Some(v)
            } else if code == OP_NO_OP {
                dec_run_x(m, s, group_start, slot + 1, cursor, stroff)
            } else {
                match dec_operands_x(code, f0, f1, m, s, cursor, stroff) {
                    Option::None => Option::None,
                    Option::Some((op, c2, so2)) => {
                        match dec_run_x(m, s, group_start, slot + 1, c2, so2) {
                            Option::None => Option::None,
                            Option::Some(rest) => {
                                let mut v = rest;
                                let ghost old_v = v@;
                                v.insert(0, op);
                                proof {
                                    assert(v@ =~= seq![op] + old_v);
                                    assert(ops_view(v@) =~= seq![op@] + ops_view(old_v));
                                }
                                Option::Some(v)
                            },
                        }
                    },
                }
            }
        } else {
            Option::None
        }
    }
}

/// Decode a finalized batch against the reference decoder: the exact
/// sequence of operations and operand values, or nothing if the stream is
/// malformed.
pub fn decode_streams(msg: &Vec<u8>, strs: &Vec<u8>) -> (r: Option<Vec<Operation>>)
    ensures
        match r {
            Option::Some(v) => spec_decode(msg@, strs@) == Option::Some(ops_view(v@)),
            Option::None => spec_decode(msg@, strs@) is None,
        },
{
    dec_run_x(msg, strs, 0, 4, 0, 0)
}

} // verus!
