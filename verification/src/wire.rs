//! The wire format, as a mathematical state machine.
//!
//! An encoded batch is a pair of byte streams. The instruction stream holds
//! four-byte tag groups: every fourth instruction reserves a fresh four-byte
//! block, and up to four consecutive operation tags are written into that
//! block while each instruction's operand bytes are appended at the current
//! end of the stream. A tag occupies the low five bits of its byte; the top
//! three bits carry up to three boolean flags of the same instruction. Text
//! is never inlined: the instruction stream holds a two-byte little-endian
//! length and the bytes themselves go to the text stream.
//!
//! Node identifiers are always four bytes, little-endian: this format
//! fixes the id width rather than negotiating a smaller one, trading a
//! few bytes for a decoder without per-id branching.

use vstd::prelude::*;

use crate::element::eb_msg_bytes;
use crate::element::eb_text_bytes;
use crate::element::eb_valid;
use crate::element::name_msg_bytes;
use crate::element::name_text_bytes;
use crate::element::name_valid;
use crate::element::ElementView;
use crate::element::NameView;
use crate::ids::MaybeId;
use crate::ids::NodeId;

verus! {

pub const OP_FIRST_CHILD: u8 = 0;

pub const OP_NEXT_SIBLING: u8 = 1;

pub const OP_PARENT_NODE: u8 = 2;

pub const OP_STORE_WITH_ID: u8 = 3;

pub const OP_SET_LAST_NODE: u8 = 4;

pub const OP_STOP: u8 = 5;

pub const OP_BUILD_FULL_ELEMENT: u8 = 6;

pub const OP_APPEND_CHILDREN: u8 = 7;

pub const OP_REPLACE_WITH: u8 = 8;

pub const OP_INSERT_AFTER: u8 = 9;

pub const OP_INSERT_BEFORE: u8 = 10;

pub const OP_REMOVE: u8 = 11;

pub const OP_CREATE_TEXT_NODE: u8 = 12;

pub const OP_CREATE_ELEMENT: u8 = 13;

pub const OP_SET_TEXT: u8 = 14;

pub const OP_SET_ATTRIBUTE: u8 = 15;

pub const OP_REMOVE_ATTRIBUTE: u8 = 16;

pub const OP_SET_STYLE: u8 = 17;

pub const OP_REMOVE_STYLE: u8 = 18;

pub const OP_CLONE_NODE: u8 = 19;

pub const OP_CLONE_NODE_CHILDREN: u8 = 20;

pub const OP_NO_OP: u8 = 21;

/// The logical value of one encoded operation: the operation kind together
/// with its operand values. `Stop` is not an operation; it is the stream
/// terminator appended when a batch is finalized.
pub enum OpView {
    FirstChild,
    NextSibling,
    ParentNode,
    StoreWithId { id: NodeId },
    SetLastNode { id: NodeId },
    AppendChild { root: MaybeId, child: NodeId },
    AppendChildren { root: MaybeId, children: Seq<NodeId> },
    ReplaceWith { root: MaybeId, node: NodeId },
    ReplaceWithNodes { root: MaybeId, nodes: Seq<NodeId> },
    InsertAfter { root: MaybeId, node: NodeId },
    InsertNodesAfter { root: MaybeId, nodes: Seq<NodeId> },
    InsertBefore { root: MaybeId, node: NodeId },
    InsertNodesBefore { root: MaybeId, nodes: Seq<NodeId> },
    Remove { id: MaybeId },
    CreateTextNode { text: Seq<u8>, id: MaybeId },
    CreateElement { tag: NameView, id: Option<NodeId> },
    SetText { root: MaybeId, text: Seq<u8> },
    SetAttribute { root: MaybeId, attr: NameView, value: Seq<u8> },
    RemoveAttribute { root: MaybeId, attr: NameView },
    SetStyle { id: MaybeId, style: Seq<u8>, value: Seq<u8> },
    RemoveStyle { id: MaybeId, style: Seq<u8> },
    CloneNode { id: MaybeId, new_id: MaybeId },
    CloneNodeChildren { id: MaybeId, new_ids: Seq<NodeId> },
    BuildFullElement { root: ElementView },
    NoOp,
}

/// Little-endian bytes of a 16-bit value.
pub open spec fn u16_le(v: u16) -> Seq<u8> {
    seq![(v % 256) as u8, (v / 256) as u8]
}

/// Little-endian bytes of a 32-bit value.
pub open spec fn u32_le(v: u32) -> Seq<u8> {
    seq![
        (v % 256) as u8,
        ((v / 256) % 256) as u8,
        ((v / 65536) % 256) as u8,
        ((v / 16777216) % 256) as u8,
    ]
}

/// The operand bytes of a node reference: nothing for the cursor, four id
/// bytes for an explicit handle. The one-bit discriminant travels in the
/// tag byte, not here.
pub open spec fn mid_bytes(m: MaybeId) -> Seq<u8> {
    match m {
        MaybeId::LastNode => Seq::empty(),
        MaybeId::Node(n) => u32_le(n.0),
    }
}

/// Four id bytes per handle, in sequence order.
pub open spec fn ids_bytes(s: Seq<NodeId>) -> Seq<u8>
    decreases s.len(),
{
    if s.len() == 0 {
        Seq::empty()
    } else {
        u32_le(s[0].0) + ids_bytes(s.subrange(1, s.len() as int))
    }
}

/// One discriminant byte 1 and four id bytes per handle, closed by a
/// discriminant byte 0.
pub open spec fn prefixed_ids_bytes(s: Seq<NodeId>) -> Seq<u8>
    decreases s.len(),
{
    if s.len() == 0 {
        seq![0u8]
    } else {
        seq![1u8] + u32_le(s[0].0) + prefixed_ids_bytes(s.subrange(1, s.len() as int))
    }
}

/// The wire tag of an operation.
pub open spec fn op_code_of(op: OpView) -> u8 {
    match op {
        OpView::FirstChild => OP_FIRST_CHILD,
        OpView::NextSibling => OP_NEXT_SIBLING,
        OpView::ParentNode => OP_PARENT_NODE,
        OpView::StoreWithId { .. } => OP_STORE_WITH_ID,
        OpView::SetLastNode { .. } => OP_SET_LAST_NODE,
        OpView::AppendChild { .. } => OP_APPEND_CHILDREN,
        OpView::AppendChildren { .. } => OP_APPEND_CHILDREN,
        OpView::ReplaceWith { .. } => OP_REPLACE_WITH,
        OpView::ReplaceWithNodes { .. } => OP_REPLACE_WITH,
        OpView::InsertAfter { .. } => OP_INSERT_AFTER,
        OpView::InsertNodesAfter { .. } => OP_INSERT_AFTER,
        OpView::InsertBefore { .. } => OP_INSERT_BEFORE,
        OpView::InsertNodesBefore { .. } => OP_INSERT_BEFORE,
        OpView::Remove { .. } => OP_REMOVE,
        OpView::CreateTextNode { .. } => OP_CREATE_TEXT_NODE,
        OpView::CreateElement { .. } => OP_CREATE_ELEMENT,
        OpView::SetText { .. } => OP_SET_TEXT,
        OpView::SetAttribute { .. } => OP_SET_ATTRIBUTE,
        OpView::RemoveAttribute { .. } => OP_REMOVE_ATTRIBUTE,
        OpView::SetStyle { .. } => OP_SET_STYLE,
        OpView::RemoveStyle { .. } => OP_REMOVE_STYLE,
        OpView::CloneNode { .. } => OP_CLONE_NODE,
        OpView::CloneNodeChildren { .. } => OP_CLONE_NODE_CHILDREN,
        OpView::BuildFullElement { .. } => OP_BUILD_FULL_ELEMENT,
        OpView::NoOp => OP_NO_OP,
    }
}

/// The boolean flags of an operation, in the order they are packed into the
/// tag byte. At most two are ever used; a third bit stays free.
pub open spec fn op_flags(op: OpView) -> Seq<bool> {
    match op {
        OpView::AppendChild { root, .. } => seq![root.is_node(), false],
        OpView::AppendChildren { root, .. } => seq![root.is_node(), true],
        OpView::ReplaceWith { root, .. } => seq![root.is_node(), false],
        OpView::ReplaceWithNodes { root, .. } => seq![root.is_node(), true],
        OpView::InsertAfter { root, .. } => seq![root.is_node(), false],
        OpView::InsertNodesAfter { root, .. } => seq![root.is_node(), true],
        OpView::InsertBefore { root, .. } => seq![root.is_node(), false],
        OpView::InsertNodesBefore { root, .. } => seq![root.is_node(), true],
        OpView::Remove { id } => seq![id.is_node()],
        OpView::CreateTextNode { id, .. } => seq![id.is_node()],
        OpView::CreateElement { id, .. } => seq![id is Some],
        OpView::SetText { root, .. } => seq![root.is_node()],
        OpView::SetAttribute { root, .. } => seq![root.is_node()],
        OpView::RemoveAttribute { root, .. } => seq![root.is_node()],
        OpView::SetStyle { id, .. } => seq![id.is_node()],
        OpView::RemoveStyle { id, .. } => seq![id.is_node()],
        OpView::CloneNode { id, new_id } => seq![id.is_node(), new_id.is_node()],
        OpView::CloneNodeChildren { id, .. } => seq![id.is_node()],
        _ => Seq::empty(),
    }
}

/// The operand bytes an operation appends to the instruction stream, in
/// encoding order.
pub open spec fn op_operands(op: OpView) -> Seq<u8> {
    match op {
        OpView::FirstChild => Seq::empty(),
        OpView::NextSibling => Seq::empty(),
        OpView::ParentNode => Seq::empty(),
        OpView::StoreWithId { id } => u32_le(id.0),
        OpView::SetLastNode { id } => u32_le(id.0),
        OpView::AppendChild { root, child } => mid_bytes(root) + u32_le(child.0),
        OpView::AppendChildren { root, children } => mid_bytes(root) + u32_le(
            children.len() as u32,
        ) + ids_bytes(children),
        OpView::ReplaceWith { root, node } => mid_bytes(root) + u32_le(node.0),
        OpView::ReplaceWithNodes { root, nodes } => mid_bytes(root) + u32_le(nodes.len() as u32)
            + ids_bytes(nodes),
        OpView::InsertAfter { root, node } => mid_bytes(root) + u32_le(node.0),
        OpView::InsertNodesAfter { root, nodes } => mid_bytes(root) + u32_le(nodes.len() as u32)
            + ids_bytes(nodes),
        OpView::InsertBefore { root, node } => mid_bytes(root) + u32_le(node.0),
        OpView::InsertNodesBefore { root, nodes } => mid_bytes(root) + u32_le(nodes.len() as u32)
            + ids_bytes(nodes),
        OpView::Remove { id } => mid_bytes(id),
        OpView::CreateTextNode { text, id } => u16_le(text.len() as u16) + mid_bytes(id),
        OpView::CreateElement { tag, id } => name_msg_bytes(tag) + match id {
            Option::Some(n) => u32_le(n.0),
            Option::None => Seq::empty(),
        },
        OpView::SetText { root, text } => mid_bytes(root) + u16_le(text.len() as u16),
        OpView::SetAttribute { root, attr, value } => mid_bytes(root) + name_msg_bytes(attr)
            + u16_le(value.len() as u16),
        OpView::RemoveAttribute { root, attr } => mid_bytes(root) + name_msg_bytes(attr),
        OpView::SetStyle { id, style, value } => mid_bytes(id) + u16_le(style.len() as u16)
            + u16_le(value.len() as u16),
        OpView::RemoveStyle { id, style } => mid_bytes(id) + u16_le(style.len() as u16),
        OpView::CloneNode { id, new_id } => mid_bytes(id) + mid_bytes(new_id),
        OpView::CloneNodeChildren { id, new_ids } => mid_bytes(id) + prefixed_ids_bytes(new_ids),
        OpView::BuildFullElement { root } => eb_msg_bytes(root),
        OpView::NoOp => Seq::empty(),
    }
}

/// The bytes an operation appends to the text stream, in encoding order.
pub open spec fn op_texts(op: OpView) -> Seq<u8> {
    match op {
        OpView::CreateTextNode { text, .. } => text,
        OpView::CreateElement { tag, .. } => name_text_bytes(tag),
        OpView::SetText { text, .. } => text,
        OpView::SetAttribute { attr, value, .. } => name_text_bytes(attr) + value,
        OpView::RemoveAttribute { attr, .. } => name_text_bytes(attr),
        OpView::SetStyle { style, value, .. } => style + value,
        OpView::RemoveStyle { style, .. } => style,
        OpView::BuildFullElement { root } => eb_text_bytes(root),
        _ => Seq::empty(),
    }
}

/// An operation whose operand values fit their wire fields: every text
/// length in two bytes, every list length in four, every descriptor valid.
pub open spec fn op_valid(op: OpView) -> bool {
    match op {
        OpView::AppendChildren { children, .. } => children.len() <= 0xFFFF_FFFF,
        OpView::ReplaceWithNodes { nodes, .. } => nodes.len() <= 0xFFFF_FFFF,
        OpView::InsertNodesAfter { nodes, .. } => nodes.len() <= 0xFFFF_FFFF,
        OpView::InsertNodesBefore { nodes, .. } => nodes.len() <= 0xFFFF_FFFF,
        OpView::CreateTextNode { text, .. } => text.len() <= 0xFFFF,
        OpView::CreateElement { tag, .. } => name_valid(tag),
        OpView::SetText { text, .. } => text.len() <= 0xFFFF,
        OpView::SetAttribute { attr, value, .. } => name_valid(attr) && value.len() <= 0xFFFF,
        OpView::RemoveAttribute { attr, .. } => name_valid(attr),
        OpView::SetStyle { style, value, .. } => style.len() <= 0xFFFF && value.len() <= 0xFFFF,
        OpView::RemoveStyle { style, .. } => style.len() <= 0xFFFF,
        OpView::CloneNodeChildren { new_ids, .. } => new_ids.len() <= 0xFFFF_FFFF,
        OpView::BuildFullElement { root } => eb_valid(root),
        _ => true,
    }
}

pub open spec fn ops_valid(ops: Seq<OpView>) -> bool {
    forall|i: int| 0 <= i < ops.len() ==> op_valid(#[trigger] ops[i])
}

/// The encoder state: the two streams, the start of the current tag group,
/// the position of the current instruction's tag byte, and how many flag
/// bits that byte already carries.
#[verifier::ext_equal]
pub struct EncSt {
    pub msg: Seq<u8>,
    pub strs: Seq<u8>,
    pub group_start: int,
    pub tag_pos: int,
    pub bit: int,
}

/// The state of an empty batch. The tag position starts at 3 so that the
/// very first instruction opens a fresh group at offset 0.
pub open spec fn enc_init() -> EncSt {
    EncSt { msg: Seq::empty(), strs: Seq::empty(), group_start: 0, tag_pos: 3, bit: 0 }
}

/// Whether the current group still has a free tag slot.
pub open spec fn in_group(st: EncSt) -> bool {
    st.tag_pos + 1 < st.group_start + 4
}

/// Write one operation tag: into the next slot of the current group, or
/// into the first slot of a freshly reserved four-byte group.
pub open spec fn enc_tag(st: EncSt, code: u8) -> EncSt {
    if in_group(st) {
        EncSt { msg: st.msg.update(st.tag_pos + 1, code), tag_pos: st.tag_pos + 1, bit: 0, ..st }
    } else {
        EncSt {
            msg: st.msg + seq![code, 0u8, 0u8, 0u8],
            group_start: st.msg.len() as int,
            tag_pos: st.msg.len() as int,
            bit: 0,
        ..st
        }
    }
}

/// The weight of the next free flag bit of a tag byte: flags occupy bits
/// five to seven.
pub open spec fn flag_mask(bit: int) -> u8 {
    if bit == 0 {
        32
    } else if bit == 1 {
        64
    } else {
        128
    }
}

/// The largest value a tag byte can hold before the next flag bit is set.
pub open spec fn tag_cap(bit: int) -> int {
    if bit == 0 {
        32
    } else if bit == 1 {
        64
    } else if bit == 2 {
        128
    } else {
        256
    }
}

/// Pack one boolean into the current instruction's tag byte.
pub open spec fn enc_flag(st: EncSt, b: bool) -> EncSt {
    let tb = st.msg[st.tag_pos];
    let nb = if b {
        (tb + flag_mask(st.bit)) as u8
    } else {
        tb
    };
    EncSt { msg: st.msg.update(st.tag_pos, nb), bit: st.bit + 1, ..st }
}

pub open spec fn enc_flags(st: EncSt, fs: Seq<bool>) -> EncSt
    decreases fs.len(),
{
    if fs.len() == 0 {
        st
    } else {
        enc_flags(enc_flag(st, fs[0]), fs.subrange(1, fs.len() as int))
    }
}

/// Encode one whole operation: its tag, its flags, then its operand bytes
/// and text bytes appended to the two streams.
pub open spec fn enc_operation(st: EncSt, op: OpView) -> EncSt {
    let st1 = enc_flags(enc_tag(st, op_code_of(op)), op_flags(op));
    EncSt { msg: st1.msg + op_operands(op), strs: st1.strs + op_texts(op), ..st1 }
}

pub open spec fn enc_ops(st: EncSt, ops: Seq<OpView>) -> EncSt
    decreases ops.len(),
{
    if ops.len() == 0 {
        st
    } else {
        enc_ops(enc_operation(st, ops[0]), ops.subrange(1, ops.len() as int))
    }
}

/// The encoder state after encoding a whole operation sequence into an
/// empty batch.
pub open spec fn enc_all(ops: Seq<OpView>) -> EncSt {
    enc_ops(enc_init(), ops)
}

/// Terminate a stream: a finalized batch is the state after one trailing
/// `Stop` tag.
pub open spec fn enc_seal(st: EncSt) -> EncSt {
    enc_tag(st, OP_STOP)
}

/// Structural well-formedness of an encoder state: the tag position lies
/// inside the current group, the group is fully reserved, the tag byte
/// leaves room for its next flag bit, and the unused slots of the current
/// group are still zero.
pub open spec fn st_wf(st: EncSt) -> bool {
    &&& 0 <= st.bit <= 3
    &&& if st.msg.len() == 0 {
        st.group_start == 0 && st.tag_pos == 3 && st.bit == 0
    } else {
        &&& 0 <= st.group_start
        &&& st.group_start <= st.tag_pos < st.group_start + 4
        &&& st.group_start + 4 <= st.msg.len()
        &&& st.msg[st.tag_pos] < tag_cap(st.bit)
        &&& forall|j: int| st.tag_pos < j < st.group_start + 4 ==> st.msg[j] == 0
    }
}

/// The tag byte of an operation as the decoder will find it: the tag in
/// the low five bits, the flags in the top three.
pub open spec fn op_tag_byte(op: OpView) -> u8 {
    let fs = op_flags(op);
    (op_code_of(op) + (if fs.len() > 0 && fs[0] {
        32int
    } else {
        0int
    }) + (if fs.len() > 1 && fs[1] {
        64int
    } else {
        0int
    })) as u8
}

/// Append bytes to the instruction stream, leaving the cursor untouched.
pub open spec fn enc_msg(st: EncSt, b: Seq<u8>) -> EncSt {
    EncSt { msg: st.msg + b, ..st }
}

/// Append operand bytes and text bytes to the two streams at once.
pub open spec fn enc_both(st: EncSt, m: Seq<u8>, t: Seq<u8>) -> EncSt {
    EncSt { msg: st.msg + m, strs: st.strs + t, ..st }
}

/// Encode a text value: its bytes go to the text stream, a two-byte length
/// to the instruction stream.
pub open spec fn enc_text(st: EncSt, t: Seq<u8>) -> EncSt {
    EncSt { msg: st.msg + u16_le(t.len() as u16), strs: st.strs + t, ..st }
}

/// Encode a node reference: its one-bit discriminant as a flag, then the
/// id bytes when it is an explicit handle.
pub open spec fn enc_mid(st: EncSt, m: MaybeId) -> EncSt {
    match m {
        MaybeId::Node(n) => enc_msg(enc_flag(st, true), u32_le(n.0)),
        MaybeId::LastNode => enc_flag(st, false),
    }
}

/// A flag write touches only the current tag byte, so it commutes with
/// appending operand bytes.
pub proof fn lemma_flag_msg_commute(st: EncSt, b: bool, bs: Seq<u8>)
    requires
        0 <= st.tag_pos < st.msg.len(),
    ensures
        enc_flag(enc_msg(st, bs), b) =~= enc_msg(enc_flag(st, b), bs),
{
    assert(enc_flag(enc_msg(st, bs), b).msg =~= enc_msg(enc_flag(st, b), bs).msg);
}

/// A flag write also commutes with encoding a text value.
pub proof fn lemma_flag_text_commute(st: EncSt, b: bool, t: Seq<u8>)
    requires
        0 <= st.tag_pos < st.msg.len(),
    ensures
        enc_flag(enc_text(st, t), b) =~= enc_text(enc_flag(st, b), t),
{
    assert(enc_flag(enc_text(st, t), b).msg =~= enc_text(enc_flag(st, b), t).msg);
}

/// Running an operation sequence splits at any point.
pub proof fn lemma_enc_ops_app(st: EncSt, a: Seq<OpView>, b: Seq<OpView>)
    ensures
        enc_ops(st, a + b) == enc_ops(enc_ops(st, a), b),
    decreases a.len(),
{
    if a.len() == 0 {
        assert(a + b =~= b);
        assert(enc_ops(st, a) == st);
    } else {
        let rest = a.subrange(1, a.len() as int);
        assert((a + b).subrange(1, (a + b).len() as int) =~= rest + b);
        assert((a + b)[0] == a[0]);
        lemma_enc_ops_app(enc_operation(st, a[0]), rest, b);
    }
}

/// The id list bytes grow one id at a time.
pub proof fn lemma_ids_bytes_push(s: Seq<NodeId>, x: NodeId)
    ensures
        ids_bytes(s.push(x)) =~= ids_bytes(s) + u32_le(x.0),
    decreases s.len(),
{
    let sp = s.push(x);
    if s.len() == 0 {
        assert(sp.subrange(1, 1) =~= Seq::<NodeId>::empty());
        assert(ids_bytes(sp.subrange(1, 1)) =~= Seq::<u8>::empty());
    } else {
        assert(sp.subrange(1, sp.len() as int) =~= s.subrange(1, s.len() as int).push(x));
        lemma_ids_bytes_push(s.subrange(1, s.len() as int), x);
    }
}

/// The discriminant-prefixed id list, without its closing zero byte.
pub open spec fn prefixed_ids_partial(s: Seq<NodeId>) -> Seq<u8>
    decreases s.len(),
{
    if s.len() == 0 {
        Seq::empty()
    } else {
        seq![1u8] + u32_le(s[0].0) + prefixed_ids_partial(s.subrange(1, s.len() as int))
    }
}

pub proof fn lemma_prefixed_ids_split(s: Seq<NodeId>)
    ensures
        prefixed_ids_bytes(s) =~= prefixed_ids_partial(s) + seq![0u8],
    decreases s.len(),
{
    if s.len() > 0 {
        lemma_prefixed_ids_split(s.subrange(1, s.len() as int));
    }
}

pub proof fn lemma_prefixed_ids_partial_push(s: Seq<NodeId>, x: NodeId)
    ensures
        prefixed_ids_partial(s.push(x)) =~= prefixed_ids_partial(s) + seq![1u8] + u32_le(x.0),
    decreases s.len(),
{
    let sp = s.push(x);
    if s.len() == 0 {
        assert(sp.subrange(1, 1) =~= Seq::<NodeId>::empty());
        assert(prefixed_ids_partial(sp.subrange(1, 1)) =~= Seq::<u8>::empty());
    } else {
        assert(sp.subrange(1, sp.len() as int) =~= s.subrange(1, s.len() as int).push(x));
        lemma_prefixed_ids_partial_push(s.subrange(1, s.len() as int), x);
    }
}

pub proof fn lemma_enc_flags1(st: EncSt, f0: bool)
    ensures
        enc_flags(st, seq![f0]) == enc_flag(st, f0),
{
    let fs = seq![f0];
    assert(fs.subrange(1, 1) =~= Seq::<bool>::empty());
    assert(enc_flags(enc_flag(st, f0), fs.subrange(1, 1)) == enc_flag(st, f0));
}

pub proof fn lemma_enc_flags2(st: EncSt, f0: bool, f1: bool)
    ensures
        enc_flags(st, seq![f0, f1]) == enc_flag(enc_flag(st, f0), f1),
{
    let fs = seq![f0, f1];
    assert(fs.subrange(1, 2) =~= seq![f1]);
    lemma_enc_flags1(enc_flag(st, f0), f1);
}

/// Running a singleton sequence is one encoding step.
pub proof fn lemma_enc_ops_one(st: EncSt, op: OpView)
    ensures
        enc_ops(st, seq![op]) == enc_operation(st, op),
{
    let s = seq![op];
    assert(s.subrange(1, 1) =~= Seq::<OpView>::empty());
    assert(enc_ops(enc_operation(st, op), s.subrange(1, 1)) == enc_operation(st, op));
}

/// Appending one operation to the log runs one more encoding step.
#[verifier::rlimit(50)]
pub proof fn lemma_enc_all_push(ops: Seq<OpView>, op: OpView)
    ensures
        enc_all(ops.push(op)) == enc_operation(enc_all(ops), op),
{
    assert(ops.push(op) =~= ops + seq![op]);
    lemma_enc_ops_app(enc_init(), ops, seq![op]);
    lemma_enc_ops_one(enc_all(ops), op);
}

/// How many padding operations the current group still accepts before it
/// is full.
pub open spec fn pad_count(st: EncSt) -> int {
    3 - (st.tag_pos - st.group_start)
}

/// A state whose instruction stream is a later copy of another's: same
/// cursor, shifted by a fixed prefix of each stream.
pub open spec fn shifted(st1: EncSt, st0: EncSt, m: Seq<u8>, s: Seq<u8>) -> bool {
    &&& st1.msg == m + st0.msg
    &&& st1.strs == s + st0.strs
    &&& st1.group_start == m.len() + st0.group_start
    &&& st1.tag_pos == m.len() + st0.tag_pos
    &&& st1.bit == st0.bit
}

/// Well-formedness carries over to a shifted copy of a nonempty state.
pub proof fn lemma_shift_wf(st1: EncSt, st0: EncSt, m: Seq<u8>, s: Seq<u8>)
    requires
        shifted(st1, st0, m, s),
        st_wf(st0),
        st0.msg.len() > 0,
    ensures
        st_wf(st1),
{
    assert(st1.msg[st1.tag_pos] == st0.msg[st0.tag_pos]);
    assert forall|j: int| st1.tag_pos < j < st1.group_start + 4 implies st1.msg[j] == 0 by {
        assert(st1.msg[j] == st0.msg[j - m.len()]);
    }
}

/// Encoding steps preserve the shift relation.
pub proof fn lemma_shift_step(st1: EncSt, st0: EncSt, m: Seq<u8>, s: Seq<u8>, op: OpView)
    requires
        shifted(st1, st0, m, s),
        st_wf(st0),
        st0.msg.len() > 0,
        op_valid(op),
    ensures
        shifted(enc_operation(st1, op), enc_operation(st0, op), m, s),
        st_wf(enc_operation(st0, op)),
        enc_operation(st0, op).msg.len() > 0,
{
    lemma_shift_wf(st1, st0, m, s);
    lemma_enc_operation_shape(st0, op);
    lemma_enc_operation_shape(st1, op);
    let n1 = enc_operation(st1, op);
    let n0 = enc_operation(st0, op);
    if in_group(st0) {
        assert(in_group(st1));
        assert(n1.msg =~= m + n0.msg);
    } else {
        assert(!in_group(st1));
        assert(n1.msg =~= m + n0.msg);
    }
    assert(n1.strs =~= s + n0.strs);
}

/// Running a whole sequence preserves the shift relation.
pub proof fn lemma_shift_run(st1: EncSt, st0: EncSt, m: Seq<u8>, s: Seq<u8>, ops: Seq<OpView>)
    requires
        shifted(st1, st0, m, s),
        st_wf(st0),
        st0.msg.len() > 0,
        ops_valid(ops),
    ensures
        shifted(enc_ops(st1, ops), enc_ops(st0, ops), m, s),
        st_wf(enc_ops(st0, ops)),
        enc_ops(st0, ops).msg.len() > 0,
    decreases ops.len(),
{
    if ops.len() > 0 {
        assert(op_valid(ops[0]));
        lemma_shift_step(st1, st0, m, s, ops[0]);
        let rest = ops.subrange(1, ops.len() as int);
        assert forall|i: int| 0 <= i < rest.len() implies op_valid(#[trigger] rest[i]) by {
            assert(op_valid(ops[i + 1]));
        }
        lemma_shift_run(enc_operation(st1, ops[0]), enc_operation(st0, ops[0]), m, s, rest);
    }
}

/// Encoding never shrinks the instruction stream.
pub proof fn lemma_enc_ops_grow(st: EncSt, ops: Seq<OpView>)
    requires
        st_wf(st),
        ops_valid(ops),
    ensures
        enc_ops(st, ops).msg.len() >= st.msg.len(),
        st_wf(enc_ops(st, ops)),
    decreases ops.len(),
{
    if ops.len() > 0 {
        assert(op_valid(ops[0]));
        lemma_enc_operation_shape(st, ops[0]);
        let rest = ops.subrange(1, ops.len() as int);
        assert forall|i: int| 0 <= i < rest.len() implies op_valid(#[trigger] rest[i]) by {
            assert(op_valid(ops[i + 1]));
        }
        lemma_enc_ops_grow(enc_operation(st, ops[0]), rest);
    }
}

/// A nonempty operation log encodes to a nonempty instruction stream.
pub proof fn lemma_enc_all_nonempty(ops: Seq<OpView>)
    requires
        ops_valid(ops),
        ops.len() > 0,
    ensures
        enc_all(ops).msg.len() > 0,
{
    assert(op_valid(ops[0]));
    lemma_enc_operation_shape(enc_init(), ops[0]);
    let rest = ops.subrange(1, ops.len() as int);
    assert forall|i: int| 0 <= i < rest.len() implies op_valid(#[trigger] rest[i]) by {
        assert(op_valid(ops[i + 1]));
    }
    lemma_enc_ops_grow(enc_operation(enc_init(), ops[0]), rest);
}

/// Encoding a nonempty sequence onto a state whose current group is full
/// appends exactly the bytes of the standalone encoding, with the cursor
/// rebased by the receiving stream's length.
pub proof fn lemma_append_full(sta: EncSt, ops: Seq<OpView>)
    requires
        st_wf(sta),
        sta.tag_pos == sta.group_start + 3,
        ops.len() > 0,
        ops_valid(ops),
    ensures
        ({
            let stb = enc_all(ops);
            let st2 = enc_ops(sta, ops);
            &&& st2.msg == sta.msg + stb.msg
            &&& st2.strs == sta.strs + stb.strs
            &&& st2.group_start == sta.msg.len() + stb.group_start
            &&& st2.tag_pos == sta.msg.len() + stb.tag_pos
            &&& st2.bit == stb.bit
            &&& st_wf(st2)
            &&& stb.msg.len() > 0
        }),
{
    let op0 = ops[0];
    let rest = ops.subrange(1, ops.len() as int);
    assert(op_valid(op0));
    assert forall|i: int| 0 <= i < rest.len() implies op_valid(#[trigger] rest[i]) by {
        assert(op_valid(ops[i + 1]));
    }
    assert(!in_group(sta));
    assert(!in_group(enc_init()));
    lemma_enc_operation_shape(sta, op0);
    lemma_enc_operation_shape(enc_init(), op0);
    let st1 = enc_operation(sta, op0);
    let st0 = enc_operation(enc_init(), op0);
    assert(st1.msg =~= sta.msg + st0.msg);
    assert(st1.strs =~= sta.strs + st0.strs);
    assert(shifted(st1, st0, sta.msg, sta.strs));
    lemma_shift_run(st1, st0, sta.msg, sta.strs, rest);
    let st2 = enc_ops(sta, ops);
    let stb = enc_all(ops);
    assert(st2 == enc_ops(st1, rest));
    assert(stb == enc_ops(st0, rest));
    lemma_shift_wf(st2, stb, sta.msg, sta.strs);
}

/// A sequence of padding operations.
pub open spec fn noop_seq(n: int) -> Seq<OpView> {
    Seq::new(n as nat, |i: int| OpView::NoOp)
}

/// Every operation's tag fits five bits, differs from the terminator, and
/// uses at most two flag bits.
pub proof fn lemma_op_basic(op: OpView)
    ensures
        op_code_of(op) < 32,
        op_code_of(op) != OP_STOP,
        op_flags(op).len() <= 2,
{
}

/// The exact shape of one encoding step: where the tag byte lands, what is
/// appended, and that well-formedness is preserved.
pub proof fn lemma_enc_operation_shape(st: EncSt, op: OpView)
    requires
        st_wf(st),
        op_valid(op),
    ensures
        ({
            let st2 = enc_operation(st, op);
            &&& st_wf(st2)
            &&& st2.strs == st.strs + op_texts(op)
            &&& st2.bit == op_flags(op).len()
            &&& st2.msg.len() >= st.msg.len()
            &&& if in_group(st) {
                &&& st2.group_start == st.group_start
                &&& st2.tag_pos == st.tag_pos + 1
                &&& st2.msg =~= st.msg.update(st.tag_pos + 1, op_tag_byte(op)) + op_operands(op)
                &&& st2.msg.len() == st.msg.len() + op_operands(op).len()
            } else {
                &&& st2.group_start == st.msg.len()
                &&& st2.tag_pos == st.msg.len()
                &&& st2.msg =~= st.msg + seq![op_tag_byte(op), 0u8, 0u8, 0u8] + op_operands(op)
                &&& st2.msg.len() == st.msg.len() + 4 + op_operands(op).len()
            }
        }),
{
    lemma_op_basic(op);
    let code = op_code_of(op);
    let fs = op_flags(op);
    let sta = enc_tag(st, code);
    assert(sta.msg[sta.tag_pos] == code);
    let st1 = enc_flags(sta, fs);
    if fs.len() == 0 {
        assert(st1 == sta);
    } else {
        let stb = enc_flag(sta, fs[0]);
        let fs1 = fs.subrange(1, fs.len() as int);
        assert(enc_flags(sta, fs) == enc_flags(stb, fs1));
        if fs1.len() == 0 {
            assert(enc_flags(stb, fs1) == stb);
        } else {
            let stc = enc_flag(stb, fs1[0]);
            assert(fs1.subrange(1, fs1.len() as int).len() == 0);
            assert(enc_flags(stb, fs1) == enc_flags(stc, fs1.subrange(1, fs1.len() as int)));
            assert(enc_flags(stc, fs1.subrange(1, fs1.len() as int)) == stc);
        }
    }
    assert(st1.msg[st1.tag_pos] == op_tag_byte(op));
    assert(st1.msg =~= sta.msg.update(sta.tag_pos, op_tag_byte(op)));
    let st2 = enc_operation(st, op);
    if in_group(st) {
        assert(st2.msg =~= st.msg.update(st.tag_pos + 1, op_tag_byte(op)) + op_operands(op));
    } else {
        assert(st2.msg =~= st.msg + seq![op_tag_byte(op), 0u8, 0u8, 0u8] + op_operands(op));
    }
    assert(st_wf(st2));
}

} // verus!
