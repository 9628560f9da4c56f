//! The batch encoder: appends operations to the instruction stream and the
//! text stream while maintaining the bit-packed tag-group cursor.

use vstd::prelude::*;

use crate::element::attrs_msg_bytes;
use crate::element::attrs_text_bytes;
use crate::element::ebs_msg_bytes;
use crate::element::ebs_text_bytes;
use crate::element::lemma_attrs_msg_bytes_push;
use crate::element::lemma_attrs_text_bytes_push;
use crate::element::lemma_ebs_msg_bytes_push;
use crate::element::lemma_ebs_text_bytes_push;
use crate::element::lemma_ebs_valid_index;
use crate::element::lemma_ebs_view_index;
use crate::element::lemma_ebs_view_len;
use crate::element::ebs_view;
use crate::element::eb_msg_bytes;
use crate::element::eb_text_bytes;
use crate::element::eb_valid;
use crate::element::eb_view;
use crate::element::NameView;
use crate::element::name_valid;
use crate::element::AttrName;
use crate::element::ElementBuilder;
use crate::element::TagName;
use crate::ids::MaybeId;
use crate::ids::NodeId;
use crate::wire::enc_all;
use crate::wire::enc_both;
use crate::wire::enc_flag;
use crate::wire::enc_init;
use crate::wire::enc_mid;
use crate::wire::enc_msg;
use crate::wire::enc_operation;
use crate::wire::enc_ops;
use crate::wire::enc_seal;
use crate::wire::enc_tag;
use crate::wire::enc_text;
use crate::wire::ids_bytes;
use crate::wire::in_group;
use crate::wire::lemma_enc_operation_shape;
use crate::wire::lemma_enc_all_push;
use crate::wire::lemma_enc_flags1;
use crate::wire::lemma_enc_flags2;
use crate::wire::lemma_append_full;
use crate::wire::lemma_enc_all_nonempty;
use crate::wire::lemma_enc_ops_app;
use crate::wire::pad_count;
use crate::wire::lemma_ids_bytes_push;
use crate::wire::lemma_prefixed_ids_partial_push;
use crate::wire::lemma_prefixed_ids_split;
use crate::wire::prefixed_ids_partial;
use crate::wire::lemma_flag_msg_commute;
use crate::wire::lemma_flag_text_commute;
use crate::wire::mid_bytes;
use crate::wire::noop_seq;
use crate::wire::op_valid;
use crate::wire::ops_valid;
use crate::wire::st_wf;
use crate::wire::u16_le;
use crate::wire::u32_le;
use crate::wire::EncSt;
use crate::wire::OpView;
use crate::wire::OP_APPEND_CHILDREN;
use crate::wire::OP_BUILD_FULL_ELEMENT;
use crate::wire::OP_CLONE_NODE;
use crate::wire::OP_CLONE_NODE_CHILDREN;
use crate::wire::OP_CREATE_ELEMENT;
use crate::wire::OP_CREATE_TEXT_NODE;
use crate::wire::OP_FIRST_CHILD;
use crate::wire::OP_INSERT_AFTER;
use crate::wire::OP_INSERT_BEFORE;
use crate::wire::OP_NEXT_SIBLING;
use crate::wire::OP_NO_OP;
use crate::wire::OP_PARENT_NODE;
use crate::wire::OP_REMOVE;
use crate::wire::OP_REMOVE_ATTRIBUTE;
use crate::wire::OP_REMOVE_STYLE;
use crate::wire::OP_REPLACE_WITH;
use crate::wire::OP_SET_ATTRIBUTE;
use crate::wire::OP_SET_LAST_NODE;
use crate::wire::OP_SET_STYLE;
use crate::wire::OP_SET_TEXT;
use crate::wire::OP_STOP;
use crate::wire::OP_STORE_WITH_ID;
use crate::writable::WritableText;

verus! {

broadcast use vstd::std_specs::vec::axiom_vec_decreases_to_view, vstd::seq::axiom_seq_index_decreases, vstd::std_specs::vec::axiom_vec_index_decreases;

/// A terminated, immutable instruction/text buffer pair, ready to hand to
/// the remote interpreter or to compose into another batch.
pub struct FinalizedBatch {
    /// The instruction stream, ending in a `Stop` tag.
    pub msg: Vec<u8>,
    /// The text stream.
    pub strs: Vec<u8>,
    /// The operations this stream encodes.
    pub ops: Ghost<Seq<OpView>>,
}

impl FinalizedBatch {
    /// A finalized batch is exactly the sealed encoding of its operations.
    pub open spec fn wf(self) -> bool {
        &&& self.msg@ == enc_seal(enc_all(self.ops@)).msg
        &&& self.strs@ == enc_all(self.ops@).strs
        &&& ops_valid(self.ops@)
    }
}

/// An in-progress batch: the two streams plus the tag-group cursor (start
/// of the current four-byte group, position of the current instruction's
/// tag byte, and the number of flag bits already packed into it).
pub struct Batch {
    pub(crate) msg: Vec<u8>,
    pub(crate) str_buf: Vec<u8>,
    pub(crate) current_op_batch_idx: usize,
    pub(crate) current_op_byte_idx: usize,
    pub(crate) current_op_bit_pack_index: u8,
    pub(crate) ops: Ghost<Seq<OpView>>,
}

impl Batch {
    /// The encoder state this batch holds.
    pub closed spec fn st(self) -> EncSt {
        EncSt {
            msg: self.msg@,
            strs: self.str_buf@,
            group_start: self.current_op_batch_idx as int,
            tag_pos: self.current_op_byte_idx as int,
            bit: self.current_op_bit_pack_index as int,
        }
    }

    /// The operations encoded so far.
    pub closed spec fn view_ops(self) -> Seq<OpView> {
        self.ops@
    }

    /// A batch is exactly the encoding of its operation log.
    pub open spec fn wf(self) -> bool {
        &&& self.st() == enc_all(self.view_ops())
        &&& st_wf(self.st())
        &&& ops_valid(self.view_ops())
    }

    /// Write one operation tag into the current group, or open a fresh
    /// group when the current one is full.
    fn encode_op(&mut self, code: u8)
        requires
            st_wf(old(self).st()),
            code < 32,
        ensures
            final(self).st() =~= enc_tag(old(self).st(), code),
            st_wf(final(self).st()),
            final(self).ops == old(self).ops,
    {
        let len = self.msg.len();
        proof {
            if old(self).msg@.len() > 0 {
                assert(old(self).st().group_start + 4 <= old(self).st().msg.len());
            }
        }
        let new_pos = self.current_op_byte_idx + 1;
        if len > 0 && new_pos < self.current_op_batch_idx + 4 {
            self.msg[new_pos] = code;
            self.current_op_byte_idx = new_pos;
        } else {
            self.current_op_batch_idx = len;
            self.current_op_byte_idx = len;
            self.msg.push(code);
            self.msg.push(0);
            self.msg.push(0);
            self.msg.push(0);
            proof {
                assert(self.msg@ =~= old(self).msg@ + seq![code, 0u8, 0u8, 0u8]);
            }
        }
        self.current_op_bit_pack_index = 0;
        proof {
            assert(final(self).st() =~= enc_tag(old(self).st(), code));
        }
    }

    /// Pack one boolean into the top bits of the current instruction's tag
    /// byte. Only three flag bits exist per instruction, so a fourth
    /// boolean on one instruction is ruled out by the precondition.
    fn encode_bool(&mut self, value: bool)
        requires
            st_wf(old(self).st()),
            old(self).st().bit < 3,
            old(self).st().msg.len() > 0,
        ensures
            final(self).st() =~= enc_flag(old(self).st(), value),
            st_wf(final(self).st()),
            final(self).ops == old(self).ops,
    {
        if value {
            let mask: u8 = if self.current_op_bit_pack_index == 0 {
                32
            } else if self.current_op_bit_pack_index == 1 {
                64
            } else {
                128
            };
            let tb = self.msg[self.current_op_byte_idx];
            self.msg[self.current_op_byte_idx] = tb + mask;
        }
        self.current_op_bit_pack_index = self.current_op_bit_pack_index + 1;
        proof {
            assert(final(self).st().msg =~= enc_flag(old(self).st(), value).msg);
        }
    }

    /// Append a 16-bit value, little-endian, to the instruction stream.
    fn encode_u16(&mut self, val: u16)
        requires
            st_wf(old(self).st()),
            old(self).st().msg.len() > 0,
        ensures
            final(self).st() =~= enc_msg(old(self).st(), u16_le(val)),
            st_wf(final(self).st()),
            final(self).ops == old(self).ops,
    {
        self.msg.push((val % 256) as u8);
        self.msg.push((val / 256) as u8);
        proof {
            assert(final(self).st().msg =~= enc_msg(old(self).st(), u16_le(val)).msg);
        }
    }

    /// Append a 32-bit value, little-endian, to the instruction stream.
    fn encode_u32(&mut self, val: u32)
        requires
            st_wf(old(self).st()),
            old(self).st().msg.len() > 0,
        ensures
            final(self).st() =~= enc_msg(old(self).st(), u32_le(val)),
            st_wf(final(self).st()),
            final(self).ops == old(self).ops,
    {
        self.msg.push((val % 256) as u8);
        self.msg.push(((val / 256) % 256) as u8);
        self.msg.push(((val / 65536) % 256) as u8);
        self.msg.push((val / 16777216) as u8);
        proof {
            assert(final(self).st().msg =~= enc_msg(old(self).st(), u32_le(val)).msg);
        }
    }

    /// Append a caller-assigned id to the instruction stream.
    fn encode_id(&mut self, id: NodeId)
        requires
            st_wf(old(self).st()),
            old(self).st().msg.len() > 0,
        ensures
            final(self).st() =~= enc_msg(old(self).st(), u32_le(id.0)),
            st_wf(final(self).st()),
            final(self).ops == old(self).ops,
    {
        self.encode_u32(id.0);
    }

    /// Encode a node reference: its discriminant flag, then its id bytes.
    fn encode_maybe_id(&mut self, id: MaybeId)
        requires
            st_wf(old(self).st()),
            old(self).st().bit < 3,
            old(self).st().msg.len() > 0,
        ensures
            final(self).st() =~= enc_mid(old(self).st(), id),
            st_wf(final(self).st()),
            final(self).ops == old(self).ops,
    {
        match id {
            MaybeId::Node(n) => {
                self.encode_bool(true);
                self.encode_id(n);
            },
            MaybeId::LastNode => {
                self.encode_bool(false);
            },
        }
    }

    /// Encode a text value: bytes to the text stream, a two-byte length to
    /// the instruction stream.
    fn encode_str<T: WritableText>(&mut self, text: T)
        requires
            st_wf(old(self).st()),
            old(self).st().msg.len() > 0,
            text.writable(),
            text.text_repr().len() <= 0xFFFF,
        ensures
            final(self).st() =~= enc_text(old(self).st(), text.text_repr()),
            st_wf(final(self).st()),
            final(self).ops == old(self).ops,
    {
        let prev_len = self.str_buf.len();
        text.write_as_text(&mut self.str_buf);
        let len = self.str_buf.len() - prev_len;
        self.encode_u16(len as u16);
    }

    /// Appends one node as a child of the given node, using the single-node
    /// fast path (no count prefix on the wire).
    pub fn append_child(&mut self, root: MaybeId, child: NodeId)
        requires
            old(self).wf(),
        ensures
            final(self).wf(),
            final(self).view_ops() == old(self).view_ops().push(
                OpView::AppendChild { root, child },
            ),
    {
        let ghost st0 = self.st();
        let ghost op = OpView::AppendChild { root, child };
        self.encode_op(OP_APPEND_CHILDREN);
        let ghost t = self.st();
        self.encode_maybe_id(root);
        self.encode_bool(false);
        self.encode_id(child);
        proof {
            assert(0 <= t.tag_pos < t.msg.len());
            lemma_enc_flags2(enc_tag(st0, OP_APPEND_CHILDREN), root.is_node(), false);
            match root {
                MaybeId::Node(n) => {
                    lemma_flag_msg_commute(enc_flag(t, true), false, u32_le(n.0));
                },
                MaybeId::LastNode => {},
            }
            assert(self.st() =~= enc_operation(st0, op));
        }
        self.ops = Ghost(self.ops@.push(op));
        proof {
            lemma_commit(st0, old(self).view_ops(), op, self.st());
        }
    }

    /// Replaces a node with another single node (fast path, no count).
    pub fn replace_with(&mut self, root: MaybeId, node: NodeId)
        requires
            old(self).wf(),
        ensures
            final(self).wf(),
            final(self).view_ops() == old(self).view_ops().push(OpView::ReplaceWith { root, node }),
    {
        let ghost st0 = self.st();
        let ghost op = OpView::ReplaceWith { root, node };
        self.encode_op(OP_REPLACE_WITH);
        let ghost t = self.st();
        self.encode_maybe_id(root);
        self.encode_bool(false);
        self.encode_id(node);
        proof {
            assert(0 <= t.tag_pos < t.msg.len());
            lemma_enc_flags2(enc_tag(st0, OP_REPLACE_WITH), root.is_node(), false);
            match root {
                MaybeId::Node(n) => {
                    lemma_flag_msg_commute(enc_flag(t, true), false, u32_le(n.0));
                },
                MaybeId::LastNode => {},
            }
            assert(self.st() =~= enc_operation(st0, op));
        }
        self.ops = Ghost(self.ops@.push(op));
        proof {
            lemma_commit(st0, old(self).view_ops(), op, self.st());
        }
    }

    /// Inserts a single node after the given node (fast path, no count).
    pub fn insert_after(&mut self, root: MaybeId, node: NodeId)
        requires
            old(self).wf(),
        ensures
            final(self).wf(),
            final(self).view_ops() == old(self).view_ops().push(OpView::InsertAfter { root, node }),
    {
        let ghost st0 = self.st();
        let ghost op = OpView::InsertAfter { root, node };
        self.encode_op(OP_INSERT_AFTER);
        let ghost t = self.st();
        self.encode_maybe_id(root);
        self.encode_bool(false);
        self.encode_id(node);
        proof {
            assert(0 <= t.tag_pos < t.msg.len());
            lemma_enc_flags2(enc_tag(st0, OP_INSERT_AFTER), root.is_node(), false);
            match root {
                MaybeId::Node(n) => {
                    lemma_flag_msg_commute(enc_flag(t, true), false, u32_le(n.0));
                },
                MaybeId::LastNode => {},
            }
            assert(self.st() =~= enc_operation(st0, op));
        }
        self.ops = Ghost(self.ops@.push(op));
        proof {
            lemma_commit(st0, old(self).view_ops(), op, self.st());
        }
    }

    /// Inserts a single node before the given node (fast path, no count).
    pub fn insert_before(&mut self, root: MaybeId, node: NodeId)
        requires
            old(self).wf(),
        ensures
            final(self).wf(),
            final(self).view_ops() == old(self).view_ops().push(
                OpView::InsertBefore { root, node },
            ),
    {
        let ghost st0 = self.st();
        let ghost op = OpView::InsertBefore { root, node };
        self.encode_op(OP_INSERT_BEFORE);
        let ghost t = self.st();
        self.encode_maybe_id(root);
        self.encode_bool(false);
        self.encode_id(node);
        proof {
            assert(0 <= t.tag_pos < t.msg.len());
            lemma_enc_flags2(enc_tag(st0, OP_INSERT_BEFORE), root.is_node(), false);
            match root {
                MaybeId::Node(n) => {
                    lemma_flag_msg_commute(enc_flag(t, true), false, u32_le(n.0));
                },
                MaybeId::LastNode => {},
            }
            assert(self.st() =~= enc_operation(st0, op));
        }
        self.ops = Ghost(self.ops@.push(op));
        proof {
            lemma_commit(st0, old(self).view_ops(), op, self.st());
        }
    }

    /// Detaches a node from the tree and discards it.
    pub fn remove(&mut self, id: MaybeId)
        requires
            old(self).wf(),
        ensures
            final(self).wf(),
            final(self).view_ops() == old(self).view_ops().push(OpView::Remove { id }),
    {
        let ghost st0 = self.st();
        let ghost op = OpView::Remove { id };
        self.encode_op(OP_REMOVE);
        self.encode_maybe_id(id);
        proof {
            lemma_enc_flags1(enc_tag(st0, OP_REMOVE), id.is_node());
            assert(self.st() =~= enc_operation(st0, op));
        }
        self.ops = Ghost(self.ops@.push(op));
        proof {
            lemma_commit(st0, old(self).view_ops(), op, self.st());
        }
    }

    /// Creates a text node; the cursor then points at the new node.
    pub fn create_text_node<T: WritableText>(&mut self, text: T, id: MaybeId)
        requires
            old(self).wf(),
            text.writable(),
            text.text_repr().len() <= 0xFFFF,
        ensures
            final(self).wf(),
            final(self).view_ops() == old(self).view_ops().push(
                OpView::CreateTextNode { text: text.text_repr(), id },
            ),
    {
        let ghost st0 = self.st();
        let ghost op = OpView::CreateTextNode { text: text.text_repr(), id };
        self.encode_op(OP_CREATE_TEXT_NODE);
        let ghost t = self.st();
        self.encode_str(text);
        self.encode_maybe_id(id);
        proof {
            assert(0 <= t.tag_pos < t.msg.len());
            lemma_enc_flags1(enc_tag(st0, OP_CREATE_TEXT_NODE), id.is_node());
            lemma_flag_text_commute(t, id.is_node(), text.text_repr());
            assert(self.st() =~= enc_operation(st0, op));
        }
        self.ops = Ghost(self.ops@.push(op));
        proof {
            lemma_commit(st0, old(self).view_ops(), op, self.st());
        }
    }

    /// Creates an element; the cursor then points at the new node.
    pub fn create_element(&mut self, tag: TagName, id: Option<NodeId>)
        requires
            old(self).wf(),
            name_valid(tag@),
        ensures
            final(self).wf(),
            final(self).view_ops() == old(self).view_ops().push(
                OpView::CreateElement { tag: tag@, id },
            ),
    {
        let ghost st0 = self.st();
        let ghost op = OpView::CreateElement { tag: tag@, id };
        self.encode_op(OP_CREATE_ELEMENT);
        let ghost t = self.st();
        match &tag {
            TagName::Code(c) => {
                self.encode_name_bytes(*c, Option::None);
            },
            TagName::Custom(v) => {
                self.encode_name_bytes(255, Option::Some(v));
            },
        }
        match &id {
            Option::Some(n) => {
                self.encode_bool(true);
                self.encode_id(*n);
            },
            Option::None => {
                self.encode_bool(false);
            },
        }
        proof {
            assert(0 <= t.tag_pos < t.msg.len());
            lemma_enc_flags1(enc_tag(st0, OP_CREATE_ELEMENT), id is Some);
            let has = id is Some;
            match tag@ {
                NameView::Code(c) => {
                    lemma_flag_msg_commute(t, has, seq![c]);
                },
                NameView::Custom(s) => {
                    lemma_flag_text_commute(enc_msg(t, seq![255u8]), has, s);
                    lemma_flag_msg_commute(t, has, seq![255u8]);
                },
            }
            assert(self.st() =~= enc_operation(st0, op));
        }
        self.ops = Ghost(self.ops@.push(op));
        proof {
            lemma_commit(st0, old(self).view_ops(), op, self.st());
        }
    }

    /// Replaces a node's text content.
    pub fn set_text<T: WritableText>(&mut self, text: T, root: MaybeId)
        requires
            old(self).wf(),
            text.writable(),
            text.text_repr().len() <= 0xFFFF,
        ensures
            final(self).wf(),
            final(self).view_ops() == old(self).view_ops().push(
                OpView::SetText { root, text: text.text_repr() },
            ),
    {
        let ghost st0 = self.st();
        let ghost op = OpView::SetText { root, text: text.text_repr() };
        self.encode_op(OP_SET_TEXT);
        self.encode_maybe_id(root);
        self.encode_str(text);
        proof {
            lemma_enc_flags1(enc_tag(st0, OP_SET_TEXT), root.is_node());
            assert(self.st() =~= enc_operation(st0, op));
        }
        self.ops = Ghost(self.ops@.push(op));
        proof {
            lemma_commit(st0, old(self).view_ops(), op, self.st());
        }
    }

    /// Sets the value of a node's attribute.
    pub fn set_attribute<T: WritableText>(&mut self, attr: AttrName, value: T, root: MaybeId)
        requires
            old(self).wf(),
            name_valid(attr@),
            value.writable(),
            value.text_repr().len() <= 0xFFFF,
        ensures
            final(self).wf(),
            final(self).view_ops() == old(self).view_ops().push(
                OpView::SetAttribute { root, attr: attr@, value: value.text_repr() },
            ),
    {
        let ghost st0 = self.st();
        let ghost op = OpView::SetAttribute { root, attr: attr@, value: value.text_repr() };
        self.encode_op(OP_SET_ATTRIBUTE);
        self.encode_maybe_id(root);
        match &attr {
            AttrName::Code(c) => {
                self.encode_name_bytes(*c, Option::None);
            },
            AttrName::Custom(v) => {
                self.encode_name_bytes(255, Option::Some(v));
            },
        }
        self.encode_str(value);
        proof {
            lemma_enc_flags1(enc_tag(st0, OP_SET_ATTRIBUTE), root.is_node());
            assert(self.st() =~= enc_operation(st0, op));
        }
        self.ops = Ghost(self.ops@.push(op));
        proof {
            lemma_commit(st0, old(self).view_ops(), op, self.st());
        }
    }

    /// Removes an attribute from a node.
    pub fn remove_attribute(&mut self, attr: AttrName, root: MaybeId)
        requires
            old(self).wf(),
            name_valid(attr@),
        ensures
            final(self).wf(),
            final(self).view_ops() == old(self).view_ops().push(
                OpView::RemoveAttribute { root, attr: attr@ },
            ),
    {
        let ghost st0 = self.st();
        let ghost op = OpView::RemoveAttribute { root, attr: attr@ };
        self.encode_op(OP_REMOVE_ATTRIBUTE);
        self.encode_maybe_id(root);
        match &attr {
            AttrName::Code(c) => {
                self.encode_name_bytes(*c, Option::None);
            },
            AttrName::Custom(v) => {
                self.encode_name_bytes(255, Option::Some(v));
            },
        }
        proof {
            lemma_enc_flags1(enc_tag(st0, OP_REMOVE_ATTRIBUTE), root.is_node());
            assert(self.st() =~= enc_operation(st0, op));
        }
        self.ops = Ghost(self.ops@.push(op));
        proof {
            lemma_commit(st0, old(self).view_ops(), op, self.st());
        }
    }

    /// Sets an inline style property on a node.
    pub fn set_style(&mut self, style: &str, value: &str, id: MaybeId)
        requires
            old(self).wf(),
            style.text_repr().len() <= 0xFFFF,
            value.text_repr().len() <= 0xFFFF,
        ensures
            final(self).wf(),
            final(self).view_ops() == old(self).view_ops().push(
                OpView::SetStyle { id, style: style.text_repr(), value: value.text_repr() },
            ),
    {
        let ghost st0 = self.st();
        let ghost op = OpView::SetStyle {
            id,
            style: style.text_repr(),
            value: value.text_repr(),
        };
        self.encode_op(OP_SET_STYLE);
        self.encode_maybe_id(id);
        self.encode_str(style);
        self.encode_str(value);
        proof {
            lemma_enc_flags1(enc_tag(st0, OP_SET_STYLE), id.is_node());
            assert(self.st() =~= enc_operation(st0, op));
        }
        self.ops = Ghost(self.ops@.push(op));
        proof {
            lemma_commit(st0, old(self).view_ops(), op, self.st());
        }
    }

    /// Removes an inline style property from a node.
    pub fn remove_style(&mut self, style: &str, id: MaybeId)
        requires
            old(self).wf(),
            style.text_repr().len() <= 0xFFFF,
        ensures
            final(self).wf(),
            final(self).view_ops() == old(self).view_ops().push(
                OpView::RemoveStyle { id, style: style.text_repr() },
            ),
    {
        let ghost st0 = self.st();
        let ghost op = OpView::RemoveStyle { id, style: style.text_repr() };
        self.encode_op(OP_REMOVE_STYLE);
        self.encode_maybe_id(id);
        self.encode_str(style);
        proof {
            lemma_enc_flags1(enc_tag(st0, OP_REMOVE_STYLE), id.is_node());
            assert(self.st() =~= enc_operation(st0, op));
        }
        self.ops = Ghost(self.ops@.push(op));
        proof {
            lemma_commit(st0, old(self).view_ops(), op, self.st());
        }
    }

    /// Duplicates a node and stores the copy under a new reference.
    pub fn clone_node(&mut self, id: MaybeId, new_id: MaybeId)
        requires
            old(self).wf(),
        ensures
            final(self).wf(),
            final(self).view_ops() == old(self).view_ops().push(OpView::CloneNode { id, new_id }),
    {
        let ghost st0 = self.st();
        let ghost op = OpView::CloneNode { id, new_id };
        self.encode_op(OP_CLONE_NODE);
        let ghost t = self.st();
        self.encode_maybe_id(id);
        self.encode_maybe_id(new_id);
        proof {
            assert(0 <= t.tag_pos < t.msg.len());
            lemma_enc_flags2(enc_tag(st0, OP_CLONE_NODE), id.is_node(), new_id.is_node());
            match id {
                MaybeId::Node(n) => {
                    lemma_flag_msg_commute(enc_flag(t, true), new_id.is_node(), u32_le(n.0));
                },
                MaybeId::LastNode => {},
            }
            assert(self.st() =~= enc_operation(st0, op));
        }
        self.ops = Ghost(self.ops@.push(op));
        proof {
            lemma_commit(st0, old(self).view_ops(), op, self.st());
        }
    }

    /// Moves the cursor to the first child of the current node.
    pub fn first_child(&mut self)
        requires
            old(self).wf(),
        ensures
            final(self).wf(),
            final(self).view_ops() == old(self).view_ops().push(OpView::FirstChild),
    {
        let ghost st0 = self.st();
        let ghost op = OpView::FirstChild;
        self.encode_op(OP_FIRST_CHILD);
        proof {
            assert(self.st() =~= enc_operation(st0, op));
        }
        self.ops = Ghost(self.ops@.push(op));
        proof {
            lemma_commit(st0, old(self).view_ops(), op, self.st());
        }
    }

    /// Moves the cursor to the next sibling of the current node.
    pub fn next_sibling(&mut self)
        requires
            old(self).wf(),
        ensures
            final(self).wf(),
            final(self).view_ops() == old(self).view_ops().push(OpView::NextSibling),
    {
        let ghost st0 = self.st();
        let ghost op = OpView::NextSibling;
        self.encode_op(OP_NEXT_SIBLING);
        proof {
            assert(self.st() =~= enc_operation(st0, op));
        }
        self.ops = Ghost(self.ops@.push(op));
        proof {
            lemma_commit(st0, old(self).view_ops(), op, self.st());
        }
    }

    /// Moves the cursor to the parent of the current node.
    pub fn parent_node(&mut self)
        requires
            old(self).wf(),
        ensures
            final(self).wf(),
            final(self).view_ops() == old(self).view_ops().push(OpView::ParentNode),
    {
        let ghost st0 = self.st();
        let ghost op = OpView::ParentNode;
        self.encode_op(OP_PARENT_NODE);
        proof {
            assert(self.st() =~= enc_operation(st0, op));
        }
        self.ops = Ghost(self.ops@.push(op));
        proof {
            lemma_commit(st0, old(self).view_ops(), op, self.st());
        }
    }

    /// Stores the node the cursor points at under a caller-assigned id.
    pub fn store_with_id(&mut self, id: NodeId)
        requires
            old(self).wf(),
        ensures
            final(self).wf(),
            final(self).view_ops() == old(self).view_ops().push(OpView::StoreWithId { id }),
    {
        let ghost st0 = self.st();
        let ghost op = OpView::StoreWithId { id };
        self.encode_op(OP_STORE_WITH_ID);
        self.encode_id(id);
        proof {
            assert(self.st() =~= enc_operation(st0, op));
        }
        self.ops = Ghost(self.ops@.push(op));
        proof {
            lemma_commit(st0, old(self).view_ops(), op, self.st());
        }
    }

    /// Moves the cursor to an explicit node.
    pub fn set_last_node(&mut self, id: NodeId)
        requires
            old(self).wf(),
        ensures
            final(self).wf(),
            final(self).view_ops() == old(self).view_ops().push(OpView::SetLastNode { id }),
    {
        let ghost st0 = self.st();
        let ghost op = OpView::SetLastNode { id };
        self.encode_op(OP_SET_LAST_NODE);
        self.encode_id(id);
        proof {
            assert(self.st() =~= enc_operation(st0, op));
        }
        self.ops = Ghost(self.ops@.push(op));
        proof {
            lemma_commit(st0, old(self).view_ops(), op, self.st());
        }
    }

    /// Append one raw operand byte.
    fn push_operand_byte(&mut self, b: u8)
        requires
            st_wf(old(self).st()),
            old(self).st().msg.len() > 0,
        ensures
            final(self).st() =~= enc_msg(old(self).st(), seq![b]),
            st_wf(final(self).st()),
            final(self).ops == old(self).ops,
    {
        self.msg.push(b);
        proof {
            assert(final(self).st().msg =~= enc_msg(old(self).st(), seq![b]).msg);
        }
    }

    /// Encode the shared wire shape of the count-prefixed multi-node
    /// operations: tag, target flag and bytes, the `is-many` flag set, a
    /// four-byte count, then the id list.
    fn encode_many_nodes(&mut self, code: u8, root: MaybeId, nodes: &[NodeId])
        requires
            st_wf(old(self).st()),
            code < 32,
            nodes@.len() <= 0xFFFF_FFFF,
        ensures
            final(self).st() =~= enc_msg(
                enc_flag(enc_flag(enc_tag(old(self).st(), code), root.is_node()), true),
                mid_bytes(root) + u32_le(nodes@.len() as u32) + ids_bytes(nodes@),
            ),
            st_wf(final(self).st()),
            final(self).ops == old(self).ops,
    {
        let ghost st0 = self.st();
        self.encode_op(code);
        let ghost t = self.st();
        self.encode_maybe_id(root);
        self.encode_bool(true);
        self.encode_u32(nodes.len() as u32);
        let ghost flagged = enc_msg(
            enc_flag(enc_flag(t, root.is_node()), true),
            mid_bytes(root) + u32_le(nodes@.len() as u32),
        );
        proof {
            assert(0 <= t.tag_pos < t.msg.len());
            match root {
                MaybeId::Node(n) => {
                    lemma_flag_msg_commute(enc_flag(t, true), true, u32_le(n.0));
                },
                MaybeId::LastNode => {},
            }
            assert(self.st() =~= flagged);
        }
        let ghost base = self.st();
        let mut i: usize = 0;
        while i < nodes.len()
            invariant
                i <= nodes@.len(),
                st_wf(self.st()),
                self.st().msg.len() > 0,
                self.st() == enc_msg(base, ids_bytes(nodes@.take(i as int))),
                self.ops == old(self).ops,
                base == flagged,
                base.msg.len() > 0,
            decreases nodes@.len() - i,
        {
            self.encode_id(nodes[i]);
            proof {
                assert(nodes@.take(i as int + 1) =~= nodes@.take(i as int).push(
                    nodes@[i as int],
                ));
                lemma_ids_bytes_push(nodes@.take(i as int), nodes@[i as int]);
                assert(self.st() =~= enc_msg(base, ids_bytes(nodes@.take(i as int + 1))));
            }
            i = i + 1;
        }
        proof {
            assert(nodes@.take(nodes@.len() as int) =~= nodes@);
            assert(final(self).st() =~= enc_msg(
                enc_flag(enc_flag(enc_tag(old(self).st(), code), root.is_node()), true),
                mid_bytes(root) + u32_le(nodes@.len() as u32) + ids_bytes(nodes@),
            ));
        }
    }

    /// Appends several nodes as children of the given node, on the
    /// count-prefixed multi-node path.
    pub fn append_children(&mut self, root: MaybeId, children: Vec<NodeId>)
        requires
            old(self).wf(),
            children@.len() <= 0xFFFF_FFFF,
        ensures
            final(self).wf(),
            final(self).view_ops() == old(self).view_ops().push(
                OpView::AppendChildren { root, children: children@ },
            ),
    {
        let ghost st0 = self.st();
        let ghost op = OpView::AppendChildren { root, children: children@ };
        self.encode_many_nodes(OP_APPEND_CHILDREN, root, children.as_slice());
        proof {
            lemma_enc_flags2(enc_tag(st0, OP_APPEND_CHILDREN), root.is_node(), true);
            assert(self.st() =~= enc_operation(st0, op));
        }
        self.ops = Ghost(self.ops@.push(op));
        proof {
            lemma_commit(st0, old(self).view_ops(), op, self.st());
        }
    }

    /// Replaces a node with several nodes, on the count-prefixed path.
    pub fn replace_with_nodes(&mut self, root: MaybeId, nodes: Vec<NodeId>)
        requires
            old(self).wf(),
            nodes@.len() <= 0xFFFF_FFFF,
        ensures
            final(self).wf(),
            final(self).view_ops() == old(self).view_ops().push(
                OpView::ReplaceWithNodes { root, nodes: nodes@ },
            ),
    {
        let ghost st0 = self.st();
        let ghost op = OpView::ReplaceWithNodes { root, nodes: nodes@ };
        self.encode_many_nodes(OP_REPLACE_WITH, root, nodes.as_slice());
        proof {
            lemma_enc_flags2(enc_tag(st0, OP_REPLACE_WITH), root.is_node(), true);
            assert(self.st() =~= enc_operation(st0, op));
        }
        self.ops = Ghost(self.ops@.push(op));
        proof {
            lemma_commit(st0, old(self).view_ops(), op, self.st());
        }
    }

    /// Inserts several nodes after the given node, on the count-prefixed
    /// path.
    pub fn insert_nodes_after(&mut self, root: MaybeId, nodes: &[NodeId])
        requires
            old(self).wf(),
            nodes@.len() <= 0xFFFF_FFFF,
        ensures
            final(self).wf(),
            final(self).view_ops() == old(self).view_ops().push(
                OpView::InsertNodesAfter { root, nodes: nodes@ },
            ),
    {
        let ghost st0 = self.st();
        let ghost op = OpView::InsertNodesAfter { root, nodes: nodes@ };
        self.encode_many_nodes(OP_INSERT_AFTER, root, nodes);
        proof {
            lemma_enc_flags2(enc_tag(st0, OP_INSERT_AFTER), root.is_node(), true);
            assert(self.st() =~= enc_operation(st0, op));
        }
        self.ops = Ghost(self.ops@.push(op));
        proof {
            lemma_commit(st0, old(self).view_ops(), op, self.st());
        }
    }

    /// Inserts several nodes before the given node, on the count-prefixed
    /// path.
    pub fn insert_nodes_before(&mut self, root: MaybeId, nodes: &[NodeId])
        requires
            old(self).wf(),
            nodes@.len() <= 0xFFFF_FFFF,
        ensures
            final(self).wf(),
            final(self).view_ops() == old(self).view_ops().push(
                OpView::InsertNodesBefore { root, nodes: nodes@ },
            ),
    {
        let ghost st0 = self.st();
        let ghost op = OpView::InsertNodesBefore { root, nodes: nodes@ };
        self.encode_many_nodes(OP_INSERT_BEFORE, root, nodes);
        proof {
            lemma_enc_flags2(enc_tag(st0, OP_INSERT_BEFORE), root.is_node(), true);
            assert(self.st() =~= enc_operation(st0, op));
        }
        self.ops = Ghost(self.ops@.push(op));
        proof {
            lemma_commit(st0, old(self).view_ops(), op, self.st());
        }
    }

    /// Duplicates the children of a node, storing each copy under one of
    /// the given ids.
    pub fn clone_node_children(&mut self, id: MaybeId, new_ids: Vec<NodeId>)
        requires
            old(self).wf(),
            new_ids@.len() <= 0xFFFF_FFFF,
        ensures
            final(self).wf(),
            final(self).view_ops() == old(self).view_ops().push(
                OpView::CloneNodeChildren { id, new_ids: new_ids@ },
            ),
    {
        let ghost st0 = self.st();
        let ghost op = OpView::CloneNodeChildren { id, new_ids: new_ids@ };
        self.encode_op(OP_CLONE_NODE_CHILDREN);
        self.encode_maybe_id(id);
        let ghost base = self.st();
        let mut i: usize = 0;
        while i < new_ids.len()
            invariant
                i <= new_ids@.len(),
                st_wf(self.st()),
                self.st().msg.len() > 0,
                self.st() == enc_msg(base, prefixed_ids_partial(new_ids@.take(i as int))),
                self.ops == old(self).ops,
                base.msg.len() > 0,
            decreases new_ids@.len() - i,
        {
            self.push_operand_byte(1);
            self.encode_id(new_ids[i]);
            proof {
                assert(new_ids@.take(i as int + 1) =~= new_ids@.take(i as int).push(
                    new_ids@[i as int],
                ));
                lemma_prefixed_ids_partial_push(new_ids@.take(i as int), new_ids@[i as int]);
                assert(self.st() =~= enc_msg(
                    base,
                    prefixed_ids_partial(new_ids@.take(i as int + 1)),
                ));
            }
            i = i + 1;
        }
        self.push_operand_byte(0);
        proof {
            assert(new_ids@.take(new_ids@.len() as int) =~= new_ids@);
            lemma_prefixed_ids_split(new_ids@);
            lemma_enc_flags1(enc_tag(st0, OP_CLONE_NODE_CHILDREN), id.is_node());
            assert(self.st() =~= enc_operation(st0, op));
        }
        self.ops = Ghost(self.ops@.push(op));
        proof {
            lemma_commit(st0, old(self).view_ops(), op, self.st());
        }
    }

    /// Encode a byte text value: bytes to the text stream, a two-byte
    /// length to the instruction stream.
    fn encode_bytes_text(&mut self, t: &Vec<u8>)
        requires
            st_wf(old(self).st()),
            old(self).st().msg.len() > 0,
            t@.len() <= 0xFFFF,
        ensures
            final(self).st() =~= enc_text(old(self).st(), t@),
            st_wf(final(self).st()),
            final(self).ops == old(self).ops,
    {
        let prev_len = self.str_buf.len();
        self.str_buf.extend_from_slice(t.as_slice());
        let len = self.str_buf.len() - prev_len;
        self.encode_u16(len as u16);
    }

    /// Encode one subtree description, depth-first: tag, optional id,
    /// attribute count and attributes, child count and children.
    #[verifier::rlimit(100)]
    fn encode_element(&mut self, el: &ElementBuilder)
        requires
            st_wf(old(self).st()),
            old(self).st().msg.len() > 0,
            eb_valid(eb_view(*el)),
        ensures
            final(self).st() =~= enc_both(
                old(self).st(),
                eb_msg_bytes(eb_view(*el)),
                eb_text_bytes(eb_view(*el)),
            ),
            st_wf(final(self).st()),
            final(self).ops == old(self).ops,
        decreases *el,
    {
        let ghost ev = eb_view(*el);
        match &el.tag {
            TagName::Code(c) => {
                self.encode_name_bytes(*c, Option::None);
            },
            TagName::Custom(v) => {
                self.encode_name_bytes(255, Option::Some(v));
            },
        }
        match &el.id {
            Option::Some(n) => {
                self.push_operand_byte(1);
                self.encode_id(*n);
            },
            Option::None => {
                self.push_operand_byte(0);
            },
        }
        self.encode_u16(el.attrs.len() as u16);
        let ghost av = ev.attrs;
        let ghost abase = self.st();
        let mut i: usize = 0;
        while i < el.attrs.len()
            invariant
                i <= el.attrs@.len(),
                st_wf(self.st()),
                self.st().msg.len() > 0,
                av == eb_view(*el).attrs,
                av == el.attrs@.map_values(|a: (AttrName, Vec<u8>)| (a.0@, a.1@)),
                eb_valid(eb_view(*el)),
                self.st() == enc_both(
                    abase,
                    attrs_msg_bytes(av.take(i as int)),
                    attrs_text_bytes(av.take(i as int)),
                ),
                self.ops == old(self).ops,
                abase.msg.len() > 0,
            decreases el.attrs@.len() - i,
        {
            let a = &el.attrs[i];
            proof {
                assert(av[i as int] == (a.0@, a.1@));
                assert(name_valid(eb_view(*el).attrs[i as int].0));
                assert(eb_view(*el).attrs[i as int].1.len() <= 0xFFFF);
            }
            match &a.0 {
                AttrName::Code(c) => {
                    self.encode_name_bytes(*c, Option::None);
                },
                AttrName::Custom(v) => {
                    self.encode_name_bytes(255, Option::Some(v));
                },
            }
            self.encode_bytes_text(&a.1);
            proof {
                assert(av.take(i as int + 1) =~= av.take(i as int).push(av[i as int]));
                lemma_attrs_msg_bytes_push(av.take(i as int), av[i as int]);
                lemma_attrs_text_bytes_push(av.take(i as int), av[i as int]);
                assert(self.st() =~= enc_both(
                    abase,
                    attrs_msg_bytes(av.take(i as int + 1)),
                    attrs_text_bytes(av.take(i as int + 1)),
                ));
            }
            i = i + 1;
        }
        proof {
            assert(av.take(av.len() as int) =~= av);
        }
        self.encode_u16(el.children.len() as u16);
        let ghost cv = ev.children;
        let ghost cbase = self.st();
        let mut j: usize = 0;
        proof {
            lemma_ebs_view_len(el.children@);
        }
        while j < el.children.len()
            invariant
                j <= el.children@.len(),
                st_wf(self.st()),
                self.st().msg.len() > 0,
                cv == eb_view(*el).children,
                cv == ebs_view(el.children@),
                cv.len() == el.children@.len(),
                eb_valid(eb_view(*el)),
                self.st() == enc_both(
                    cbase,
                    ebs_msg_bytes(cv.take(j as int)),
                    ebs_text_bytes(cv.take(j as int)),
                ),
                self.ops == old(self).ops,
                cbase.msg.len() > 0,
            decreases el.children@.len() - j,
        {
            proof {
                lemma_ebs_view_index(el.children@, j as int);
                lemma_ebs_valid_index(cv, j as int);
            }
            self.encode_element(&el.children[j]);
            proof {
                assert(cv.take(j as int + 1) =~= cv.take(j as int).push(cv[j as int]));
                lemma_ebs_msg_bytes_push(cv.take(j as int), cv[j as int]);
                lemma_ebs_text_bytes_push(cv.take(j as int), cv[j as int]);
                assert(self.st() =~= enc_both(
                    cbase,
                    ebs_msg_bytes(cv.take(j as int + 1)),
                    ebs_text_bytes(cv.take(j as int + 1)),
                ));
            }
            j = j + 1;
        }
        proof {
            assert(cv.take(cv.len() as int) =~= cv);
            assert(final(self).st() =~= enc_both(
                old(self).st(),
                eb_msg_bytes(ev),
                eb_text_bytes(ev),
            ));
        }
    }

    /// Creates a whole element subtree in a single operation, slightly
    /// more efficient than creating the element and then setting each
    /// attribute and child separately.
    pub fn build_full_element(&mut self, el: ElementBuilder)
        requires
            old(self).wf(),
            eb_valid(el@),
        ensures
            final(self).wf(),
            final(self).view_ops() == old(self).view_ops().push(
                OpView::BuildFullElement { root: el@ },
            ),
    {
        let ghost st0 = self.st();
        let ghost op = OpView::BuildFullElement { root: el@ };
        self.encode_op(OP_BUILD_FULL_ELEMENT);
        self.encode_element(&el);
        proof {
            assert(self.st() =~= enc_operation(st0, op));
        }
        self.ops = Ghost(self.ops@.push(op));
        proof {
            lemma_commit(st0, old(self).view_ops(), op, self.st());
        }
    }

    /// Append one padding operation, filling one slot of the current
    /// group.
    fn pad_noop(&mut self)
        requires
            old(self).wf(),
        ensures
            final(self).wf(),
            final(self).view_ops() == old(self).view_ops().push(OpView::NoOp),
            pad_count(final(self).st()) == if in_group(old(self).st()) {
                pad_count(old(self).st()) - 1
            } else {
                3
            },
            in_group(old(self).st()) ==> final(self).st().msg.len() == old(self).st().msg.len(),
    {
        let ghost st0 = self.st();
        let ghost op = OpView::NoOp;
        self.encode_op(OP_NO_OP);
        proof {
            assert(self.st() =~= enc_operation(st0, op));
            lemma_enc_operation_shape(st0, op);
        }
        self.ops = Ghost(self.ops@.push(op));
        proof {
            lemma_commit(st0, old(self).view_ops(), op, self.st());
        }
    }

    /// Adds a whole batch of operations to this one: the current group is
    /// first padded to its four tag slots, so that the appended batch's
    /// groups keep their absolute alignment, then both streams are
    /// concatenated and the cursor rebased.
    pub fn append(&mut self, other: Batch)
        requires
            old(self).wf(),
            other.wf(),
            old(self).st().msg.len() + other.st().msg.len() <= usize::MAX,
            old(self).st().strs.len() + other.st().strs.len() <= usize::MAX,
        ensures
            final(self).wf(),
            final(self).view_ops() == old(self).view_ops() + noop_seq(
                pad_count(old(self).st()),
            ) + other.view_ops(),
    {
        let ghost ops0 = self.ops@;
        let ghost pad0 = pad_count(old(self).st());
        let left = 3 - (self.current_op_byte_idx - self.current_op_batch_idx);
        proof {
            if self.msg@.len() == 0 {
                assert(pad0 == 0);
                assert(left == 0);
            }
        }
        let mut k: usize = 0;
        while k < left
            invariant
                k <= left,
                self.wf(),
                self.ops@ == ops0 + noop_seq(k as int),
                left as int == pad0,
                pad_count(self.st()) == pad0 - k,
                pad0 <= 3,
                self.st().msg.len() == old(self).st().msg.len(),
            decreases left - k,
        {
            proof {
                assert(in_group(self.st()));
            }
            self.pad_noop();
            proof {
                assert(self.ops@ =~= ops0 + noop_seq(k as int + 1));
            }
            k = k + 1;
        }
        let ghost opsp = self.ops@;
        proof {
            assert(pad_count(self.st()) == 0);
            assert(self.st().tag_pos == self.st().group_start + 3);
        }
        if other.msg.len() > 0 {
            let ghost stp = self.st();
            let ghost stb = other.st();
            let ghost oops = other.ops@;
            proof {
                if oops.len() == 0 {
                    assert(other.st() == enc_all(oops));
                    assert(enc_ops(enc_init(), Seq::<OpView>::empty()) == enc_init());
                    assert(false);
                }
                lemma_append_full(stp, oops);
                lemma_enc_ops_app(enc_init(), opsp, oops);
            }
            proof {
                assert(stb.tag_pos < stb.msg.len());
            }
            let base = self.msg.len();
            let Batch {
                msg: mut om,
                str_buf: mut os,
                current_op_batch_idx: obi,
                current_op_byte_idx: oby,
                current_op_bit_pack_index: obit,
                ops: _,
            } = other;
            self.current_op_byte_idx = base + oby;
            self.current_op_batch_idx = base + obi;
            self.current_op_bit_pack_index = obit;
            self.msg.append(&mut om);
            self.str_buf.append(&mut os);
            self.ops = Ghost(opsp + oops);
            proof {
                assert(self.st() =~= enc_ops(stp, oops));
                assert(self.st() == enc_all(opsp + oops));
                assert forall|i: int| 0 <= i < (opsp + oops).len() implies op_valid(
                    #[trigger] (opsp + oops)[i],
                ) by {
                    if i < opsp.len() {
                        assert(op_valid(opsp[i]));
                    } else {
                        assert(op_valid(oops[i - opsp.len()]));
                    }
                }
                assert(final(self).view_ops() =~= ops0 + noop_seq(pad0) + oops);
            }
        } else {
            proof {
                let oops = other.ops@;
                if oops.len() > 0 {
                    lemma_enc_all_nonempty(oops);
                }
                assert(other.view_ops() =~= Seq::<OpView>::empty());
            }
            self.ops = Ghost(opsp + other.ops@);
            proof {
                assert(self.st() == enc_all(opsp));
                assert(opsp + other.ops@ =~= opsp);
                assert(final(self).view_ops() =~= ops0 + noop_seq(pad0) + other.view_ops());
            }
        }
    }

    /// The instruction stream encoded so far.
    pub fn instruction_bytes(&self) -> (r: &Vec<u8>)
        ensures
            r@ == self.st().msg,
    {
        &self.msg
    }

    /// The text stream encoded so far.
    pub fn text_bytes(&self) -> (r: &Vec<u8>)
        ensures
            r@ == self.st().strs,
    {
        &self.str_buf
    }

    /// Terminate the stream in place with a `Stop` tag.
    pub(crate) fn seal(&mut self)
        requires
            old(self).wf(),
        ensures
            final(self).st() == enc_seal(enc_all(old(self).view_ops())),
            st_wf(final(self).st()),
            final(self).view_ops() == old(self).view_ops(),
            final(self).st().strs == enc_all(old(self).view_ops()).strs,
            ops_valid(final(self).view_ops()),
    {
        self.encode_op(OP_STOP);
    }

    /// Clear both streams for reuse and rewind the cursor.
    pub(crate) fn reset(&mut self)
        ensures
            final(self).wf(),
            final(self).view_ops() == Seq::<OpView>::empty(),
    {
        self.msg.clear();
        self.str_buf.clear();
        self.current_op_batch_idx = 0;
        self.current_op_byte_idx = 3;
        self.current_op_bit_pack_index = 0;
        self.ops = Ghost(Seq::empty());
        proof {
            assert(self.st() =~= enc_init());
            assert(enc_ops(enc_init(), Seq::<OpView>::empty()) == enc_init());
        }
    }

    /// Terminates the batch with a `Stop` tag and freezes it.
    pub fn finalize(self) -> (r: FinalizedBatch)
        requires
            self.wf(),
        ensures
            r.wf(),
            r.ops@ == self.view_ops(),
    {
        let mut b = self;
        b.encode_op(OP_STOP);
        FinalizedBatch { msg: b.msg, strs: b.str_buf, ops: b.ops }
    }

    /// Encode a tag or attribute descriptor: a code byte, or the marker
    /// byte and a length-prefixed text.
    fn encode_name_bytes(&mut self, code_or_marker: u8, text: Option<&Vec<u8>>)
        requires
            st_wf(old(self).st()),
            old(self).st().msg.len() > 0,
            text is Some ==> code_or_marker == 255 && text->0@.len() <= 0xFFFF,
        ensures
            final(self).st() =~= (match text {
                Option::Some(t) => enc_text(
                    enc_msg(old(self).st(), seq![code_or_marker]),
                    t@,
                ),
                Option::None => enc_msg(old(self).st(), seq![code_or_marker]),
            }),
            st_wf(final(self).st()),
            final(self).ops == old(self).ops,
    {
        self.msg.push(code_or_marker);
        proof {
            assert(self.st() =~= enc_msg(old(self).st(), seq![code_or_marker]));
        }
        match text {
            Option::Some(t) => {
                let prev_len = self.str_buf.len();
                self.str_buf.extend_from_slice(t.as_slice());
                let len = self.str_buf.len() - prev_len;
                self.encode_u16(len as u16);
            },
            Option::None => {},
        }
    }
}

impl Default for Batch {
    /// An empty batch: both streams empty, the cursor placed so that the
    /// first instruction opens a group at offset zero.
    fn default() -> (r: Batch)
        ensures
            r.wf(),
            r.view_ops() == Seq::<OpView>::empty(),
    {
        let r = Batch {
            msg: Vec::new(),
            str_buf: Vec::new(),
            current_op_batch_idx: 0,
            current_op_byte_idx: 3,
            current_op_bit_pack_index: 0,
            ops: Ghost(Seq::empty()),
        };
        proof {
            assert(r.st() =~= enc_init());
            assert(enc_ops(enc_init(), Seq::<OpView>::empty()) == enc_init());
        }
        r
    }
}

/// Appending an operation to a well-formed encoding yields the well-formed
/// encoding of the extended log.
proof fn lemma_commit(st0: EncSt, ops0: Seq<OpView>, op: OpView, stc: EncSt)
    requires
        st0 == enc_all(ops0),
        st_wf(st0),
        ops_valid(ops0),
        op_valid(op),
        stc == enc_operation(st0, op),
    ensures
        stc == enc_all(ops0.push(op)),
        st_wf(stc),
        ops_valid(ops0.push(op)),
{
    lemma_enc_all_push(ops0, op);
    lemma_enc_operation_shape(st0, op);
    let ops1 = ops0.push(op);
    assert forall|i: int| 0 <= i < ops1.len() implies op_valid(#[trigger] ops1[i]) by {
        if i < ops0.len() {
            assert(op_valid(ops0[i]));
        }
    }
}

} // verus!
