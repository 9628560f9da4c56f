//! The boundary channel: one batch encoder per channel, plus the
//! metadata handshake that tells the remote interpreter where the two
//! buffers live and whether it must re-resolve its pointers.
//!
//! Publishing follows a fixed write-ordering contract: the consumer of a
//! [`MetaUpdate`] must write the instruction-buffer address (when its
//! dirty flag is set), then the text-buffer address (same discipline),
//! then the text length, and only then the metadata byte itself, so a
//! reader polling mid-update never observes a length without a matching
//! address.

use vstd::prelude::*;

use crate::batch::Batch;
use crate::batch::FinalizedBatch;
use crate::element::ElementBuilder;
use crate::element::eb_valid;
use crate::element::name_valid;
use crate::element::AttrName;
use crate::element::TagName;
use crate::ids::MaybeId;
use crate::ids::NodeId;
use crate::wire::enc_all;
use crate::wire::enc_seal;
use crate::wire::noop_seq;
use crate::wire::ops_valid;
use crate::wire::pad_count;
use crate::wire::st_wf;
use crate::wire::OpView;
use crate::writable::WritableText;

verus! {

/// All bytes are single-byte (ASCII) text.
pub open spec fn bytes_ascii(s: Seq<u8>) -> bool {
    forall|i: int| 0 <= i < s.len() ==> s[i] < 128
}

/// Whether every byte of the buffer is below 128.
fn all_bytes_ascii(v: &Vec<u8>) -> (r: bool)
    ensures
        r == bytes_ascii(v@),
{
    let mut i: usize = 0;
    while i < v.len()
        invariant
            i <= v@.len(),
            forall|j: int| 0 <= j < i ==> v@[j] < 128,
        decreases v@.len() - i,
    {
        if v[i] >= 128 {
            return false;
        }
        i = i + 1;
    }
    true
}

/// Registration for the one channel a boundary admits. Exactly one
/// encoder may exist per boundary channel; a second construction is
/// rejected until the first is released.
pub struct ChannelRegistry {
    taken: bool,
}

impl ChannelRegistry {
    /// Whether a channel is currently registered.
    pub closed spec fn is_taken(self) -> bool {
        self.taken
    }

    /// A fresh registry with no channel registered.
    pub fn new() -> (r: ChannelRegistry)
        ensures
            !r.is_taken(),
    {
        ChannelRegistry { taken: false }
    }

    /// Release the registration after the channel is gone, so tests can
    /// construct and drop channels repeatedly within one process.
    pub fn release(&mut self)
        ensures
            !final(self).is_taken(),
    {
        self.taken = false;
    }
}

/// The error returned when a second channel is constructed while one is
/// already registered.
#[derive(Debug, Clone, Copy, PartialEq, Eq, Structural)]
pub enum ChannelError {
    /// A channel already exists on this boundary.
    AlreadyRegistered,
}

/// The two buffer addresses as the host runtime sees them.
#[derive(Debug, Clone, Copy, PartialEq, Eq, Structural)]
pub struct BufferAddrs {
    /// Address of the instruction buffer.
    pub msg_ptr: usize,
    /// Address of the text buffer.
    pub str_ptr: usize,
}

/// What to write into the shared metadata slots for one handoff.
///
/// The metadata byte encodes, from the least bit up: instruction-buffer
/// address changed; text-buffer address changed; text buffer non-empty;
/// text buffer small (under 100 bytes) and entirely single-byte text.
pub struct MetaUpdate {
    /// The metadata byte.
    pub meta: u8,
    /// Whether the instruction-buffer address slot must be rewritten.
    pub msg_ptr_dirty: bool,
    /// Whether the text-buffer address slot must be rewritten.
    pub str_ptr_dirty: bool,
    /// The text-buffer length to publish.
    pub str_len: usize,
}

/// A batching channel to one remote interpreter: operations queue into a
/// batch; a flush seals the batch, publishes both buffers, and resets
/// them for reuse.
pub struct MsgChannel {
    batch: Batch,
    published: Option<BufferAddrs>,
    sealed: bool,
}

impl MsgChannel {
    /// The operations queued since the last reset.
    pub closed spec fn queued(self) -> Seq<OpView> {
        self.batch.view_ops()
    }

    /// Whether the current batch is sealed, awaiting publication.
    pub closed spec fn is_sealed(self) -> bool {
        self.sealed
    }

    /// The addresses published at the last handoff, if any.
    pub closed spec fn last_addrs(self) -> Option<BufferAddrs> {
        self.published
    }

    /// The channel invariant: the streams hold exactly the encoding of
    /// the queued operations, sealed with a terminator once flushed.
    pub closed spec fn wf(self) -> bool {
        &&& ops_valid(self.queued())
        &&& if self.sealed {
            &&& self.batch.st() == enc_seal(enc_all(self.queued()))
            &&& st_wf(self.batch.st())
        } else {
            self.batch.wf()
        }
    }

    /// Construct the channel, registering it as the boundary's only one.
    pub fn new(registry: &mut ChannelRegistry) -> (r: Result<MsgChannel, ChannelError>)
        ensures
            r is Ok <==> !old(registry).is_taken(),
            final(registry).is_taken(),
            r matches Ok(ch) ==> ch.wf() && !ch.is_sealed() && ch.queued()
                == Seq::<OpView>::empty() && ch.last_addrs() is None,
            r matches Err(e) ==> e == ChannelError::AlreadyRegistered,
    {
        if registry.taken {
            Result::Err(ChannelError::AlreadyRegistered)
        } else {
            registry.taken = true;
            Result::Ok(
                MsgChannel { batch: Batch::default(), published: Option::None, sealed: false },
            )
        }
    }

    /// The instruction stream as currently encoded: the plain encoding of
    /// the queued operations, with a terminator once sealed.
    pub fn msg_bytes(&self) -> (r: &Vec<u8>)
        requires
            self.wf(),
        ensures
            self.is_sealed() ==> r@ == enc_seal(enc_all(self.queued())).msg,
            !self.is_sealed() ==> r@ == enc_all(self.queued()).msg,
    {
        self.batch.instruction_bytes()
    }

    /// The text stream as currently encoded.
    pub fn text_bytes(&self) -> (r: &Vec<u8>)
        requires
            self.wf(),
        ensures
            r@ == enc_all(self.queued()).strs,
    {
        self.batch.text_bytes()
    }

    /// Seal the queued batch with the terminator. The host must then
    /// publish the buffers and run the remote interpreter before calling
    /// [`MsgChannel::reset`]; queueing is rejected until then, so a
    /// second flush without intervening work is ruled out.
    pub fn flush(&mut self)
        requires
            old(self).wf(),
            !old(self).is_sealed(),
        ensures
            final(self).wf(),
            final(self).is_sealed(),
            final(self).queued() == old(self).queued(),
            final(self).last_addrs() == old(self).last_addrs(),
    {
        self.batch.seal();
        self.sealed = true;
    }

    /// Compute one handoff's metadata from the previous one.
    fn plan_update(&mut self, addrs: BufferAddrs, str_len: usize, ascii: bool) -> (m: MetaUpdate)
        ensures
            m.msg_ptr_dirty == (match old(self).last_addrs() {
                Option::Some(p) => p.msg_ptr != addrs.msg_ptr,
                Option::None => true,
            }),
            m.str_ptr_dirty == (match old(self).last_addrs() {
                Option::Some(p) => p.str_ptr != addrs.str_ptr,
                Option::None => true,
            }),
            m.str_len == str_len,
            m.meta == (if m.msg_ptr_dirty {
                1int
            } else {
                0int
            }) + (if m.str_ptr_dirty {
                2int
            } else {
                0int
            }) + (if str_len > 0 {
                4int
            } else {
                0int
            }) + (if str_len > 0 && str_len < 100 && ascii {
                8int
            } else {
                0int
            }),
            final(self).last_addrs() == Option::Some(addrs),
            final(self).queued() == old(self).queued(),
            final(self).is_sealed() == old(self).is_sealed(),
            old(self).wf() ==> final(self).wf(),
    {
        let (msg_dirty, str_dirty) = match &self.published {
            Option::Some(p) => (p.msg_ptr != addrs.msg_ptr, p.str_ptr != addrs.str_ptr),
            Option::None => (true, true),
        };
        let mut meta: u8 = 0;
        if msg_dirty {
            meta = meta + 1;
        }
        if str_dirty {
            meta = meta + 2;
        }
        if str_len > 0 {
            meta = meta + 4;
            if str_len < 100 && ascii {
                meta = meta + 8;
            }
        }
        self.published = Option::Some(addrs);
        MetaUpdate { meta, msg_ptr_dirty: msg_dirty, str_ptr_dirty: str_dirty, str_len }
    }

    /// Compute the metadata for publishing the sealed batch at the given
    /// addresses: dirty flags only where an address changed since the
    /// last handoff, the text length, and the non-empty and small-ascii
    /// bits describing the text stream.
    pub fn publish(&mut self, addrs: BufferAddrs) -> (m: MetaUpdate)
        requires
            old(self).wf(),
            old(self).is_sealed(),
        ensures
            final(self).wf(),
            final(self).is_sealed(),
            final(self).queued() == old(self).queued(),
            final(self).last_addrs() == Option::Some(addrs),
            m.msg_ptr_dirty == (match old(self).last_addrs() {
                Option::Some(p) => p.msg_ptr != addrs.msg_ptr,
                Option::None => true,
            }),
            m.str_ptr_dirty == (match old(self).last_addrs() {
                Option::Some(p) => p.str_ptr != addrs.str_ptr,
                Option::None => true,
            }),
            m.str_len == enc_all(old(self).queued()).strs.len(),
            m.meta == (if m.msg_ptr_dirty {
                1int
            } else {
                0int
            }) + (if m.str_ptr_dirty {
                2int
            } else {
                0int
            }) + (if m.str_len > 0 {
                4int
            } else {
                0int
            }) + (if m.str_len > 0 && m.str_len < 100 && bytes_ascii(
                enc_all(old(self).queued()).strs,
            ) {
                8int
            } else {
                0int
            }),
    {
        let str_len = self.batch.text_bytes().len();
        let ascii = all_bytes_ascii(self.batch.text_bytes());
        self.plan_update(addrs, str_len, ascii)
    }

    /// Clear both buffers (keeping their storage) and reopen the channel
    /// for queueing.
    pub fn reset(&mut self)
        requires
            old(self).is_sealed(),
        ensures
            final(self).wf(),
            !final(self).is_sealed(),
            final(self).queued() == Seq::<OpView>::empty(),
            final(self).last_addrs() == old(self).last_addrs(),
    {
        self.batch.reset();
        self.sealed = false;
    }

    /// Compute the metadata for running an already-finalized batch at the
    /// given addresses, without touching the queued batch.
    pub fn run_batch(&mut self, batch: &FinalizedBatch, addrs: BufferAddrs) -> (m: MetaUpdate)
        requires
            old(self).wf(),
        ensures
            final(self).wf(),
            final(self).is_sealed() == old(self).is_sealed(),
            final(self).queued() == old(self).queued(),
            final(self).last_addrs() == Option::Some(addrs),
            m.msg_ptr_dirty == (match old(self).last_addrs() {
                Option::Some(p) => p.msg_ptr != addrs.msg_ptr,
                Option::None => true,
            }),
            m.str_ptr_dirty == (match old(self).last_addrs() {
                Option::Some(p) => p.str_ptr != addrs.str_ptr,
                Option::None => true,
            }),
            m.str_len == batch.strs@.len(),
            m.meta == (if m.msg_ptr_dirty {
                1int
            } else {
                0int
            }) + (if m.str_ptr_dirty {
                2int
            } else {
                0int
            }) + (if m.str_len > 0 {
                4int
            } else {
                0int
            }) + (if m.str_len > 0 && m.str_len < 100 && bytes_ascii(batch.strs@) {
                8int
            } else {
                0int
            }),
    {
        let str_len = batch.strs.len();
        let ascii = all_bytes_ascii(&batch.strs);
        self.plan_update(addrs, str_len, ascii)
    }

    /// Queue: append one node as a child of the given node.
    pub fn append_child(&mut self, root: MaybeId, child: NodeId)
        requires
            old(self).wf(),
            !old(self).is_sealed(),
        ensures
            final(self).wf(),
            !final(self).is_sealed(),
            final(self).queued() == old(self).queued().push(OpView::AppendChild { root, child }),
            final(self).last_addrs() == old(self).last_addrs(),
    {
        self.batch.append_child(root, child);
    }

    /// Queue: replace a node with another node.
    pub fn replace_with(&mut self, root: MaybeId, node: NodeId)
        requires
            old(self).wf(),
            !old(self).is_sealed(),
        ensures
            final(self).wf(),
            !final(self).is_sealed(),
            final(self).queued() == old(self).queued().push(OpView::ReplaceWith { root, node }),
            final(self).last_addrs() == old(self).last_addrs(),
    {
        self.batch.replace_with(root, node);
    }

    /// Queue: insert a single node after the given node.
    pub fn insert_after(&mut self, root: MaybeId, node: NodeId)
        requires
            old(self).wf(),
            !old(self).is_sealed(),
        ensures
            final(self).wf(),
            !final(self).is_sealed(),
            final(self).queued() == old(self).queued().push(OpView::InsertAfter { root, node }),
            final(self).last_addrs() == old(self).last_addrs(),
    {
        self.batch.insert_after(root, node);
    }

    /// Queue: insert a single node before the given node.
    pub fn insert_before(&mut self, root: MaybeId, node: NodeId)
        requires
            old(self).wf(),
            !old(self).is_sealed(),
        ensures
            final(self).wf(),
            !final(self).is_sealed(),
            final(self).queued() == old(self).queued().push(OpView::InsertBefore { root, node }),
            final(self).last_addrs() == old(self).last_addrs(),
    {
        self.batch.insert_before(root, node);
    }

    /// Queue: remove a node from the tree.
    pub fn remove(&mut self, id: MaybeId)
        requires
            old(self).wf(),
            !old(self).is_sealed(),
        ensures
            final(self).wf(),
            !final(self).is_sealed(),
            final(self).queued() == old(self).queued().push(OpView::Remove { id }),
            final(self).last_addrs() == old(self).last_addrs(),
    {
        self.batch.remove(id);
    }

    /// Queue: create a text node; the cursor then points at it.
    pub fn create_text_node<T: WritableText>(&mut self, text: T, id: MaybeId)
        requires
            old(self).wf(),
            !old(self).is_sealed(),
            text.writable(),
            text.text_repr().len() <= 0xFFFF,
        ensures
            final(self).wf(),
            !final(self).is_sealed(),
            final(self).queued() == old(self).queued().push(
                OpView::CreateTextNode { text: text.text_repr(), id },
            ),
            final(self).last_addrs() == old(self).last_addrs(),
    {
        self.batch.create_text_node(text, id);
    }

    /// Queue: create an element; the cursor then points at it.
    pub fn create_element(&mut self, tag: TagName, id: Option<NodeId>)
        requires
            old(self).wf(),
            !old(self).is_sealed(),
            name_valid(tag@),
        ensures
            final(self).wf(),
            !final(self).is_sealed(),
            final(self).queued() == old(self).queued().push(
                OpView::CreateElement { tag: tag@, id },
            ),
            final(self).last_addrs() == old(self).last_addrs(),
    {
        self.batch.create_element(tag, id);
    }

    /// Queue: replace a node's text content.
    pub fn set_text<T: WritableText>(&mut self, text: T, root: MaybeId)
        requires
            old(self).wf(),
            !old(self).is_sealed(),
            text.writable(),
            text.text_repr().len() <= 0xFFFF,
        ensures
            final(self).wf(),
            !final(self).is_sealed(),
            final(self).queued() == old(self).queued().push(
                OpView::SetText { root, text: text.text_repr() },
            ),
            final(self).last_addrs() == old(self).last_addrs(),
    {
        self.batch.set_text(text, root);
    }

    /// Queue: set the value of a node's attribute.
    pub fn set_attribute<T: WritableText>(&mut self, attr: AttrName, value: T, root: MaybeId)
        requires
            old(self).wf(),
            !old(self).is_sealed(),
            name_valid(attr@),
            value.writable(),
            value.text_repr().len() <= 0xFFFF,
        ensures
            final(self).wf(),
            !final(self).is_sealed(),
            final(self).queued() == old(self).queued().push(
                OpView::SetAttribute { root, attr: attr@, value: value.text_repr() },
            ),
            final(self).last_addrs() == old(self).last_addrs(),
    {
        self.batch.set_attribute(attr, value, root);
    }

    /// Queue: remove an attribute from a node.
    pub fn remove_attribute(&mut self, attr: AttrName, root: MaybeId)
        requires
            old(self).wf(),
            !old(self).is_sealed(),
            name_valid(attr@),
        ensures
            final(self).wf(),
            !final(self).is_sealed(),
            final(self).queued() == old(self).queued().push(
                OpView::RemoveAttribute { root, attr: attr@ },
            ),
            final(self).last_addrs() == old(self).last_addrs(),
    {
        self.batch.remove_attribute(attr, root);
    }

    /// Queue: duplicate a node under a new reference.
    pub fn clone_node(&mut self, id: MaybeId, new_id: MaybeId)
        requires
            old(self).wf(),
            !old(self).is_sealed(),
        ensures
            final(self).wf(),
            !final(self).is_sealed(),
            final(self).queued() == old(self).queued().push(OpView::CloneNode { id, new_id }),
            final(self).last_addrs() == old(self).last_addrs(),
    {
        self.batch.clone_node(id, new_id);
    }

    /// Queue: move the cursor to the first child of the current node.
    pub fn first_child(&mut self)
        requires
            old(self).wf(),
            !old(self).is_sealed(),
        ensures
            final(self).wf(),
            !final(self).is_sealed(),
            final(self).queued() == old(self).queued().push(OpView::FirstChild),
            final(self).last_addrs() == old(self).last_addrs(),
    {
        self.batch.first_child();
    }

    /// Queue: move the cursor to the next sibling of the current node.
    pub fn next_sibling(&mut self)
        requires
            old(self).wf(),
            !old(self).is_sealed(),
        ensures
            final(self).wf(),
            !final(self).is_sealed(),
            final(self).queued() == old(self).queued().push(OpView::NextSibling),
            final(self).last_addrs() == old(self).last_addrs(),
    {
        self.batch.next_sibling();
    }

    /// Queue: move the cursor to the parent of the current node.
    pub fn parent_node(&mut self)
        requires
            old(self).wf(),
            !old(self).is_sealed(),
        ensures
            final(self).wf(),
            !final(self).is_sealed(),
            final(self).queued() == old(self).queued().push(OpView::ParentNode),
            final(self).last_addrs() == old(self).last_addrs(),
    {
        self.batch.parent_node();
    }

    /// Queue: store the cursor's node under a caller-assigned id.
    pub fn store_with_id(&mut self, id: NodeId)
        requires
            old(self).wf(),
            !old(self).is_sealed(),
        ensures
            final(self).wf(),
            !final(self).is_sealed(),
            final(self).queued() == old(self).queued().push(OpView::StoreWithId { id }),
            final(self).last_addrs() == old(self).last_addrs(),
    {
        self.batch.store_with_id(id);
    }

    /// Queue: move the cursor to an explicit node.
    pub fn set_last_node(&mut self, id: NodeId)
        requires
            old(self).wf(),
            !old(self).is_sealed(),
        ensures
            final(self).wf(),
            !final(self).is_sealed(),
            final(self).queued() == old(self).queued().push(OpView::SetLastNode { id }),
            final(self).last_addrs() == old(self).last_addrs(),
    {
        self.batch.set_last_node(id);
    }

    /// Queue: create a whole element subtree in one operation.
    pub fn build_full_element(&mut self, el: ElementBuilder)
        requires
            old(self).wf(),
            !old(self).is_sealed(),
            eb_valid(el@),
        ensures
            final(self).wf(),
            !final(self).is_sealed(),
            final(self).queued() == old(self).queued().push(
                OpView::BuildFullElement { root: el@ },
            ),
            final(self).last_addrs() == old(self).last_addrs(),
    {
        self.batch.build_full_element(el);
    }

    /// Queue: set an inline style property on a node.
    pub fn set_style(&mut self, style: &str, value: &str, id: MaybeId)
        requires
            old(self).wf(),
            !old(self).is_sealed(),
            style.text_repr().len() <= 0xFFFF,
            value.text_repr().len() <= 0xFFFF,
        ensures
            final(self).wf(),
            !final(self).is_sealed(),
            final(self).queued() == old(self).queued().push(
                OpView::SetStyle { id, style: style.text_repr(), value: value.text_repr() },
            ),
            final(self).last_addrs() == old(self).last_addrs(),
    {
        self.batch.set_style(style, value, id);
    }

    /// Queue: remove an inline style property from a node.
    pub fn remove_style(&mut self, style: &str, id: MaybeId)
        requires
            old(self).wf(),
            !old(self).is_sealed(),
            style.text_repr().len() <= 0xFFFF,
        ensures
            final(self).wf(),
            !final(self).is_sealed(),
            final(self).queued() == old(self).queued().push(
                OpView::RemoveStyle { id, style: style.text_repr() },
            ),
            final(self).last_addrs() == old(self).last_addrs(),
    {
        self.batch.remove_style(style, id);
    }

    /// Queue a whole batch of operations, padding the current group so
    /// the appended batch's groups keep their alignment.
    pub fn append(&mut self, other: Batch)
        requires
            old(self).wf(),
            !old(self).is_sealed(),
            other.wf(),
            enc_all(old(self).queued()).msg.len() + enc_all(other.view_ops()).msg.len()
                <= usize::MAX,
            enc_all(old(self).queued()).strs.len() + enc_all(other.view_ops()).strs.len()
                <= usize::MAX,
        ensures
            final(self).wf(),
            !final(self).is_sealed(),
            final(self).queued() == old(self).queued() + noop_seq(
                pad_count(enc_all(old(self).queued())),
            ) + other.view_ops(),
            final(self).last_addrs() == old(self).last_addrs(),
    {
        self.batch.append(other);
    }
}

} // verus!
