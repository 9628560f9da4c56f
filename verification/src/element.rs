//! Tag and attribute descriptors, and the recursive subtree description
//! consumed by `build_full_element`.
//!
//! On the wire a descriptor is either a single byte holding a well-known
//! code (below 255), or the marker byte 255 followed by a two-byte
//! little-endian length whose text lives in the text stream.

use vstd::prelude::*;

use crate::ids::NodeId;
use crate::wire::u16_le;
use crate::wire::u32_le;

verus! {

broadcast use vstd::std_specs::vec::axiom_vec_decreases_to_view, vstd::seq::axiom_seq_index_decreases;

/// The marker byte announcing that a descriptor is a length-prefixed text
/// rather than a one-byte code.
pub const NAME_MARKER: u8 = 255;

/// An element tag descriptor: a well-known one-byte code, or the tag name
/// spelled out as UTF-8 bytes. Code tables are owned by the remote
/// interpreter; this crate only transports the code.
#[derive(Debug, Clone, PartialEq, Eq, Hash)]
pub enum TagName {
    /// A well-known tag code, below 255.
    Code(u8),
    /// A tag name as UTF-8 bytes.
    Custom(Vec<u8>),
}

/// An attribute name descriptor, with the same wire shape as [`TagName`].
#[derive(Debug, Clone, PartialEq, Eq, Hash)]
pub enum AttrName {
    /// A well-known attribute code, below 255.
    Code(u8),
    /// An attribute name as UTF-8 bytes.
    Custom(Vec<u8>),
}

/// The mathematical value of a descriptor.
pub enum NameView {
    Code(u8),
    Custom(Seq<u8>),
}

impl View for TagName {
    type V = NameView;

    open spec fn view(&self) -> NameView {
        match self {
            TagName::Code(c) => NameView::Code(*c),
            TagName::Custom(v) => NameView::Custom(v@),
        }
    }
}

impl View for AttrName {
    type V = NameView;

    open spec fn view(&self) -> NameView {
        match self {
            AttrName::Code(c) => NameView::Code(*c),
            AttrName::Custom(v) => NameView::Custom(v@),
        }
    }
}

/// A descriptor that fits its wire shape: codes leave room for the marker
/// byte, text lengths fit the two-byte length field.
pub open spec fn name_valid(n: NameView) -> bool {
    match n {
        NameView::Code(c) => c < NAME_MARKER,
        NameView::Custom(s) => s.len() <= 0xFFFF,
    }
}

/// The instruction-stream bytes of a descriptor.
pub open spec fn name_msg_bytes(n: NameView) -> Seq<u8> {
    match n {
        NameView::Code(c) => seq![c],
        NameView::Custom(s) => seq![NAME_MARKER] + u16_le(s.len() as u16),
    }
}

/// The text-stream bytes of a descriptor.
pub open spec fn name_text_bytes(n: NameView) -> Seq<u8> {
    match n {
        NameView::Code(_) => Seq::empty(),
        NameView::Custom(s) => s,
    }
}

/// A whole element subtree, described so it can be created by a single
/// operation: a tag, an optional caller-assigned id, an ordered attribute
/// list and an ordered child list, encoded depth-first.
#[derive(Debug, PartialEq, Eq)]
pub struct ElementBuilder {
    /// Optional id the created element is stored under.
    pub id: Option<NodeId>,
    /// The element's tag.
    pub tag: TagName,
    /// Attribute name/value pairs, values as UTF-8 bytes.
    pub attrs: Vec<(AttrName, Vec<u8>)>,
    /// Child subtrees, encoded depth-first after the attributes.
    pub children: Vec<ElementBuilder>,
}

/// The mathematical value of an [`ElementBuilder`].
pub struct ElementView {
    pub id: Option<NodeId>,
    pub tag: NameView,
    pub attrs: Seq<(NameView, Seq<u8>)>,
    pub children: Seq<ElementView>,
}

pub open spec fn eb_view(e: ElementBuilder) -> ElementView
    decreases e,
{
    proof {
        assert(decreases_to!(e => e.children));
        assert(decreases_to!(e.children => e.children@));
    }
    ElementView {
        id: e.id,
        tag: e.tag@,
        attrs: e.attrs@.map_values(|a: (AttrName, Vec<u8>)| (a.0@, a.1@)),
        children: ebs_view(e.children@),
    }
}

pub open spec fn ebs_view(s: Seq<ElementBuilder>) -> Seq<ElementView>
    decreases s, s.len(),
{
    if s.len() == 0 {
        Seq::empty()
    } else {
        proof {
            assert(decreases_to!(s => s[0]));
        }
        seq![eb_view(s[0])] + ebs_view(s.subrange(1, s.len() as int))
    }
}

impl View for ElementBuilder {
    type V = ElementView;

    open spec fn view(&self) -> ElementView {
        eb_view(*self)
    }
}

/// A subtree description that fits its wire shape: every descriptor valid,
/// every text and every list length within its length field.
pub open spec fn eb_valid(e: ElementView) -> bool
    decreases e,
{
    &&& name_valid(e.tag)
    &&& e.attrs.len() <= 0xFFFF
    &&& e.children.len() <= 0xFFFF
    &&& forall|i: int|
        0 <= i < e.attrs.len() ==> name_valid(#[trigger] e.attrs[i].0) && e.attrs[i].1.len()
            <= 0xFFFF
    &&& ebs_valid(e.children)
}

pub open spec fn ebs_valid(s: Seq<ElementView>) -> bool
    decreases s, s.len(),
{
    if s.len() == 0 {
        true
    } else {
        proof {
            assert(decreases_to!(s => s[0]));
        }
        eb_valid(s[0]) && ebs_valid(s.subrange(1, s.len() as int))
    }
}

/// The instruction-stream bytes of one attribute pair.
pub open spec fn attr_msg_bytes(a: (NameView, Seq<u8>)) -> Seq<u8> {
    name_msg_bytes(a.0) + u16_le(a.1.len() as u16)
}

/// The text-stream bytes of one attribute pair.
pub open spec fn attr_text_bytes(a: (NameView, Seq<u8>)) -> Seq<u8> {
    name_text_bytes(a.0) + a.1
}

pub open spec fn attrs_msg_bytes(s: Seq<(NameView, Seq<u8>)>) -> Seq<u8>
    decreases s.len(),
{
    if s.len() == 0 {
        Seq::empty()
    } else {
        attr_msg_bytes(s[0]) + attrs_msg_bytes(s.subrange(1, s.len() as int))
    }
}

pub open spec fn attrs_text_bytes(s: Seq<(NameView, Seq<u8>)>) -> Seq<u8>
    decreases s.len(),
{
    if s.len() == 0 {
        Seq::empty()
    } else {
        attr_text_bytes(s[0]) + attrs_text_bytes(s.subrange(1, s.len() as int))
    }
}

/// The encoded optional id: a one-byte discriminant, then four id bytes
/// when present.
pub open spec fn opt_id_bytes(id: Option<NodeId>) -> Seq<u8> {
    match id {
        Option::None => seq![0u8],
        Option::Some(n) => seq![1u8] + u32_le(n.0),
    }
}

/// The instruction-stream bytes of a whole subtree description: tag,
/// optional id, attribute count and attributes, child count and children,
/// depth-first.
pub open spec fn eb_msg_bytes(e: ElementView) -> Seq<u8>
    decreases e,
{
    proof {
        assert(decreases_to!(e => e.children));
    }
    name_msg_bytes(e.tag) + opt_id_bytes(e.id) + u16_le(e.attrs.len() as u16) + attrs_msg_bytes(
        e.attrs,
    ) + u16_le(e.children.len() as u16) + ebs_msg_bytes(e.children)
}

pub open spec fn ebs_msg_bytes(s: Seq<ElementView>) -> Seq<u8>
    decreases s, s.len(),
{
    if s.len() == 0 {
        Seq::empty()
    } else {
        proof {
            assert(decreases_to!(s => s[0]));
        }
        eb_msg_bytes(s[0]) + ebs_msg_bytes(s.subrange(1, s.len() as int))
    }
}

/// The text-stream bytes of a whole subtree description, in the order the
/// instruction stream refers to them.
pub open spec fn eb_text_bytes(e: ElementView) -> Seq<u8>
    decreases e,
{
    proof {
        assert(decreases_to!(e => e.children));
    }
    name_text_bytes(e.tag) + attrs_text_bytes(e.attrs) + ebs_text_bytes(e.children)
}

pub open spec fn ebs_text_bytes(s: Seq<ElementView>) -> Seq<u8>
    decreases s, s.len(),
{
    if s.len() == 0 {
        Seq::empty()
    } else {
        proof {
            assert(decreases_to!(s => s[0]));
        }
        eb_text_bytes(s[0]) + ebs_text_bytes(s.subrange(1, s.len() as int))
    }
}

pub proof fn lemma_ebs_view_len(s: Seq<ElementBuilder>)
    ensures
        ebs_view(s).len() == s.len(),
    decreases s.len(),
{
    if s.len() > 0 {
        lemma_ebs_view_len(s.subrange(1, s.len() as int));
    }
}

pub proof fn lemma_ebs_view_index(s: Seq<ElementBuilder>, i: int)
    requires
        0 <= i < s.len(),
    ensures
        ebs_view(s).len() == s.len(),
        ebs_view(s)[i] == eb_view(s[i]),
    decreases s.len(),
{
    lemma_ebs_view_len(s);
    if i > 0 {
        lemma_ebs_view_index(s.subrange(1, s.len() as int), i - 1);
    }
}

pub proof fn lemma_ebs_valid_index(s: Seq<ElementView>, i: int)
    requires
        ebs_valid(s),
        0 <= i < s.len(),
    ensures
        eb_valid(s[i]),
    decreases s.len(),
{
    if i > 0 {
        lemma_ebs_valid_index(s.subrange(1, s.len() as int), i - 1);
    }
}

pub proof fn lemma_attrs_msg_bytes_push(q: Seq<(NameView, Seq<u8>)>, a: (NameView, Seq<u8>))
    ensures
        attrs_msg_bytes(q.push(a)) =~= attrs_msg_bytes(q) + attr_msg_bytes(a),
    decreases q.len(),
{
    let qp = q.push(a);
    if q.len() == 0 {
        assert(qp.subrange(1, 1) =~= Seq::<(NameView, Seq<u8>)>::empty());
        assert(attrs_msg_bytes(qp.subrange(1, 1)) =~= Seq::<u8>::empty());
    } else {
        assert(qp.subrange(1, qp.len() as int) =~= q.subrange(1, q.len() as int).push(a));
        lemma_attrs_msg_bytes_push(q.subrange(1, q.len() as int), a);
    }
}

pub proof fn lemma_attrs_text_bytes_push(q: Seq<(NameView, Seq<u8>)>, a: (NameView, Seq<u8>))
    ensures
        attrs_text_bytes(q.push(a)) =~= attrs_text_bytes(q) + attr_text_bytes(a),
    decreases q.len(),
{
    let qp = q.push(a);
    if q.len() == 0 {
        assert(qp.subrange(1, 1) =~= Seq::<(NameView, Seq<u8>)>::empty());
        assert(attrs_text_bytes(qp.subrange(1, 1)) =~= Seq::<u8>::empty());
    } else {
        assert(qp.subrange(1, qp.len() as int) =~= q.subrange(1, q.len() as int).push(a));
        lemma_attrs_text_bytes_push(q.subrange(1, q.len() as int), a);
    }
}

pub proof fn lemma_ebs_msg_bytes_push(q: Seq<ElementView>, v: ElementView)
    ensures
        ebs_msg_bytes(q.push(v)) =~= ebs_msg_bytes(q) + eb_msg_bytes(v),
    decreases q.len(),
{
    let qp = q.push(v);
    if q.len() == 0 {
        assert(qp.subrange(1, 1) =~= Seq::<ElementView>::empty());
        assert(ebs_msg_bytes(qp.subrange(1, 1)) =~= Seq::<u8>::empty());
    } else {
        assert(qp.subrange(1, qp.len() as int) =~= q.subrange(1, q.len() as int).push(v));
        lemma_ebs_msg_bytes_push(q.subrange(1, q.len() as int), v);
    }
}

pub proof fn lemma_ebs_text_bytes_push(q: Seq<ElementView>, v: ElementView)
    ensures
        ebs_text_bytes(q.push(v)) =~= ebs_text_bytes(q) + eb_text_bytes(v),
    decreases q.len(),
{
    let qp = q.push(v);
    if q.len() == 0 {
        assert(qp.subrange(1, 1) =~= Seq::<ElementView>::empty());
        assert(ebs_text_bytes(qp.subrange(1, 1)) =~= Seq::<u8>::empty());
    } else {
        assert(qp.subrange(1, qp.len() as int) =~= q.subrange(1, q.len() as int).push(v));
        lemma_ebs_text_bytes_push(q.subrange(1, q.len() as int), v);
    }
}

} // verus!
