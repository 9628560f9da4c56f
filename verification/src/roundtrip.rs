//! The round-trip theorem: decoding a finalized stream yields exactly the
//! operations that were encoded, in order, with padding skipped and the
//! terminator read once.

use vstd::prelude::*;

use crate::batch::FinalizedBatch;
use crate::decode::dec_attr_list;
use crate::decode::dec_eb_list;
use crate::decode::dec_element;
use crate::decode::dec_ids;
use crate::decode::dec_init;
use crate::decode::dec_mid;
use crate::decode::dec_name;
use crate::decode::dec_of;
use crate::decode::dec_operands;
use crate::decode::dec_opt_id;
use crate::decode::dec_prefixed_ids;
use crate::decode::dec_run;
use crate::decode::dec_text;
use crate::decode::rd_u16;
use crate::decode::rd_u32;
use crate::decode::op_codes;
use crate::decode::semantic_ops;
use crate::decode::spec_decode;
use crate::decode::DecSt;
use crate::element::attr_msg_bytes;
use crate::element::attr_text_bytes;
use crate::element::attrs_msg_bytes;
use crate::element::attrs_text_bytes;
use crate::element::ebs_msg_bytes;
use crate::element::ebs_text_bytes;
use crate::element::ebs_valid;
use crate::element::eb_msg_bytes;
use crate::element::eb_text_bytes;
use crate::element::eb_valid;
use crate::element::name_msg_bytes;
use crate::element::name_text_bytes;
use crate::element::name_valid;
use crate::element::opt_id_bytes;
use crate::element::ElementView;
use crate::element::NameView;
use crate::ids::MaybeId;
use crate::ids::NodeId;
use crate::wire::enc_all;
use crate::wire::enc_init;
use crate::wire::enc_ops;
use crate::wire::enc_seal;
use crate::wire::ids_bytes;
use crate::wire::in_group;
use crate::wire::lemma_enc_all_push;
use crate::wire::lemma_enc_operation_shape;
use crate::wire::lemma_enc_ops_grow;
use crate::wire::lemma_op_basic;
use crate::wire::mid_bytes;
use crate::wire::op_code_of;
use crate::wire::op_flags;
use crate::wire::op_operands;
use crate::wire::op_tag_byte;
use crate::wire::op_texts;
use crate::wire::op_valid;
use crate::wire::ops_valid;
use crate::wire::prefixed_ids_bytes;
use crate::wire::st_wf;
use crate::wire::u16_le;
use crate::wire::u32_le;
use crate::wire::EncSt;
use crate::wire::OpView;
use crate::wire::OP_STOP;

verus! {

/// `m` holds the bytes `a` at offset `c`.
pub open spec fn has_window(m: Seq<u8>, c: int, a: Seq<u8>) -> bool {
    &&& 0 <= c
    &&& c + a.len() <= m.len()
    &&& m.subrange(c, c + a.len()) == a
}

/// A window of a concatenation splits into windows of its halves.
pub proof fn lemma_window_split(m: Seq<u8>, c: int, a: Seq<u8>, b: Seq<u8>)
    requires
        has_window(m, c, a + b),
    ensures
        has_window(m, c, a),
        has_window(m, c + a.len(), b),
{
    let w = a + b;
    assert forall|i: int| 0 <= i < a.len() implies m.subrange(c, c + a.len() as int)[i] == a[i] by {
        assert(w[i] == m[c + i]);
    }
    assert(m.subrange(c, c + a.len() as int) =~= a);
    assert forall|i: int|
        0 <= i < b.len() implies m.subrange(
        c + a.len(),
        c + a.len() + b.len() as int,
    )[i] == b[i] by {
        assert(w[a.len() + i] == m[c + a.len() + i]);
    }
    assert(m.subrange(c + a.len(), c + a.len() + b.len() as int) =~= b);
}

/// The later stream `m` still holds every byte of the earlier encoder
/// state `st`, except possibly the unfilled tag slots of its current
/// group; the text stream is a plain prefix.
pub open spec fn agrees(st: EncSt, m: Seq<u8>, s: Seq<u8>) -> bool {
    &&& m.len() >= st.msg.len()
    &&& s.len() >= st.strs.len()
    &&& forall|i: int|
        0 <= i < st.msg.len() && !(st.tag_pos < i < st.group_start + 4) ==> m[i] == st.msg[i]
    &&& forall|i: int| 0 <= i < st.strs.len() ==> s[i] == st.strs[i]
}

/// Well-formedness of every intermediate encoding state.
pub proof fn lemma_enc_all_wf(ops: Seq<OpView>)
    requires
        ops_valid(ops),
    ensures
        st_wf(enc_all(ops)),
{
    lemma_enc_ops_grow(enc_init(), ops);
}

/// Every byte an encoding prefix has written outside its current group's
/// open slots survives into the sealed stream.
pub proof fn lemma_persist(ops: Seq<OpView>, k: int)
    requires
        ops_valid(ops),
        0 <= k <= ops.len(),
    ensures
        agrees(enc_all(ops.take(k)), enc_seal(enc_all(ops)).msg, enc_all(ops).strs),
    decreases ops.len() - k,
{
    assert forall|j: int| 0 <= j <= ops.len() implies ops_valid(#[trigger] ops.take(j)) by {
        assert forall|i: int| 0 <= i < ops.take(j).len() implies op_valid(
            #[trigger] ops.take(j)[i],
        ) by {
            assert(op_valid(ops[i]));
        }
    }
    let stk = enc_all(ops.take(k));
    lemma_enc_all_wf(ops.take(k));
    if k == ops.len() {
        assert(ops.take(k) =~= ops);
        let st = enc_all(ops);
        let f = enc_seal(st);
        assert(agrees(st, f.msg, st.strs));
    } else {
        let op = ops[k];
        assert(op_valid(op));
        assert(ops.take(k + 1) =~= ops.take(k).push(op));
        lemma_enc_all_push(ops.take(k), op);
        let stk1 = enc_all(ops.take(k + 1));
        lemma_enc_operation_shape(stk, op);
        lemma_persist(ops, k + 1);
        let fm = enc_seal(enc_all(ops)).msg;
        let fs = enc_all(ops).strs;
        assert forall|i: int|
            0 <= i < stk.msg.len() && !(stk.tag_pos < i < stk.group_start + 4) implies fm[i]
            == stk.msg[i] by {
            assert(!(stk1.tag_pos < i < stk1.group_start + 4));
            assert(fm[i] == stk1.msg[i]);
            assert(stk1.msg[i] == stk.msg[i]);
        }
        assert forall|i: int| 0 <= i < stk.strs.len() implies fs[i] == stk.strs[i] by {
            assert(fs[i] == stk1.strs[i]);
            assert(stk1.strs[i] == stk.strs[i]);
        }
    }
}

pub proof fn lemma_prefixed_ids_len(s: Seq<NodeId>)
    ensures
        prefixed_ids_bytes(s).len() == 5 * s.len() + 1,
    decreases s.len(),
{
    if s.len() > 0 {
        lemma_prefixed_ids_len(s.subrange(1, s.len() as int));
    }
}

pub proof fn lemma_rd_u16_of(m: Seq<u8>, c: int, v: u16)
    requires
        has_window(m, c, u16_le(v)),
    ensures
        rd_u16(m, c) == v,
{
    assert(m[c] == u16_le(v)[0]);
    assert(m[c + 1] == u16_le(v)[1]);
}

pub proof fn lemma_rd_u32_of(m: Seq<u8>, c: int, v: u32)
    requires
        has_window(m, c, u32_le(v)),
    ensures
        rd_u32(m, c) == v,
{
    assert(m[c] == u32_le(v)[0]);
    assert(m[c + 1] == u32_le(v)[1]);
    assert(m[c + 2] == u32_le(v)[2]);
    assert(m[c + 3] == u32_le(v)[3]);
}

pub proof fn lemma_dec_text_ok(t: Seq<u8>, m: Seq<u8>, s: Seq<u8>, c: int, so: int)
    requires
        t.len() <= 0xFFFF,
        has_window(m, c, u16_le(t.len() as u16)),
        has_window(s, so, t),
    ensures
        dec_text(m, s, c, so) == Option::Some((t, c + 2, so + t.len())),
{
    lemma_rd_u16_of(m, c, t.len() as u16);
}

pub proof fn lemma_dec_mid_ok(mid: MaybeId, m: Seq<u8>, c: int)
    requires
        has_window(m, c, mid_bytes(mid)),
    ensures
        dec_mid(mid.is_node(), m, c) == Option::Some((mid, c + mid_bytes(mid).len())),
{
    match mid {
        MaybeId::Node(n) => {
            lemma_rd_u32_of(m, c, n.0);
        },
        MaybeId::LastNode => {},
    }
}

pub proof fn lemma_dec_name_ok(n: NameView, m: Seq<u8>, s: Seq<u8>, c: int, so: int)
    requires
        name_valid(n),
        has_window(m, c, name_msg_bytes(n)),
        has_window(s, so, name_text_bytes(n)),
    ensures
        dec_name(m, s, c, so) == Option::Some(
            (n, c + name_msg_bytes(n).len(), so + name_text_bytes(n).len()),
        ),
{
    match n {
        NameView::Code(code) => {
            assert(m[c] == name_msg_bytes(n)[0]);
        },
        NameView::Custom(t) => {
            assert(m[c] == name_msg_bytes(n)[0]);
            lemma_window_split(m, c, seq![255u8], u16_le(t.len() as u16));
            lemma_dec_text_ok(t, m, s, c + 1, so);
        },
    }
}

pub proof fn lemma_dec_opt_id_ok(id: Option<NodeId>, m: Seq<u8>, c: int)
    requires
        has_window(m, c, opt_id_bytes(id)),
    ensures
        dec_opt_id(m, c) == Option::Some((id, c + opt_id_bytes(id).len())),
{
    match id {
        Option::None => {
            assert(m[c] == opt_id_bytes(id)[0]);
        },
        Option::Some(nid) => {
            assert(m[c] == opt_id_bytes(id)[0]);
            lemma_window_split(m, c, seq![1u8], u32_le(nid.0));
            lemma_rd_u32_of(m, c + 1, nid.0);
        },
    }
}

pub proof fn lemma_dec_ids_ok(ids: Seq<NodeId>, m: Seq<u8>, c: int)
    requires
        has_window(m, c, ids_bytes(ids)),
    ensures
        dec_ids(m, c, ids.len()) == Option::Some((ids, c + ids_bytes(ids).len())),
    decreases ids.len(),
{
    if ids.len() == 0 {
        assert(ids =~= Seq::<NodeId>::empty());
    } else {
        let rest = ids.subrange(1, ids.len() as int);
        lemma_window_split(m, c, u32_le(ids[0].0), ids_bytes(rest));
        lemma_rd_u32_of(m, c, ids[0].0);
        lemma_dec_ids_ok(rest, m, c + 4);
        assert(seq![ids[0]] + rest =~= ids);
    }
}

pub proof fn lemma_dec_prefixed_ok(ids: Seq<NodeId>, m: Seq<u8>, c: int)
    requires
        has_window(m, c, prefixed_ids_bytes(ids)),
    ensures
        dec_prefixed_ids(m, c) == Option::Some((ids, c + prefixed_ids_bytes(ids).len())),
    decreases ids.len(),
{
    if ids.len() == 0 {
        assert(m[c] == prefixed_ids_bytes(ids)[0]);
    } else {
        let rest = ids.subrange(1, ids.len() as int);
        assert(m[c] == prefixed_ids_bytes(ids)[0]);
        lemma_window_split(m, c, seq![1u8] + u32_le(ids[0].0), prefixed_ids_bytes(rest));
        lemma_window_split(m, c, seq![1u8], u32_le(ids[0].0));
        lemma_rd_u32_of(m, c + 1, ids[0].0);
        lemma_dec_prefixed_ok(rest, m, c + 5);
        assert(seq![ids[0]] + rest =~= ids);
        lemma_prefixed_ids_len(ids);
    }
}

pub proof fn lemma_dec_attrs_ok(
    q: Seq<(NameView, Seq<u8>)>,
    m: Seq<u8>,
    s: Seq<u8>,
    c: int,
    so: int,
)
    requires
        forall|i: int|
            0 <= i < q.len() ==> name_valid(#[trigger] q[i].0) && q[i].1.len() <= 0xFFFF,
        has_window(m, c, attrs_msg_bytes(q)),
        has_window(s, so, attrs_text_bytes(q)),
    ensures
        dec_attr_list(m, s, c, so, q.len()) == Option::Some(
            (q, c + attrs_msg_bytes(q).len(), so + attrs_text_bytes(q).len()),
        ),
    decreases q.len(),
{
    if q.len() == 0 {
        assert(q =~= Seq::<(NameView, Seq<u8>)>::empty());
    } else {
        let a = q[0];
        let rest = q.subrange(1, q.len() as int);
        lemma_window_split(m, c, attr_msg_bytes(a), attrs_msg_bytes(rest));
        lemma_window_split(s, so, attr_text_bytes(a), attrs_text_bytes(rest));
        lemma_window_split(m, c, name_msg_bytes(a.0), u16_le(a.1.len() as u16));
        lemma_window_split(s, so, name_text_bytes(a.0), a.1);
        lemma_dec_name_ok(a.0, m, s, c, so);
        let c1 = c + name_msg_bytes(a.0).len();
        let so1 = so + name_text_bytes(a.0).len();
        lemma_dec_text_ok(a.1, m, s, c1, so1);
        let c2 = c1 + 2;
        let so2 = so1 + a.1.len();
        assert forall|i: int| 0 <= i < rest.len() implies name_valid(#[trigger] rest[i].0)
            && rest[i].1.len() <= 0xFFFF by {
            assert(name_valid(q[i + 1].0) && q[i + 1].1.len() <= 0xFFFF);
        }
        lemma_dec_attrs_ok(rest, m, s, c2, so2);
        assert(seq![a] + rest =~= q);
    }
}

pub proof fn lemma_dec_element_ok(e: ElementView, m: Seq<u8>, s: Seq<u8>, c: int, so: int)
    requires
        eb_valid(e),
        has_window(m, c, eb_msg_bytes(e)),
        has_window(s, so, eb_text_bytes(e)),
    ensures
        dec_element(m, s, c, so) == Option::Some(
            (e, c + eb_msg_bytes(e).len(), so + eb_text_bytes(e).len()),
        ),
    decreases e, 0int,
{
    let tagb = name_msg_bytes(e.tag);
    let idb = opt_id_bytes(e.id);
    let nab = u16_le(e.attrs.len() as u16);
    let ab = attrs_msg_bytes(e.attrs);
    let ncb = u16_le(e.children.len() as u16);
    let cb = ebs_msg_bytes(e.children);
    assert(eb_msg_bytes(e) == tagb + idb + nab + ab + ncb + cb);
    lemma_window_split(m, c, tagb + idb + nab + ab + ncb, cb);
    lemma_window_split(m, c, tagb + idb + nab + ab, ncb);
    lemma_window_split(m, c, tagb + idb + nab, ab);
    lemma_window_split(m, c, tagb + idb, nab);
    lemma_window_split(m, c, tagb, idb);
    let tagt = name_text_bytes(e.tag);
    let at = attrs_text_bytes(e.attrs);
    let ct = ebs_text_bytes(e.children);
    assert(eb_text_bytes(e) == tagt + at + ct);
    lemma_window_split(s, so, tagt + at, ct);
    lemma_window_split(s, so, tagt, at);
    lemma_dec_name_ok(e.tag, m, s, c, so);
    let c1 = c + tagb.len();
    let so1 = so + tagt.len();
    lemma_dec_opt_id_ok(e.id, m, c1);
    let c2 = c1 + idb.len();
    lemma_rd_u16_of(m, c2, e.attrs.len() as u16);
    lemma_dec_attrs_ok(e.attrs, m, s, c2 + 2, so1);
    let c3 = c2 + 2 + ab.len();
    let so3 = so1 + at.len();
    lemma_rd_u16_of(m, c3, e.children.len() as u16);
    lemma_dec_ebs_ok(e.children, m, s, c3 + 2, so3);
}

pub proof fn lemma_dec_ebs_ok(q: Seq<ElementView>, m: Seq<u8>, s: Seq<u8>, c: int, so: int)
    requires
        ebs_valid(q),
        has_window(m, c, ebs_msg_bytes(q)),
        has_window(s, so, ebs_text_bytes(q)),
    ensures
        dec_eb_list(m, s, c, so, q.len()) == Option::Some(
            (q, c + ebs_msg_bytes(q).len(), so + ebs_text_bytes(q).len()),
        ),
    decreases q, 1int,
{
    if q.len() == 0 {
        assert(q =~= Seq::<ElementView>::empty());
    } else {
        let e = q[0];
        let rest = q.subrange(1, q.len() as int);
        lemma_window_split(m, c, eb_msg_bytes(e), ebs_msg_bytes(rest));
        lemma_window_split(s, so, eb_text_bytes(e), ebs_text_bytes(rest));
        assert(decreases_to!(q => q[0]));
        lemma_dec_element_ok(e, m, s, c, so);
        let c1 = c + eb_msg_bytes(e).len();
        let so1 = so + eb_text_bytes(e).len();
        assert(eb_msg_bytes(e).len() > 0);
        lemma_dec_ebs_ok(rest, m, s, c1, so1);
        assert(seq![e] + rest =~= q);
    }
}

/// The shared contract of the operand round-trip lemmas.
pub open spec fn dec_operands_ok(op: OpView, m: Seq<u8>, s: Seq<u8>, c: int, so: int) -> bool {
    let fs = op_flags(op);
    let f0 = fs.len() > 0 && fs[0];
    let f1 = fs.len() > 1 && fs[1];
    dec_operands(op_code_of(op), f0, f1, m, s, c, so) == Option::Some(
        (op, c + op_operands(op).len(), so + op_texts(op).len()),
    )
}

/// Operand round trip for the single-node fast-path operations.
#[verifier::rlimit(100)]
proof fn lemma_dec_operands_ok_single(op: OpView, m: Seq<u8>, s: Seq<u8>, c: int, so: int)
    requires
        op_valid(op),
        op is AppendChild || op is ReplaceWith || op is InsertAfter || op is InsertBefore,
        has_window(m, c, op_operands(op)),
        has_window(s, so, op_texts(op)),
    ensures
        dec_operands_ok(op, m, s, c, so),
{
    match op {
        OpView::AppendChild { root, child } => {
            lemma_window_split(m, c, mid_bytes(root), u32_le(child.0));
            lemma_dec_mid_ok(root, m, c);
            lemma_rd_u32_of(m, c + mid_bytes(root).len(), child.0);
        },
        OpView::ReplaceWith { root, node } => {
            lemma_window_split(m, c, mid_bytes(root), u32_le(node.0));
            lemma_dec_mid_ok(root, m, c);
            lemma_rd_u32_of(m, c + mid_bytes(root).len(), node.0);
        },
        OpView::InsertAfter { root, node } => {
            lemma_window_split(m, c, mid_bytes(root), u32_le(node.0));
            lemma_dec_mid_ok(root, m, c);
            lemma_rd_u32_of(m, c + mid_bytes(root).len(), node.0);
        },
        OpView::InsertBefore { root, node } => {
            lemma_window_split(m, c, mid_bytes(root), u32_le(node.0));
            lemma_dec_mid_ok(root, m, c);
            lemma_rd_u32_of(m, c + mid_bytes(root).len(), node.0);
        },
        _ => {},
    }
}

/// Operand round trip for one count-prefixed multi-node operation.
#[verifier::rlimit(100)]
proof fn lemma_dec_operands_ok_appendchildren(op: OpView, m: Seq<u8>, s: Seq<u8>, c: int, so: int)
    requires
        op_valid(op),
        op is AppendChildren,
        has_window(m, c, op_operands(op)),
        has_window(s, so, op_texts(op)),
    ensures
        dec_operands_ok(op, m, s, c, so),
{
    match op {
        OpView::AppendChildren { root, children } => {
            lemma_window_split(
                m,
                c,
                mid_bytes(root) + u32_le(children.len() as u32),
                ids_bytes(children),
            );
            lemma_window_split(m, c, mid_bytes(root), u32_le(children.len() as u32));
            lemma_dec_mid_ok(root, m, c);
            let c1 = c + mid_bytes(root).len();
            lemma_rd_u32_of(m, c1, children.len() as u32);
            lemma_dec_ids_ok(children, m, c1 + 4);
        },
        _ => {},
    }
}

/// Operand round trip for one count-prefixed multi-node operation.
#[verifier::rlimit(100)]
proof fn lemma_dec_operands_ok_replacewithnodes(op: OpView, m: Seq<u8>, s: Seq<u8>, c: int, so: int)
    requires
        op_valid(op),
        op is ReplaceWithNodes,
        has_window(m, c, op_operands(op)),
        has_window(s, so, op_texts(op)),
    ensures
        dec_operands_ok(op, m, s, c, so),
{
    match op {
        OpView::ReplaceWithNodes { root, nodes } => {
            lemma_window_split(
                m,
                c,
                mid_bytes(root) + u32_le(nodes.len() as u32),
                ids_bytes(nodes),
            );
            lemma_window_split(m, c, mid_bytes(root), u32_le(nodes.len() as u32));
            lemma_dec_mid_ok(root, m, c);
            let c1 = c + mid_bytes(root).len();
            lemma_rd_u32_of(m, c1, nodes.len() as u32);
            lemma_dec_ids_ok(nodes, m, c1 + 4);
        },
        _ => {},
    }
}

/// Operand round trip for one count-prefixed multi-node operation.
#[verifier::rlimit(100)]
proof fn lemma_dec_operands_ok_insertnodesafter(op: OpView, m: Seq<u8>, s: Seq<u8>, c: int, so: int)
    requires
        op_valid(op),
        op is InsertNodesAfter,
        has_window(m, c, op_operands(op)),
        has_window(s, so, op_texts(op)),
    ensures
        dec_operands_ok(op, m, s, c, so),
{
    match op {
        OpView::InsertNodesAfter { root, nodes } => {
            lemma_window_split(
                m,
                c,
                mid_bytes(root) + u32_le(nodes.len() as u32),
                ids_bytes(nodes),
            );
            lemma_window_split(m, c, mid_bytes(root), u32_le(nodes.len() as u32));
            lemma_dec_mid_ok(root, m, c);
            let c1 = c + mid_bytes(root).len();
            lemma_rd_u32_of(m, c1, nodes.len() as u32);
            lemma_dec_ids_ok(nodes, m, c1 + 4);
        },
        _ => {},
    }
}

/// Operand round trip for one count-prefixed multi-node operation.
#[verifier::rlimit(100)]
proof fn lemma_dec_operands_ok_insertnodesbefore(op: OpView, m: Seq<u8>, s: Seq<u8>, c: int, so: int)
    requires
        op_valid(op),
        op is InsertNodesBefore,
        has_window(m, c, op_operands(op)),
        has_window(s, so, op_texts(op)),
    ensures
        dec_operands_ok(op, m, s, c, so),
{
    match op {
        OpView::InsertNodesBefore { root, nodes } => {
            lemma_window_split(
                m,
                c,
                mid_bytes(root) + u32_le(nodes.len() as u32),
                ids_bytes(nodes),
            );
            lemma_window_split(m, c, mid_bytes(root), u32_le(nodes.len() as u32));
            lemma_dec_mid_ok(root, m, c);
            let c1 = c + mid_bytes(root).len();
            lemma_rd_u32_of(m, c1, nodes.len() as u32);
            lemma_dec_ids_ok(nodes, m, c1 + 4);
        },
        _ => {},
    }
}

/// Operand round trip for the operations that carry only node handles.
#[verifier::rlimit(100)]
proof fn lemma_dec_operands_ok_nodes(op: OpView, m: Seq<u8>, s: Seq<u8>, c: int, so: int)
    requires
        op_valid(op),
        op is FirstChild || op is NextSibling || op is ParentNode || op is StoreWithId
            || op is SetLastNode || op is Remove || op is CloneNode
            || op is CloneNodeChildren,
        has_window(m, c, op_operands(op)),
        has_window(s, so, op_texts(op)),
    ensures
        dec_operands_ok(op, m, s, c, so),
{
    match op {
        OpView::FirstChild => {},
        OpView::NextSibling => {},
        OpView::ParentNode => {},
        OpView::StoreWithId { id } => {
            lemma_rd_u32_of(m, c, id.0);
        },
        OpView::SetLastNode { id } => {
            lemma_rd_u32_of(m, c, id.0);
        },
        OpView::Remove { id } => {
            lemma_dec_mid_ok(id, m, c);
        },
        OpView::CloneNode { id, new_id } => {
            lemma_window_split(m, c, mid_bytes(id), mid_bytes(new_id));
            lemma_dec_mid_ok(id, m, c);
            lemma_dec_mid_ok(new_id, m, c + mid_bytes(id).len());
        },
        OpView::CloneNodeChildren { id, new_ids } => {
            lemma_window_split(m, c, mid_bytes(id), prefixed_ids_bytes(new_ids));
            lemma_dec_mid_ok(id, m, c);
            lemma_dec_prefixed_ok(new_ids, m, c + mid_bytes(id).len());
        },
        _ => {},
    }
}

/// Operand round trip for the operations that carry text payloads.
#[verifier::rlimit(100)]
proof fn lemma_dec_operands_ok_texts(op: OpView, m: Seq<u8>, s: Seq<u8>, c: int, so: int)
    requires
        op_valid(op),
        op is CreateTextNode || op is SetText || op is SetStyle || op is RemoveStyle,
        has_window(m, c, op_operands(op)),
        has_window(s, so, op_texts(op)),
    ensures
        dec_operands_ok(op, m, s, c, so),
{
    match op {
        OpView::CreateTextNode { text, id } => {
            lemma_window_split(m, c, u16_le(text.len() as u16), mid_bytes(id));
            lemma_dec_text_ok(text, m, s, c, so);
            lemma_dec_mid_ok(id, m, c + 2);
        },
        OpView::SetText { root, text } => {
            lemma_window_split(m, c, mid_bytes(root), u16_le(text.len() as u16));
            lemma_dec_mid_ok(root, m, c);
            lemma_dec_text_ok(text, m, s, c + mid_bytes(root).len(), so);
        },
        OpView::SetStyle { id, style, value } => {
            lemma_window_split(
                m,
                c,
                mid_bytes(id) + u16_le(style.len() as u16),
                u16_le(value.len() as u16),
            );
            lemma_window_split(m, c, mid_bytes(id), u16_le(style.len() as u16));
            lemma_window_split(s, so, style, value);
            lemma_dec_mid_ok(id, m, c);
            let c1 = c + mid_bytes(id).len();
            lemma_dec_text_ok(style, m, s, c1, so);
            lemma_dec_text_ok(value, m, s, c1 + 2, so + style.len());
        },
        OpView::RemoveStyle { id, style } => {
            lemma_window_split(m, c, mid_bytes(id), u16_le(style.len() as u16));
            lemma_dec_mid_ok(id, m, c);
            lemma_dec_text_ok(style, m, s, c + mid_bytes(id).len(), so);
        },
        _ => {},
    }
}

/// Operand round trip for the operations that carry descriptors or a
/// whole subtree.
#[verifier::rlimit(100)]
proof fn lemma_dec_operands_ok_names(op: OpView, m: Seq<u8>, s: Seq<u8>, c: int, so: int)
    requires
        op_valid(op),
        op is CreateElement || op is SetAttribute || op is RemoveAttribute
            || op is BuildFullElement,
        has_window(m, c, op_operands(op)),
        has_window(s, so, op_texts(op)),
    ensures
        dec_operands_ok(op, m, s, c, so),
{
    match op {
        OpView::CreateElement { tag, id } => {
            match id {
                Option::Some(n) => {
                    lemma_window_split(m, c, name_msg_bytes(tag), u32_le(n.0));
                    lemma_dec_name_ok(tag, m, s, c, so);
                    lemma_rd_u32_of(m, c + name_msg_bytes(tag).len(), n.0);
                },
                Option::None => {
                    assert(op_operands(op) =~= name_msg_bytes(tag) + Seq::<u8>::empty());
                    assert(has_window(m, c, name_msg_bytes(tag))) by {
                        assert(m.subrange(c, c + name_msg_bytes(tag).len() as int)
                            =~= op_operands(op));
                    }
                    lemma_dec_name_ok(tag, m, s, c, so);
                },
            }
        },
        OpView::SetAttribute { root, attr, value } => {
            lemma_window_split(
                m,
                c,
                mid_bytes(root) + name_msg_bytes(attr),
                u16_le(value.len() as u16),
            );
            lemma_window_split(m, c, mid_bytes(root), name_msg_bytes(attr));
            lemma_window_split(s, so, name_text_bytes(attr), value);
            lemma_dec_mid_ok(root, m, c);
            let c1 = c + mid_bytes(root).len();
            lemma_dec_name_ok(attr, m, s, c1, so);
            let c2 = c1 + name_msg_bytes(attr).len();
            let so2 = so + name_text_bytes(attr).len();
            lemma_dec_text_ok(value, m, s, c2, so2);
        },
        OpView::RemoveAttribute { root, attr } => {
            lemma_window_split(m, c, mid_bytes(root), name_msg_bytes(attr));
            lemma_dec_mid_ok(root, m, c);
            lemma_dec_name_ok(attr, m, s, c + mid_bytes(root).len(), so);
        },
        OpView::BuildFullElement { root } => {
            lemma_dec_element_ok(root, m, s, c, so);
        },
        _ => {},
    }
}

/// Reading back the operand window of any single operation yields that
/// operation and consumes exactly its bytes.
pub proof fn lemma_dec_operands_ok(op: OpView, m: Seq<u8>, s: Seq<u8>, c: int, so: int)
    requires
        op_valid(op),
        !(op is NoOp),
        has_window(m, c, op_operands(op)),
        has_window(s, so, op_texts(op)),
    ensures
        dec_operands_ok(op, m, s, c, so),
{
    match op {
        OpView::CreateTextNode { .. } | OpView::SetText { .. } | OpView::SetStyle { .. }
            | OpView::RemoveStyle { .. } => {
            lemma_dec_operands_ok_texts(op, m, s, c, so);
        },
        OpView::CreateElement { .. } | OpView::SetAttribute { .. } | OpView::RemoveAttribute {
            ..
        } | OpView::BuildFullElement { .. } => {
            lemma_dec_operands_ok_names(op, m, s, c, so);
        },
        OpView::AppendChild { .. } | OpView::ReplaceWith { .. } | OpView::InsertAfter { .. }
            | OpView::InsertBefore { .. } => {
            lemma_dec_operands_ok_single(op, m, s, c, so);
        },
        OpView::AppendChildren { .. } => {
            lemma_dec_operands_ok_appendchildren(op, m, s, c, so);
        },
        OpView::ReplaceWithNodes { .. } => {
            lemma_dec_operands_ok_replacewithnodes(op, m, s, c, so);
        },
        OpView::InsertNodesAfter { .. } => {
            lemma_dec_operands_ok_insertnodesafter(op, m, s, c, so);
        },
        OpView::InsertNodesBefore { .. } => {
            lemma_dec_operands_ok_insertnodesbefore(op, m, s, c, so);
        },
        OpView::NoOp => {},
        _ => {
            lemma_dec_operands_ok_nodes(op, m, s, c, so);
        },
    }
}

/// The decoder recovers tag code and flags from a packed tag byte.
proof fn lemma_tag_byte_fields(op: OpView)
    ensures
        ({
            let fs = op_flags(op);
            let f0 = fs.len() > 0 && fs[0];
            let f1 = fs.len() > 1 && fs[1];
            let tb = op_tag_byte(op);
            &&& tb % 32 == op_code_of(op)
            &&& ((tb / 32) % 2 == 1) == f0
            &&& ((tb / 64) % 2 == 1) == f1
        }),
{
    lemma_op_basic(op);
}

/// The byte-level facts at the seam between an encoded prefix and its
/// next operation: where the tag byte sits in the sealed stream, and that
/// the operand and text windows survive verbatim.
#[verifier::rlimit(100)]
proof fn lemma_step_facts(ops: Seq<OpView>, k: int)
    requires
        ops_valid(ops),
        0 <= k < ops.len(),
    ensures
        ({
            let fm = enc_seal(enc_all(ops)).msg;
            let fs = enc_all(ops).strs;
            let op = ops[k];
            let stk = enc_all(ops.take(k));
            let stk1 = enc_all(ops.take(k + 1));
            let oplen = op_operands(op).len() as int;
            &&& op_valid(op)
            &&& st_wf(stk)
            &&& st_wf(stk1)
            &&& fm.len() >= stk1.msg.len()
            &&& fs.len() >= stk1.strs.len()
            &&& 0 <= stk1.tag_pos < stk1.msg.len()
            &&& fm[stk1.tag_pos] == op_tag_byte(op)
            &&& has_window(fm, stk1.msg.len() - oplen, op_operands(op))
            &&& has_window(fs, stk.strs.len() as int, op_texts(op))
            &&& stk1.strs.len() == stk.strs.len() + op_texts(op).len()
            &&& stk1.bit == op_flags(op).len()
            &&& if in_group(stk) {
                &&& stk1.group_start == stk.group_start
                &&& stk1.tag_pos == stk.tag_pos + 1
                &&& stk1.msg.len() == stk.msg.len() + oplen
            } else {
                &&& stk1.group_start == stk.msg.len()
                &&& stk1.tag_pos == stk.msg.len()
                &&& stk1.msg.len() == stk.msg.len() + 4 + oplen
            }
        }),
{
    assert forall|j: int| 0 <= j <= ops.len() implies ops_valid(#[trigger] ops.take(j)) by {
        assert forall|i: int| 0 <= i < ops.take(j).len() implies op_valid(
            #[trigger] ops.take(j)[i],
        ) by {
            assert(op_valid(ops[i]));
        }
    }
    let fm = enc_seal(enc_all(ops)).msg;
    let fs = enc_all(ops).strs;
    let op = ops[k];
    assert(op_valid(op));
    lemma_op_basic(op);
    let stk = enc_all(ops.take(k));
    lemma_enc_all_wf(ops.take(k));
    assert(ops.take(k + 1) =~= ops.take(k).push(op));
    lemma_enc_all_push(ops.take(k), op);
    let stk1 = enc_all(ops.take(k + 1));
    lemma_enc_operation_shape(stk, op);
    lemma_persist(ops, k + 1);
    let oplen = op_operands(op).len() as int;
    let tlen = op_texts(op).len() as int;
    let opstart = stk1.msg.len() - oplen;
    assert(fm[stk1.tag_pos] == stk1.msg[stk1.tag_pos]);
    assert(stk1.msg[stk1.tag_pos] == op_tag_byte(op));
    assert(has_window(fm, opstart, op_operands(op))) by {
        assert forall|i: int| 0 <= i < oplen implies fm[opstart + i] == op_operands(op)[i] by {
            assert(fm[opstart + i] == stk1.msg[opstart + i]);
        }
        assert(fm.subrange(opstart, opstart + oplen) =~= op_operands(op));
    }
    let sostart = stk.strs.len() as int;
    assert(has_window(fs, sostart, op_texts(op))) by {
        assert forall|i: int| 0 <= i < tlen implies fs[sostart + i] == op_texts(op)[i] by {
            assert(fs[sostart + i] == stk1.strs[sostart + i]);
        }
        assert(fs.subrange(sostart, sostart + tlen) =~= op_texts(op));
    }
}

/// One decoding step at the seam between an encoded prefix and the
/// next operation reads back exactly that operation.
#[verifier::rlimit(100)]
proof fn lemma_dec_run_step_in(ops: Seq<OpView>, k: int)
    requires
        ops_valid(ops),
        0 <= k < ops.len(),
        in_group(enc_all(ops.take(k))),
    ensures
        ({
            let fm = enc_seal(enc_all(ops)).msg;
            let fs = enc_all(ops).strs;
            let op = ops[k];
            let code = op_code_of(op);
            dec_run(fm, fs, dec_of(enc_all(ops.take(k)))) == (match dec_run(
                fm,
                fs,
                dec_of(enc_all(ops.take(k + 1))),
            ) {
                Option::Some((o, cs)) => Option::Some(
                    (
                        if op is NoOp {
                            o
                        } else {
                            seq![op] + o
                        },
                        seq![code] + cs,
                    ),
                ),
                Option::None => Option::None,
            })
        }),
{
    lemma_step_facts(ops, k);
    let fm = enc_seal(enc_all(ops)).msg;
    let fs = enc_all(ops).strs;
    let op = ops[k];
    lemma_op_basic(op);
    lemma_tag_byte_fields(op);
    let stk = enc_all(ops.take(k));
    let stk1 = enc_all(ops.take(k + 1));
    let d = dec_of(stk);
    let d1 = dec_of(stk1);
    let tb = op_tag_byte(op);
    let code = op_code_of(op);
    let fsq = op_flags(op);
    let f0 = fsq.len() > 0 && fsq[0];
    let f1 = fsq.len() > 1 && fsq[1];
    let oplen = op_operands(op).len() as int;
    let tlen = op_texts(op).len() as int;
    let opstart = stk1.msg.len() - oplen;
    let sostart = stk.strs.len() as int;
        assert(stk.msg.len() > 0);
        assert(1 <= d.slot < 4);
        let gpos = d.group_start + d.slot;
        assert(gpos == stk1.tag_pos);
        assert(gpos < stk1.msg.len());
        assert(gpos == stk1.tag_pos);
        assert(fm[gpos] == tb);
        assert(stk1.msg.len() == opstart + oplen);
        if op is NoOp {
            assert(d1 =~= DecSt { slot: d.slot + 1, ..d });
        } else {
            lemma_dec_operands_ok(op, fm, fs, opstart, sostart);
            assert(d1 =~= DecSt {
                slot: d.slot + 1,
                cursor: opstart + oplen,
                stroff: sostart + tlen,
                ..d
            });
        }
}

#[verifier::rlimit(100)]
proof fn lemma_dec_run_step_new(ops: Seq<OpView>, k: int)
    requires
        ops_valid(ops),
        0 <= k < ops.len(),
        !in_group(enc_all(ops.take(k))),
    ensures
        ({
            let fm = enc_seal(enc_all(ops)).msg;
            let fs = enc_all(ops).strs;
            let op = ops[k];
            let code = op_code_of(op);
            dec_run(fm, fs, dec_of(enc_all(ops.take(k)))) == (match dec_run(
                fm,
                fs,
                dec_of(enc_all(ops.take(k + 1))),
            ) {
                Option::Some((o, cs)) => Option::Some(
                    (
                        if op is NoOp {
                            o
                        } else {
                            seq![op] + o
                        },
                        seq![code] + cs,
                    ),
                ),
                Option::None => Option::None,
            })
        }),
{
    lemma_step_facts(ops, k);
    let fm = enc_seal(enc_all(ops)).msg;
    let fs = enc_all(ops).strs;
    let op = ops[k];
    lemma_op_basic(op);
    lemma_tag_byte_fields(op);
    let stk = enc_all(ops.take(k));
    let stk1 = enc_all(ops.take(k + 1));
    let d = dec_of(stk);
    let d1 = dec_of(stk1);
    let tb = op_tag_byte(op);
    let code = op_code_of(op);
    let fsq = op_flags(op);
    let f0 = fsq.len() > 0 && fsq[0];
    let f1 = fsq.len() > 1 && fsq[1];
    let oplen = op_operands(op).len() as int;
    let tlen = op_texts(op).len() as int;
    let opstart = stk1.msg.len() - oplen;
    let sostart = stk.strs.len() as int;
        assert(d.slot == 4);
        assert(stk1.group_start == stk.msg.len());
        let cursor = d.cursor;
        assert(stk1.msg.len() == cursor + 4 + oplen);
        assert(cursor + 4 <= fm.len());
        let dmid = DecSt { group_start: cursor, slot: 0, cursor: cursor + 4, stroff: d.stroff };
        assert(dec_run(fm, fs, d) == dec_run(fm, fs, dmid));
        let gpos = cursor;
        assert(gpos == stk1.tag_pos);
        assert(fm[gpos] == tb);
        assert(opstart == cursor + 4);
        if op is NoOp {
            assert(d1 =~= DecSt { slot: 1, ..dmid });
        } else {
            lemma_dec_operands_ok(op, fm, fs, opstart, sostart);
            assert(d1 =~= DecSt {
                slot: 1,
                cursor: opstart + oplen,
                stroff: sostart + tlen,
                ..dmid
            });
        }
}

proof fn lemma_dec_run_step(ops: Seq<OpView>, k: int)
    requires
        ops_valid(ops),
        0 <= k < ops.len(),
    ensures
        ({
            let fm = enc_seal(enc_all(ops)).msg;
            let fs = enc_all(ops).strs;
            let op = ops[k];
            let code = op_code_of(op);
            dec_run(fm, fs, dec_of(enc_all(ops.take(k)))) == (match dec_run(
                fm,
                fs,
                dec_of(enc_all(ops.take(k + 1))),
            ) {
                Option::Some((o, cs)) => Option::Some(
                    (
                        if op is NoOp {
                            o
                        } else {
                            seq![op] + o
                        },
                        seq![code] + cs,
                    ),
                ),
                Option::None => Option::None,
            })
        }),
{
    if in_group(enc_all(ops.take(k))) {
        lemma_dec_run_step_in(ops, k);
    } else {
        lemma_dec_run_step_new(ops, k);
    }
}

/// From any encoded prefix, the decoder reads back exactly the remaining
/// operations and then the terminator.
proof fn lemma_dec_run_suffix(ops: Seq<OpView>, k: int)
    requires
        ops_valid(ops),
        0 <= k <= ops.len(),
    ensures
        ({
            let fm = enc_seal(enc_all(ops)).msg;
            let fs = enc_all(ops).strs;
            dec_run(fm, fs, dec_of(enc_all(ops.take(k)))) == Option::Some(
                (
                    semantic_ops(ops.skip(k)),
                    op_codes(ops.skip(k)) + seq![OP_STOP],
                ),
            )
        }),
    decreases ops.len() - k,
{
    assert forall|j: int| 0 <= j <= ops.len() implies ops_valid(#[trigger] ops.take(j)) by {
        assert forall|i: int| 0 <= i < ops.take(j).len() implies op_valid(
            #[trigger] ops.take(j)[i],
        ) by {
            assert(op_valid(ops[i]));
        }
    }
    let fm = enc_seal(enc_all(ops)).msg;
    let fs = enc_all(ops).strs;
    let stk = enc_all(ops.take(k));
    lemma_enc_all_wf(ops.take(k));
    let d = dec_of(stk);
    if k == ops.len() {
        assert(ops.take(k) =~= ops);
        let full = enc_all(ops);
        let sealed = enc_seal(full);
        lemma_enc_all_wf(ops);
        assert(ops.skip(k) =~= Seq::<OpView>::empty());
        assert(op_codes(ops.skip(k)) + seq![OP_STOP] =~= seq![OP_STOP]);
        if in_group(full) {
            assert(full.msg.len() > 0);
            assert(1 <= d.slot < 4);
            let gpos = d.group_start + d.slot;
            assert(gpos == full.tag_pos + 1);
            assert(fm[gpos] == OP_STOP);
            assert(fm.len() == full.msg.len());
            assert(OP_STOP % 32 == OP_STOP);
        } else {
            assert(d.slot == 4);
            assert(fm =~= full.msg + seq![OP_STOP, 0u8, 0u8, 0u8]);
            assert(fm.len() == d.cursor + 4);
            let dmid = DecSt {
                group_start: d.cursor,
                slot: 0,
                cursor: d.cursor + 4,
                stroff: d.stroff,
            };
            assert(dec_run(fm, fs, d) == dec_run(fm, fs, dmid));
            assert(fm[d.cursor] == OP_STOP);
            assert(OP_STOP % 32 == OP_STOP);
        }
    } else {
        let op = ops[k];
        lemma_dec_run_step(ops, k);
        lemma_dec_run_suffix(ops, k + 1);
        assert(ops.skip(k) =~= seq![op] + ops.skip(k + 1));
        let tail = ops.skip(k + 1);
        let whole = ops.skip(k);
        assert(whole.subrange(1, whole.len() as int) =~= tail);
        assert(whole[0] == op);
        if op is NoOp {
            assert(semantic_ops(whole) == semantic_ops(tail));
        } else {
            assert(semantic_ops(whole) == seq![op] + semantic_ops(tail));
        }
        assert(op_codes(whole) == seq![op_code_of(op)] + op_codes(tail));
        assert(seq![op_code_of(op)] + (op_codes(tail) + seq![OP_STOP]) =~= op_codes(whole)
            + seq![OP_STOP]);
    }
}

/// Decoding a finalized stream yields exactly the encoded operations (in
/// order, padding skipped), and reads each operation's tag once, ending
/// with the single terminator tag.
pub proof fn theorem_decode_all(ops: Seq<OpView>)
    requires
        ops_valid(ops),
    ensures
        dec_run(enc_seal(enc_all(ops)).msg, enc_all(ops).strs, dec_init()) == Option::Some(
            (semantic_ops(ops), op_codes(ops) + seq![OP_STOP]),
        ),
{
    lemma_dec_run_suffix(ops, 0);
    assert(ops.take(0) =~= Seq::<OpView>::empty());
    assert(enc_ops(enc_init(), Seq::<OpView>::empty()) == enc_init());
    assert(dec_of(enc_init()) =~= dec_init());
    assert(ops.skip(0) =~= ops);
}

/// Sealing preserves structural well-formedness, and a sealed stream is
/// never shorter than one group.
pub proof fn lemma_seal_wf(st: EncSt)
    requires
        st_wf(st),
    ensures
        st_wf(enc_seal(st)),
        enc_seal(st).msg.len() >= 4,
        enc_seal(st).strs == st.strs,
{
    if in_group(st) {
        assert(enc_seal(st).msg =~= st.msg.update(st.tag_pos + 1, OP_STOP));
    }
}

pub proof fn lemma_op_codes_index(ops: Seq<OpView>, i: int)
    requires
        0 <= i < ops.len(),
    ensures
        op_codes(ops).len() == ops.len(),
        op_codes(ops)[i] == op_code_of(ops[i]),
    decreases ops.len(),
{
    lemma_op_codes_len(ops);
    if i > 0 {
        lemma_op_codes_index(ops.subrange(1, ops.len() as int), i - 1);
    }
}

pub proof fn lemma_op_codes_len(ops: Seq<OpView>)
    ensures
        op_codes(ops).len() == ops.len(),
    decreases ops.len(),
{
    if ops.len() > 0 {
        lemma_op_codes_len(ops.subrange(1, ops.len() as int));
    }
}

/// Dropping padding distributes over concatenation.
pub proof fn lemma_semantic_ops_app(a: Seq<OpView>, b: Seq<OpView>)
    ensures
        semantic_ops(a + b) == semantic_ops(a) + semantic_ops(b),
    decreases a.len(),
{
    if a.len() == 0 {
        assert(a + b =~= b);
        assert(semantic_ops(a) =~= Seq::<OpView>::empty());
        assert(semantic_ops(a) + semantic_ops(b) =~= semantic_ops(b));
    } else {
        let rest = a.subrange(1, a.len() as int);
        assert((a + b).subrange(1, (a + b).len() as int) =~= rest + b);
        assert((a + b)[0] == a[0]);
        lemma_semantic_ops_app(rest, b);
        if a[0] is NoOp {
        } else {
            assert(seq![a[0]] + (semantic_ops(rest) + semantic_ops(b)) =~= (seq![a[0]]
                + semantic_ops(rest)) + semantic_ops(b));
        }
    }
}

/// A run of padding operations has no semantic content.
pub proof fn lemma_semantic_ops_pads(pads: Seq<OpView>)
    requires
        forall|i: int| 0 <= i < pads.len() ==> pads[i] is NoOp,
    ensures
        semantic_ops(pads) == Seq::<OpView>::empty(),
    decreases pads.len(),
{
    if pads.len() > 0 {
        let rest = pads.subrange(1, pads.len() as int);
        assert(forall|i: int| 0 <= i < rest.len() ==> rest[i] is NoOp);
        lemma_semantic_ops_pads(rest);
    }
}

/// Encoding then decoding reproduces the exact sequence of operations and
/// operand values, in order.
pub proof fn theorem_round_trip(ops: Seq<OpView>)
    requires
        ops_valid(ops),
    ensures
        spec_decode(enc_seal(enc_all(ops)).msg, enc_all(ops).strs) == Option::Some(
            semantic_ops(ops),
        ),
{
    theorem_decode_all(ops);
}

/// The instruction stream of a finalized batch ends with exactly one
/// `Stop` tag: the decoder reads every encoded tag once, the last tag
/// read is `Stop`, and no earlier one is. The final group is fully
/// reserved and its unused slots hold zero bytes (part of `st_wf`).
pub proof fn theorem_single_stop(ops: Seq<OpView>)
    requires
        ops_valid(ops),
    ensures
        ({
            let trace = op_codes(ops) + seq![OP_STOP];
            &&& dec_run(enc_seal(enc_all(ops)).msg, enc_all(ops).strs, dec_init())
                == Option::Some((semantic_ops(ops), trace))
            &&& trace.len() == ops.len() + 1
            &&& trace.last() == OP_STOP
            &&& forall|i: int| 0 <= i < trace.len() - 1 ==> trace[i] != OP_STOP
            &&& st_wf(enc_seal(enc_all(ops)))
            &&& enc_seal(enc_all(ops)).msg.len() >= 4
        }),
{
    theorem_decode_all(ops);
    lemma_enc_all_wf(ops);
    lemma_seal_wf(enc_all(ops));
    lemma_op_codes_len(ops);
    let trace = op_codes(ops) + seq![OP_STOP];
    assert forall|i: int| 0 <= i < trace.len() - 1 implies trace[i] != OP_STOP by {
        lemma_op_codes_index(ops, i);
        lemma_op_basic(ops[i]);
    }
}

/// Packing up to three booleans into the top bits of a tag byte is
/// lossless: the decoder's bit extraction yields exactly the flags that
/// were set, and the low five bits still hold the tag code. Only three
/// flag bits exist; a fourth boolean on one instruction is rejected by
/// the encoder's precondition.
pub proof fn theorem_flag_packing(code: u8, b0: bool, b1: bool, b2: bool)
    requires
        code < 32,
    ensures
        ({
            let tb = (code + (if b0 {
                32int
            } else {
                0int
            }) + (if b1 {
                64int
            } else {
                0int
            }) + (if b2 {
                128int
            } else {
                0int
            })) as u8;
            &&& tb % 32 == code
            &&& ((tb / 32) % 2 == 1) == b0
            &&& ((tb / 64) % 2 == 1) == b1
            &&& ((tb / 128) % 2 == 1) == b2
        }),
{
}

/// Composition is associative at the decoded level: concatenating batch A
/// then batch B (with the group-aligning padding between them) and
/// decoding yields the same operation sequence as decoding A fully, then
/// B fully.
pub proof fn theorem_compose(ops1: Seq<OpView>, pads: Seq<OpView>, ops2: Seq<OpView>)
    requires
        ops_valid(ops1),
        ops_valid(ops2),
        forall|i: int| 0 <= i < pads.len() ==> pads[i] is NoOp,
    ensures
        ({
            let combined = ops1 + pads + ops2;
            &&& spec_decode(enc_seal(enc_all(combined)).msg, enc_all(combined).strs)
                == Option::Some(semantic_ops(ops1) + semantic_ops(ops2))
            &&& spec_decode(enc_seal(enc_all(ops1)).msg, enc_all(ops1).strs) == Option::Some(
                semantic_ops(ops1),
            )
            &&& spec_decode(enc_seal(enc_all(ops2)).msg, enc_all(ops2).strs) == Option::Some(
                semantic_ops(ops2),
            )
        }),
{
    let combined = ops1 + pads + ops2;
    assert forall|i: int| 0 <= i < pads.len() implies op_valid(#[trigger] pads[i]) by {
        assert(pads[i] is NoOp);
    }
    assert forall|i: int| 0 <= i < combined.len() implies op_valid(#[trigger] combined[i]) by {
        if i < ops1.len() {
            assert(op_valid(ops1[i]));
        } else if i < ops1.len() + pads.len() {
            assert(combined[i] == pads[i - ops1.len()]);
        } else {
            assert(combined[i] == ops2[i - ops1.len() - pads.len()]);
        }
    }
    theorem_round_trip(combined);
    theorem_round_trip(ops1);
    theorem_round_trip(ops2);
    lemma_semantic_ops_app(ops1 + pads, ops2);
    lemma_semantic_ops_app(ops1, pads);
    lemma_semantic_ops_pads(pads);
    assert(semantic_ops(ops1) + Seq::<OpView>::empty() =~= semantic_ops(ops1));
}

/// Decoding a finalized batch reproduces exactly the operations that
/// were encoded into it, in order.
pub proof fn theorem_finalized_round_trip(fb: FinalizedBatch)
    requires
        fb.wf(),
    ensures
        spec_decode(fb.msg@, fb.strs@) == Option::Some(semantic_ops(fb.ops@)),
{
    theorem_round_trip(fb.ops@);
}

/// A finalized batch's instruction stream ends with exactly one `Stop`
/// tag: the decoder reads every encoded tag once and the terminator last.
pub proof fn theorem_finalized_single_stop(fb: FinalizedBatch)
    requires
        fb.wf(),
    ensures
        ({
            let trace = op_codes(fb.ops@) + seq![OP_STOP];
            &&& dec_run(fb.msg@, fb.strs@, dec_init()) == Option::Some(
                (semantic_ops(fb.ops@), trace),
            )
            &&& trace.last() == OP_STOP
            &&& forall|i: int| 0 <= i < trace.len() - 1 ==> trace[i] != OP_STOP
            &&& fb.msg@.len() >= 4
        }),
{
    theorem_single_stop(fb.ops@);
}

} // verus!
