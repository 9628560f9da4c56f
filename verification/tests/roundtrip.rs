//! Encode-then-decode round trips through the reference decoder.

use dom_batch::decode_streams;
use dom_batch::AttrName;
use dom_batch::Batch;
use dom_batch::ElementBuilder;
use dom_batch::MaybeId;
use dom_batch::NodeId;
use dom_batch::Operation;
use dom_batch::TagName;

#[test]
fn empty_batch_decodes_to_no_operations() {
    let fin = Batch::default().finalize();
    let ops = decode_streams(&fin.msg, &fin.strs).expect("well-formed stream");
    assert_eq!(ops, Vec::<Operation>::new());
}

#[test]
fn mixed_operations_round_trip() {
    let mut batch = Batch::default();
    batch.create_element(TagName::Code(8), Some(NodeId(1)));
    batch.set_attribute(AttrName::Code(3), "x", MaybeId::Node(NodeId(1)));
    batch.create_text_node("hello", MaybeId::LastNode);
    batch.store_with_id(NodeId(2));
    batch.append_child(MaybeId::Node(NodeId(1)), NodeId(2));
    batch.first_child();
    batch.remove(MaybeId::LastNode);
    let fin = batch.finalize();
    let ops = decode_streams(&fin.msg, &fin.strs).expect("well-formed stream");
    assert_eq!(
        ops,
        vec![
            Operation::CreateElement { tag: TagName::Code(8), id: Some(NodeId(1)) },
            Operation::SetAttribute {
                root: MaybeId::Node(NodeId(1)),
                attr: AttrName::Code(3),
                value: b"x".to_vec(),
            },
            Operation::CreateTextNode { text: b"hello".to_vec(), id: MaybeId::LastNode },
            Operation::StoreWithId { id: NodeId(2) },
            Operation::AppendChild { root: MaybeId::Node(NodeId(1)), child: NodeId(2) },
            Operation::FirstChild,
            Operation::Remove { id: MaybeId::LastNode },
        ]
    );
}

#[test]
fn single_and_many_paths_decode_to_equivalent_intent() {
    let mut single = Batch::default();
    single.append_child(MaybeId::Node(NodeId(3)), NodeId(7));
    let fin_single = single.finalize();
    let ops_single = decode_streams(&fin_single.msg, &fin_single.strs).unwrap();

    let mut many = Batch::default();
    many.append_children(MaybeId::Node(NodeId(3)), vec![NodeId(7), NodeId(8), NodeId(9)]);
    let fin_many = many.finalize();
    let ops_many = decode_streams(&fin_many.msg, &fin_many.strs).unwrap();

    // The fast path decodes to a single-child append, the count-prefixed
    // path to a list; both carry the same target and the intended
    // children.
    match &ops_single[0] {
        Operation::AppendChild { root, child } => {
            assert_eq!(*root, MaybeId::Node(NodeId(3)));
            assert_eq!(*child, NodeId(7));
        },
        other => panic!("unexpected operation {:?}", other),
    }
    match &ops_many[0] {
        Operation::AppendChildren { root, children } => {
            assert_eq!(*root, MaybeId::Node(NodeId(3)));
            assert_eq!(children, &vec![NodeId(7), NodeId(8), NodeId(9)]);
        },
        other => panic!("unexpected operation {:?}", other),
    }
}

#[test]
fn multi_node_variants_round_trip() {
    let mut batch = Batch::default();
    batch.replace_with_nodes(MaybeId::LastNode, vec![NodeId(1), NodeId(2)]);
    batch.insert_nodes_after(MaybeId::Node(NodeId(4)), &[NodeId(5)]);
    batch.insert_nodes_before(MaybeId::Node(NodeId(4)), &[]);
    batch.replace_with(MaybeId::Node(NodeId(9)), NodeId(10));
    batch.insert_after(MaybeId::LastNode, NodeId(11));
    batch.insert_before(MaybeId::LastNode, NodeId(12));
    batch.clone_node_children(MaybeId::Node(NodeId(1)), vec![NodeId(20), NodeId(21)]);
    let fin = batch.finalize();
    let ops = decode_streams(&fin.msg, &fin.strs).expect("well-formed stream");
    assert_eq!(
        ops,
        vec![
            Operation::ReplaceWithNodes {
                root: MaybeId::LastNode,
                nodes: vec![NodeId(1), NodeId(2)],
            },
            Operation::InsertNodesAfter {
                root: MaybeId::Node(NodeId(4)),
                nodes: vec![NodeId(5)],
            },
            Operation::InsertNodesBefore { root: MaybeId::Node(NodeId(4)), nodes: vec![] },
            Operation::ReplaceWith { root: MaybeId::Node(NodeId(9)), node: NodeId(10) },
            Operation::InsertAfter { root: MaybeId::LastNode, node: NodeId(11) },
            Operation::InsertBefore { root: MaybeId::LastNode, node: NodeId(12) },
            Operation::CloneNodeChildren {
                id: MaybeId::Node(NodeId(1)),
                new_ids: vec![NodeId(20), NodeId(21)],
            },
        ]
    );
}

#[test]
fn full_element_round_trips_depth_first() {
    let el = ElementBuilder {
        id: Some(NodeId(1)),
        tag: TagName::Custom(b"section".to_vec()),
        attrs: vec![
            (AttrName::Custom(b"class".to_vec()), b"card".to_vec()),
            (AttrName::Code(7), b"on".to_vec()),
        ],
        children: vec![
            ElementBuilder {
                id: None,
                tag: TagName::Code(2),
                attrs: vec![],
                children: vec![ElementBuilder {
                    id: Some(NodeId(9)),
                    tag: TagName::Custom(b"em".to_vec()),
                    attrs: vec![],
                    children: vec![],
                }],
            },
            ElementBuilder { id: None, tag: TagName::Code(3), attrs: vec![], children: vec![] },
        ],
    };
    let expected = ElementBuilder {
        id: Some(NodeId(1)),
        tag: TagName::Custom(b"section".to_vec()),
        attrs: vec![
            (AttrName::Custom(b"class".to_vec()), b"card".to_vec()),
            (AttrName::Code(7), b"on".to_vec()),
        ],
        children: vec![
            ElementBuilder {
                id: None,
                tag: TagName::Code(2),
                attrs: vec![],
                children: vec![ElementBuilder {
                    id: Some(NodeId(9)),
                    tag: TagName::Custom(b"em".to_vec()),
                    attrs: vec![],
                    children: vec![],
                }],
            },
            ElementBuilder { id: None, tag: TagName::Code(3), attrs: vec![], children: vec![] },
        ],
    };
    let mut batch = Batch::default();
    batch.build_full_element(el);
    let fin = batch.finalize();
    let ops = decode_streams(&fin.msg, &fin.strs).expect("well-formed stream");
    assert_eq!(ops, vec![Operation::BuildFullElement { root: expected }]);
}

#[test]
fn composition_decodes_like_decoding_each_batch() {
    let mut a = Batch::default();
    a.create_element(TagName::Code(1), Some(NodeId(1)));
    a.set_text("left", MaybeId::LastNode);
    let mut a_alone = Batch::default();
    a_alone.create_element(TagName::Code(1), Some(NodeId(1)));
    a_alone.set_text("left", MaybeId::LastNode);

    let mut b = Batch::default();
    b.create_text_node("right", MaybeId::LastNode);
    b.remove(MaybeId::Node(NodeId(1)));
    let mut b_alone = Batch::default();
    b_alone.create_text_node("right", MaybeId::LastNode);
    b_alone.remove(MaybeId::Node(NodeId(1)));

    a.append(b);
    let fin_ab = a.finalize();
    let fin_a = a_alone.finalize();
    let fin_b = b_alone.finalize();

    let ops_ab = decode_streams(&fin_ab.msg, &fin_ab.strs).unwrap();
    let ops_a = decode_streams(&fin_a.msg, &fin_a.strs).unwrap();
    let ops_b = decode_streams(&fin_b.msg, &fin_b.strs).unwrap();
    let mut expected = ops_a;
    expected.extend(ops_b);
    assert_eq!(ops_ab, expected);
}

#[test]
fn unknown_tag_is_rejected() {
    // Tag codes 22 to 31 are unassigned; a group starting with one
    // cannot decode.
    let msg: Vec<u8> = vec![22, 0, 0, 0];
    let strs: Vec<u8> = Vec::new();
    assert!(dom_batch::decode_streams(&msg, &strs).is_none());
}

#[test]
fn missing_text_bytes_are_rejected() {
    let mut batch = Batch::default();
    batch.set_text("hello", MaybeId::LastNode);
    let fin = batch.finalize();
    // The instruction stream claims five text bytes; hand over fewer.
    let short: Vec<u8> = fin.strs[..3].to_vec();
    assert!(decode_streams(&fin.msg, &short).is_none());
}

#[test]
fn truncated_stream_is_rejected() {
    let mut batch = Batch::default();
    batch.store_with_id(NodeId(1));
    let fin = batch.finalize();
    let mut msg = fin.msg.clone();
    msg.truncate(3); // cut into the first group
    assert!(decode_streams(&msg, &fin.strs).is_none());
    let empty: Vec<u8> = Vec::new();
    assert!(decode_streams(&empty, &empty).is_none()); // no Stop at all
}
