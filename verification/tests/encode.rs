//! Byte-exact checks of the wire format.

use dom_batch::Batch;
use dom_batch::MaybeId;
use dom_batch::NodeId;
use dom_batch::TagName;
use dom_batch::AttrName;

#[test]
fn empty_batch_is_one_stop_group() {
    let batch = Batch::default();
    let fin = batch.finalize();
    // A lone Stop opens a fresh group: the Stop tag then three reserved
    // zero bytes.
    assert_eq!(fin.msg, vec![5, 0, 0, 0]);
    assert_eq!(fin.strs, Vec::<u8>::new());
}

#[test]
fn navigation_ops_pack_four_tags_into_one_group() {
    let mut batch = Batch::default();
    batch.first_child();
    batch.next_sibling();
    batch.parent_node();
    batch.first_child();
    let fin = batch.finalize();
    // Four tags fill the first group; Stop opens a second.
    assert_eq!(fin.msg, vec![0, 1, 2, 0, 5, 0, 0, 0]);
}

#[test]
fn store_and_set_last_node_encode_little_endian_ids() {
    let mut batch = Batch::default();
    batch.store_with_id(NodeId(0x01020304));
    batch.set_last_node(NodeId(5));
    let fin = batch.finalize();
    assert_eq!(
        fin.msg,
        vec![3, 4, 5, 0, 0x04, 0x03, 0x02, 0x01, 5, 0, 0, 0]
    );
}

#[test]
fn scenario_div_class_text_append() {
    // Encode: create a div stored as id 1, set class="test" on it, create
    // a text node "hi" at the cursor, append node 2 under node 1.
    let mut batch = Batch::default();
    batch.create_element(TagName::Custom(b"div".to_vec()), Some(NodeId(1)));
    batch.set_attribute(
        AttrName::Custom(b"class".to_vec()),
        "test",
        MaybeId::Node(NodeId(1)),
    );
    batch.create_text_node("hi", MaybeId::LastNode);
    batch.append_child(MaybeId::Node(NodeId(1)), NodeId(2));
    let fin = batch.finalize();
    // Exactly one full tag group of four ops, plus one Stop in a second
    // group. Tag bytes carry the flags in their top bits.
    let expected: Vec<u8> = vec![
        45, 47, 12, 39, // tags: 13+32, 15+32, 12, 7+32
        255, 3, 0, // tag descriptor: marker + length of "div"
        1, 0, 0, 0, // id 1
        1, 0, 0, 0, // target of set_attribute
        255, 5, 0, // attr descriptor: marker + length of "class"
        4, 0, // length of "test"
        2, 0, // length of "hi"
        1, 0, 0, 0, // append target
        2, 0, 0, 0, // appended child
        5, 0, 0, 0, // Stop group
    ];
    assert_eq!(fin.msg, expected);
    assert_eq!(fin.strs, b"divclasstesthi".to_vec());
}

#[test]
fn flags_occupy_top_bits_of_the_tag_byte() {
    let mut batch = Batch::default();
    // Remove with an explicit target: flag bit 5 set on tag 11.
    batch.remove(MaybeId::Node(NodeId(9)));
    // Remove at the cursor: no flag.
    batch.remove(MaybeId::LastNode);
    // Clone with two explicit ids: flags at bits 5 and 6 on tag 19.
    batch.clone_node(MaybeId::Node(NodeId(1)), MaybeId::Node(NodeId(2)));
    let fin = batch.finalize();
    assert_eq!(fin.msg[0], 11 + 32);
    assert_eq!(fin.msg[1], 11);
    assert_eq!(fin.msg[2], 19 + 32 + 64);
    assert_eq!(fin.msg[3], 5); // Stop fits in the same group
}

#[test]
fn single_and_many_paths_have_different_wire_shapes() {
    let mut single = Batch::default();
    single.append_child(MaybeId::Node(NodeId(1)), NodeId(7));
    let fin_single = single.finalize();

    let mut many = Batch::default();
    many.append_children(MaybeId::Node(NodeId(1)), vec![NodeId(7)]);
    let fin_many = many.finalize();

    // Same tag, but the is-many flag (bit 6) distinguishes the shapes and
    // the many path carries a four-byte count.
    assert_eq!(fin_single.msg[0], 7 + 32);
    assert_eq!(fin_many.msg[0], 7 + 32 + 64);
    assert_ne!(fin_single.msg, fin_many.msg);
    assert_eq!(fin_single.msg.len() + 4, fin_many.msg.len());
}

#[test]
fn clone_node_children_terminates_the_id_list() {
    let mut batch = Batch::default();
    batch.clone_node_children(MaybeId::LastNode, vec![NodeId(1), NodeId(2)]);
    let fin = batch.finalize();
    assert_eq!(
        fin.msg,
        vec![20, 5, 0, 0, 1, 1, 0, 0, 0, 1, 2, 0, 0, 0, 0]
    );
}

#[test]
fn styles_go_to_the_text_stream() {
    let mut batch = Batch::default();
    batch.set_style("color", "red", MaybeId::LastNode);
    batch.remove_style("color", MaybeId::LastNode);
    let fin = batch.finalize();
    assert_eq!(fin.strs, b"colorredcolor".to_vec());
    assert_eq!(&fin.msg[4..8], &[5, 0, 3, 0]); // two lengths of the first op
}

#[test]
fn append_pads_the_open_group_with_noops() {
    let mut a = Batch::default();
    a.first_child(); // one op: three slots left in the group
    let mut b = Batch::default();
    b.parent_node();
    a.append(b);
    let fin = a.finalize();
    // first_child, three NoOps filling its group, then b's group with
    // parent_node; Stop lands in b's group's second slot.
    assert_eq!(fin.msg, vec![0, 21, 21, 21, 2, 5, 0, 0]);
}
