//! The boundary channel: singleton registration and the metadata
//! handshake.

use dom_batch::Batch;
use dom_batch::BufferAddrs;
use dom_batch::ChannelError;
use dom_batch::ChannelRegistry;
use dom_batch::MaybeId;
use dom_batch::MsgChannel;
use dom_batch::NodeId;
use dom_batch::TagName;

#[test]
fn only_one_channel_per_registry() {
    let mut registry = ChannelRegistry::new();
    let first = MsgChannel::new(&mut registry);
    assert!(first.is_ok());
    let second = MsgChannel::new(&mut registry);
    assert_eq!(second.err(), Some(ChannelError::AlreadyRegistered));
    // After release, construction succeeds again.
    drop(first);
    registry.release();
    assert!(MsgChannel::new(&mut registry).is_ok());
}

#[test]
fn first_publish_marks_both_addresses_dirty() {
    let mut registry = ChannelRegistry::new();
    let mut ch = MsgChannel::new(&mut registry).unwrap();
    ch.first_child();
    ch.flush();
    let m = ch.publish(BufferAddrs { msg_ptr: 0x1000, str_ptr: 0x2000 });
    assert!(m.msg_ptr_dirty);
    assert!(m.str_ptr_dirty);
    assert_eq!(m.str_len, 0);
    assert_eq!(m.meta, 3); // both dirty bits, empty text buffer
    ch.reset();
    assert_eq!(ch.msg_bytes(), &Vec::<u8>::new());
}

#[test]
fn unchanged_addresses_publish_clean() {
    let mut registry = ChannelRegistry::new();
    let mut ch = MsgChannel::new(&mut registry).unwrap();
    ch.first_child();
    ch.flush();
    let _ = ch.publish(BufferAddrs { msg_ptr: 0x1000, str_ptr: 0x2000 });
    ch.reset();
    ch.create_text_node("hi", MaybeId::LastNode);
    ch.flush();
    let m = ch.publish(BufferAddrs { msg_ptr: 0x1000, str_ptr: 0x2000 });
    assert!(!m.msg_ptr_dirty);
    assert!(!m.str_ptr_dirty);
    assert_eq!(m.str_len, 2);
    // Non-empty (bit 2) and small single-byte text (bit 3).
    assert_eq!(m.meta, 4 + 8);
}

#[test]
fn moved_instruction_buffer_sets_its_dirty_bit() {
    let mut registry = ChannelRegistry::new();
    let mut ch = MsgChannel::new(&mut registry).unwrap();
    ch.first_child();
    ch.flush();
    let _ = ch.publish(BufferAddrs { msg_ptr: 0x1000, str_ptr: 0x2000 });
    ch.reset();
    ch.first_child();
    ch.flush();
    let m = ch.publish(BufferAddrs { msg_ptr: 0x3000, str_ptr: 0x2000 });
    assert!(m.msg_ptr_dirty);
    assert!(!m.str_ptr_dirty);
    assert_eq!(m.meta, 1);
}

#[test]
fn large_or_non_ascii_text_clears_the_small_bit() {
    let mut registry = ChannelRegistry::new();
    let mut ch = MsgChannel::new(&mut registry).unwrap();
    let long = "x".repeat(120);
    ch.create_text_node(long.as_str(), MaybeId::LastNode);
    ch.flush();
    let m = ch.publish(BufferAddrs { msg_ptr: 1, str_ptr: 2 });
    assert_eq!(m.str_len, 120);
    assert_eq!(m.meta, 3 + 4); // dirty + non-empty, but not small

    ch.reset();
    ch.create_text_node("héllo", MaybeId::LastNode);
    ch.flush();
    let m2 = ch.publish(BufferAddrs { msg_ptr: 1, str_ptr: 2 });
    assert_eq!(m2.str_len, 6); // two bytes for the accented vowel
    assert_eq!(m2.meta, 4); // non-empty but not single-byte-safe
}

#[test]
fn channel_stream_matches_batch_stream() {
    let mut registry = ChannelRegistry::new();
    let mut ch = MsgChannel::new(&mut registry).unwrap();
    ch.create_element(TagName::Code(4), Some(NodeId(1)));
    ch.append_child(MaybeId::Node(NodeId(1)), NodeId(2));
    ch.flush();

    let mut batch = Batch::default();
    batch.create_element(TagName::Code(4), Some(NodeId(1)));
    batch.append_child(MaybeId::Node(NodeId(1)), NodeId(2));
    let fin = batch.finalize();

    assert_eq!(ch.msg_bytes(), &fin.msg);
    assert_eq!(ch.text_bytes(), &fin.strs);
}

#[test]
fn run_batch_publishes_the_external_buffers() {
    let mut registry = ChannelRegistry::new();
    let mut ch = MsgChannel::new(&mut registry).unwrap();
    let mut batch = Batch::default();
    batch.set_text("abc", MaybeId::LastNode);
    let fin = batch.finalize();
    let m = ch.run_batch(&fin, BufferAddrs { msg_ptr: 7, str_ptr: 8 });
    assert_eq!(m.str_len, 3);
    assert_eq!(m.meta, 3 + 4 + 8);
}
