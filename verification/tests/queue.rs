use engineio_payload::encoder::{require_packet, v3_binary_encoder, v4_encoder};
use engineio_payload::packet::{Error, Packet};

fn drain(rx: &mut tokio::sync::mpsc::Receiver<Packet>) -> Vec<Packet> {
    let mut batch = Vec::new();
    while let Ok(packet) = rx.try_recv() {
        batch.push(packet);
    }
    batch
}

#[test]
fn empty_queue_waits_and_encodes_exactly_one_packet() {
    let rt = tokio::runtime::Builder::new_current_thread().build().unwrap();
    let (tx, mut rx) = tokio::sync::mpsc::channel::<Packet>(8);
    let batch = drain(&mut rx);
    assert!(batch.is_empty());
    tx.try_send(Packet::Text("hi".to_string())).unwrap();
    let packet = require_packet(rt.block_on(rx.recv())).unwrap();
    let out = v4_encoder(vec![packet]).unwrap();
    assert_eq!(out, b"hi".to_vec());
    assert!(!out.is_empty());
}

#[test]
fn closed_queue_with_no_packet_aborts() {
    let rt = tokio::runtime::Builder::new_current_thread().build().unwrap();
    let (tx, mut rx) = tokio::sync::mpsc::channel::<Packet>(8);
    drop(tx);
    let batch = drain(&mut rx);
    assert!(batch.is_empty());
    let popped = rt.block_on(rx.recv());
    assert!(popped.is_none());
    assert_eq!(require_packet(popped).unwrap_err(), Error::Aborted);
}

#[test]
fn drained_packets_keep_their_send_order() {
    let (tx, mut rx) = tokio::sync::mpsc::channel::<Packet>(8);
    tx.try_send(Packet::Text("a".to_string())).unwrap();
    tx.try_send(Packet::Binary(vec![0x07])).unwrap();
    tx.try_send(Packet::Text("c".to_string())).unwrap();
    let batch = drain(&mut rx);
    assert_eq!(batch.len(), 3);
    let out = v3_binary_encoder(batch).unwrap();
    assert_eq!(
        out,
        vec![
            0x00, 0x01, 0xff, 0x61, 0x01, 0x02, 0xff, 0x04, 0x07, 0x00, 0x01, 0xff, 0x63,
        ]
    );
}
