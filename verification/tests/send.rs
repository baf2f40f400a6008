use slipbridge::error::SlipbridgeError;
use slipbridge::send::{ChunkedSend, RETRY_PAUSE_MS};
use slipbridge::transport::TransportKind;

#[test]
fn full_writes_follow_chunks() {
    let mut send = ChunkedSend::new(10, 4, 2, TransportKind::Tcp);
    let mut ranges = Vec::new();
    while let Some((start, end)) = send.next_write() {
        ranges.push((start, end));
        send.wrote(end - start).expect("write accepted");
    }
    assert_eq!(ranges, vec![(0, 4), (4, 8), (8, 10)]);
}

#[test]
fn partial_writes_resume_within_chunk() {
    let mut send = ChunkedSend::new(5, 4, 0, TransportKind::Usb);
    assert_eq!(send.next_write(), Some((0, 4)));
    send.wrote(1).unwrap();
    assert_eq!(send.next_write(), Some((1, 4)));
    send.wrote(3).unwrap();
    assert_eq!(send.next_write(), Some((4, 5)));
    send.wrote(1).unwrap();
    assert_eq!(send.next_write(), None);
}

#[test]
fn zero_chunk_size_means_one_byte() {
    let mut send = ChunkedSend::new(2, 0, 0, TransportKind::Tcp);
    assert_eq!(send.next_write(), Some((0, 1)));
    send.wrote(1).unwrap();
    assert_eq!(send.next_write(), Some((1, 2)));
}

#[test]
fn empty_buffer_sends_nothing() {
    let send = ChunkedSend::new(0, 4096, 2, TransportKind::Tcp);
    assert_eq!(send.next_write(), None);
}

fn transport_message(err: SlipbridgeError) -> String {
    match err {
        SlipbridgeError::Transport(m) => m,
        other => panic!("unexpected error {other:?}"),
    }
}

#[test]
fn zero_byte_write_is_an_error() {
    let mut tcp = ChunkedSend::new(3, 4, 2, TransportKind::Tcp);
    assert_eq!(transport_message(tcp.wrote(0).unwrap_err()), "network write returned 0 bytes");
    let mut usb = ChunkedSend::new(3, 4, 2, TransportKind::Usb);
    assert_eq!(transport_message(usb.wrote(0).unwrap_err()), "USB write returned 0 bytes");
}

#[test]
fn failures_are_retried_then_reported() {
    let mut send = ChunkedSend::new(3, 4, 2, TransportKind::Tcp);
    assert!(send.failed("busy").is_ok());
    assert!(send.failed("busy").is_ok());
    assert_eq!(send.next_write(), Some((0, 3)));
    assert_eq!(transport_message(send.failed("broken pipe").unwrap_err()), "network write failed: broken pipe");
    assert_eq!(RETRY_PAUSE_MS, 30);
}

#[test]
fn success_resets_the_retry_count() {
    let mut send = ChunkedSend::new(8, 4, 1, TransportKind::Usb);
    assert!(send.failed("timeout").is_ok());
    send.wrote(2).unwrap();
    assert!(send.failed("timeout").is_ok());
    assert_eq!(transport_message(send.failed("timeout").unwrap_err()), "USB write failed: timeout");
}
