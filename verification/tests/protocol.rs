use hydra::protocol::frame::encode;
use hydra::protocol::messages::{BuildResultState, StepStatus};
use hydra::protocol::{FrameReader, FrameWriter, RpcError};

#[test]
fn rpc_error_constructors_set_codes() {
    let e = RpcError::bad_request("bad".to_string());
    assert_eq!((e.code, e.message.as_str()), (400, "bad"));
    let e = RpcError::unauthenticated("who".to_string());
    assert_eq!((e.code, e.message.as_str()), (401, "who"));
    let e = RpcError::not_found("gone".to_string());
    assert_eq!((e.code, e.message.as_str()), (404, "gone"));
    let e = RpcError::precondition_failed("no store".to_string());
    assert_eq!((e.code, e.message.as_str()), (412, "no store"));
    let e = RpcError::internal("boom".to_string());
    assert_eq!((e.code, e.message.as_str()), (500, "boom"));
}

#[test]
fn rpc_error_text() {
    let e = RpcError::not_found("no tunnel for this machine_id".to_string());
    assert_eq!(e.to_string(), "RPC error 404: no tunnel for this machine_id");
    let e = RpcError { code: 7, message: String::new() };
    assert_eq!(e.to_string(), "RPC error 7: ");
}

#[test]
fn encode_prefixes_little_endian_length() {
    assert_eq!(encode(&[1, 2, 3]).unwrap(), vec![3, 0, 0, 0, 1, 2, 3]);
    assert_eq!(encode(&[]).unwrap(), vec![0, 0, 0, 0]);
    let big = vec![9u8; 300];
    let framed = encode(&big).unwrap();
    assert_eq!(&framed[..4], &[44, 1, 0, 0]);
    assert_eq!(framed.len(), 304);
}

#[test]
fn writer_matches_encode() {
    let mut w = FrameWriter::new();
    assert_eq!(w.encode(b"hello").unwrap(), encode(b"hello").unwrap());
    assert_eq!(w.encode(b"").unwrap(), vec![0, 0, 0, 0]);
    let mut d = FrameWriter::default();
    assert_eq!(d.encode(&[7]).unwrap(), vec![1, 0, 0, 0, 7]);
}

#[test]
fn reader_waits_for_complete_frames() {
    let mut r = FrameReader::new();
    assert_eq!(r.next_frame(), None);
    r.extend(&[2, 0]);
    assert_eq!(r.next_frame(), None);
    assert_eq!(r.buffered_len(), 2);
    r.extend(&[0, 0, 10]);
    assert_eq!(r.next_frame(), None);
    assert_eq!(r.buffered_len(), 5);
    r.extend(&[11, 1, 0]);
    assert_eq!(r.next_frame(), Some(vec![10, 11]));
    assert_eq!(r.buffered_len(), 2);
    assert_eq!(r.next_frame(), None);
}

#[test]
fn reader_reads_frames_in_order() {
    let mut bytes = encode(b"first").unwrap();
    bytes.extend(encode(b"").unwrap());
    bytes.extend(encode(b"third").unwrap());
    bytes.extend(&[5, 0]);
    let mut r = FrameReader::default();
    r.extend(&bytes);
    assert_eq!(r.next_frame(), Some(b"first".to_vec()));
    assert_eq!(r.next_frame(), Some(Vec::new()));
    assert_eq!(r.next_frame(), Some(b"third".to_vec()));
    assert_eq!(r.next_frame(), None);
    assert_eq!(r.buffered_len(), 2);
}

#[test]
fn roundtrip_through_reader() {
    let payload: Vec<u8> = (0..=255).collect();
    let mut r = FrameReader::new();
    r.extend(&encode(&payload).unwrap());
    r.extend(&[1, 2, 3]);
    assert_eq!(r.next_frame(), Some(payload));
    assert_eq!(r.buffered_len(), 3);
}

#[test]
fn status_codes_match_the_wire() {
    assert_eq!(StepStatus::Preparing.code(), 0);
    assert_eq!(StepStatus::Connecting.code(), 1);
    assert_eq!(StepStatus::SendingInputs.code(), 2);
    assert_eq!(StepStatus::Building.code(), 3);
    assert_eq!(StepStatus::WaitingForLocalSlot.code(), 4);
    assert_eq!(StepStatus::ReceivingOutputs.code(), 5);
    assert_eq!(StepStatus::PostProcessing.code(), 6);
    assert_eq!(BuildResultState::BuildFailure.code(), 0);
    assert_eq!(BuildResultState::Success.code(), 1);
    assert_eq!(BuildResultState::PreparingFailure.code(), 2);
    assert_eq!(BuildResultState::ImportFailure.code(), 3);
    assert_eq!(BuildResultState::UploadFailure.code(), 4);
    assert_eq!(BuildResultState::PostProcessingFailure.code(), 5);
}
