//! Framing.

use mesh_supervisor::proto::{
    frame_len, read_msg, write_msg, FrameError, Request, RestartPolicy, Spec, MAX_FRAME,
};

fn bytes(msg: &Vec<u8>) -> Option<Vec<u8>> {
    Some(msg.clone())
}

fn back(bytes: &[u8]) -> Option<Vec<u8>> {
    Some(bytes.to_vec())
}

#[test]
fn a_frame_is_a_length_and_a_payload() {
    let wire = write_msg(&vec![7u8, 8, 9], bytes).unwrap();
    assert_eq!(wire, vec![0, 0, 0, 3, 7, 8, 9]);
    assert_eq!(read_msg(&wire, back), Ok(vec![7, 8, 9]));

    // Whatever follows the frame is not looked at.
    let mut more = wire.clone();
    more.extend([1, 2, 3]);
    assert_eq!(read_msg(&more, back), Ok(vec![7, 8, 9]));
}

#[test]
fn messages_round_trip() {
    for n in [0usize, 1, 255, 256, 65_535, MAX_FRAME] {
        let msg: Vec<u8> = (0..n).map(|i| i as u8).collect();
        let wire = write_msg(&msg, bytes).unwrap();
        assert_eq!(wire.len(), n + 4);
        assert_eq!(read_msg(&wire, back), Ok(msg));
    }
}

#[test]
fn frames_are_capped() {
    let msg = vec![0u8; MAX_FRAME + 1];
    assert_eq!(
        write_msg(&msg, bytes),
        Err(FrameError::TooLarge(MAX_FRAME + 1))
    );
    assert_eq!(
        read_msg(&[0, 1, 0, 1, 0], back),
        Err(FrameError::TooLarge(65_537))
    );
    assert_eq!(frame_len(&[0, 1, 0, 0]), Ok(MAX_FRAME));
    assert_eq!(
        frame_len(&[255, 255, 255, 255]),
        Err(FrameError::TooLarge(4_294_967_295))
    );
}

#[test]
fn frames_that_cannot_be_read_are_told_apart() {
    assert_eq!(read_msg(&[0, 0, 0], back), Err(FrameError::Truncated));
    assert_eq!(read_msg(&[0, 0, 0, 2, 1], back), Err(FrameError::Truncated));
    assert_eq!(
        read_msg(&[0, 0, 0, 1, 1], |_| None::<()>),
        Err(FrameError::Decode)
    );
    assert_eq!(write_msg(&(), |_| None), Err(FrameError::Encode));
}

#[test]
fn a_spec_asks_for_nothing_by_default() {
    let s = Spec::default();
    assert_eq!(s.cmd, "");
    assert!(s.args.is_empty() && s.env.is_empty());
    assert_eq!(s.limits.memory, None);
    assert_eq!(s.policy, RestartPolicy::Never);
    assert_eq!(s.max_retries, 0);
    assert!(!s.isolate);
    assert!(!Request::Spawn(s).is_read_only());
}

#[test]
fn typed_messages_round_trip() {
    let encode = |m: &(u64, String)| postcard::to_allocvec(m).ok();
    let decode = |b: &[u8]| postcard::from_bytes::<(u64, String)>(b).ok();
    let msg = (77, "hello".to_string());
    let mut wire = write_msg(&msg, encode).unwrap();
    assert_eq!(frame_len(&[wire[0], wire[1], wire[2], wire[3]]), Ok(wire.len() - 4));
    wire.extend([9; 20]);
    assert_eq!(read_msg(&wire, decode), Ok(msg));
}
