use uvxl::game::network::frame::{decode_frame, encode_frame, Frame, MAX_FRAME_LENGTH};

fn complete(front: Frame) -> Option<(Vec<u8>, usize)> {
    match front {
        Frame::Complete { payload, consumed } => Some((payload, consumed)),
        _ => None,
    }
}

#[test]
fn frame_is_length_then_payload() {
    assert_eq!(encode_frame(&[7, 8, 9]), Some(vec![0, 0, 0, 3, 7, 8, 9]));
    assert_eq!(encode_frame(&[]), Some(vec![0, 0, 0, 0]));
    let long = vec![5u8; 0x0102_03];
    let framed = encode_frame(&long).unwrap();
    assert_eq!(&framed[..4], &[0, 1, 2, 3]);
    assert_eq!(framed.len(), 4 + long.len());
    assert_eq!(&framed[4..], &long[..]);
}

#[test]
fn frame_round_trip() {
    for payload in [vec![], vec![1], vec![0; 300], (0..=255).collect::<Vec<u8>>()] {
        let mut stream = encode_frame(&payload).unwrap();
        stream.extend_from_slice(&[9, 9, 9]);
        assert_eq!(complete(decode_frame(&stream)), Some((payload.clone(), 4 + payload.len())));
    }
}

#[test]
fn two_frames_on_one_stream() {
    let mut stream = encode_frame(&[1, 2]).unwrap();
    stream.extend(encode_frame(&[3, 4, 5]).unwrap());
    let (first, used) = complete(decode_frame(&stream)).unwrap();
    assert_eq!(first, vec![1, 2]);
    let (second, used_again) = complete(decode_frame(&stream[used..])).unwrap();
    assert_eq!(second, vec![3, 4, 5]);
    assert_eq!(used + used_again, stream.len());
    assert!(matches!(decode_frame(&stream[used + used_again..]), Frame::Incomplete));
}

#[test]
fn a_frame_in_parts_is_incomplete() {
    let stream = encode_frame(&[1, 2, 3, 4, 5]).unwrap();
    for n in 0..stream.len() {
        assert!(matches!(decode_frame(&stream[..n]), Frame::Incomplete));
    }
    assert!(matches!(decode_frame(&stream), Frame::Complete { .. }));
}

#[test]
fn the_longest_frame() {
    let payload = vec![1u8; MAX_FRAME_LENGTH];
    let stream = encode_frame(&payload).unwrap();
    assert_eq!(&stream[..4], &[0, 0x80, 0, 0]);
    assert_eq!(complete(decode_frame(&stream)), Some((payload, 4 + MAX_FRAME_LENGTH)));
}

#[test]
fn too_long_for_a_frame() {
    let payload = vec![0u8; MAX_FRAME_LENGTH + 1];
    assert_eq!(encode_frame(&payload), None);
    assert!(matches!(decode_frame(&[0, 0x80, 0, 1]), Frame::TooLong));
    assert!(matches!(decode_frame(&[0xff, 0xff, 0xff, 0xff, 1, 2, 3]), Frame::TooLong));
    assert!(matches!(decode_frame(&[0, 0x80, 0, 0]), Frame::Incomplete));
}
