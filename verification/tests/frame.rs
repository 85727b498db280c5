use tinyroute::errors::Error;
use tinyroute::frame::{Frame, HEADER_LEN, MAX_PAYLOAD_LEN};

#[test]
fn frames_a_short_payload() {
    let framed = Frame::frame_message(b"ping").unwrap();
    assert_eq!(framed, vec![0, 0, 0, 4, b'p', b'i', b'n', b'g']);
}

#[test]
fn frames_an_empty_payload() {
    let framed = Frame::frame_message(b"").unwrap();
    assert_eq!(framed, vec![0, 0, 0, 0]);
    let codec = Frame::new(0);
    assert_eq!(codec.decode(&framed), Ok(Some((Vec::new(), HEADER_LEN))));
}

#[test]
fn header_is_big_endian() {
    let payload = vec![7u8; 0x0102_03];
    let framed = Frame::frame_message(&payload).unwrap();
    assert_eq!(&framed[..4], &[0x00, 0x01, 0x02, 0x03]);
    assert_eq!(framed.len(), 4 + 0x0102_03);
    assert_eq!(&framed[4..], &payload[..]);
}

#[test]
fn decodes_what_was_framed() {
    let mut stream = Frame::frame_message(b"ping").unwrap();
    stream.extend_from_slice(&Frame::frame_message(b"pong!").unwrap());
    let codec = Frame::new(16);
    let (payload, used) = codec.decode(&stream).unwrap().unwrap();
    assert_eq!(payload, b"ping".to_vec());
    assert_eq!(used, 8);
    let (payload, used) = codec.decode(&stream[used..]).unwrap().unwrap();
    assert_eq!(payload, b"pong!".to_vec());
    assert_eq!(used, 9);
}

#[test]
fn round_trips_every_length_up_to_the_maximum() {
    let codec = Frame::new(300);
    for len in 0..=300usize {
        let payload: Vec<u8> = (0..len).map(|i| (i % 251) as u8).collect();
        let mut stream = Frame::frame_message(&payload).unwrap();
        stream.extend_from_slice(b"what follows");
        assert_eq!(codec.decode(&stream), Ok(Some((payload, HEADER_LEN + len))));
    }
}

#[test]
fn refuses_a_payload_over_the_maximum() {
    let stream = Frame::frame_message(b"too long").unwrap();
    let codec = Frame::new(7);
    assert_eq!(codec.decode(&stream), Err(Error::Framing));
    let codec = Frame::new(8);
    assert_eq!(codec.decode(&stream), Ok(Some((b"too long".to_vec(), 12))));
}

#[test]
fn refuses_an_oversized_header_before_the_payload_arrives() {
    let codec = Frame::new(1024);
    assert_eq!(codec.decode(&[0xff, 0xff, 0xff, 0xff]), Err(Error::Framing));
    assert_eq!(codec.decode(&[0, 0, 4, 1]), Err(Error::Framing));
}

#[test]
fn waits_for_a_whole_header() {
    let codec = Frame::new(1024);
    assert_eq!(codec.decode(&[]), Ok(None));
    assert_eq!(codec.decode(&[0, 0, 0]), Ok(None));
}

#[test]
fn waits_for_a_whole_payload() {
    let codec = Frame::new(1024);
    let stream = Frame::frame_message(b"ping").unwrap();
    assert_eq!(codec.decode(&stream[..7]), Ok(None));
    assert_eq!(codec.decode(&stream[..4]), Ok(None));
}

#[test]
fn codec_reports_its_limit() {
    assert_eq!(Frame::new(77).max_len(), 77);
    assert_eq!(HEADER_LEN, 4);
    assert_eq!(MAX_PAYLOAD_LEN, 0xffff_ffff);
}
