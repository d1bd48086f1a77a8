use geck::protocol::{connection_request, new_connection_sequence};

#[test]
fn connection_sequence_bytes() {
    assert_eq!(new_connection_sequence(), vec![0x02, 0x05, 0x83]);
}

#[test]
fn connection_request_frames_name() {
    assert_eq!(
        connection_request("Antreas"),
        vec![0x02, 0x05, 0x83, b'A', b'n', b't', b'r', b'e', b'a', b's']
    );
    assert_eq!(connection_request(""), vec![0x02, 0x05, 0x83]);
    assert_eq!(connection_request("é"), vec![0x02, 0x05, 0x83, 0xc3, 0xa9]);
}

