use pso_proto::packet::patch::{
    ChangeDirectory, EndFileSend, FileInfo, FileInfoReply, FileSend, FilesToPatchMetadata, Message,
    PatchWelcome, RedirectClient, RequestLogin, StartFileSend,
};
use pso_proto::{PSOPacket, PacketParseError};

fn welcome_frame() -> Vec<u8> {
    vec![
        0x4C, 0x00, 0x02, 0x00, 0x50, 0x61, 0x74, 0x63, 0x68, 0x20, 0x53, 0x65, 0x72, 0x76, 0x65,
        0x72, 0x2E, 0x20, 0x43, 0x6F, 0x70, 0x79, 0x72, 0x69, 0x67, 0x68, 0x74, 0x20, 0x53, 0x6F,
        0x6E, 0x69, 0x63, 0x54, 0x65, 0x61, 0x6D, 0x2C, 0x20, 0x4C, 0x54, 0x44, 0x2E, 0x20, 0x32,
        0x30, 0x30, 0x31, 0x00, 0x00, 0x00, 0x00, 0x00, 0x00, 0x00, 0x00, 0x00, 0x00, 0x00, 0x00,
        0x00, 0x00, 0x00, 0x00, 0x00, 0x00, 0x00, 0x00, 0x7B, 0x00, 0x00, 0x00, 0xC8, 0x01, 0x00,
        0x00,
    ]
}

#[test]
fn patch_patch_welcome() {
    let pkt = PatchWelcome::new(123, 456);

    assert!(pkt.as_bytes() == welcome_frame());

    let mut bytes = pkt.as_bytes();
    bytes.splice(28..37, b"Elsewhere".iter().cloned());

    let new_pkt = PatchWelcome::from_bytes(&bytes);

    assert!(
        new_pkt
            == Ok(PatchWelcome {
                copyright: b"Patch Server. Copyright Elsewhere, LTD. 2001".clone(),
                padding: [0; 20],
                server_key: 123,
                client_key: 456,
            })
    );
    if let Ok(p) = new_pkt {
        println!("{:?}", p);
    }
}

#[test]
fn patch_test_message() {
    let msg = Message::new("hello this is an arbitrary message?!!".to_string());

    assert!(
        msg.as_bytes()
            == vec![
                0x50, 0x00, 0x13, 0x00, 0x68, 0x00, 0x65, 0x00, 0x6C, 0x00, 0x6C, 0x00, 0x6F, 0x00,
                0x20, 0x00, 0x74, 0x00, 0x68, 0x00, 0x69, 0x00, 0x73, 0x00, 0x20, 0x00, 0x69, 0x00,
                0x73, 0x00, 0x20, 0x00, 0x61, 0x00, 0x6E, 0x00, 0x20, 0x00, 0x61, 0x00, 0x72, 0x00,
                0x62, 0x00, 0x69, 0x00, 0x74, 0x00, 0x72, 0x00, 0x61, 0x00, 0x72, 0x00, 0x79, 0x00,
                0x20, 0x00, 0x6D, 0x00, 0x65, 0x00, 0x73, 0x00, 0x73, 0x00, 0x61, 0x00, 0x67, 0x00,
                0x65, 0x00, 0x3F, 0x00, 0x21, 0x00, 0x21, 0x00, 0x00, 0x00
            ]
    );

    let mut bytes = Vec::new();
    bytes.extend_from_slice(&70u16.to_le_bytes());
    bytes.extend_from_slice(&19u16.to_le_bytes());
    for c in "this is a cool string of letters!".encode_utf16() {
        bytes.extend_from_slice(&c.to_le_bytes());
    }

    let msg = Message::from_bytes(&bytes);
    let b = msg.unwrap().as_bytes();
    assert!(
        b == vec![
            0x48, 0x00, 0x13, 0x00, 0x74, 0x00, 0x68, 0x00, 0x69, 0x00, 0x73, 0x00, 0x20, 0x00, 0x69,
            0x00, 0x73, 0x00, 0x20, 0x00, 0x61, 0x00, 0x20, 0x00, 0x63, 0x00, 0x6F, 0x00, 0x6F, 0x00,
            0x6C, 0x00, 0x20, 0x00, 0x73, 0x00, 0x74, 0x00, 0x72, 0x00, 0x69, 0x00, 0x6E, 0x00, 0x67,
            0x00, 0x20, 0x00, 0x6F, 0x00, 0x66, 0x00, 0x20, 0x00, 0x6C, 0x00, 0x65, 0x00, 0x74, 0x00,
            0x74, 0x00, 0x65, 0x00, 0x72, 0x00, 0x73, 0x00, 0x21, 0x00, 0x00, 0x00
        ]
    )
}

#[test]
fn welcome_wrong_command() {
    let mut bytes = welcome_frame();
    bytes[2] = 0x04;
    assert_eq!(PatchWelcome::from_bytes(&bytes), Err(PacketParseError::WrongPacketCommand));
}

#[test]
fn welcome_truncated() {
    let bytes = welcome_frame();
    for k in 0..bytes.len() {
        let r = PatchWelcome::from_bytes(&bytes[..k].to_vec());
        if k < 4 {
            assert_eq!(r, Err(PacketParseError::NotEnoughBytes));
        } else {
            assert_eq!(r, Err(PacketParseError::WrongPacketSize(0x4C, k)));
        }
    }
}

#[test]
fn welcome_length_field_mismatch_and_extra_bytes() {
    let mut short = welcome_frame();
    short.truncate(70);
    short[0] = 70;
    assert_eq!(PatchWelcome::from_bytes(&short), Err(PacketParseError::NotEnoughBytes));

    let mut long = welcome_frame();
    long.extend_from_slice(&[0, 0, 0, 0]);
    long[0] = 80;
    assert_eq!(
        PatchWelcome::from_bytes(&long),
        Err(PacketParseError::DataStructNotLargeEnough(76, 80))
    );
}

#[test]
fn empty_record_frames() {
    let bytes = RequestLogin {}.as_bytes();
    assert_eq!(bytes, vec![4, 0, 4, 0]);
    assert_eq!(RequestLogin::from_bytes(&bytes), Ok(RequestLogin {}));
}

#[test]
fn fixed_records_round_trip() {
    let p = StartFileSend::new("data/file.bin", 0x1234, 7);
    let b = p.as_bytes();
    assert_eq!(b.len(), 60);
    assert_eq!(&b[0..4], &[60, 0, 6, 0]);
    assert_eq!(&b[12..25], b"data/file.bin");
    assert_eq!(b[25], 0);
    assert_eq!(StartFileSend::from_bytes(&b), Ok(p));

    let d = ChangeDirectory::new("data");
    let b = d.as_bytes();
    assert_eq!(&b[4..8], b"data");
    assert_eq!(ChangeDirectory::from_bytes(&b), Ok(d));

    let f = FileInfo::new("a_name_that_is_longer_than_thirty_two_bytes", 3);
    assert_eq!(&f.filename[..], &b"a_name_that_is_longer_than_thirty_two_bytes"[..32]);
    assert_eq!(FileInfo::from_bytes(&f.as_bytes()), Ok(f));

    let r = RedirectClient::new(0x0100007F, 11000);
    let b = r.as_bytes();
    assert_eq!(b, vec![12, 0, 0x14, 0, 0x7F, 0, 0, 1, 0xF8, 0x2A, 0, 0]);
    assert_eq!(RedirectClient::from_bytes(&b), Ok(r));

    let m = FilesToPatchMetadata::new(1000, 2);
    assert_eq!(FilesToPatchMetadata::from_bytes(&m.as_bytes()), Ok(m));
    let e = EndFileSend::new();
    assert_eq!(e.as_bytes(), vec![8, 0, 8, 0, 0, 0, 0, 0]);
}

#[test]
fn parse_then_serialize_gives_frame_back() {
    let frame = vec![16, 0, 0x0F, 0, 1, 0, 0, 0, 0xEF, 0xBE, 0xAD, 0xDE, 0x00, 0x10, 0, 0];
    let r = FileInfoReply::from_bytes(&frame).unwrap();
    assert_eq!(r.id, 1);
    assert_eq!(r.checksum, 0xDEADBEEF);
    assert_eq!(r.size, 0x1000);
    assert_eq!(r.as_bytes(), frame);
}

#[test]
fn file_send_frames() {
    let mut buffer = [0u8; 0x8000];
    for (i, b) in buffer.iter_mut().take(5).enumerate() {
        *b = i as u8 + 1;
    }
    let f = FileSend { chunk_num: 2, checksum: 9, chunk_size: 5, buffer };
    let b = f.as_bytes();
    assert_eq!(b.len(), 24);
    assert_eq!(&b[0..4], &[24, 0, 7, 0]);
    assert_eq!(&b[16..24], &[1, 2, 3, 4, 5, 0, 0, 0]);
    assert_eq!(FileSend::from_bytes(&b), Ok(f));

    let mut big = b.clone();
    big[12..16].copy_from_slice(&0x8001u32.to_le_bytes());
    assert_eq!(FileSend::from_bytes(&big), Err(PacketParseError::InvalidValue));

    let mut short = b[..20].to_vec();
    short[0] = 20;
    assert_eq!(FileSend::from_bytes(&short), Err(PacketParseError::NotEnoughBytes));
}

#[test]
fn message_odd_units_and_bad_surrogate() {
    let m = Message { msg: "abc".to_string() };
    let b = m.as_bytes();
    assert_eq!(b, vec![12, 0, 0x13, 0, 0x61, 0, 0x62, 0, 0x63, 0, 0, 0]);
    assert_eq!(Message::from_bytes(&b).unwrap().msg, "abc\0");

    let bad = vec![8, 0, 0x13, 0, 0x00, 0xD8, 0x41, 0x00];
    assert_eq!(Message::from_bytes(&bad).unwrap().msg, "\u{FFFD}A");

    let odd = vec![7, 0, 0x13, 0, 0x41, 0x00, 0x42];
    assert_eq!(Message::from_bytes(&odd), Err(PacketParseError::NotEnoughBytes));

    let wide = Message::new("\u{1F600}".to_string());
    assert_eq!(wide.as_bytes(), vec![12, 0, 0x13, 0, 0x3D, 0xD8, 0x00, 0xDE, 0, 0, 0, 0]);
}

#[test]
fn message_wrong_command_and_size() {
    let b = Message::new("hi".to_string()).as_bytes();
    let mut other = b.clone();
    other[2] = 0x14;
    assert_eq!(Message::from_bytes(&other), Err(PacketParseError::WrongPacketCommand));
    assert_eq!(
        Message::from_bytes(&b[..6].to_vec()),
        Err(PacketParseError::WrongPacketSize(b.len() as u16, 6))
    );
}
