use pso_proto::patch::packet::{EndIt, Message, PatchWelcome};
use pso_proto::PSOPacket;

#[test]
fn packet_patch_welcome() {
    let pkt = PatchWelcome::new(123, 456);

    assert!(
        pkt.as_bytes()
            == vec![
                0x4C, 0x00, 0x02, 0x00, 0x50, 0x61, 0x74, 0x63, 0x68, 0x20, 0x53, 0x65, 0x72, 0x76,
                0x65, 0x72, 0x2E, 0x20, 0x43, 0x6F, 0x70, 0x79, 0x72, 0x69, 0x67, 0x68, 0x74, 0x20,
                0x53, 0x6F, 0x6E, 0x69, 0x63, 0x54, 0x65, 0x61, 0x6D, 0x2C, 0x20, 0x4C, 0x54, 0x44,
                0x2E, 0x20, 0x32, 0x30, 0x30, 0x31, 0x00, 0x00, 0x00, 0x00, 0x00, 0x00, 0x00, 0x00,
                0x00, 0x00, 0x00, 0x00, 0x00, 0x00, 0x00, 0x00, 0x00, 0x00, 0x00, 0x00, 0x7B, 0x00,
                0x00, 0x00, 0xC8, 0x01, 0x00, 0x00,
            ]
    );

    let mut bytes = pkt.as_bytes();
    bytes.splice(28..37, b"Elsewhere".iter().cloned());

    let new_pkt = PatchWelcome::from_bytes(&bytes);

    assert!(
        new_pkt
            == Ok(PatchWelcome {
                copyright: b"Patch Server. Copyright Elsewhere, LTD. 2001".clone(),
                padding: [0; 20],
                server_key: 123,
                client_key: 456,
            })
    );
    if let Ok(p) = new_pkt {
        println!("{:?}", p);
    }
}

#[test]
fn packet_test_message() {
    let msg = Message::new("hello this is an arbitrary message?!!".to_string());

    assert!(
        msg.as_bytes()
            == vec![
                0x50, 0x00, 0x13, 0x00, 0x68, 0x00, 0x65, 0x00, 0x6C, 0x00, 0x6C, 0x00, 0x6F, 0x00,
                0x20, 0x00, 0x74, 0x00, 0x68, 0x00, 0x69, 0x00, 0x73, 0x00, 0x20, 0x00, 0x69, 0x00,
                0x73, 0x00, 0x20, 0x00, 0x61, 0x00, 0x6E, 0x00, 0x20, 0x00, 0x61, 0x00, 0x72, 0x00,
                0x62, 0x00, 0x69, 0x00, 0x74, 0x00, 0x72, 0x00, 0x61, 0x00, 0x72, 0x00, 0x79, 0x00,
                0x20, 0x00, 0x6D, 0x00, 0x65, 0x00, 0x73, 0x00, 0x73, 0x00, 0x61, 0x00, 0x67, 0x00,
                0x65, 0x00, 0x3F, 0x00, 0x21, 0x00, 0x21, 0x00, 0x00, 0x00
            ]
    );

    let mut bytes = Vec::new();
    bytes.extend_from_slice(&70u16.to_le_bytes());
    bytes.extend_from_slice(&19u16.to_le_bytes());
    for c in "this is a cool string of letters!".encode_utf16() {
        bytes.extend_from_slice(&c.to_le_bytes());
    }

    let msg = Message::from_bytes(&bytes);
    let b = msg.unwrap().as_bytes();
    assert!(
        b == vec![
            0x48, 0x00, 0x13, 0x00, 0x74, 0x00, 0x68, 0x00, 0x69, 0x00, 0x73, 0x00, 0x20, 0x00, 0x69,
            0x00, 0x73, 0x00, 0x20, 0x00, 0x61, 0x00, 0x20, 0x00, 0x63, 0x00, 0x6F, 0x00, 0x6F, 0x00,
            0x6C, 0x00, 0x20, 0x00, 0x73, 0x00, 0x74, 0x00, 0x72, 0x00, 0x69, 0x00, 0x6E, 0x00, 0x67,
            0x00, 0x20, 0x00, 0x6F, 0x00, 0x66, 0x00, 0x20, 0x00, 0x6C, 0x00, 0x65, 0x00, 0x74, 0x00,
            0x74, 0x00, 0x65, 0x00, 0x72, 0x00, 0x73, 0x00, 0x21, 0x00, 0x00, 0x00
        ]
    )
}

#[test]
fn end_it_frame() {
    let e = EndIt {};
    assert_eq!(e.as_bytes(), vec![4, 0, 0x12, 0]);
    assert_eq!(EndIt::from_bytes(&vec![4, 0, 0x12, 0]), Ok(EndIt {}));
}
