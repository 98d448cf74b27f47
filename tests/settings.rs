use pso_proto::character::settings::UserSettings;

#[test]
fn test_usersettings_size() {
    let bytes = UserSettings::default().as_bytes();
    assert!(bytes[3168] == 0x01);
    assert!(bytes[3169] == 0x00);
}

#[test]
fn settings_round_trip_and_layout() {
    let mut u = UserSettings::default();
    u.blocked_users[0] = 0x04030201;
    u.blocked_users[29] = 0xAABBCCDD;
    u.option_flags = 0x11223344;
    u.team_name[15] = 0x4142;
    let b = u.as_bytes();
    assert_eq!(b.len(), 0x1160);
    assert_eq!(&b[0..4], &[1, 2, 3, 4]);
    assert_eq!(&b[116..120], &[0xDD, 0xCC, 0xBB, 0xAA]);
    assert_eq!(&b[120..124], &[0x00, 0x00, 0x00, 0x00]);
    assert_eq!(b[124], 0x26);
    assert_eq!(&b[484..487], &[0x00, 0x01, 0xff]);
    assert_eq!(&b[540..544], &[0x44, 0x33, 0x22, 0x11]);
    assert_eq!(&b[4446..4448], &[0x42, 0x41]);
    let back = UserSettings::from_bytes(b);
    assert!(back == u);
    assert!(back.as_bytes() == b);
}
