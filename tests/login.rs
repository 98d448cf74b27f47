use pso_proto::packet::login::{
    AccountStatus, Login, LoginResponse, LoginWelcome, RedirectClient, RequestSettings,
    SendKeyAndTeamSettings,
};
use pso_proto::{PSOPacket, PacketParseError};
use rand::Rng;

#[test]
fn test_account_status_enum() {
    let pkt = LoginResponse {
        flag: 0,
        status: AccountStatus::InvalidPassword,
        tag: 0,
        guildcard: 0,
        team_id: 0,
        security_data: [0; 40],
        caps: 0,
    };

    let mut bytes = pkt.as_bytes();
    assert!(bytes[8] == 2);

    bytes[8] = 8;

    let pkt = LoginResponse::from_bytes(&bytes).unwrap();
    assert!(pkt.status == AccountStatus::InvalidUser);
}

#[test]
fn test_key_settings_reply() {
    let mut rng = rand::thread_rng();

    let mut key_config = [0u8; 0x16C];
    let mut joystick_config = [0u8; 0x38];

    rng.fill(&mut key_config[..]);
    rng.fill(&mut joystick_config[..]);
    let pkt = SendKeyAndTeamSettings::new(key_config, joystick_config, 123, 456);
    let bytes = pkt.as_bytes();

    assert!(bytes[2] == 0xe2);
    assert!(bytes[8 + 0x114] == key_config[0]);
    assert!(bytes[8 + 0x114 + 0x16C] == joystick_config[0]);
}

#[test]
fn key_settings_round_trip() {
    let pkt = SendKeyAndTeamSettings::new([3; 0x16C], [4; 0x38], 123, 456);
    let bytes = pkt.as_bytes();
    assert_eq!(bytes.len(), 2812);
    assert_eq!(&bytes[0..2], &2812u16.to_le_bytes());
    assert_eq!(SendKeyAndTeamSettings::from_bytes(&bytes), Ok(pkt));
}

#[test]
fn status_codes() {
    let all = [
        AccountStatus::Success,
        AccountStatus::Error,
        AccountStatus::InvalidPassword,
        AccountStatus::InvalidPassword2,
        AccountStatus::Maintenance,
        AccountStatus::AlreadyOnline,
        AccountStatus::Banned,
        AccountStatus::Banned2,
        AccountStatus::InvalidUser,
        AccountStatus::PayUp,
        AccountStatus::Locked,
        AccountStatus::BadVersion,
    ];
    for (i, s) in all.iter().enumerate() {
        assert_eq!(s.to_le_bytes(), [i as u8, 0, 0, 0]);
        assert_eq!(AccountStatus::from_le_bytes([i as u8, 9, 9, 9]), Ok(*s));
    }
    assert_eq!(AccountStatus::from_le_bytes([12, 0, 0, 0]), Err(PacketParseError::InvalidValue));
}

#[test]
fn login_response_by_status() {
    let r = LoginResponse::by_status(AccountStatus::Banned, [7; 40]);
    let b = r.as_bytes();
    assert_eq!(b.len(), 68);
    assert_eq!(&b[0..8], &[68, 0, 0xE6, 0, 0, 0, 0, 0]);
    assert_eq!(&b[8..16], &[6, 0, 0, 0, 0, 0, 1, 0]);
    assert_eq!(&b[64..68], &[2, 1, 0, 0]);
    assert_eq!(LoginResponse::from_bytes(&b), Ok(r));

    let mut bad = b.clone();
    bad[8] = 12;
    assert_eq!(LoginResponse::from_bytes(&bad), Err(PacketParseError::InvalidValue));
    assert_eq!(LoginResponse::from_bytes(&b[..40].to_vec()), Err(PacketParseError::NotEnoughBytes));
    assert_eq!(LoginResponse::from_bytes(&b[..10].to_vec()), Err(PacketParseError::NotEnoughBytes));
}

#[test]
fn login_welcome_frame() {
    let w = LoginWelcome::new([1; 48], [2; 48]);
    let b = w.as_bytes();
    assert_eq!(b.len(), 200);
    assert_eq!(&b[0..8], &[200, 0, 3, 0, 0, 0, 0, 0]);
    assert_eq!(
        &b[8..8 + 0x4B],
        &b"Phantasy Star Online Blue Burst Game Server. Copyright 1999-2004 SONICTEAM."[..]
    );
    assert!(b[8 + 0x4B..8 + 0x60].iter().all(|x| *x == 0));
    assert_eq!(&b[8 + 0x60..8 + 0x60 + 48], &[1u8; 48][..]);
    assert_eq!(LoginWelcome::from_bytes(&b), Ok(w));
}

#[test]
fn login_request_round_trip_and_errors() {
    let l = Login {
        flag: 1,
        tag: 2,
        guildcard: 3,
        version: 4,
        unknown1: [5; 6],
        team: 6,
        username: [b'u'; 16],
        unknown2: [7; 32],
        password: [b'p'; 16],
        unknown3: [8; 40],
        hwinfo: [9; 8],
        security_data: [10; 40],
    };
    let b = l.as_bytes();
    assert_eq!(b.len(), 180);
    assert_eq!(Login::from_bytes(&b), Ok(l));

    let mut other = b.clone();
    other[2] = 0x94;
    assert_eq!(Login::from_bytes(&other), Err(PacketParseError::WrongPacketCommand));

    let mut longer = b.clone();
    longer.push(0);
    assert_eq!(Login::from_bytes(&longer), Ok(l));
}

#[test]
fn small_login_records() {
    let r = RedirectClient::new(0x0100007F, 12000);
    let b = r.as_bytes();
    assert_eq!(b, vec![16, 0, 0x19, 0, 0, 0, 0, 0, 0x7F, 0, 0, 1, 0xE0, 0x2E, 0, 0]);
    assert_eq!(RedirectClient::from_bytes(&b), Ok(r));

    let q = RequestSettings { flag: 5 };
    assert_eq!(q.as_bytes(), vec![8, 0, 0xE0, 0, 5, 0, 0, 0]);
    assert_eq!(RequestSettings::from_bytes(&vec![8, 0, 0xE0, 0, 5, 0, 0, 0]), Ok(q));
}

#[test]
fn login_truncated_frames() {
    let b = LoginWelcome::new([0; 48], [0; 48]).as_bytes();
    for k in 0..b.len() {
        assert_eq!(LoginWelcome::from_bytes(&b[..k].to_vec()), Err(PacketParseError::NotEnoughBytes));
    }
    let mut other = b.clone();
    other[2] = 0x93;
    assert_eq!(LoginWelcome::from_bytes(&other), Err(PacketParseError::WrongPacketCommand));
}
