//! Records of the Blue Burst login exchange (login dialect).
use vstd::prelude::*;

use crate::codec::{
    check_login_frame, fit, frame_cmd, frame_len, get_array, get_u16, get_u32, le16, le32, lemma_frame_prefix,
    lemma_le16, lemma_le32, lemma_login_frame, lemma_peel, lemma_login_frame_of, login_frame,
    login_frame_error, put_bytes, put_u16, put_u32, text_field, zeros,
};
use crate::{PSOPacket, PacketParseError};
use vstd::string::StringSliceAdditionalSpecFns;

verus! {

/// Greeting from the login server, carrying the two cipher seeds.
#[derive(Debug, Clone, Copy, PartialEq, Eq)]
pub struct LoginWelcome {
    pub flag: u32,
    pub copyright: [u8; 0x60],
    pub server_key: [u8; 48],
    pub client_key: [u8; 48],
}

impl LoginWelcome {
    /// The fields in wire order, 196 bytes.
    pub open spec fn body(&self) -> Seq<u8> {
        le32(self.flag) + self.copyright@ + self.server_key@ + self.client_key@
    }
}

impl PSOPacket for LoginWelcome {
    open spec fn command() -> u16 {
        0x03
    }

    open spec fn wire(&self) -> Seq<u8> {
        login_frame(0x03, self.body())
    }

    open spec fn decodes(data: Seq<u8>, r: Result<Self, PacketParseError>) -> bool {
        match r {
            Ok(p) => login_frame_error(data, 0x03, 196) is None && p.body() == data.subrange(4, 200),
            Err(e) => login_frame_error(data, 0x03, 196) == Some(e),
        }
    }

    open spec fn well_formed(data: Seq<u8>) -> bool {
        login_frame_error(data, 0x03, 196) is None && frame_len(data) == data.len() && data.len() == 200
    }

    open spec fn encodable(&self) -> bool {
        true
    }

    fn from_bytes(data: &Vec<u8>) -> (r: Result<Self, PacketParseError>) {
        check_login_frame(data, 0x03, 196)?;
        let p = LoginWelcome {
            flag: get_u32(data, 4),
            copyright: get_array(data, 8),
            server_key: get_array(data, 104),
            client_key: get_array(data, 152),
        };
        assert(p.body() =~= data@.subrange(4, 200));
        Ok(p)
    }

    fn as_bytes(&self) -> (r: Vec<u8>) {
        let mut buf: Vec<u8> = Vec::new();
        put_u16(&mut buf, 200);
        put_u16(&mut buf, 0x03);
        put_u32(&mut buf, self.flag);
        put_bytes(&mut buf, &self.copyright);
        put_bytes(&mut buf, &self.server_key);
        put_bytes(&mut buf, &self.client_key);
        assert(buf@ =~= self.wire());
        buf
    }

    proof fn lemma_reencode(data: Seq<u8>, p: Self) {
        lemma_login_frame_of(data, 0x03, 196);
    }

    proof fn lemma_wrong_command(data: Seq<u8>, r: Result<Self, PacketParseError>) {
    }

    proof fn lemma_truncated(data: Seq<u8>, k: int, r: Result<Self, PacketParseError>) {
        if k >= 4 {
            lemma_frame_prefix(data, k);
        }
    }
}

/// Parsing what a `LoginWelcome` serializes to gives it back.
pub proof fn lemma_login_welcome_round_trip(v: LoginWelcome, r: Result<LoginWelcome, PacketParseError>)
    requires
        LoginWelcome::decodes(v.wire(), r),
    ensures
        r == Ok::<LoginWelcome, PacketParseError>(v),
{
    lemma_login_frame(0x03, v.body());
    if let Ok(p) = r {
        lemma_peel(le32(p.flag) + p.copyright@ + p.server_key@, p.client_key@, le32(v.flag) + v.copyright@ + v.server_key@, v.client_key@);
        lemma_peel(le32(p.flag) + p.copyright@, p.server_key@, le32(v.flag) + v.copyright@, v.server_key@);
        lemma_peel(le32(p.flag), p.copyright@, le32(v.flag), v.copyright@);
        lemma_le32(p.flag);
        lemma_le32(v.flag);
        assert(p.copyright =~= v.copyright);
        assert(p.server_key =~= v.server_key);
        assert(p.client_key =~= v.client_key);
    }
}

/// The client's login request.
#[derive(Debug, Clone, Copy, PartialEq, Eq)]
pub struct Login {
    pub flag: u32,
    pub tag: u32,
    pub guildcard: u32,
    pub version: u16,
    pub unknown1: [u8; 6],
    pub team: u32,
    pub username: [u8; 16],
    pub unknown2: [u8; 32],
    pub password: [u8; 16],
    pub unknown3: [u8; 40],
    pub hwinfo: [u8; 8],
    pub security_data: [u8; 40],
}

impl Login {
    /// The fields in wire order, 176 bytes.
    pub open spec fn body(&self) -> Seq<u8> {
        le32(self.flag) + le32(self.tag) + le32(self.guildcard) + le16(self.version) + self.unknown1@ + le32(self.team) + self.username@ + self.unknown2@ + self.password@ + self.unknown3@ + self.hwinfo@ + self.security_data@
    }
}

impl PSOPacket for Login {
    open spec fn command() -> u16 {
        0x93
    }

    open spec fn wire(&self) -> Seq<u8> {
        login_frame(0x93, self.body())
    }

    open spec fn decodes(data: Seq<u8>, r: Result<Self, PacketParseError>) -> bool {
        match r {
            Ok(p) => login_frame_error(data, 0x93, 176) is None && p.body() == data.subrange(4, 180),
            Err(e) => login_frame_error(data, 0x93, 176) == Some(e),
        }
    }

    open spec fn well_formed(data: Seq<u8>) -> bool {
        login_frame_error(data, 0x93, 176) is None && frame_len(data) == data.len() && data.len() == 180
    }

    open spec fn encodable(&self) -> bool {
        true
    }

    fn from_bytes(data: &Vec<u8>) -> (r: Result<Self, PacketParseError>) {
        check_login_frame(data, 0x93, 176)?;
        let p = Login {
            flag: get_u32(data, 4),
            tag: get_u32(data, 8),
            guildcard: get_u32(data, 12),
            version: get_u16(data, 16),
            unknown1: get_array(data, 18),
            team: get_u32(data, 24),
            username: get_array(data, 28),
            unknown2: get_array(data, 44),
            password: get_array(data, 76),
            unknown3: get_array(data, 92),
            hwinfo: get_array(data, 132),
            security_data: get_array(data, 140),
        };
        assert(p.body() =~= data@.subrange(4, 180));
        Ok(p)
    }

    fn as_bytes(&self) -> (r: Vec<u8>) {
        let mut buf: Vec<u8> = Vec::new();
        put_u16(&mut buf, 180);
        put_u16(&mut buf, 0x93);
        put_u32(&mut buf, self.flag);
        put_u32(&mut buf, self.tag);
        put_u32(&mut buf, self.guildcard);
        put_u16(&mut buf, self.version);
        put_bytes(&mut buf, &self.unknown1);
        put_u32(&mut buf, self.team);
        put_bytes(&mut buf, &self.username);
        put_bytes(&mut buf, &self.unknown2);
        put_bytes(&mut buf, &self.password);
        put_bytes(&mut buf, &self.unknown3);
        put_bytes(&mut buf, &self.hwinfo);
        put_bytes(&mut buf, &self.security_data);
        assert(buf@ =~= self.wire());
        buf
    }

    proof fn lemma_reencode(data: Seq<u8>, p: Self) {
        lemma_login_frame_of(data, 0x93, 176);
    }

    proof fn lemma_wrong_command(data: Seq<u8>, r: Result<Self, PacketParseError>) {
    }

    proof fn lemma_truncated(data: Seq<u8>, k: int, r: Result<Self, PacketParseError>) {
        if k >= 4 {
            lemma_frame_prefix(data, k);
        }
    }
}

/// Parsing what a `Login` serializes to gives it back.
#[verifier::spinoff_prover]
pub proof fn lemma_login_round_trip(v: Login, r: Result<Login, PacketParseError>)
    requires
        Login::decodes(v.wire(), r),
    ensures
        r == Ok::<Login, PacketParseError>(v),
{
    lemma_login_frame(0x93, v.body());
    if let Ok(p) = r {
        lemma_peel(le32(p.flag) + le32(p.tag) + le32(p.guildcard) + le16(p.version) + p.unknown1@ + le32(p.team) + p.username@ + p.unknown2@ + p.password@ + p.unknown3@ + p.hwinfo@, p.security_data@, le32(v.flag) + le32(v.tag) + le32(v.guildcard) + le16(v.version) + v.unknown1@ + le32(v.team) + v.username@ + v.unknown2@ + v.password@ + v.unknown3@ + v.hwinfo@, v.security_data@);
        lemma_peel(le32(p.flag) + le32(p.tag) + le32(p.guildcard) + le16(p.version) + p.unknown1@ + le32(p.team) + p.username@ + p.unknown2@ + p.password@ + p.unknown3@, p.hwinfo@, le32(v.flag) + le32(v.tag) + le32(v.guildcard) + le16(v.version) + v.unknown1@ + le32(v.team) + v.username@ + v.unknown2@ + v.password@ + v.unknown3@, v.hwinfo@);
        lemma_peel(le32(p.flag) + le32(p.tag) + le32(p.guildcard) + le16(p.version) + p.unknown1@ + le32(p.team) + p.username@ + p.unknown2@ + p.password@, p.unknown3@, le32(v.flag) + le32(v.tag) + le32(v.guildcard) + le16(v.version) + v.unknown1@ + le32(v.team) + v.username@ + v.unknown2@ + v.password@, v.unknown3@);
        lemma_peel(le32(p.flag) + le32(p.tag) + le32(p.guildcard) + le16(p.version) + p.unknown1@ + le32(p.team) + p.username@ + p.unknown2@, p.password@, le32(v.flag) + le32(v.tag) + le32(v.guildcard) + le16(v.version) + v.unknown1@ + le32(v.team) + v.username@ + v.unknown2@, v.password@);
        lemma_peel(le32(p.flag) + le32(p.tag) + le32(p.guildcard) + le16(p.version) + p.unknown1@ + le32(p.team) + p.username@, p.unknown2@, le32(v.flag) + le32(v.tag) + le32(v.guildcard) + le16(v.version) + v.unknown1@ + le32(v.team) + v.username@, v.unknown2@);
        lemma_peel(le32(p.flag) + le32(p.tag) + le32(p.guildcard) + le16(p.version) + p.unknown1@ + le32(p.team), p.username@, le32(v.flag) + le32(v.tag) + le32(v.guildcard) + le16(v.version) + v.unknown1@ + le32(v.team), v.username@);
        lemma_peel(le32(p.flag) + le32(p.tag) + le32(p.guildcard) + le16(p.version) + p.unknown1@, le32(p.team), le32(v.flag) + le32(v.tag) + le32(v.guildcard) + le16(v.version) + v.unknown1@, le32(v.team));
        lemma_peel(le32(p.flag) + le32(p.tag) + le32(p.guildcard) + le16(p.version), p.unknown1@, le32(v.flag) + le32(v.tag) + le32(v.guildcard) + le16(v.version), v.unknown1@);
        lemma_peel(le32(p.flag) + le32(p.tag) + le32(p.guildcard), le16(p.version), le32(v.flag) + le32(v.tag) + le32(v.guildcard), le16(v.version));
        lemma_peel(le32(p.flag) + le32(p.tag), le32(p.guildcard), le32(v.flag) + le32(v.tag), le32(v.guildcard));
        lemma_peel(le32(p.flag), le32(p.tag), le32(v.flag), le32(v.tag));
        lemma_le32(p.flag);
        lemma_le32(v.flag);
        lemma_le32(p.tag);
        lemma_le32(v.tag);
        lemma_le32(p.guildcard);
        lemma_le32(v.guildcard);
        lemma_le16(p.version);
        lemma_le16(v.version);
        assert(p.unknown1 =~= v.unknown1);
        lemma_le32(p.team);
        lemma_le32(v.team);
        assert(p.username =~= v.username);
        assert(p.unknown2 =~= v.unknown2);
        assert(p.password =~= v.password);
        assert(p.unknown3 =~= v.unknown3);
        assert(p.hwinfo =~= v.hwinfo);
        assert(p.security_data =~= v.security_data);
    }
}

/// Asks for the key and team settings.
#[derive(Debug, Clone, Copy, PartialEq, Eq)]
pub struct RequestSettings {
    pub flag: u32,
}

impl RequestSettings {
    /// The fields in wire order, 4 bytes.
    pub open spec fn body(&self) -> Seq<u8> {
        le32(self.flag)
    }
}

impl PSOPacket for RequestSettings {
    open spec fn command() -> u16 {
        0xE0
    }

    open spec fn wire(&self) -> Seq<u8> {
        login_frame(0xE0, self.body())
    }

    open spec fn decodes(data: Seq<u8>, r: Result<Self, PacketParseError>) -> bool {
        match r {
            Ok(p) => login_frame_error(data, 0xE0, 4) is None && p.body() == data.subrange(4, 8),
            Err(e) => login_frame_error(data, 0xE0, 4) == Some(e),
        }
    }

    open spec fn well_formed(data: Seq<u8>) -> bool {
        login_frame_error(data, 0xE0, 4) is None && frame_len(data) == data.len() && data.len() == 8
    }

    open spec fn encodable(&self) -> bool {
        true
    }

    fn from_bytes(data: &Vec<u8>) -> (r: Result<Self, PacketParseError>) {
        check_login_frame(data, 0xE0, 4)?;
        let p = RequestSettings {
            flag: get_u32(data, 4),
        };
        assert(p.body() =~= data@.subrange(4, 8));
        Ok(p)
    }

    fn as_bytes(&self) -> (r: Vec<u8>) {
        let mut buf: Vec<u8> = Vec::new();
        put_u16(&mut buf, 8);
        put_u16(&mut buf, 0xE0);
        put_u32(&mut buf, self.flag);
        assert(buf@ =~= self.wire());
        buf
    }

    proof fn lemma_reencode(data: Seq<u8>, p: Self) {
        lemma_login_frame_of(data, 0xE0, 4);
    }

    proof fn lemma_wrong_command(data: Seq<u8>, r: Result<Self, PacketParseError>) {
    }

    proof fn lemma_truncated(data: Seq<u8>, k: int, r: Result<Self, PacketParseError>) {
        if k >= 4 {
            lemma_frame_prefix(data, k);
        }
    }
}

/// Parsing what a `RequestSettings` serializes to gives it back.
pub proof fn lemma_request_settings_round_trip(v: RequestSettings, r: Result<RequestSettings, PacketParseError>)
    requires
        RequestSettings::decodes(v.wire(), r),
    ensures
        r == Ok::<RequestSettings, PacketParseError>(v),
{
    lemma_login_frame(0xE0, v.body());
    if let Ok(p) = r {
        lemma_le32(p.flag);
        lemma_le32(v.flag);
    }
}

/// The client's key, joystick and team settings.
#[derive(Debug, Clone, Copy, PartialEq, Eq)]
pub struct SendKeyAndTeamSettings {
    pub flag: u32,
    pub unknown: [u8; 0x114],
    pub key_config: [u8; 0x16C],
    pub joystick_config: [u8; 0x38],
    pub guildcard: u32,
    pub team_id: u32,
    pub team_info: [u8; 8],
    pub team_priv: u16,
    pub unknown2: u16,
    pub team_name: [u8; 32],
    pub team_flag: [u8; 2048],
    pub team_rewards: [u8; 8],
}

impl SendKeyAndTeamSettings {
    /// The fields in wire order, 2808 bytes.
    pub open spec fn body(&self) -> Seq<u8> {
        le32(self.flag) + self.unknown@ + self.key_config@ + self.joystick_config@ + le32(self.guildcard) + le32(self.team_id) + self.team_info@ + le16(self.team_priv) + le16(self.unknown2) + self.team_name@ + self.team_flag@ + self.team_rewards@
    }
}

impl PSOPacket for SendKeyAndTeamSettings {
    open spec fn command() -> u16 {
        0xE2
    }

    open spec fn wire(&self) -> Seq<u8> {
        login_frame(0xE2, self.body())
    }

    open spec fn decodes(data: Seq<u8>, r: Result<Self, PacketParseError>) -> bool {
        match r {
            Ok(p) => login_frame_error(data, 0xE2, 2808) is None && p.body() == data.subrange(4, 2812),
            Err(e) => login_frame_error(data, 0xE2, 2808) == Some(e),
        }
    }

    open spec fn well_formed(data: Seq<u8>) -> bool {
        login_frame_error(data, 0xE2, 2808) is None && frame_len(data) == data.len() && data.len() == 2812
    }

    open spec fn encodable(&self) -> bool {
        true
    }

    fn from_bytes(data: &Vec<u8>) -> (r: Result<Self, PacketParseError>) {
        check_login_frame(data, 0xE2, 2808)?;
        let p = SendKeyAndTeamSettings {
            flag: get_u32(data, 4),
            unknown: get_array(data, 8),
            key_config: get_array(data, 284),
            joystick_config: get_array(data, 648),
            guildcard: get_u32(data, 704),
            team_id: get_u32(data, 708),
            team_info: get_array(data, 712),
            team_priv: get_u16(data, 720),
            unknown2: get_u16(data, 722),
            team_name: get_array(data, 724),
            team_flag: get_array(data, 756),
            team_rewards: get_array(data, 2804),
        };
        assert(p.body() =~= data@.subrange(4, 2812));
        Ok(p)
    }

    fn as_bytes(&self) -> (r: Vec<u8>) {
        let mut buf: Vec<u8> = Vec::new();
        put_u16(&mut buf, 2812);
        put_u16(&mut buf, 0xE2);
        put_u32(&mut buf, self.flag);
        put_bytes(&mut buf, &self.unknown);
        put_bytes(&mut buf, &self.key_config);
        put_bytes(&mut buf, &self.joystick_config);
        put_u32(&mut buf, self.guildcard);
        put_u32(&mut buf, self.team_id);
        put_bytes(&mut buf, &self.team_info);
        put_u16(&mut buf, self.team_priv);
        put_u16(&mut buf, self.unknown2);
        put_bytes(&mut buf, &self.team_name);
        put_bytes(&mut buf, &self.team_flag);
        put_bytes(&mut buf, &self.team_rewards);
        assert(buf@ =~= self.wire());
        buf
    }

    proof fn lemma_reencode(data: Seq<u8>, p: Self) {
        lemma_login_frame_of(data, 0xE2, 2808);
    }

    proof fn lemma_wrong_command(data: Seq<u8>, r: Result<Self, PacketParseError>) {
    }

    proof fn lemma_truncated(data: Seq<u8>, k: int, r: Result<Self, PacketParseError>) {
        if k >= 4 {
            lemma_frame_prefix(data, k);
        }
    }
}

/// Parsing what a `SendKeyAndTeamSettings` serializes to gives it back.
#[verifier::spinoff_prover]
pub proof fn lemma_send_key_and_team_settings_round_trip(v: SendKeyAndTeamSettings, r: Result<SendKeyAndTeamSettings, PacketParseError>)
    requires
        SendKeyAndTeamSettings::decodes(v.wire(), r),
    ensures
        r == Ok::<SendKeyAndTeamSettings, PacketParseError>(v),
{
    lemma_login_frame(0xE2, v.body());
    if let Ok(p) = r {
        lemma_peel(le32(p.flag) + p.unknown@ + p.key_config@ + p.joystick_config@ + le32(p.guildcard) + le32(p.team_id) + p.team_info@ + le16(p.team_priv) + le16(p.unknown2) + p.team_name@ + p.team_flag@, p.team_rewards@, le32(v.flag) + v.unknown@ + v.key_config@ + v.joystick_config@ + le32(v.guildcard) + le32(v.team_id) + v.team_info@ + le16(v.team_priv) + le16(v.unknown2) + v.team_name@ + v.team_flag@, v.team_rewards@);
        lemma_peel(le32(p.flag) + p.unknown@ + p.key_config@ + p.joystick_config@ + le32(p.guildcard) + le32(p.team_id) + p.team_info@ + le16(p.team_priv) + le16(p.unknown2) + p.team_name@, p.team_flag@, le32(v.flag) + v.unknown@ + v.key_config@ + v.joystick_config@ + le32(v.guildcard) + le32(v.team_id) + v.team_info@ + le16(v.team_priv) + le16(v.unknown2) + v.team_name@, v.team_flag@);
        lemma_peel(le32(p.flag) + p.unknown@ + p.key_config@ + p.joystick_config@ + le32(p.guildcard) + le32(p.team_id) + p.team_info@ + le16(p.team_priv) + le16(p.unknown2), p.team_name@, le32(v.flag) + v.unknown@ + v.key_config@ + v.joystick_config@ + le32(v.guildcard) + le32(v.team_id) + v.team_info@ + le16(v.team_priv) + le16(v.unknown2), v.team_name@);
        lemma_peel(le32(p.flag) + p.unknown@ + p.key_config@ + p.joystick_config@ + le32(p.guildcard) + le32(p.team_id) + p.team_info@ + le16(p.team_priv), le16(p.unknown2), le32(v.flag) + v.unknown@ + v.key_config@ + v.joystick_config@ + le32(v.guildcard) + le32(v.team_id) + v.team_info@ + le16(v.team_priv), le16(v.unknown2));
        lemma_peel(le32(p.flag) + p.unknown@ + p.key_config@ + p.joystick_config@ + le32(p.guildcard) + le32(p.team_id) + p.team_info@, le16(p.team_priv), le32(v.flag) + v.unknown@ + v.key_config@ + v.joystick_config@ + le32(v.guildcard) + le32(v.team_id) + v.team_info@, le16(v.team_priv));
        lemma_peel(le32(p.flag) + p.unknown@ + p.key_config@ + p.joystick_config@ + le32(p.guildcard) + le32(p.team_id), p.team_info@, le32(v.flag) + v.unknown@ + v.key_config@ + v.joystick_config@ + le32(v.guildcard) + le32(v.team_id), v.team_info@);
        lemma_peel(le32(p.flag) + p.unknown@ + p.key_config@ + p.joystick_config@ + le32(p.guildcard), le32(p.team_id), le32(v.flag) + v.unknown@ + v.key_config@ + v.joystick_config@ + le32(v.guildcard), le32(v.team_id));
        lemma_peel(le32(p.flag) + p.unknown@ + p.key_config@ + p.joystick_config@, le32(p.guildcard), le32(v.flag) + v.unknown@ + v.key_config@ + v.joystick_config@, le32(v.guildcard));
        lemma_peel(le32(p.flag) + p.unknown@ + p.key_config@, p.joystick_config@, le32(v.flag) + v.unknown@ + v.key_config@, v.joystick_config@);
        lemma_peel(le32(p.flag) + p.unknown@, p.key_config@, le32(v.flag) + v.unknown@, v.key_config@);
        lemma_peel(le32(p.flag), p.unknown@, le32(v.flag), v.unknown@);
        lemma_le32(p.flag);
        lemma_le32(v.flag);
        assert(p.unknown =~= v.unknown);
        assert(p.key_config =~= v.key_config);
        assert(p.joystick_config =~= v.joystick_config);
        lemma_le32(p.guildcard);
        lemma_le32(v.guildcard);
        lemma_le32(p.team_id);
        lemma_le32(v.team_id);
        assert(p.team_info =~= v.team_info);
        lemma_le16(p.team_priv);
        lemma_le16(v.team_priv);
        lemma_le16(p.unknown2);
        lemma_le16(v.unknown2);
        assert(p.team_name =~= v.team_name);
        assert(p.team_flag =~= v.team_flag);
        assert(p.team_rewards =~= v.team_rewards);
    }
}

/// Sends the client on to another server.
#[derive(Debug, Clone, Copy, PartialEq, Eq)]
pub struct RedirectClient {
    pub flag: u32,
    pub ip: u32,
    pub port: u16,
    pub padding: u16,
}

impl RedirectClient {
    /// The fields in wire order, 12 bytes.
    pub open spec fn body(&self) -> Seq<u8> {
        le32(self.flag) + le32(self.ip) + le16(self.port) + le16(self.padding)
    }
}

impl PSOPacket for RedirectClient {
    open spec fn command() -> u16 {
        0x19
    }

    open spec fn wire(&self) -> Seq<u8> {
        login_frame(0x19, self.body())
    }

    open spec fn decodes(data: Seq<u8>, r: Result<Self, PacketParseError>) -> bool {
        match r {
            Ok(p) => login_frame_error(data, 0x19, 12) is None && p.body() == data.subrange(4, 16),
            Err(e) => login_frame_error(data, 0x19, 12) == Some(e),
        }
    }

    open spec fn well_formed(data: Seq<u8>) -> bool {
        login_frame_error(data, 0x19, 12) is None && frame_len(data) == data.len() && data.len() == 16
    }

    open spec fn encodable(&self) -> bool {
        true
    }

    fn from_bytes(data: &Vec<u8>) -> (r: Result<Self, PacketParseError>) {
        check_login_frame(data, 0x19, 12)?;
        let p = RedirectClient {
            flag: get_u32(data, 4),
            ip: get_u32(data, 8),
            port: get_u16(data, 12),
            padding: get_u16(data, 14),
        };
        assert(p.body() =~= data@.subrange(4, 16));
        Ok(p)
    }

    fn as_bytes(&self) -> (r: Vec<u8>) {
        let mut buf: Vec<u8> = Vec::new();
        put_u16(&mut buf, 16);
        put_u16(&mut buf, 0x19);
        put_u32(&mut buf, self.flag);
        put_u32(&mut buf, self.ip);
        put_u16(&mut buf, self.port);
        put_u16(&mut buf, self.padding);
        assert(buf@ =~= self.wire());
        buf
    }

    proof fn lemma_reencode(data: Seq<u8>, p: Self) {
        lemma_login_frame_of(data, 0x19, 12);
    }

    proof fn lemma_wrong_command(data: Seq<u8>, r: Result<Self, PacketParseError>) {
    }

    proof fn lemma_truncated(data: Seq<u8>, k: int, r: Result<Self, PacketParseError>) {
        if k >= 4 {
            lemma_frame_prefix(data, k);
        }
    }
}

/// Parsing what a `RedirectClient` serializes to gives it back.
pub proof fn lemma_redirect_client_round_trip(v: RedirectClient, r: Result<RedirectClient, PacketParseError>)
    requires
        RedirectClient::decodes(v.wire(), r),
    ensures
        r == Ok::<RedirectClient, PacketParseError>(v),
{
    lemma_login_frame(0x19, v.body());
    if let Ok(p) = r {
        lemma_peel(le32(p.flag) + le32(p.ip) + le16(p.port), le16(p.padding), le32(v.flag) + le32(v.ip) + le16(v.port), le16(v.padding));
        lemma_peel(le32(p.flag) + le32(p.ip), le16(p.port), le32(v.flag) + le32(v.ip), le16(v.port));
        lemma_peel(le32(p.flag), le32(p.ip), le32(v.flag), le32(v.ip));
        lemma_le32(p.flag);
        lemma_le32(v.flag);
        lemma_le32(p.ip);
        lemma_le32(v.ip);
        lemma_le16(p.port);
        lemma_le16(v.port);
        lemma_le16(p.padding);
        lemma_le16(v.padding);
    }
}


/// Text of the copyright notice in `LoginWelcome`.
pub const LOGIN_COPYRIGHT: &'static str =
    "Phantasy Star Online Blue Burst Game Server. Copyright 1999-2004 SONICTEAM.";

impl LoginWelcome {
    /// The greeting with the server's copyright notice and the two seeds.
    pub fn new(server_key: [u8; 48], client_key: [u8; 48]) -> (r: LoginWelcome)
        ensures
            r.flag == 0,
            r.copyright@ == fit(LOGIN_COPYRIGHT.spec_bytes(), 0x60),
            r.server_key == server_key,
            r.client_key == client_key,
    {
        LoginWelcome { flag: 0, copyright: text_field(LOGIN_COPYRIGHT), server_key, client_key }
    }
}

impl SendKeyAndTeamSettings {
    /// Settings carrying the given bindings and team identity, all else zero.
    pub fn new(
        key_config: [u8; 0x16C],
        joystick_config: [u8; 0x38],
        guildcard: u32,
        team_id: u32,
    ) -> (r: SendKeyAndTeamSettings)
        ensures
            r.flag == 0,
            r.unknown@ == zeros(0x114),
            r.key_config == key_config,
            r.joystick_config == joystick_config,
            r.guildcard == guildcard,
            r.team_id == team_id,
            r.team_info@ == zeros(8),
            r.team_priv == 0,
            r.unknown2 == 0,
            r.team_name@ == zeros(32),
            r.team_flag@ == zeros(2048),
            r.team_rewards@ == zeros(8),
    {
        let r = SendKeyAndTeamSettings {
            flag: 0,
            unknown: [0; 0x114],
            key_config,
            joystick_config,
            guildcard,
            team_id,
            team_info: [0; 8],
            team_priv: 0,
            unknown2: 0,
            team_name: [0; 32],
            team_flag: [0; 2048],
            team_rewards: [0; 8],
        };
        assert(r.unknown@ =~= zeros(0x114));
        assert(r.team_info@ =~= zeros(8));
        assert(r.team_name@ =~= zeros(32));
        assert(r.team_flag@ =~= zeros(2048));
        assert(r.team_rewards@ =~= zeros(8));
        r
    }
}

impl RedirectClient {
    /// Redirects to `ip` and `port`.
    pub fn new(ip: u32, port: u16) -> (r: RedirectClient)
        ensures
            r.flag == 0,
            r.ip == ip,
            r.port == port,
            r.padding == 0,
    {
        RedirectClient { flag: 0, ip, port, padding: 0 }
    }
}

/// Outcome of a login attempt, as `LoginResponse` reports it.
#[derive(Debug, Clone, Copy, PartialEq, Eq, Structural)]
pub enum AccountStatus {
    Success,
    Error,
    InvalidPassword,
    InvalidPassword2,
    Maintenance,
    AlreadyOnline,
    Banned,
    Banned2,
    InvalidUser,
    PayUp,
    Locked,
    BadVersion,
}

/// The byte that stands for each status on the wire.
pub open spec fn status_code(s: AccountStatus) -> u8 {
    match s {
        AccountStatus::Success => 0,
        AccountStatus::Error => 1,
        AccountStatus::InvalidPassword => 2,
        AccountStatus::InvalidPassword2 => 3,
        AccountStatus::Maintenance => 4,
        AccountStatus::AlreadyOnline => 5,
        AccountStatus::Banned => 6,
        AccountStatus::Banned2 => 7,
        AccountStatus::InvalidUser => 8,
        AccountStatus::PayUp => 9,
        AccountStatus::Locked => 10,
        AccountStatus::BadVersion => 11,
    }
}

/// The four bytes of a status field: its code, then three zeros.
pub open spec fn status_bytes(s: AccountStatus) -> Seq<u8> {
    seq![status_code(s), 0u8, 0u8, 0u8]
}

impl AccountStatus {
    pub fn to_le_bytes(&self) -> (r: [u8; 4])
        ensures
            r@ == status_bytes(*self),
    {
        let code: u8 = match self {
            AccountStatus::Success => 0,
            AccountStatus::Error => 1,
            AccountStatus::InvalidPassword => 2,
            AccountStatus::InvalidPassword2 => 3,
            AccountStatus::Maintenance => 4,
            AccountStatus::AlreadyOnline => 5,
            AccountStatus::Banned => 6,
            AccountStatus::Banned2 => 7,
            AccountStatus::InvalidUser => 8,
            AccountStatus::PayUp => 9,
            AccountStatus::Locked => 10,
            AccountStatus::BadVersion => 11,
        };
        let r = [code, 0, 0, 0];
        assert(r@ =~= status_bytes(*self));
        r
    }

    /// Reads a status from its first byte; the other three are not looked at.
    pub fn from_le_bytes(bytes: [u8; 4]) -> (r: Result<AccountStatus, PacketParseError>)
        ensures
            bytes[0] <= 11 <==> r is Ok,
            r matches Ok(s) ==> status_code(s) == bytes[0],
            r matches Err(e) ==> e == PacketParseError::InvalidValue,
    {
        match bytes[0] {
            0 => Ok(AccountStatus::Success),
            1 => Ok(AccountStatus::Error),
            2 => Ok(AccountStatus::InvalidPassword),
            3 => Ok(AccountStatus::InvalidPassword2),
            4 => Ok(AccountStatus::Maintenance),
            5 => Ok(AccountStatus::AlreadyOnline),
            6 => Ok(AccountStatus::Banned),
            7 => Ok(AccountStatus::Banned2),
            8 => Ok(AccountStatus::InvalidUser),
            9 => Ok(AccountStatus::PayUp),
            10 => Ok(AccountStatus::Locked),
            11 => Ok(AccountStatus::BadVersion),
            _ => Err(PacketParseError::InvalidValue),
        }
    }
}

/// Distinct statuses have distinct codes.
pub proof fn lemma_status_code_injective(a: AccountStatus, b: AccountStatus)
    requires
        status_code(a) == status_code(b),
    ensures
        a == b,
{
}

/// The answer to `Login`.
#[derive(Debug, Clone, Copy, PartialEq, Eq)]
pub struct LoginResponse {
    pub flag: u32,
    pub status: AccountStatus,
    pub tag: u32,
    pub guildcard: u32,
    pub team_id: u32,
    pub security_data: [u8; 40],
    pub caps: u32,
}

/// The error a `LoginResponse` frame gives, if any: a short header, another
/// command, a short status, an unknown status code, or short fields.
pub open spec fn login_response_error(d: Seq<u8>) -> Option<PacketParseError> {
    if d.len() < 4 {
        Some(PacketParseError::NotEnoughBytes)
    } else if frame_cmd(d) != 0xE6 {
        Some(PacketParseError::WrongPacketCommand)
    } else if d.len() < 12 {
        Some(PacketParseError::NotEnoughBytes)
    } else if d[8] > 11 {
        Some(PacketParseError::InvalidValue)
    } else if d.len() < 68 {
        Some(PacketParseError::NotEnoughBytes)
    } else {
        None
    }
}

/// The fields of a `LoginResponse` frame as parsing sees them: the three
/// bytes after the status code count as zeros.
pub open spec fn login_response_fields(d: Seq<u8>) -> Seq<u8> {
    d.subrange(4, 68).update(5, 0).update(6, 0).update(7, 0)
}

impl LoginResponse {
    /// The response the login server sends for `status`.
    pub fn by_status(status: AccountStatus, security_data: [u8; 40]) -> (r: LoginResponse)
        ensures
            r.flag == 0,
            r.status == status,
            r.tag == 0x00010000,
            r.guildcard == 0,
            r.team_id == 0,
            r.security_data == security_data,
            r.caps == 0x00000102,
    {
        LoginResponse {
            flag: 0,
            status,
            tag: 0x00010000,
            guildcard: 0,
            team_id: 0,
            security_data,
            caps: 0x00000102,
        }
    }

    /// The fields in wire order, 64 bytes.
    pub open spec fn body(&self) -> Seq<u8> {
        le32(self.flag) + status_bytes(self.status) + le32(self.tag) + le32(self.guildcard) + le32(
            self.team_id,
        ) + self.security_data@ + le32(self.caps)
    }
}

impl PSOPacket for LoginResponse {
    open spec fn command() -> u16 {
        0xE6
    }

    open spec fn wire(&self) -> Seq<u8> {
        login_frame(0xE6, self.body())
    }

    open spec fn decodes(data: Seq<u8>, r: Result<Self, PacketParseError>) -> bool {
        match r {
            Ok(p) => login_response_error(data) is None && p.body() == login_response_fields(data),
            Err(e) => login_response_error(data) == Some(e),
        }
    }

    open spec fn well_formed(data: Seq<u8>) -> bool {
        &&& login_response_error(data) is None
        &&& frame_len(data) == data.len()
        &&& data.len() == 68
        &&& data[9] == 0 && data[10] == 0 && data[11] == 0
    }

    open spec fn encodable(&self) -> bool {
        true
    }

    fn from_bytes(data: &Vec<u8>) -> (r: Result<Self, PacketParseError>) {
        let len = data.len();
        if len < 4 {
            return Err(PacketParseError::NotEnoughBytes);
        }
        if get_u16(data, 2) != 0xE6 {
            return Err(PacketParseError::WrongPacketCommand);
        }
        if len < 12 {
            return Err(PacketParseError::NotEnoughBytes);
        }
        let status = AccountStatus::from_le_bytes(get_array(data, 8))?;
        if len < 68 {
            return Err(PacketParseError::NotEnoughBytes);
        }
        let p = LoginResponse {
            flag: get_u32(data, 4),
            status,
            tag: get_u32(data, 12),
            guildcard: get_u32(data, 16),
            team_id: get_u32(data, 20),
            security_data: get_array(data, 24),
            caps: get_u32(data, 64),
        };
        assert(p.body() =~= login_response_fields(data@));
        Ok(p)
    }

    fn as_bytes(&self) -> (r: Vec<u8>) {
        let mut buf: Vec<u8> = Vec::new();
        put_u16(&mut buf, 68);
        put_u16(&mut buf, 0xE6);
        put_u32(&mut buf, self.flag);
        put_bytes(&mut buf, &self.status.to_le_bytes());
        put_u32(&mut buf, self.tag);
        put_u32(&mut buf, self.guildcard);
        put_u32(&mut buf, self.team_id);
        put_bytes(&mut buf, &self.security_data);
        put_u32(&mut buf, self.caps);
        assert(buf@ =~= self.wire());
        buf
    }

    proof fn lemma_reencode(data: Seq<u8>, p: Self) {
        assert(login_response_fields(data) =~= data.subrange(4, 68));
        lemma_login_frame_of(data, 0xE6, 64);
    }

    proof fn lemma_wrong_command(data: Seq<u8>, r: Result<Self, PacketParseError>) {
    }

    proof fn lemma_truncated(data: Seq<u8>, k: int, r: Result<Self, PacketParseError>) {
        if k >= 4 {
            lemma_frame_prefix(data, k);
        }
    }
}

/// Parsing what a `LoginResponse` serializes to gives it back.
#[verifier::spinoff_prover]
pub proof fn lemma_login_response_round_trip(v: LoginResponse, r: Result<LoginResponse, PacketParseError>)
    requires
        LoginResponse::decodes(v.wire(), r),
    ensures
        r == Ok::<LoginResponse, PacketParseError>(v),
{
    lemma_login_frame(0xE6, v.body());
    let w = v.wire();
    assert(w[8] == status_code(v.status));
    assert(login_response_fields(w) =~= v.body());
    if let Ok(p) = r {
        let (a, b) = (p.body(), v.body());
        assert(a.subrange(0, 4) =~= le32(p.flag) && b.subrange(0, 4) =~= le32(v.flag));
        assert(a[4] == status_code(p.status) && b[4] == status_code(v.status));
        assert(a.subrange(8, 12) =~= le32(p.tag) && b.subrange(8, 12) =~= le32(v.tag));
        assert(a.subrange(12, 16) =~= le32(p.guildcard) && b.subrange(12, 16) =~= le32(v.guildcard));
        assert(a.subrange(16, 20) =~= le32(p.team_id) && b.subrange(16, 20) =~= le32(v.team_id));
        assert(a.subrange(20, 60) =~= p.security_data@ && b.subrange(20, 60) =~= v.security_data@);
        assert(a.subrange(60, 64) =~= le32(p.caps) && b.subrange(60, 64) =~= le32(v.caps));
        lemma_le32(p.flag);
        lemma_le32(v.flag);
        lemma_le32(p.tag);
        lemma_le32(v.tag);
        lemma_le32(p.guildcard);
        lemma_le32(v.guildcard);
        lemma_le32(p.team_id);
        lemma_le32(v.team_id);
        lemma_le32(p.caps);
        lemma_le32(v.caps);
        lemma_status_code_injective(p.status, v.status);
        assert(p.security_data =~= v.security_data);
    }
}

} // verus!
