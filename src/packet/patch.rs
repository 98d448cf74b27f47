//! Records of the patch server exchange (patch dialect).
use vstd::prelude::*;

use crate::codec::{
    check_patch_frame, check_patch_header, fit, get_array, get_u16, get_u32, le16, le32,
    lemma_le16, lemma_le32, lemma_patch_frame, lemma_peel, lemma_patch_frame_of, lemma_patch_frame_padded,
    pad_len, padding_for, patch_frame, patch_frame_error, patch_header_error, put_bytes,
    put_prefix, put_u16, put_u32, put_zeros, text_field, u32_le, zeros,
};
use crate::text::{
    decode_text, encode_utf16, lemma_units_le_of, lemma_units_of_le, put_units, units_le,
    units_of, utf16_lossy, utf16_of,
};
use vstd::string::{StringExecFns, StringSliceAdditionalSpecFns};
use crate::{PSOPacket, PacketParseError};

verus! {

/// Greeting from the patch server, carrying the two cipher seeds.
#[derive(Debug, Clone, Copy, PartialEq, Eq)]
pub struct PatchWelcome {
    pub copyright: [u8; 44],
    pub padding: [u8; 20],
    pub server_key: u32,
    pub client_key: u32,
}

impl PatchWelcome {
    /// The fields in wire order, 72 bytes.
    pub open spec fn body(&self) -> Seq<u8> {
        self.copyright@ + self.padding@ + le32(self.server_key) + le32(self.client_key)
    }
}

impl PSOPacket for PatchWelcome {
    open spec fn command() -> u16 {
        0x02
    }

    open spec fn wire(&self) -> Seq<u8> {
        patch_frame(0x02, self.body())
    }

    open spec fn decodes(data: Seq<u8>, r: Result<Self, PacketParseError>) -> bool {
        match r {
            Ok(p) => patch_frame_error(data, 0x02, 72) is None && p.body() == data.subrange(4, 76),
            Err(e) => patch_frame_error(data, 0x02, 72) == Some(e),
        }
    }

    open spec fn well_formed(data: Seq<u8>) -> bool {
        patch_frame_error(data, 0x02, 72) is None
    }

    open spec fn encodable(&self) -> bool {
        true
    }

    fn from_bytes(data: &Vec<u8>) -> (r: Result<Self, PacketParseError>) {
        check_patch_frame(data, 0x02, 72)?;
        let p = PatchWelcome {
            copyright: get_array(data, 4),
            padding: get_array(data, 48),
            server_key: get_u32(data, 68),
            client_key: get_u32(data, 72),
        };
        assert(p.body() =~= data@.subrange(4, 76));
        Ok(p)
    }

    fn as_bytes(&self) -> (r: Vec<u8>) {
        let mut buf: Vec<u8> = Vec::new();
        put_u16(&mut buf, 76);
        put_u16(&mut buf, 0x02);
        put_bytes(&mut buf, &self.copyright);
        put_bytes(&mut buf, &self.padding);
        put_u32(&mut buf, self.server_key);
        put_u32(&mut buf, self.client_key);
        assert(buf@ =~= self.wire());
        buf
    }

    proof fn lemma_reencode(data: Seq<u8>, p: Self) {
        lemma_patch_frame_of(data, 0x02, 72);
    }

    proof fn lemma_wrong_command(data: Seq<u8>, r: Result<Self, PacketParseError>) {
    }

    proof fn lemma_truncated(data: Seq<u8>, k: int, r: Result<Self, PacketParseError>) {
    }
}

/// Parsing what a `PatchWelcome` serializes to gives it back.
pub proof fn lemma_patch_welcome_round_trip(v: PatchWelcome, r: Result<PatchWelcome, PacketParseError>)
    requires
        PatchWelcome::decodes(v.wire(), r),
    ensures
        r == Ok::<PatchWelcome, PacketParseError>(v),
{
    lemma_patch_frame(0x02, v.body());
    if let Ok(p) = r {
        lemma_peel(p.copyright@ + p.padding@ + le32(p.server_key), le32(p.client_key), v.copyright@ + v.padding@ + le32(v.server_key), le32(v.client_key));
        lemma_peel(p.copyright@ + p.padding@, le32(p.server_key), v.copyright@ + v.padding@, le32(v.server_key));
        lemma_peel(p.copyright@, p.padding@, v.copyright@, v.padding@);
        assert(p.copyright =~= v.copyright);
        assert(p.padding =~= v.padding);
        lemma_le32(p.server_key);
        lemma_le32(v.server_key);
        lemma_le32(p.client_key);
        lemma_le32(v.client_key);
    }
}

/// The client's answer to `PatchWelcome`.
#[derive(Debug, Clone, Copy, PartialEq, Eq)]
pub struct PatchWelcomeReply {
}

impl PatchWelcomeReply {
    /// The fields in wire order, 0 bytes.
    pub open spec fn body(&self) -> Seq<u8> {
        Seq::empty()
    }
}

impl PSOPacket for PatchWelcomeReply {
    open spec fn command() -> u16 {
        0x02
    }

    open spec fn wire(&self) -> Seq<u8> {
        patch_frame(0x02, self.body())
    }

    open spec fn decodes(data: Seq<u8>, r: Result<Self, PacketParseError>) -> bool {
        match r {
            Ok(p) => patch_frame_error(data, 0x02, 0) is None && p.body() == data.subrange(4, 4),
            Err(e) => patch_frame_error(data, 0x02, 0) == Some(e),
        }
    }

    open spec fn well_formed(data: Seq<u8>) -> bool {
        patch_frame_error(data, 0x02, 0) is None
    }

    open spec fn encodable(&self) -> bool {
        true
    }

    fn from_bytes(data: &Vec<u8>) -> (r: Result<Self, PacketParseError>) {
        check_patch_frame(data, 0x02, 0)?;
        let p = PatchWelcomeReply {};
        assert(p.body() =~= data@.subrange(4, 4));
        Ok(p)
    }

    fn as_bytes(&self) -> (r: Vec<u8>) {
        let mut buf: Vec<u8> = Vec::new();
        put_u16(&mut buf, 4);
        put_u16(&mut buf, 0x02);
        assert(buf@ =~= self.wire());
        buf
    }

    proof fn lemma_reencode(data: Seq<u8>, p: Self) {
        lemma_patch_frame_of(data, 0x02, 0);
    }

    proof fn lemma_wrong_command(data: Seq<u8>, r: Result<Self, PacketParseError>) {
    }

    proof fn lemma_truncated(data: Seq<u8>, k: int, r: Result<Self, PacketParseError>) {
    }
}

/// Parsing what a `PatchWelcomeReply` serializes to gives it back.
pub proof fn lemma_patch_welcome_reply_round_trip(v: PatchWelcomeReply, r: Result<PatchWelcomeReply, PacketParseError>)
    requires
        PatchWelcomeReply::decodes(v.wire(), r),
    ensures
        r == Ok::<PatchWelcomeReply, PacketParseError>(v),
{
    lemma_patch_frame(0x02, v.body());
}

/// Asks the client for its credentials.
#[derive(Debug, Clone, Copy, PartialEq, Eq)]
pub struct RequestLogin {
}

impl RequestLogin {
    /// The fields in wire order, 0 bytes.
    pub open spec fn body(&self) -> Seq<u8> {
        Seq::empty()
    }
}

impl PSOPacket for RequestLogin {
    open spec fn command() -> u16 {
        0x04
    }

    open spec fn wire(&self) -> Seq<u8> {
        patch_frame(0x04, self.body())
    }

    open spec fn decodes(data: Seq<u8>, r: Result<Self, PacketParseError>) -> bool {
        match r {
            Ok(p) => patch_frame_error(data, 0x04, 0) is None && p.body() == data.subrange(4, 4),
            Err(e) => patch_frame_error(data, 0x04, 0) == Some(e),
        }
    }

    open spec fn well_formed(data: Seq<u8>) -> bool {
        patch_frame_error(data, 0x04, 0) is None
    }

    open spec fn encodable(&self) -> bool {
        true
    }

    fn from_bytes(data: &Vec<u8>) -> (r: Result<Self, PacketParseError>) {
        check_patch_frame(data, 0x04, 0)?;
        let p = RequestLogin {};
        assert(p.body() =~= data@.subrange(4, 4));
        Ok(p)
    }

    fn as_bytes(&self) -> (r: Vec<u8>) {
        let mut buf: Vec<u8> = Vec::new();
        put_u16(&mut buf, 4);
        put_u16(&mut buf, 0x04);
        assert(buf@ =~= self.wire());
        buf
    }

    proof fn lemma_reencode(data: Seq<u8>, p: Self) {
        lemma_patch_frame_of(data, 0x04, 0);
    }

    proof fn lemma_wrong_command(data: Seq<u8>, r: Result<Self, PacketParseError>) {
    }

    proof fn lemma_truncated(data: Seq<u8>, k: int, r: Result<Self, PacketParseError>) {
    }
}

/// Parsing what a `RequestLogin` serializes to gives it back.
pub proof fn lemma_request_login_round_trip(v: RequestLogin, r: Result<RequestLogin, PacketParseError>)
    requires
        RequestLogin::decodes(v.wire(), r),
    ensures
        r == Ok::<RequestLogin, PacketParseError>(v),
{
    lemma_patch_frame(0x04, v.body());
}

/// The client's credentials.
#[derive(Debug, Clone, Copy, PartialEq, Eq)]
pub struct LoginReply {
    pub unused: [u8; 12],
    pub username: [u8; 16],
    pub password: [u8; 16],
    pub unused2: [u8; 64],
}

impl LoginReply {
    /// The fields in wire order, 108 bytes.
    pub open spec fn body(&self) -> Seq<u8> {
        self.unused@ + self.username@ + self.password@ + self.unused2@
    }
}

impl PSOPacket for LoginReply {
    open spec fn command() -> u16 {
        0x04
    }

    open spec fn wire(&self) -> Seq<u8> {
        patch_frame(0x04, self.body())
    }

    open spec fn decodes(data: Seq<u8>, r: Result<Self, PacketParseError>) -> bool {
        match r {
            Ok(p) => patch_frame_error(data, 0x04, 108) is None && p.body() == data.subrange(4, 112),
            Err(e) => patch_frame_error(data, 0x04, 108) == Some(e),
        }
    }

    open spec fn well_formed(data: Seq<u8>) -> bool {
        patch_frame_error(data, 0x04, 108) is None
    }

    open spec fn encodable(&self) -> bool {
        true
    }

    fn from_bytes(data: &Vec<u8>) -> (r: Result<Self, PacketParseError>) {
        check_patch_frame(data, 0x04, 108)?;
        let p = LoginReply {
            unused: get_array(data, 4),
            username: get_array(data, 16),
            password: get_array(data, 32),
            unused2: get_array(data, 48),
        };
        assert(p.body() =~= data@.subrange(4, 112));
        Ok(p)
    }

    fn as_bytes(&self) -> (r: Vec<u8>) {
        let mut buf: Vec<u8> = Vec::new();
        put_u16(&mut buf, 112);
        put_u16(&mut buf, 0x04);
        put_bytes(&mut buf, &self.unused);
        put_bytes(&mut buf, &self.username);
        put_bytes(&mut buf, &self.password);
        put_bytes(&mut buf, &self.unused2);
        assert(buf@ =~= self.wire());
        buf
    }

    proof fn lemma_reencode(data: Seq<u8>, p: Self) {
        lemma_patch_frame_of(data, 0x04, 108);
    }

    proof fn lemma_wrong_command(data: Seq<u8>, r: Result<Self, PacketParseError>) {
    }

    proof fn lemma_truncated(data: Seq<u8>, k: int, r: Result<Self, PacketParseError>) {
    }
}

/// Parsing what a `LoginReply` serializes to gives it back.
pub proof fn lemma_login_reply_round_trip(v: LoginReply, r: Result<LoginReply, PacketParseError>)
    requires
        LoginReply::decodes(v.wire(), r),
    ensures
        r == Ok::<LoginReply, PacketParseError>(v),
{
    lemma_patch_frame(0x04, v.body());
    if let Ok(p) = r {
        lemma_peel(p.unused@ + p.username@ + p.password@, p.unused2@, v.unused@ + v.username@ + v.password@, v.unused2@);
        lemma_peel(p.unused@ + p.username@, p.password@, v.unused@ + v.username@, v.password@);
        lemma_peel(p.unused@, p.username@, v.unused@, v.username@);
        assert(p.unused =~= v.unused);
        assert(p.username =~= v.username);
        assert(p.password =~= v.password);
        assert(p.unused2 =~= v.unused2);
    }
}

/// Announces the file whose chunks follow.
#[derive(Debug, Clone, Copy, PartialEq, Eq)]
pub struct StartFileSend {
    pub id: u32,
    pub size: u32,
    pub filename: [u8; 48],
}

impl StartFileSend {
    /// The fields in wire order, 56 bytes.
    pub open spec fn body(&self) -> Seq<u8> {
        le32(self.id) + le32(self.size) + self.filename@
    }
}

impl PSOPacket for StartFileSend {
    open spec fn command() -> u16 {
        0x06
    }

    open spec fn wire(&self) -> Seq<u8> {
        patch_frame(0x06, self.body())
    }

    open spec fn decodes(data: Seq<u8>, r: Result<Self, PacketParseError>) -> bool {
        match r {
            Ok(p) => patch_frame_error(data, 0x06, 56) is None && p.body() == data.subrange(4, 60),
            Err(e) => patch_frame_error(data, 0x06, 56) == Some(e),
        }
    }

    open spec fn well_formed(data: Seq<u8>) -> bool {
        patch_frame_error(data, 0x06, 56) is None
    }

    open spec fn encodable(&self) -> bool {
        true
    }

    fn from_bytes(data: &Vec<u8>) -> (r: Result<Self, PacketParseError>) {
        check_patch_frame(data, 0x06, 56)?;
        let p = StartFileSend {
            id: get_u32(data, 4),
            size: get_u32(data, 8),
            filename: get_array(data, 12),
        };
        assert(p.body() =~= data@.subrange(4, 60));
        Ok(p)
    }

    fn as_bytes(&self) -> (r: Vec<u8>) {
        let mut buf: Vec<u8> = Vec::new();
        put_u16(&mut buf, 60);
        put_u16(&mut buf, 0x06);
        put_u32(&mut buf, self.id);
        put_u32(&mut buf, self.size);
        put_bytes(&mut buf, &self.filename);
        assert(buf@ =~= self.wire());
        buf
    }

    proof fn lemma_reencode(data: Seq<u8>, p: Self) {
        lemma_patch_frame_of(data, 0x06, 56);
    }

    proof fn lemma_wrong_command(data: Seq<u8>, r: Result<Self, PacketParseError>) {
    }

    proof fn lemma_truncated(data: Seq<u8>, k: int, r: Result<Self, PacketParseError>) {
    }
}

/// Parsing what a `StartFileSend` serializes to gives it back.
pub proof fn lemma_start_file_send_round_trip(v: StartFileSend, r: Result<StartFileSend, PacketParseError>)
    requires
        StartFileSend::decodes(v.wire(), r),
    ensures
        r == Ok::<StartFileSend, PacketParseError>(v),
{
    lemma_patch_frame(0x06, v.body());
    if let Ok(p) = r {
        lemma_peel(le32(p.id) + le32(p.size), p.filename@, le32(v.id) + le32(v.size), v.filename@);
        lemma_peel(le32(p.id), le32(p.size), le32(v.id), le32(v.size));
        lemma_le32(p.id);
        lemma_le32(v.id);
        lemma_le32(p.size);
        lemma_le32(v.size);
        assert(p.filename =~= v.filename);
    }
}

/// Ends the chunks of one file.
#[derive(Debug, Clone, Copy, PartialEq, Eq)]
pub struct EndFileSend {
    pub padding: u32,
}

impl EndFileSend {
    /// The fields in wire order, 4 bytes.
    pub open spec fn body(&self) -> Seq<u8> {
        le32(self.padding)
    }
}

impl PSOPacket for EndFileSend {
    open spec fn command() -> u16 {
        0x08
    }

    open spec fn wire(&self) -> Seq<u8> {
        patch_frame(0x08, self.body())
    }

    open spec fn decodes(data: Seq<u8>, r: Result<Self, PacketParseError>) -> bool {
        match r {
            Ok(p) => patch_frame_error(data, 0x08, 4) is None && p.body() == data.subrange(4, 8),
            Err(e) => patch_frame_error(data, 0x08, 4) == Some(e),
        }
    }

    open spec fn well_formed(data: Seq<u8>) -> bool {
        patch_frame_error(data, 0x08, 4) is None
    }

    open spec fn encodable(&self) -> bool {
        true
    }

    fn from_bytes(data: &Vec<u8>) -> (r: Result<Self, PacketParseError>) {
        check_patch_frame(data, 0x08, 4)?;
        let p = EndFileSend {
            padding: get_u32(data, 4),
        };
        assert(p.body() =~= data@.subrange(4, 8));
        Ok(p)
    }

    fn as_bytes(&self) -> (r: Vec<u8>) {
        let mut buf: Vec<u8> = Vec::new();
        put_u16(&mut buf, 8);
        put_u16(&mut buf, 0x08);
        put_u32(&mut buf, self.padding);
        assert(buf@ =~= self.wire());
        buf
    }

    proof fn lemma_reencode(data: Seq<u8>, p: Self) {
        lemma_patch_frame_of(data, 0x08, 4);
    }

    proof fn lemma_wrong_command(data: Seq<u8>, r: Result<Self, PacketParseError>) {
    }

    proof fn lemma_truncated(data: Seq<u8>, k: int, r: Result<Self, PacketParseError>) {
    }
}

/// Parsing what a `EndFileSend` serializes to gives it back.
pub proof fn lemma_end_file_send_round_trip(v: EndFileSend, r: Result<EndFileSend, PacketParseError>)
    requires
        EndFileSend::decodes(v.wire(), r),
    ensures
        r == Ok::<EndFileSend, PacketParseError>(v),
{
    lemma_patch_frame(0x08, v.body());
    if let Ok(p) = r {
        lemma_le32(p.padding);
        lemma_le32(v.padding);
    }
}

/// Opens the list of files to check.
#[derive(Debug, Clone, Copy, PartialEq, Eq)]
pub struct PatchStartList {
}

impl PatchStartList {
    /// The fields in wire order, 0 bytes.
    pub open spec fn body(&self) -> Seq<u8> {
        Seq::empty()
    }
}

impl PSOPacket for PatchStartList {
    open spec fn command() -> u16 {
        0x0B
    }

    open spec fn wire(&self) -> Seq<u8> {
        patch_frame(0x0B, self.body())
    }

    open spec fn decodes(data: Seq<u8>, r: Result<Self, PacketParseError>) -> bool {
        match r {
            Ok(p) => patch_frame_error(data, 0x0B, 0) is None && p.body() == data.subrange(4, 4),
            Err(e) => patch_frame_error(data, 0x0B, 0) == Some(e),
        }
    }

    open spec fn well_formed(data: Seq<u8>) -> bool {
        patch_frame_error(data, 0x0B, 0) is None
    }

    open spec fn encodable(&self) -> bool {
        true
    }

    fn from_bytes(data: &Vec<u8>) -> (r: Result<Self, PacketParseError>) {
        check_patch_frame(data, 0x0B, 0)?;
        let p = PatchStartList {};
        assert(p.body() =~= data@.subrange(4, 4));
        Ok(p)
    }

    fn as_bytes(&self) -> (r: Vec<u8>) {
        let mut buf: Vec<u8> = Vec::new();
        put_u16(&mut buf, 4);
        put_u16(&mut buf, 0x0B);
        assert(buf@ =~= self.wire());
        buf
    }

    proof fn lemma_reencode(data: Seq<u8>, p: Self) {
        lemma_patch_frame_of(data, 0x0B, 0);
    }

    proof fn lemma_wrong_command(data: Seq<u8>, r: Result<Self, PacketParseError>) {
    }

    proof fn lemma_truncated(data: Seq<u8>, k: int, r: Result<Self, PacketParseError>) {
    }
}

/// Parsing what a `PatchStartList` serializes to gives it back.
pub proof fn lemma_patch_start_list_round_trip(v: PatchStartList, r: Result<PatchStartList, PacketParseError>)
    requires
        PatchStartList::decodes(v.wire(), r),
    ensures
        r == Ok::<PatchStartList, PacketParseError>(v),
{
    lemma_patch_frame(0x0B, v.body());
}

/// Enters a directory of the client's install.
#[derive(Debug, Clone, Copy, PartialEq, Eq)]
pub struct ChangeDirectory {
    pub dirname: [u8; 64],
}

impl ChangeDirectory {
    /// The fields in wire order, 64 bytes.
    pub open spec fn body(&self) -> Seq<u8> {
        self.dirname@
    }
}

impl PSOPacket for ChangeDirectory {
    open spec fn command() -> u16 {
        0x09
    }

    open spec fn wire(&self) -> Seq<u8> {
        patch_frame(0x09, self.body())
    }

    open spec fn decodes(data: Seq<u8>, r: Result<Self, PacketParseError>) -> bool {
        match r {
            Ok(p) => patch_frame_error(data, 0x09, 64) is None && p.body() == data.subrange(4, 68),
            Err(e) => patch_frame_error(data, 0x09, 64) == Some(e),
        }
    }

    open spec fn well_formed(data: Seq<u8>) -> bool {
        patch_frame_error(data, 0x09, 64) is None
    }

    open spec fn encodable(&self) -> bool {
        true
    }

    fn from_bytes(data: &Vec<u8>) -> (r: Result<Self, PacketParseError>) {
        check_patch_frame(data, 0x09, 64)?;
        let p = ChangeDirectory {
            dirname: get_array(data, 4),
        };
        assert(p.body() =~= data@.subrange(4, 68));
        Ok(p)
    }

    fn as_bytes(&self) -> (r: Vec<u8>) {
        let mut buf: Vec<u8> = Vec::new();
        put_u16(&mut buf, 68);
        put_u16(&mut buf, 0x09);
        put_bytes(&mut buf, &self.dirname);
        assert(buf@ =~= self.wire());
        buf
    }

    proof fn lemma_reencode(data: Seq<u8>, p: Self) {
        lemma_patch_frame_of(data, 0x09, 64);
    }

    proof fn lemma_wrong_command(data: Seq<u8>, r: Result<Self, PacketParseError>) {
    }

    proof fn lemma_truncated(data: Seq<u8>, k: int, r: Result<Self, PacketParseError>) {
    }
}

/// Parsing what a `ChangeDirectory` serializes to gives it back.
pub proof fn lemma_change_directory_round_trip(v: ChangeDirectory, r: Result<ChangeDirectory, PacketParseError>)
    requires
        ChangeDirectory::decodes(v.wire(), r),
    ensures
        r == Ok::<ChangeDirectory, PacketParseError>(v),
{
    lemma_patch_frame(0x09, v.body());
    if let Ok(p) = r {
        assert(p.dirname =~= v.dirname);
    }
}

/// Leaves the current directory.
#[derive(Debug, Clone, Copy, PartialEq, Eq)]
pub struct UpOneDirectory {
}

impl UpOneDirectory {
    /// The fields in wire order, 0 bytes.
    pub open spec fn body(&self) -> Seq<u8> {
        Seq::empty()
    }
}

impl PSOPacket for UpOneDirectory {
    open spec fn command() -> u16 {
        0x0A
    }

    open spec fn wire(&self) -> Seq<u8> {
        patch_frame(0x0A, self.body())
    }

    open spec fn decodes(data: Seq<u8>, r: Result<Self, PacketParseError>) -> bool {
        match r {
            Ok(p) => patch_frame_error(data, 0x0A, 0) is None && p.body() == data.subrange(4, 4),
            Err(e) => patch_frame_error(data, 0x0A, 0) == Some(e),
        }
    }

    open spec fn well_formed(data: Seq<u8>) -> bool {
        patch_frame_error(data, 0x0A, 0) is None
    }

    open spec fn encodable(&self) -> bool {
        true
    }

    fn from_bytes(data: &Vec<u8>) -> (r: Result<Self, PacketParseError>) {
        check_patch_frame(data, 0x0A, 0)?;
        let p = UpOneDirectory {};
        assert(p.body() =~= data@.subrange(4, 4));
        Ok(p)
    }

    fn as_bytes(&self) -> (r: Vec<u8>) {
        let mut buf: Vec<u8> = Vec::new();
        put_u16(&mut buf, 4);
        put_u16(&mut buf, 0x0A);
        assert(buf@ =~= self.wire());
        buf
    }

    proof fn lemma_reencode(data: Seq<u8>, p: Self) {
        lemma_patch_frame_of(data, 0x0A, 0);
    }

    proof fn lemma_wrong_command(data: Seq<u8>, r: Result<Self, PacketParseError>) {
    }

    proof fn lemma_truncated(data: Seq<u8>, k: int, r: Result<Self, PacketParseError>) {
    }
}

/// Parsing what a `UpOneDirectory` serializes to gives it back.
pub proof fn lemma_up_one_directory_round_trip(v: UpOneDirectory, r: Result<UpOneDirectory, PacketParseError>)
    requires
        UpOneDirectory::decodes(v.wire(), r),
    ensures
        r == Ok::<UpOneDirectory, PacketParseError>(v),
{
    lemma_patch_frame(0x0A, v.body());
}

/// Asks the client about one file.
#[derive(Debug, Clone, Copy, PartialEq, Eq)]
pub struct FileInfo {
    pub id: u32,
    pub filename: [u8; 32],
}

impl FileInfo {
    /// The fields in wire order, 36 bytes.
    pub open spec fn body(&self) -> Seq<u8> {
        le32(self.id) + self.filename@
    }
}

impl PSOPacket for FileInfo {
    open spec fn command() -> u16 {
        0x0C
    }

    open spec fn wire(&self) -> Seq<u8> {
        patch_frame(0x0C, self.body())
    }

    open spec fn decodes(data: Seq<u8>, r: Result<Self, PacketParseError>) -> bool {
        match r {
            Ok(p) => patch_frame_error(data, 0x0C, 36) is None && p.body() == data.subrange(4, 40),
            Err(e) => patch_frame_error(data, 0x0C, 36) == Some(e),
        }
    }

    open spec fn well_formed(data: Seq<u8>) -> bool {
        patch_frame_error(data, 0x0C, 36) is None
    }

    open spec fn encodable(&self) -> bool {
        true
    }

    fn from_bytes(data: &Vec<u8>) -> (r: Result<Self, PacketParseError>) {
        check_patch_frame(data, 0x0C, 36)?;
        let p = FileInfo {
            id: get_u32(data, 4),
            filename: get_array(data, 8),
        };
        assert(p.body() =~= data@.subrange(4, 40));
        Ok(p)
    }

    fn as_bytes(&self) -> (r: Vec<u8>) {
        let mut buf: Vec<u8> = Vec::new();
        put_u16(&mut buf, 40);
        put_u16(&mut buf, 0x0C);
        put_u32(&mut buf, self.id);
        put_bytes(&mut buf, &self.filename);
        assert(buf@ =~= self.wire());
        buf
    }

    proof fn lemma_reencode(data: Seq<u8>, p: Self) {
        lemma_patch_frame_of(data, 0x0C, 36);
    }

    proof fn lemma_wrong_command(data: Seq<u8>, r: Result<Self, PacketParseError>) {
    }

    proof fn lemma_truncated(data: Seq<u8>, k: int, r: Result<Self, PacketParseError>) {
    }
}

/// Parsing what a `FileInfo` serializes to gives it back.
pub proof fn lemma_file_info_round_trip(v: FileInfo, r: Result<FileInfo, PacketParseError>)
    requires
        FileInfo::decodes(v.wire(), r),
    ensures
        r == Ok::<FileInfo, PacketParseError>(v),
{
    lemma_patch_frame(0x0C, v.body());
    if let Ok(p) = r {
        lemma_peel(le32(p.id), p.filename@, le32(v.id), v.filename@);
        lemma_le32(p.id);
        lemma_le32(v.id);
        assert(p.filename =~= v.filename);
    }
}

/// Closes the list of files to check.
#[derive(Debug, Clone, Copy, PartialEq, Eq)]
pub struct PatchEndList {
}

impl PatchEndList {
    /// The fields in wire order, 0 bytes.
    pub open spec fn body(&self) -> Seq<u8> {
        Seq::empty()
    }
}

impl PSOPacket for PatchEndList {
    open spec fn command() -> u16 {
        0x0D
    }

    open spec fn wire(&self) -> Seq<u8> {
        patch_frame(0x0D, self.body())
    }

    open spec fn decodes(data: Seq<u8>, r: Result<Self, PacketParseError>) -> bool {
        match r {
            Ok(p) => patch_frame_error(data, 0x0D, 0) is None && p.body() == data.subrange(4, 4),
            Err(e) => patch_frame_error(data, 0x0D, 0) == Some(e),
        }
    }

    open spec fn well_formed(data: Seq<u8>) -> bool {
        patch_frame_error(data, 0x0D, 0) is None
    }

    open spec fn encodable(&self) -> bool {
        true
    }

    fn from_bytes(data: &Vec<u8>) -> (r: Result<Self, PacketParseError>) {
        check_patch_frame(data, 0x0D, 0)?;
        let p = PatchEndList {};
        assert(p.body() =~= data@.subrange(4, 4));
        Ok(p)
    }

    fn as_bytes(&self) -> (r: Vec<u8>) {
        let mut buf: Vec<u8> = Vec::new();
        put_u16(&mut buf, 4);
        put_u16(&mut buf, 0x0D);
        assert(buf@ =~= self.wire());
        buf
    }

    proof fn lemma_reencode(data: Seq<u8>, p: Self) {
        lemma_patch_frame_of(data, 0x0D, 0);
    }

    proof fn lemma_wrong_command(data: Seq<u8>, r: Result<Self, PacketParseError>) {
    }

    proof fn lemma_truncated(data: Seq<u8>, k: int, r: Result<Self, PacketParseError>) {
    }
}

/// Parsing what a `PatchEndList` serializes to gives it back.
pub proof fn lemma_patch_end_list_round_trip(v: PatchEndList, r: Result<PatchEndList, PacketParseError>)
    requires
        PatchEndList::decodes(v.wire(), r),
    ensures
        r == Ok::<PatchEndList, PacketParseError>(v),
{
    lemma_patch_frame(0x0D, v.body());
}

/// The client's checksum and size of one file.
#[derive(Debug, Clone, Copy, PartialEq, Eq)]
pub struct FileInfoReply {
    pub id: u32,
    pub checksum: u32,
    pub size: u32,
}

impl FileInfoReply {
    /// The fields in wire order, 12 bytes.
    pub open spec fn body(&self) -> Seq<u8> {
        le32(self.id) + le32(self.checksum) + le32(self.size)
    }
}

impl PSOPacket for FileInfoReply {
    open spec fn command() -> u16 {
        0x0F
    }

    open spec fn wire(&self) -> Seq<u8> {
        patch_frame(0x0F, self.body())
    }

    open spec fn decodes(data: Seq<u8>, r: Result<Self, PacketParseError>) -> bool {
        match r {
            Ok(p) => patch_frame_error(data, 0x0F, 12) is None && p.body() == data.subrange(4, 16),
            Err(e) => patch_frame_error(data, 0x0F, 12) == Some(e),
        }
    }

    open spec fn well_formed(data: Seq<u8>) -> bool {
        patch_frame_error(data, 0x0F, 12) is None
    }

    open spec fn encodable(&self) -> bool {
        true
    }

    fn from_bytes(data: &Vec<u8>) -> (r: Result<Self, PacketParseError>) {
        check_patch_frame(data, 0x0F, 12)?;
        let p = FileInfoReply {
            id: get_u32(data, 4),
            checksum: get_u32(data, 8),
            size: get_u32(data, 12),
        };
        assert(p.body() =~= data@.subrange(4, 16));
        Ok(p)
    }

    fn as_bytes(&self) -> (r: Vec<u8>) {
        let mut buf: Vec<u8> = Vec::new();
        put_u16(&mut buf, 16);
        put_u16(&mut buf, 0x0F);
        put_u32(&mut buf, self.id);
        put_u32(&mut buf, self.checksum);
        put_u32(&mut buf, self.size);
        assert(buf@ =~= self.wire());
        buf
    }

    proof fn lemma_reencode(data: Seq<u8>, p: Self) {
        lemma_patch_frame_of(data, 0x0F, 12);
    }

    proof fn lemma_wrong_command(data: Seq<u8>, r: Result<Self, PacketParseError>) {
    }

    proof fn lemma_truncated(data: Seq<u8>, k: int, r: Result<Self, PacketParseError>) {
    }
}

/// Parsing what a `FileInfoReply` serializes to gives it back.
pub proof fn lemma_file_info_reply_round_trip(v: FileInfoReply, r: Result<FileInfoReply, PacketParseError>)
    requires
        FileInfoReply::decodes(v.wire(), r),
    ensures
        r == Ok::<FileInfoReply, PacketParseError>(v),
{
    lemma_patch_frame(0x0F, v.body());
    if let Ok(p) = r {
        lemma_peel(le32(p.id) + le32(p.checksum), le32(p.size), le32(v.id) + le32(v.checksum), le32(v.size));
        lemma_peel(le32(p.id), le32(p.checksum), le32(v.id), le32(v.checksum));
        lemma_le32(p.id);
        lemma_le32(v.id);
        lemma_le32(p.checksum);
        lemma_le32(v.checksum);
        lemma_le32(p.size);
        lemma_le32(v.size);
    }
}

/// The client has answered for every file.
#[derive(Debug, Clone, Copy, PartialEq, Eq)]
pub struct FileInfoListEnd {
}

impl FileInfoListEnd {
    /// The fields in wire order, 0 bytes.
    pub open spec fn body(&self) -> Seq<u8> {
        Seq::empty()
    }
}

impl PSOPacket for FileInfoListEnd {
    open spec fn command() -> u16 {
        0x10
    }

    open spec fn wire(&self) -> Seq<u8> {
        patch_frame(0x10, self.body())
    }

    open spec fn decodes(data: Seq<u8>, r: Result<Self, PacketParseError>) -> bool {
        match r {
            Ok(p) => patch_frame_error(data, 0x10, 0) is None && p.body() == data.subrange(4, 4),
            Err(e) => patch_frame_error(data, 0x10, 0) == Some(e),
        }
    }

    open spec fn well_formed(data: Seq<u8>) -> bool {
        patch_frame_error(data, 0x10, 0) is None
    }

    open spec fn encodable(&self) -> bool {
        true
    }

    fn from_bytes(data: &Vec<u8>) -> (r: Result<Self, PacketParseError>) {
        check_patch_frame(data, 0x10, 0)?;
        let p = FileInfoListEnd {};
        assert(p.body() =~= data@.subrange(4, 4));
        Ok(p)
    }

    fn as_bytes(&self) -> (r: Vec<u8>) {
        let mut buf: Vec<u8> = Vec::new();
        put_u16(&mut buf, 4);
        put_u16(&mut buf, 0x10);
        assert(buf@ =~= self.wire());
        buf
    }

    proof fn lemma_reencode(data: Seq<u8>, p: Self) {
        lemma_patch_frame_of(data, 0x10, 0);
    }

    proof fn lemma_wrong_command(data: Seq<u8>, r: Result<Self, PacketParseError>) {
    }

    proof fn lemma_truncated(data: Seq<u8>, k: int, r: Result<Self, PacketParseError>) {
    }
}

/// Parsing what a `FileInfoListEnd` serializes to gives it back.
pub proof fn lemma_file_info_list_end_round_trip(v: FileInfoListEnd, r: Result<FileInfoListEnd, PacketParseError>)
    requires
        FileInfoListEnd::decodes(v.wire(), r),
    ensures
        r == Ok::<FileInfoListEnd, PacketParseError>(v),
{
    lemma_patch_frame(0x10, v.body());
}

/// How much the client is about to receive.
#[derive(Debug, Clone, Copy, PartialEq, Eq)]
pub struct FilesToPatchMetadata {
    pub data_size: u32,
    pub file_count: u32,
}

impl FilesToPatchMetadata {
    /// The fields in wire order, 8 bytes.
    pub open spec fn body(&self) -> Seq<u8> {
        le32(self.data_size) + le32(self.file_count)
    }
}

impl PSOPacket for FilesToPatchMetadata {
    open spec fn command() -> u16 {
        0x11
    }

    open spec fn wire(&self) -> Seq<u8> {
        patch_frame(0x11, self.body())
    }

    open spec fn decodes(data: Seq<u8>, r: Result<Self, PacketParseError>) -> bool {
        match r {
            Ok(p) => patch_frame_error(data, 0x11, 8) is None && p.body() == data.subrange(4, 12),
            Err(e) => patch_frame_error(data, 0x11, 8) == Some(e),
        }
    }

    open spec fn well_formed(data: Seq<u8>) -> bool {
        patch_frame_error(data, 0x11, 8) is None
    }

    open spec fn encodable(&self) -> bool {
        true
    }

    fn from_bytes(data: &Vec<u8>) -> (r: Result<Self, PacketParseError>) {
        check_patch_frame(data, 0x11, 8)?;
        let p = FilesToPatchMetadata {
            data_size: get_u32(data, 4),
            file_count: get_u32(data, 8),
        };
        assert(p.body() =~= data@.subrange(4, 12));
        Ok(p)
    }

    fn as_bytes(&self) -> (r: Vec<u8>) {
        let mut buf: Vec<u8> = Vec::new();
        put_u16(&mut buf, 12);
        put_u16(&mut buf, 0x11);
        put_u32(&mut buf, self.data_size);
        put_u32(&mut buf, self.file_count);
        assert(buf@ =~= self.wire());
        buf
    }

    proof fn lemma_reencode(data: Seq<u8>, p: Self) {
        lemma_patch_frame_of(data, 0x11, 8);
    }

    proof fn lemma_wrong_command(data: Seq<u8>, r: Result<Self, PacketParseError>) {
    }

    proof fn lemma_truncated(data: Seq<u8>, k: int, r: Result<Self, PacketParseError>) {
    }
}

/// Parsing what a `FilesToPatchMetadata` serializes to gives it back.
pub proof fn lemma_files_to_patch_metadata_round_trip(v: FilesToPatchMetadata, r: Result<FilesToPatchMetadata, PacketParseError>)
    requires
        FilesToPatchMetadata::decodes(v.wire(), r),
    ensures
        r == Ok::<FilesToPatchMetadata, PacketParseError>(v),
{
    lemma_patch_frame(0x11, v.body());
    if let Ok(p) = r {
        lemma_peel(le32(p.data_size), le32(p.file_count), le32(v.data_size), le32(v.file_count));
        lemma_le32(p.data_size);
        lemma_le32(v.data_size);
        lemma_le32(p.file_count);
        lemma_le32(v.file_count);
    }
}

/// Patching is over.
#[derive(Debug, Clone, Copy, PartialEq, Eq)]
pub struct FinalizePatching {
}

impl FinalizePatching {
    /// The fields in wire order, 0 bytes.
    pub open spec fn body(&self) -> Seq<u8> {
        Seq::empty()
    }
}

impl PSOPacket for FinalizePatching {
    open spec fn command() -> u16 {
        0x12
    }

    open spec fn wire(&self) -> Seq<u8> {
        patch_frame(0x12, self.body())
    }

    open spec fn decodes(data: Seq<u8>, r: Result<Self, PacketParseError>) -> bool {
        match r {
            Ok(p) => patch_frame_error(data, 0x12, 0) is None && p.body() == data.subrange(4, 4),
            Err(e) => patch_frame_error(data, 0x12, 0) == Some(e),
        }
    }

    open spec fn well_formed(data: Seq<u8>) -> bool {
        patch_frame_error(data, 0x12, 0) is None
    }

    open spec fn encodable(&self) -> bool {
        true
    }

    fn from_bytes(data: &Vec<u8>) -> (r: Result<Self, PacketParseError>) {
        check_patch_frame(data, 0x12, 0)?;
        let p = FinalizePatching {};
        assert(p.body() =~= data@.subrange(4, 4));
        Ok(p)
    }

    fn as_bytes(&self) -> (r: Vec<u8>) {
        let mut buf: Vec<u8> = Vec::new();
        put_u16(&mut buf, 4);
        put_u16(&mut buf, 0x12);
        assert(buf@ =~= self.wire());
        buf
    }

    proof fn lemma_reencode(data: Seq<u8>, p: Self) {
        lemma_patch_frame_of(data, 0x12, 0);
    }

    proof fn lemma_wrong_command(data: Seq<u8>, r: Result<Self, PacketParseError>) {
    }

    proof fn lemma_truncated(data: Seq<u8>, k: int, r: Result<Self, PacketParseError>) {
    }
}

/// Parsing what a `FinalizePatching` serializes to gives it back.
pub proof fn lemma_finalize_patching_round_trip(v: FinalizePatching, r: Result<FinalizePatching, PacketParseError>)
    requires
        FinalizePatching::decodes(v.wire(), r),
    ensures
        r == Ok::<FinalizePatching, PacketParseError>(v),
{
    lemma_patch_frame(0x12, v.body());
}

/// Sends the client on to another server.
#[derive(Debug, Clone, Copy, PartialEq, Eq)]
pub struct RedirectClient {
    pub ip: u32,
    pub port: u16,
    pub padding: u16,
}

impl RedirectClient {
    /// The fields in wire order, 8 bytes.
    pub open spec fn body(&self) -> Seq<u8> {
        le32(self.ip) + le16(self.port) + le16(self.padding)
    }
}

impl PSOPacket for RedirectClient {
    open spec fn command() -> u16 {
        0x14
    }

    open spec fn wire(&self) -> Seq<u8> {
        patch_frame(0x14, self.body())
    }

    open spec fn decodes(data: Seq<u8>, r: Result<Self, PacketParseError>) -> bool {
        match r {
            Ok(p) => patch_frame_error(data, 0x14, 8) is None && p.body() == data.subrange(4, 12),
            Err(e) => patch_frame_error(data, 0x14, 8) == Some(e),
        }
    }

    open spec fn well_formed(data: Seq<u8>) -> bool {
        patch_frame_error(data, 0x14, 8) is None
    }

    open spec fn encodable(&self) -> bool {
        true
    }

    fn from_bytes(data: &Vec<u8>) -> (r: Result<Self, PacketParseError>) {
        check_patch_frame(data, 0x14, 8)?;
        let p = RedirectClient {
            ip: get_u32(data, 4),
            port: get_u16(data, 8),
            padding: get_u16(data, 10),
        };
        assert(p.body() =~= data@.subrange(4, 12));
        Ok(p)
    }

    fn as_bytes(&self) -> (r: Vec<u8>) {
        let mut buf: Vec<u8> = Vec::new();
        put_u16(&mut buf, 12);
        put_u16(&mut buf, 0x14);
        put_u32(&mut buf, self.ip);
        put_u16(&mut buf, self.port);
        put_u16(&mut buf, self.padding);
        assert(buf@ =~= self.wire());
        buf
    }

    proof fn lemma_reencode(data: Seq<u8>, p: Self) {
        lemma_patch_frame_of(data, 0x14, 8);
    }

    proof fn lemma_wrong_command(data: Seq<u8>, r: Result<Self, PacketParseError>) {
    }

    proof fn lemma_truncated(data: Seq<u8>, k: int, r: Result<Self, PacketParseError>) {
    }
}

/// Parsing what a `RedirectClient` serializes to gives it back.
pub proof fn lemma_redirect_client_round_trip(v: RedirectClient, r: Result<RedirectClient, PacketParseError>)
    requires
        RedirectClient::decodes(v.wire(), r),
    ensures
        r == Ok::<RedirectClient, PacketParseError>(v),
{
    lemma_patch_frame(0x14, v.body());
    if let Ok(p) = r {
        lemma_peel(le32(p.ip) + le16(p.port), le16(p.padding), le32(v.ip) + le16(v.port), le16(v.padding));
        lemma_peel(le32(p.ip), le16(p.port), le32(v.ip), le16(v.port));
        lemma_le32(p.ip);
        lemma_le32(v.ip);
        lemma_le16(p.port);
        lemma_le16(v.port);
        lemma_le16(p.padding);
        lemma_le16(v.padding);
    }
}


/// Text of the copyright notice in `PatchWelcome`.
pub const PATCH_COPYRIGHT: &'static str = "Patch Server. Copyright SonicTeam, LTD. 2001";

/// Largest chunk of a file that one `FileSend` carries.
pub const PATCH_FILE_CHUNK_SIZE: u16 = 0x8000;

impl PatchWelcome {
    /// The greeting with the server's copyright notice and the two seeds.
    pub fn new(server_key: u32, client_key: u32) -> (r: PatchWelcome)
        ensures
            r.copyright@ == fit(PATCH_COPYRIGHT.spec_bytes(), 44),
            r.padding@ == zeros(20),
            r.server_key == server_key,
            r.client_key == client_key,
    {
        let r = PatchWelcome {
            copyright: text_field(PATCH_COPYRIGHT),
            padding: [0; 20],
            server_key,
            client_key,
        };
        assert(r.padding@ =~= zeros(20));
        r
    }
}

impl StartFileSend {
    /// Announces file `id` of `size` bytes; the name is cut to 48 bytes.
    pub fn new(filename: &str, size: u32, id: u32) -> (r: StartFileSend)
        ensures
            r.id == id,
            r.size == size,
            r.filename@ == fit(filename.spec_bytes(), 48),
    {
        StartFileSend { id, size, filename: text_field(filename) }
    }
}

impl EndFileSend {
    pub fn new() -> (r: EndFileSend)
        ensures
            r.padding == 0,
    {
        EndFileSend { padding: 0 }
    }
}

impl ChangeDirectory {
    /// Enters `dirname`, cut to 64 bytes.
    pub fn new(dirname: &str) -> (r: ChangeDirectory)
        ensures
            r.dirname@ == fit(dirname.spec_bytes(), 64),
    {
        ChangeDirectory { dirname: text_field(dirname) }
    }
}

impl FileInfo {
    /// Asks about file `id`; the name is cut to 32 bytes.
    pub fn new(filename: &str, id: u32) -> (r: FileInfo)
        ensures
            r.id == id,
            r.filename@ == fit(filename.spec_bytes(), 32),
    {
        FileInfo { id, filename: text_field(filename) }
    }
}

impl FilesToPatchMetadata {
    pub fn new(data_size: u32, file_count: u32) -> (r: FilesToPatchMetadata)
        ensures
            r.data_size == data_size,
            r.file_count == file_count,
    {
        FilesToPatchMetadata { data_size, file_count }
    }
}

impl RedirectClient {
    /// Redirects to `ip` and `port`.
    pub fn new(ip: u32, port: u16) -> (r: RedirectClient)
        ensures
            r.ip == ip,
            r.port == port,
            r.padding == 0,
    {
        RedirectClient { ip, port, padding: 0 }
    }
}

/// One chunk of a file. Only the first `chunk_size` bytes of `buffer` are
/// sent, followed by zeros up to a multiple of four bytes.
#[derive(Debug, Clone, Copy, PartialEq, Eq)]
pub struct FileSend {
    pub chunk_num: u32,
    pub checksum: u32,
    pub chunk_size: u32,
    pub buffer: [u8; 0x8000],
}

/// The chunk size a `FileSend` frame declares.
pub open spec fn declared_chunk(d: Seq<u8>) -> nat {
    u32_le(d.subrange(12, 16)) as nat
}

/// The error a `FileSend` frame gives, if any: a header error, fewer than
/// the three counters, a chunk larger than the buffer, a short chunk or
/// padding, or bytes left over.
pub open spec fn file_send_error(d: Seq<u8>) -> Option<PacketParseError> {
    let m = 12 + declared_chunk(d);
    if patch_header_error(d, 0x07) is Some {
        patch_header_error(d, 0x07)
    } else if d.len() < 16 {
        Some(PacketParseError::NotEnoughBytes)
    } else if declared_chunk(d) > 0x8000 {
        Some(PacketParseError::InvalidValue)
    } else if d.len() < 4 + m + pad_len(m) {
        Some(PacketParseError::NotEnoughBytes)
    } else if d.len() > 4 + m + pad_len(m) {
        Some(PacketParseError::DataStructNotLargeEnough((4 + m + pad_len(m)) as u64, d.len() as usize))
    } else {
        None
    }
}

impl FileSend {
    /// The counters and the sent part of the buffer, in wire order.
    pub open spec fn body(&self) -> Seq<u8> {
        le32(self.chunk_num) + le32(self.checksum) + le32(self.chunk_size) + self.buffer@.subrange(
            0,
            self.chunk_size as int,
        )
    }

    /// The part of the buffer past the chunk holds only zeros.
    pub open spec fn tail_clear(&self) -> bool {
        self.buffer@.subrange(self.chunk_size as int, 0x8000) == zeros((0x8000 - self.chunk_size) as nat)
    }
}

impl PSOPacket for FileSend {
    open spec fn command() -> u16 {
        0x07
    }

    open spec fn wire(&self) -> Seq<u8> {
        patch_frame(0x07, self.body())
    }

    open spec fn decodes(data: Seq<u8>, r: Result<Self, PacketParseError>) -> bool {
        match r {
            Ok(p) => {
                &&& file_send_error(data) is None
                &&& p.body() == data.subrange(4, 16 + declared_chunk(data) as int)
                &&& p.tail_clear()
            },
            Err(e) => file_send_error(data) == Some(e),
        }
    }

    open spec fn well_formed(data: Seq<u8>) -> bool {
        let m = 12 + declared_chunk(data);
        &&& file_send_error(data) is None
        &&& data.subrange(4 + m as int, data.len() as int) == zeros(pad_len(m))
    }

    open spec fn encodable(&self) -> bool {
        self.chunk_size <= 0x8000
    }

    fn from_bytes(data: &Vec<u8>) -> (r: Result<Self, PacketParseError>) {
        check_patch_header(data, 0x07)?;
        let len = data.len();
        if len < 16 {
            return Err(PacketParseError::NotEnoughBytes);
        }
        let chunk_num = get_u32(data, 4);
        let checksum = get_u32(data, 8);
        let chunk_size = get_u32(data, 12);
        if chunk_size > 0x8000 {
            return Err(PacketParseError::InvalidValue);
        }
        let n = chunk_size as usize;
        let end = 16 + n + padding_for(12 + n);
        if len < end {
            return Err(PacketParseError::NotEnoughBytes);
        }
        if len > end {
            return Err(PacketParseError::DataStructNotLargeEnough(end as u64, len));
        }
        let mut buffer = [0u8; 0x8000];
        let mut i: usize = 0;
        while i < n
            invariant
                n <= 0x8000,
                16 + n <= data@.len(),
                i <= n,
                forall|k: int| 0 <= k < i ==> buffer@[k] == data@[16 + k],
                forall|k: int| n <= k < 0x8000 ==> buffer@[k] == 0u8,
            decreases n - i,
        {
            buffer[i] = data[16 + i];
            i = i + 1;
        }
        let p = FileSend { chunk_num, checksum, chunk_size, buffer };
        assert(p.buffer@.subrange(0, n as int) =~= data@.subrange(16, 16 + n as int));
        assert(p.body() =~= data@.subrange(4, 16 + n as int));
        assert(p.buffer@.subrange(n as int, 0x8000) =~= zeros((0x8000 - n) as nat));
        Ok(p)
    }

    fn as_bytes(&self) -> (r: Vec<u8>) {
        let n = self.chunk_size as usize;
        let pad = padding_for(12 + n);
        let mut buf: Vec<u8> = Vec::new();
        put_u16(&mut buf, (16 + n + pad) as u16);
        put_u16(&mut buf, 0x07);
        put_u32(&mut buf, self.chunk_num);
        put_u32(&mut buf, self.checksum);
        put_u32(&mut buf, self.chunk_size);
        put_prefix(&mut buf, &self.buffer, n);
        put_zeros(&mut buf, pad);
        assert(buf@ =~= self.wire());
        buf
    }

    proof fn lemma_reencode(data: Seq<u8>, p: Self) {
        let m = 12 + declared_chunk(data);
        lemma_patch_frame_padded(data, 0x07, m);
    }

    proof fn lemma_wrong_command(data: Seq<u8>, r: Result<Self, PacketParseError>) {
    }

    proof fn lemma_truncated(data: Seq<u8>, k: int, r: Result<Self, PacketParseError>) {
    }
}

/// Parsing what a `FileSend` serializes to gives it back, when the buffer
/// holds nothing past the chunk (those bytes are not sent).
#[verifier::rlimit(50)]
#[verifier::spinoff_prover]
pub proof fn lemma_file_send_round_trip(v: FileSend, r: Result<FileSend, PacketParseError>)
    requires
        v.encodable(),
        v.tail_clear(),
        FileSend::decodes(v.wire(), r),
    ensures
        r == Ok::<FileSend, PacketParseError>(v),
{
    let m = 12 + v.chunk_size;
    lemma_patch_frame(0x07, v.body());
    let w = v.wire();
    assert(w.subrange(12, 16) =~= le32(v.chunk_size));
    lemma_le32(v.chunk_size);
    if let Ok(p) = r {
        let (a, b) = (p.body(), v.body());
        assert(a.subrange(0, 4) =~= le32(p.chunk_num) && b.subrange(0, 4) =~= le32(v.chunk_num));
        assert(a.subrange(4, 8) =~= le32(p.checksum) && b.subrange(4, 8) =~= le32(v.checksum));
        assert(a.subrange(8, 12) =~= le32(p.chunk_size) && b.subrange(8, 12) =~= le32(v.chunk_size));
        lemma_le32(p.chunk_num);
        lemma_le32(v.chunk_num);
        lemma_le32(p.checksum);
        lemma_le32(v.checksum);
        lemma_le32(p.chunk_size);
        let n = v.chunk_size as int;
        assert(a.subrange(12, 12 + n) =~= p.buffer@.subrange(0, n));
        assert(b.subrange(12, 12 + n) =~= v.buffer@.subrange(0, n));
        assert forall|i: int| 0 <= i < 0x8000 implies p.buffer@[i] == v.buffer@[i] by {
            if i < n {
                assert(p.buffer@.subrange(0, n)[i] == v.buffer@.subrange(0, n)[i]);
            } else {
                assert(p.buffer@.subrange(n, 0x8000)[i - n] == v.buffer@.subrange(n, 0x8000)[i - n]);
            }
        }
        assert(p.buffer =~= v.buffer);
    }
}

/// A message shown by the client. Its text is sent as UTF-16 and runs to
/// the end of the frame.
#[derive(Debug, Clone, PartialEq, Eq)]
pub struct Message {
    pub msg: String,
}

/// The error a `Message` frame gives, if any: a header error, or half a
/// code unit at the end.
pub open spec fn message_error(d: Seq<u8>) -> Option<PacketParseError> {
    if patch_header_error(d, 0x13) is Some {
        patch_header_error(d, 0x13)
    } else if (d.len() - 4) % 2 != 0 {
        Some(PacketParseError::NotEnoughBytes)
    } else {
        None
    }
}

impl Message {
    /// A message of the given text, with a terminating NUL added.
    pub fn new(msg: String) -> (r: Message)
        ensures
            r.msg@ == msg@.push('\0'),
    {
        let ghost text = msg@;
        let mut msg = msg;
        msg.append("\0");
        proof {
            reveal_strlit("\0");
            assert(msg@ =~= text.push('\0'));
        }
        Message { msg }
    }

    /// The text as little-endian UTF-16.
    pub open spec fn body(&self) -> Seq<u8> {
        units_le(utf16_of(self.msg@))
    }
}

impl PSOPacket for Message {
    open spec fn command() -> u16 {
        0x13
    }

    open spec fn wire(&self) -> Seq<u8> {
        patch_frame(0x13, self.body())
    }

    open spec fn decodes(data: Seq<u8>, r: Result<Self, PacketParseError>) -> bool {
        match r {
            Ok(p) => {
                let u = units_of(data.subrange(4, data.len() as int));
                &&& message_error(data) is None
                &&& p.msg@ == utf16_lossy(u)
                &&& forall|t: Seq<char>| utf16_of(t) == u ==> p.msg@ == t
            },
            Err(e) => message_error(data) == Some(e),
        }
    }

    open spec fn well_formed(data: Seq<u8>) -> bool {
        &&& message_error(data) is None
        &&& data.len() % 4 == 0
        &&& exists|t: Seq<char>| utf16_of(t) == units_of(data.subrange(4, data.len() as int))
    }

    open spec fn encodable(&self) -> bool {
        4 + 2 * utf16_of(self.msg@).len() + 2 <= 0xffff
    }

    fn from_bytes(data: &Vec<u8>) -> (r: Result<Self, PacketParseError>) {
        check_patch_header(data, 0x13)?;
        let len = data.len();
        if (len - 4) % 2 != 0 {
            return Err(PacketParseError::NotEnoughBytes);
        }
        Ok(Message { msg: decode_text(data, 4) })
    }

    fn as_bytes(&self) -> (r: Vec<u8>) {
        let units = encode_utf16(self.msg.as_str());
        proof {
            lemma_units_of_le(units@);
        }
        let mut body: Vec<u8> = Vec::new();
        put_units(&mut body, units.as_slice());
        let pad = padding_for(body.len());
        put_zeros(&mut body, pad);
        let mut buf: Vec<u8> = Vec::new();
        put_u16(&mut buf, (body.len() + 4) as u16);
        put_u16(&mut buf, 0x13);
        buf.append(&mut body);
        assert(buf@ =~= self.wire());
        buf
    }

    #[verifier::spinoff_prover]
    proof fn lemma_reencode(data: Seq<u8>, p: Self) {
        let b = data.subrange(4, data.len() as int);
        let t = choose|t: Seq<char>| utf16_of(t) == units_of(b);
        assert(p.msg@ == t);
        assert(b.len() % 4 == 0);
        lemma_units_le_of(b);
        assert(p.body() == b);
        assert(pad_len(b.len()) == 0);
        assert(data.subrange(4 + b.len() as int, data.len() as int) =~= zeros(0));
        lemma_patch_frame_padded(data, 0x13, b.len());
    }

    proof fn lemma_wrong_command(data: Seq<u8>, r: Result<Self, PacketParseError>) {
    }

    proof fn lemma_truncated(data: Seq<u8>, k: int, r: Result<Self, PacketParseError>) {
    }
}

/// Parsing what a `Message` serializes to gives its text back, with one NUL
/// more when the text has an odd number of code units (the zero padding is
/// read as text too).
#[verifier::rlimit(50)]
#[verifier::spinoff_prover]
pub proof fn lemma_message_round_trip(v: Message, r: Result<Message, PacketParseError>)
    requires
        v.encodable(),
        Message::decodes(v.wire(), r),
    ensures
        r matches Ok(p) && p.msg@ == (if utf16_of(v.msg@).len() % 2 == 0 {
            v.msg@
        } else {
            v.msg@.push('\0')
        }),
{
    let u = utf16_of(v.msg@);
    lemma_units_of_le(u);
    let b = v.body();
    lemma_patch_frame(0x13, b);
    let w = v.wire();
    if u.len() % 2 == 0 {
        assert(w.subrange(4, w.len() as int) =~= b);
    } else {
        let t = v.msg@.push('\0');
        assert(t.drop_last() =~= v.msg@);
        assert(utf16_of(t) == u + seq![0u16]);
        lemma_units_of_le(u + seq![0u16]);
        assert((u + seq![0u16]).drop_last() =~= u);
        assert(w.subrange(4, w.len() as int) =~= units_le(u + seq![0u16]));
    }
}

} // verus!
