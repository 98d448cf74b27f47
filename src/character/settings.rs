//! The settings blob a character carries: a fixed 4448-byte record.
use vstd::prelude::*;

use crate::codec::{
    bytes_of, get_array, get_u16, get_u32, le32, lemma_bytes_of_words, lemma_le32,
    lemma_words_of_bytes, put_bytes, put_u16, put_u32, words_of,
};
use crate::text::{lemma_units_le_of, lemma_units_of_le, put_units, units_le, units_of};

verus! {

/// Default key bindings.
pub const DEFAULT_KEY_CONFIG: [u8; 0x16C] = [
    0x00, 0x00, 0x00, 0x00, 0x26, 0x00, 0x00, 0x00, 0x00, 0x00, 0x00, 0x00,
    0x22, 0x00, 0x00, 0x00, 0x00, 0x00, 0x00, 0x00, 0x10, 0x00, 0x00, 0x00,
    0x00, 0x00, 0x00, 0x00, 0x13, 0x00, 0x00, 0x00, 0x00, 0x00, 0x00, 0x00,
    0x00, 0x00, 0x00, 0x00, 0x00, 0x00, 0x00, 0x00, 0x00, 0x00, 0x00, 0x00,
    0x00, 0x00, 0x00, 0x00, 0x61, 0x00, 0x00, 0x00, 0x00, 0x00, 0x00, 0x00,
    0x50, 0x00, 0x00, 0x00, 0x00, 0x00, 0x00, 0x00, 0x06, 0x00, 0x00, 0x00,
    0x00, 0x00, 0x00, 0x00, 0x59, 0x00, 0x00, 0x00, 0x00, 0x00, 0x00, 0x00,
    0x5e, 0x00, 0x00, 0x00, 0x00, 0x00, 0x00, 0x00, 0x5d, 0x00, 0x00, 0x00,
    0x00, 0x00, 0x00, 0x00, 0x5c, 0x00, 0x00, 0x00, 0x00, 0x00, 0x00, 0x00,
    0x5f, 0x00, 0x00, 0x00, 0x00, 0x00, 0x00, 0x00, 0x07, 0x00, 0x00, 0x00,
    0x00, 0x00, 0x00, 0x00, 0x5d, 0x00, 0x00, 0x00, 0x00, 0x00, 0x00, 0x00,
    0x5c, 0x00, 0x00, 0x00, 0x00, 0x00, 0x00, 0x00, 0x5f, 0x00, 0x00, 0x00,
    0x00, 0x00, 0x00, 0x00, 0x56, 0x00, 0x00, 0x00, 0x00, 0x00, 0x00, 0x00,
    0x5e, 0x00, 0x00, 0x00, 0x00, 0x00, 0x00, 0x00, 0x40, 0x00, 0x00, 0x00,
    0x00, 0x00, 0x00, 0x00, 0x41, 0x00, 0x00, 0x00, 0x00, 0x00, 0x00, 0x00,
    0x42, 0x00, 0x00, 0x00, 0x00, 0x00, 0x00, 0x00, 0x43, 0x00, 0x00, 0x00,
    0x00, 0x00, 0x00, 0x00, 0x44, 0x00, 0x00, 0x00, 0x00, 0x00, 0x00, 0x00,
    0x45, 0x00, 0x00, 0x00, 0x00, 0x00, 0x00, 0x00, 0x46, 0x00, 0x00, 0x00,
    0x00, 0x00, 0x00, 0x00, 0x47, 0x00, 0x00, 0x00, 0x00, 0x00, 0x00, 0x00,
    0x48, 0x00, 0x00, 0x00, 0x00, 0x00, 0x00, 0x00, 0x49, 0x00, 0x00, 0x00,
    0x00, 0x00, 0x00, 0x00, 0x4a, 0x00, 0x00, 0x00, 0x00, 0x00, 0x00, 0x00,
    0x4b, 0x00, 0x00, 0x00, 0x00, 0x00, 0x00, 0x00, 0x00, 0x00, 0x00, 0x00,
    0x00, 0x00, 0x00, 0x00, 0x00, 0x00, 0x00, 0x00, 0x00, 0x00, 0x00, 0x00,
    0x00, 0x00, 0x00, 0x00, 0x00, 0x00, 0x00, 0x00, 0x2a, 0x00, 0x00, 0x00,
    0x00, 0x00, 0x00, 0x00, 0x2b, 0x00, 0x00, 0x00, 0x00, 0x00, 0x00, 0x00,
    0x2c, 0x00, 0x00, 0x00, 0x00, 0x00, 0x00, 0x00, 0x2d, 0x00, 0x00, 0x00,
    0x00, 0x00, 0x00, 0x00, 0x2e, 0x00, 0x00, 0x00, 0x00, 0x00, 0x00, 0x00,
    0x2f, 0x00, 0x00, 0x00, 0x00, 0x00, 0x00, 0x00, 0x30, 0x00, 0x00, 0x00,
    0x00, 0x00, 0x00, 0x00, 0x31, 0x00, 0x00, 0x00, 0x00, 0x00, 0x00, 0x00,
    0x32, 0x00, 0x00, 0x00, 0x00, 0x00, 0x00, 0x00, 0x33, 0x00, 0x00, 0x00,
    0x01, 0x00, 0x00, 0x00,
];

/// Default joystick bindings.
pub const DEFAULT_JOYSTICK_CONFIG: [u8; 0x38] = [
    0x00, 0x01, 0xff, 0xff, 0x00, 0x00, 0x01, 0x00, 0x00, 0x00, 0x02, 0x00,
    0x00, 0x00, 0x04, 0x00, 0x00, 0x00, 0x08, 0x00, 0x01, 0x00, 0x00, 0x00,
    0x04, 0x00, 0x00, 0x00, 0x02, 0x00, 0x00, 0x00, 0x08, 0x00, 0x00, 0x00,
    0x00, 0x02, 0x00, 0x00, 0x20, 0x00, 0x00, 0x00, 0x80, 0x00, 0x00, 0x00,
    0x00, 0x01, 0x00, 0x00, 0x01, 0x00, 0x00, 0x00,
];

/// Default symbol chats.
pub const DEFAULT_SYMBOLCHATS: [u8; 0x4E0] = [
    0x01, 0x00, 0x00, 0x00, 0x09, 0x00, 0x45, 0x00, 0x48, 0x00, 0x65, 0x00,
    0x6c, 0x00, 0x6c, 0x00, 0x6f, 0x00, 0x00, 0x00, 0x00, 0x00, 0x00, 0x00,
    0x00, 0x00, 0x00, 0x00, 0x00, 0x00, 0x00, 0x00, 0x00, 0x00, 0x00, 0x00,
    0x00, 0x00, 0x00, 0x00, 0x00, 0x00, 0x00, 0x00, 0x28, 0x00, 0x00, 0x00,
    0xff, 0xff, 0x0d, 0x00, 0xff, 0xff, 0xff, 0xff, 0x05, 0x18, 0x1d, 0x00,
    0x05, 0x28, 0x1d, 0x01, 0x36, 0x20, 0x2a, 0x00, 0x3c, 0x00, 0x32, 0x00,
    0xff, 0x00, 0x00, 0x00, 0xff, 0x00, 0x00, 0x00, 0xff, 0x00, 0x00, 0x00,
    0xff, 0x00, 0x00, 0x02, 0xff, 0x00, 0x00, 0x02, 0xff, 0x00, 0x00, 0x02,
    0xff, 0x00, 0x00, 0x02, 0xff, 0x00, 0x00, 0x02, 0x01, 0x00, 0x00, 0x00,
    0x09, 0x00, 0x45, 0x00, 0x47, 0x00, 0x6f, 0x00, 0x6f, 0x00, 0x64, 0x00,
    0x2d, 0x00, 0x62, 0x00, 0x79, 0x00, 0x65, 0x00, 0x00, 0x00, 0x00, 0x00,
    0x00, 0x00, 0x00, 0x00, 0x00, 0x00, 0x00, 0x00, 0x00, 0x00, 0x00, 0x00,
    0x00, 0x00, 0x00, 0x00, 0x74, 0x00, 0x00, 0x00, 0x76, 0x04, 0x0c, 0x00,
    0xff, 0xff, 0xff, 0xff, 0x06, 0x15, 0x14, 0x00, 0x06, 0x2b, 0x14, 0x01,
    0x05, 0x18, 0x1f, 0x00, 0x05, 0x28, 0x1f, 0x01, 0x36, 0x20, 0x2a, 0x00,
    0x3c, 0x00, 0x32, 0x00, 0xff, 0x00, 0x00, 0x00, 0xff, 0x00, 0x00, 0x02,
    0xff, 0x00, 0x00, 0x02, 0xff, 0x00, 0x00, 0x02, 0xff, 0x00, 0x00, 0x02,
    0xff, 0x00, 0x00, 0x02, 0x01, 0x00, 0x00, 0x00, 0x09, 0x00, 0x45, 0x00,
    0x48, 0x00, 0x75, 0x00, 0x72, 0x00, 0x72, 0x00, 0x61, 0x00, 0x68, 0x00,
    0x21, 0x00, 0x00, 0x00, 0x00, 0x00, 0x00, 0x00, 0x00, 0x00, 0x00, 0x00,
    0x00, 0x00, 0x00, 0x00, 0x00, 0x00, 0x00, 0x00, 0x00, 0x00, 0x00, 0x00,
    0x28, 0x00, 0x00, 0x00, 0x62, 0x03, 0x62, 0x03, 0xff, 0xff, 0xff, 0xff,
    0x09, 0x16, 0x1b, 0x00, 0x09, 0x2b, 0x1b, 0x01, 0x37, 0x20, 0x2c, 0x00,
    0xff, 0x00, 0x00, 0x00, 0xff, 0x00, 0x00, 0x00, 0xff, 0x00, 0x00, 0x00,
    0xff, 0x00, 0x00, 0x00, 0xff, 0x00, 0x00, 0x02, 0xff, 0x00, 0x00, 0x02,
    0xff, 0x00, 0x00, 0x02, 0xff, 0x00, 0x00, 0x02, 0xff, 0x00, 0x00, 0x02,
    0x01, 0x00, 0x00, 0x00, 0x09, 0x00, 0x45, 0x00, 0x43, 0x00, 0x72, 0x00,
    0x79, 0x00, 0x69, 0x00, 0x6e, 0x00, 0x67, 0x00, 0x00, 0x00, 0x00, 0x00,
    0x00, 0x00, 0x00, 0x00, 0x00, 0x00, 0x00, 0x00, 0x00, 0x00, 0x00, 0x00,
    0x00, 0x00, 0x00, 0x00, 0x00, 0x00, 0x00, 0x00, 0x74, 0x00, 0x00, 0x00,
    0x4f, 0x07, 0xff, 0xff, 0xff, 0xff, 0xff, 0xff, 0x06, 0x15, 0x14, 0x00,
    0x06, 0x2b, 0x14, 0x01, 0x05, 0x18, 0x1f, 0x00, 0x05, 0x28, 0x1f, 0x01,
    0x21, 0x20, 0x2e, 0x00, 0xff, 0x00, 0x00, 0x00, 0xff, 0x00, 0x00, 0x00,
    0xff, 0x00, 0x00, 0x02, 0xff, 0x00, 0x00, 0x02, 0xff, 0x00, 0x00, 0x02,
    0xff, 0x00, 0x00, 0x02, 0xff, 0x00, 0x00, 0x02, 0x01, 0x00, 0x00, 0x00,
    0x09, 0x00, 0x45, 0x00, 0x49, 0x00, 0x27, 0x00, 0x6d, 0x00, 0x20, 0x00,
    0x61, 0x00, 0x6e, 0x00, 0x67, 0x00, 0x72, 0x00, 0x79, 0x00, 0x21, 0x00,
    0x00, 0x00, 0x00, 0x00, 0x00, 0x00, 0x00, 0x00, 0x00, 0x00, 0x00, 0x00,
    0x00, 0x00, 0x00, 0x00, 0x5c, 0x00, 0x00, 0x00, 0x16, 0x01, 0x01, 0x00,
    0xff, 0xff, 0xff, 0xff, 0x0b, 0x18, 0x1b, 0x01, 0x0b, 0x28, 0x1b, 0x00,
    0x33, 0x20, 0x2a, 0x00, 0xff, 0x00, 0x00, 0x00, 0xff, 0x00, 0x00, 0x00,
    0xff, 0x00, 0x00, 0x00, 0xff, 0x00, 0x00, 0x00, 0xff, 0x00, 0x00, 0x02,
    0xff, 0x00, 0x00, 0x02, 0xff, 0x00, 0x00, 0x02, 0xff, 0x00, 0x00, 0x02,
    0xff, 0x00, 0x00, 0x02, 0x01, 0x00, 0x00, 0x00, 0x09, 0x00, 0x45, 0x00,
    0x48, 0x00, 0x65, 0x00, 0x6c, 0x00, 0x70, 0x00, 0x20, 0x00, 0x6d, 0x00,
    0x65, 0x00, 0x21, 0x00, 0x00, 0x00, 0x00, 0x00, 0x00, 0x00, 0x00, 0x00,
    0x00, 0x00, 0x00, 0x00, 0x00, 0x00, 0x00, 0x00, 0x00, 0x00, 0x00, 0x00,
    0xec, 0x00, 0x00, 0x00, 0x5e, 0x06, 0x38, 0x01, 0xff, 0xff, 0xff, 0xff,
    0x02, 0x17, 0x1b, 0x01, 0x02, 0x2a, 0x1b, 0x00, 0x31, 0x20, 0x2c, 0x00,
    0xff, 0x00, 0x00, 0x00, 0xff, 0x00, 0x00, 0x00, 0xff, 0x00, 0x00, 0x00,
    0xff, 0x00, 0x00, 0x00, 0xff, 0x00, 0x00, 0x02, 0xff, 0x00, 0x00, 0x02,
    0xff, 0x00, 0x00, 0x02, 0xff, 0x00, 0x00, 0x02, 0xff, 0x00, 0x00, 0x02,
    0x00, 0x00, 0x00, 0x00, 0x00, 0x00, 0x00, 0x00, 0x00, 0x00, 0x00, 0x00,
    0x00, 0x00, 0x00, 0x00, 0x00, 0x00, 0x00, 0x00, 0x00, 0x00, 0x00, 0x00,
    0x00, 0x00, 0x00, 0x00, 0x00, 0x00, 0x00, 0x00, 0x00, 0x00, 0x00, 0x00,
    0x00, 0x00, 0x00, 0x00, 0x00, 0x00, 0x00, 0x00, 0x00, 0x00, 0x00, 0x00,
    0xff, 0x00, 0xff, 0x00, 0xff, 0x00, 0xff, 0x00, 0xff, 0x00, 0x00, 0x00,
    0xff, 0x00, 0x00, 0x00, 0xff, 0x00, 0x00, 0x00, 0xff, 0x00, 0x00, 0x00,
    0xff, 0x00, 0x00, 0x00, 0xff, 0x00, 0x00, 0x00, 0xff, 0x00, 0x00, 0x00,
    0xff, 0x00, 0x00, 0x00, 0xff, 0x00, 0x00, 0x00, 0xff, 0x00, 0x00, 0x00,
    0xff, 0x00, 0x00, 0x00, 0xff, 0x00, 0x00, 0x00, 0x00, 0x00, 0x00, 0x00,
    0x00, 0x00, 0x00, 0x00, 0x00, 0x00, 0x00, 0x00, 0x00, 0x00, 0x00, 0x00,
    0x00, 0x00, 0x00, 0x00, 0x00, 0x00, 0x00, 0x00, 0x00, 0x00, 0x00, 0x00,
    0x00, 0x00, 0x00, 0x00, 0x00, 0x00, 0x00, 0x00, 0x00, 0x00, 0x00, 0x00,
    0x00, 0x00, 0x00, 0x00, 0x00, 0x00, 0x00, 0x00, 0xff, 0x00, 0xff, 0x00,
    0xff, 0x00, 0xff, 0x00, 0xff, 0x00, 0x00, 0x00, 0xff, 0x00, 0x00, 0x00,
    0xff, 0x00, 0x00, 0x00, 0xff, 0x00, 0x00, 0x00, 0xff, 0x00, 0x00, 0x00,
    0xff, 0x00, 0x00, 0x00, 0xff, 0x00, 0x00, 0x00, 0xff, 0x00, 0x00, 0x00,
    0xff, 0x00, 0x00, 0x00, 0xff, 0x00, 0x00, 0x00, 0xff, 0x00, 0x00, 0x00,
    0xff, 0x00, 0x00, 0x00, 0x00, 0x00, 0x00, 0x00, 0x00, 0x00, 0x00, 0x00,
    0x00, 0x00, 0x00, 0x00, 0x00, 0x00, 0x00, 0x00, 0x00, 0x00, 0x00, 0x00,
    0x00, 0x00, 0x00, 0x00, 0x00, 0x00, 0x00, 0x00, 0x00, 0x00, 0x00, 0x00,
    0x00, 0x00, 0x00, 0x00, 0x00, 0x00, 0x00, 0x00, 0x00, 0x00, 0x00, 0x00,
    0x00, 0x00, 0x00, 0x00, 0xff, 0x00, 0xff, 0x00, 0xff, 0x00, 0xff, 0x00,
    0xff, 0x00, 0x00, 0x00, 0xff, 0x00, 0x00, 0x00, 0xff, 0x00, 0x00, 0x00,
    0xff, 0x00, 0x00, 0x00, 0xff, 0x00, 0x00, 0x00, 0xff, 0x00, 0x00, 0x00,
    0xff, 0x00, 0x00, 0x00, 0xff, 0x00, 0x00, 0x00, 0xff, 0x00, 0x00, 0x00,
    0xff, 0x00, 0x00, 0x00, 0xff, 0x00, 0x00, 0x00, 0xff, 0x00, 0x00, 0x00,
    0x00, 0x00, 0x00, 0x00, 0x00, 0x00, 0x00, 0x00, 0x00, 0x00, 0x00, 0x00,
    0x00, 0x00, 0x00, 0x00, 0x00, 0x00, 0x00, 0x00, 0x00, 0x00, 0x00, 0x00,
    0x00, 0x00, 0x00, 0x00, 0x00, 0x00, 0x00, 0x00, 0x00, 0x00, 0x00, 0x00,
    0x00, 0x00, 0x00, 0x00, 0x00, 0x00, 0x00, 0x00, 0x00, 0x00, 0x00, 0x00,
    0xff, 0x00, 0xff, 0x00, 0xff, 0x00, 0xff, 0x00, 0xff, 0x00, 0x00, 0x00,
    0xff, 0x00, 0x00, 0x00, 0xff, 0x00, 0x00, 0x00, 0xff, 0x00, 0x00, 0x00,
    0xff, 0x00, 0x00, 0x00, 0xff, 0x00, 0x00, 0x00, 0xff, 0x00, 0x00, 0x00,
    0xff, 0x00, 0x00, 0x00, 0xff, 0x00, 0x00, 0x00, 0xff, 0x00, 0x00, 0x00,
    0xff, 0x00, 0x00, 0x00, 0xff, 0x00, 0x00, 0x00, 0x00, 0x00, 0x00, 0x00,
    0x00, 0x00, 0x00, 0x00, 0x00, 0x00, 0x00, 0x00, 0x00, 0x00, 0x00, 0x00,
    0x00, 0x00, 0x00, 0x00, 0x00, 0x00, 0x00, 0x00, 0x00, 0x00, 0x00, 0x00,
    0x00, 0x00, 0x00, 0x00, 0x00, 0x00, 0x00, 0x00, 0x00, 0x00, 0x00, 0x00,
    0x00, 0x00, 0x00, 0x00, 0x00, 0x00, 0x00, 0x00, 0xff, 0x00, 0xff, 0x00,
    0xff, 0x00, 0xff, 0x00, 0xff, 0x00, 0x00, 0x00, 0xff, 0x00, 0x00, 0x00,
    0xff, 0x00, 0x00, 0x00, 0xff, 0x00, 0x00, 0x00, 0xff, 0x00, 0x00, 0x00,
    0xff, 0x00, 0x00, 0x00, 0xff, 0x00, 0x00, 0x00, 0xff, 0x00, 0x00, 0x00,
    0xff, 0x00, 0x00, 0x00, 0xff, 0x00, 0x00, 0x00, 0xff, 0x00, 0x00, 0x00,
    0xff, 0x00, 0x00, 0x00, 0x00, 0x00, 0x00, 0x00, 0x00, 0x00, 0x00, 0x00,
    0x00, 0x00, 0x00, 0x00, 0x00, 0x00, 0x00, 0x00, 0x00, 0x00, 0x00, 0x00,
    0x00, 0x00, 0x00, 0x00, 0x00, 0x00, 0x00, 0x00, 0x00, 0x00, 0x00, 0x00,
    0x00, 0x00, 0x00, 0x00, 0x00, 0x00, 0x00, 0x00, 0x00, 0x00, 0x00, 0x00,
    0x00, 0x00, 0x00, 0x00, 0xff, 0x00, 0xff, 0x00, 0xff, 0x00, 0xff, 0x00,
    0xff, 0x00, 0x00, 0x00, 0xff, 0x00, 0x00, 0x00, 0xff, 0x00, 0x00, 0x00,
    0xff, 0x00, 0x00, 0x00, 0xff, 0x00, 0x00, 0x00, 0xff, 0x00, 0x00, 0x00,
    0xff, 0x00, 0x00, 0x00, 0xff, 0x00, 0x00, 0x00, 0xff, 0x00, 0x00, 0x00,
    0xff, 0x00, 0x00, 0x00, 0xff, 0x00, 0x00, 0x00, 0xff, 0x00, 0x00, 0x00,
];

/// A character's settings, laid out back to back in little-endian order.
#[derive(Debug, Clone, Copy, PartialEq, Eq)]
pub struct UserSettings {
    pub blocked_users: [u32; 0x1E],
    pub key_config: [u8; 0x16C],
    pub joystick_config: [u8; 0x38],
    pub option_flags: u32,
    pub shortcuts: [u8; 0xA40],
    pub symbol_chats: [u8; 0x4E0],
    pub team_name: [u16; 0x10],
}

impl Default for UserSettings {
    fn default() -> (r: UserSettings)
        ensures
            r.blocked_users@ == Seq::new(0x1E, |_i: int| 0u32),
            r.key_config == DEFAULT_KEY_CONFIG,
            r.joystick_config == DEFAULT_JOYSTICK_CONFIG,
            r.option_flags == 0,
            r.shortcuts@ == Seq::new(0xA40, |_i: int| 0u8),
            r.symbol_chats == DEFAULT_SYMBOLCHATS,
            r.team_name@ == Seq::new(0x10, |_i: int| 0u16),
    {
        let r = UserSettings {
            blocked_users: [0; 0x1E],
            key_config: DEFAULT_KEY_CONFIG,
            joystick_config: DEFAULT_JOYSTICK_CONFIG,
            option_flags: 0,
            shortcuts: [0; 0xA40],
            symbol_chats: DEFAULT_SYMBOLCHATS,
            team_name: [0; 0x10],
        };
        assert(r.blocked_users@ =~= Seq::new(0x1E, |_i: int| 0u32));
        assert(r.shortcuts@ =~= Seq::new(0xA40, |_i: int| 0u8));
        assert(r.team_name@ =~= Seq::new(0x10, |_i: int| 0u16));
        r
    }
}

impl UserSettings {
    /// The 4448 bytes of the record.
    pub open spec fn wire(&self) -> Seq<u8> {
        bytes_of(self.blocked_users@) + self.key_config@ + self.joystick_config@ + le32(
            self.option_flags,
        ) + self.shortcuts@ + self.symbol_chats@ + units_le(self.team_name@)
    }

    /// Reads the record from its bytes.
    #[verifier::spinoff_prover]
    pub fn from_bytes(bytes: [u8; 0x1160]) -> (r: UserSettings)
        ensures
            r.wire() == bytes@,
    {
        let mut data: Vec<u8> = Vec::new();
        let mut i: usize = 0;
        while i < 0x1160
            invariant
                i <= 0x1160,
                data@ == bytes@.take(i as int),
            decreases 0x1160 - i,
        {
            data.push(bytes[i]);
            i = i + 1;
            assert(data@ =~= bytes@.take(i as int));
        }
        assert(data@ =~= bytes@);
        let mut blocked_users = [0u32; 0x1E];
        let mut k: usize = 0;
        while k < 0x1E
            invariant
                k <= 0x1E,
                data@ == bytes@,
                data@.len() == 0x1160,
                forall|j: int| 0 <= j < k ==> blocked_users@[j] == #[trigger] words_of(data@.subrange(0, 120))[j],
            decreases 0x1E - k,
        {
            blocked_users[k] = get_u32(&data, 4 * k);
            proof {
                assert(data@.subrange(0, 120).subrange(4 * k as int, 4 * k + 4) =~= data@.subrange(4 * k as int, 4 * k + 4));
            }
            k = k + 1;
        }
        let mut team_name = [0u16; 0x10];
        let mut k: usize = 0;
        while k < 0x10
            invariant
                k <= 0x10,
                data@ == bytes@,
                data@.len() == 0x1160,
                forall|j: int| 0 <= j < k ==> team_name@[j] == #[trigger] units_of(data@.subrange(4416, 4448))[j],
            decreases 0x10 - k,
        {
            team_name[k] = get_u16(&data, 4416 + 2 * k);
            proof {
                assert(data@.subrange(4416, 4448).subrange(2 * k as int, 2 * k + 2) =~= data@.subrange(4416 + 2 * k, 4416 + 2 * k + 2));
            }
            k = k + 1;
        }
        let r = UserSettings {
            blocked_users,
            key_config: get_array(&data, 120),
            joystick_config: get_array(&data, 484),
            option_flags: get_u32(&data, 540),
            shortcuts: get_array(&data, 544),
            symbol_chats: get_array(&data, 3168),
            team_name,
        };
        proof {
            let d = data@;
            assert(r.blocked_users@ =~= words_of(d.subrange(0, 120)));
            lemma_bytes_of_words(d.subrange(0, 120));
            assert(r.team_name@ =~= units_of(d.subrange(4416, 4448)));
            lemma_units_le_of(d.subrange(4416, 4448));
            assert(r.wire() =~= d);
        }
        r
    }

    /// The bytes of the record.
    #[verifier::spinoff_prover]
    pub fn as_bytes(&self) -> (r: [u8; 0x1160])
        ensures
            r@ == self.wire(),
    {
        let mut buf: Vec<u8> = Vec::new();
        let mut k: usize = 0;
        while k < 0x1E
            invariant
                k <= 0x1E,
                buf@ == bytes_of(self.blocked_users@.take(k as int)),
            decreases 0x1E - k,
        {
            put_u32(&mut buf, self.blocked_users[k]);
            proof {
                assert(self.blocked_users@.take(k + 1).drop_last() =~= self.blocked_users@.take(k as int));
            }
            k = k + 1;
        }
        assert(self.blocked_users@.take(0x1E) =~= self.blocked_users@);
        put_bytes(&mut buf, &self.key_config);
        put_bytes(&mut buf, &self.joystick_config);
        put_u32(&mut buf, self.option_flags);
        put_bytes(&mut buf, &self.shortcuts);
        put_bytes(&mut buf, &self.symbol_chats);
        put_units(&mut buf, &self.team_name);
        proof {
            lemma_words_of_bytes(self.blocked_users@);
            lemma_units_of_le(self.team_name@);
        }
        assert(buf@ =~= self.wire());
        get_array(&buf, 0)
    }
}

/// Reading back the bytes of a record gives the same record: two records
/// with the same bytes are equal.
#[verifier::spinoff_prover]
pub proof fn lemma_settings_round_trip(u: UserSettings, v: UserSettings)
    requires
        v.wire() == u.wire(),
    ensures
        v == u,
{
    lemma_words_of_bytes(u.blocked_users@);
    lemma_words_of_bytes(v.blocked_users@);
    lemma_units_of_le(u.team_name@);
    lemma_units_of_le(v.team_name@);
    let (a, b) = (v.wire(), u.wire());
    assert(a.subrange(0, 120) =~= bytes_of(v.blocked_users@));
    assert(b.subrange(0, 120) =~= bytes_of(u.blocked_users@));
    assert(a.subrange(120, 484) =~= v.key_config@ && b.subrange(120, 484) =~= u.key_config@);
    assert(a.subrange(484, 540) =~= v.joystick_config@ && b.subrange(484, 540) =~= u.joystick_config@);
    assert(a.subrange(540, 544) =~= le32(v.option_flags) && b.subrange(540, 544) =~= le32(u.option_flags));
    assert(a.subrange(544, 3168) =~= v.shortcuts@ && b.subrange(544, 3168) =~= u.shortcuts@);
    assert(a.subrange(3168, 4416) =~= v.symbol_chats@ && b.subrange(3168, 4416) =~= u.symbol_chats@);
    assert(a.subrange(4416, 4448) =~= units_le(v.team_name@));
    assert(b.subrange(4416, 4448) =~= units_le(u.team_name@));
    lemma_le32(v.option_flags);
    lemma_le32(u.option_flags);
    assert(v.blocked_users =~= u.blocked_users);
    assert(v.key_config =~= u.key_config);
    assert(v.joystick_config =~= u.joystick_config);
    assert(v.shortcuts =~= u.shortcuts);
    assert(v.symbol_chats =~= u.symbol_chats);
    assert(v.team_name =~= u.team_name);
}

} // verus!
