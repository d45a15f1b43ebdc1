//! What the update server says of a firmware binary.

use vstd::prelude::*;
use vstd::utf8::encode_utf8;

verus! {

/// The description of a firmware binary: what identifies a download and its key.
#[derive(Debug)]
pub struct BinaryInform {
    /// Firmware version, as four slash-separated parts.
    pub version: String,
    /// Name of the encrypted file on the server.
    pub filename: String,
    /// Directory of the file on the server.
    pub path: String,
    /// Size of the encrypted file in bytes.
    pub size: u64,
    /// AES-128 key of the file.
    pub key: Vec<u8>,
    /// Device model.
    pub model_type: String,
    /// Sales region.
    pub region: String,
}

impl BinaryInform {
    /// The file name as bytes.
    pub open spec fn filename_bytes(self) -> Seq<u8> {
        encode_utf8(self.filename@)
    }

    /// The version as bytes.
    pub open spec fn version_bytes(self) -> Seq<u8> {
        encode_utf8(self.version@)
    }
}

} // verus!
