//! The 26-byte PSD file header: magic, version, canvas geometry, bit depth
//! and color mode.

use vstd::prelude::*;
use crate::cursor::{SliceCursor, read_b4, read_u16, read_u32, be_u16_at, be_u32_at};

verus! {

/// File-wide PSD header metadata.
///
/// Returned from [`parse_psd_metadata`].
#[derive(Debug, PartialEq, Eq, Structural)]
pub struct PsdMetadata {
    /// Canvas width in pixels.
    pub width: u32,
    /// Canvas height in pixels.
    pub height: u32,
    /// PSD-wide color mode constant: 1 is grayscale, 3 is RGB, 4 is CMYK.
    pub color_mode: u16,
    /// Color depth in bits per channel.  Only 8-bit images are supported.
    pub depth: u16,
    /// Number of channels in the PSD file's colorspace, including alpha.
    pub channel_count: u16,
}

/// The first 26 bytes of `data` form a header this parser accepts: the
/// `8BPS` magic, version 1, 8-bit depth, and a grayscale, RGB or CMYK
/// color mode.
pub open spec fn header_ok(data: Seq<u8>) -> bool {
    &&& data.len() >= 26
    &&& data[0] == 0x38 && data[1] == 0x42 && data[2] == 0x50 && data[3] == 0x53
    &&& be_u16_at(data, 4) == 1
    &&& be_u16_at(data, 22) == 8
    &&& (be_u16_at(data, 24) == 1 || be_u16_at(data, 24) == 3 || be_u16_at(data, 24) == 4)
}

/// The header fields as laid out in the file: channel count at offset 12,
/// then height before width, then depth and color mode.
pub open spec fn spec_header(data: Seq<u8>) -> PsdMetadata {
    PsdMetadata {
        width: be_u32_at(data, 18),
        height: be_u32_at(data, 14),
        color_mode: be_u16_at(data, 24),
        depth: be_u16_at(data, 22),
        channel_count: be_u16_at(data, 12),
    }
}

/// The diagnostic [`parse_psd_metadata`] reports for a header it rejects,
/// checked in file order: enough bytes for each field, the magic, the
/// version, then depth and color mode together.
pub open spec fn spec_header_err(data: Seq<u8>) -> Seq<char> {
    if data.len() < 4 {
        "Unexpected end of stream"@
    } else if !(data[0] == 0x38 && data[1] == 0x42 && data[2] == 0x50 && data[3] == 0x53) {
        "Invalid PSD signature"@
    } else if data.len() < 6 {
        "Unexpected end of stream"@
    } else if be_u16_at(data, 4) != 1 {
        "Unsupported PSD version"@
    } else if data.len() < 26 {
        "Unexpected end of stream"@
    } else {
        "Only PSDs in 8-bit RGB, CMYK, or Grayscale mode are currently supported."@
    }
}

/// Parses just the frontmost metadata at the start of a PSD file.
///
/// Validates the magic signature, the version, the bit depth and the color
/// mode, and returns the decoded header fields.
pub fn parse_psd_metadata(data: &[u8]) -> (r: Result<PsdMetadata, String>)
    ensures
        r is Ok <==> header_ok(data@),
        r matches Ok(m) ==> m == spec_header(data@),
        r matches Err(e) ==> e@ == spec_header_err(data@),
{
    let mut cursor = SliceCursor::new(data);

    let signature = match read_b4(&mut cursor) {
        Ok(v) => v,
        Err(e) => { return Err(e); },
    };
    if !(signature[0] == 0x38 && signature[1] == 0x42 && signature[2] == 0x50 && signature[3]
        == 0x53) {
        return Err("Invalid PSD signature".to_owned());
    }

    let version = match read_u16(&mut cursor) {
        Ok(v) => v,
        Err(e) => { return Err(e); },
    };
    if version != 1 {
        return Err("Unsupported PSD version".to_owned());
    }

    cursor.set_position(cursor.position() + 6);

    let channel_count = match read_u16(&mut cursor) {
        Ok(v) => v,
        Err(e) => { return Err(e); },
    };
    let height = match read_u32(&mut cursor) {
        Ok(v) => v,
        Err(e) => { return Err(e); },
    };
    let width = match read_u32(&mut cursor) {
        Ok(v) => v,
        Err(e) => { return Err(e); },
    };
    let depth = match read_u16(&mut cursor) {
        Ok(v) => v,
        Err(e) => { return Err(e); },
    };
    let color_mode = match read_u16(&mut cursor) {
        Ok(v) => v,
        Err(e) => { return Err(e); },
    };

    if depth != 8 {
        return Err(
            "Only PSDs in 8-bit RGB, CMYK, or Grayscale mode are currently supported.".to_owned(),
        );
    }
    if color_mode != 1 && color_mode != 3 && color_mode != 4 {
        return Err(
            "Only PSDs in 8-bit RGB, CMYK, or Grayscale mode are currently supported.".to_owned(),
        );
    }

    Ok(PsdMetadata { width, height, channel_count, depth, color_mode })
}

} // verus!
