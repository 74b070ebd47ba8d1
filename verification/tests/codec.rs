//! PackBits codec and cursor tests.

use rawpsd::{append_img_data, copy_img_data, SliceCursor};
use rawpsd::cursor::{read_u8, read_u16, read_u32, read_i32, read_b4, read_u64};

/// A simple PackBits encoder: repeat runs for three or more equal bytes,
/// literal runs (up to 128 bytes) otherwise.
fn packbits_encode(input: &[u8]) -> Vec<u8> {
    let mut out = Vec::new();
    let mut i = 0;
    while i < input.len() {
        // Measure the run of equal bytes starting here.
        let mut run = 1;
        while i + run < input.len() && input[i + run] == input[i] && run < 128 {
            run += 1;
        }
        if run >= 3 {
            out.push((257 - run) as u8);
            out.push(input[i]);
            i += run;
        } else {
            // Literal run: collect until a long equal-run starts.
            let start = i;
            let mut lit = 0;
            while i < input.len() && lit < 128 {
                let mut ahead = 1;
                while i + ahead < input.len() && input[i + ahead] == input[i] && ahead < 3 {
                    ahead += 1;
                }
                if ahead >= 3 {
                    break;
                }
                i += 1;
                lit += 1;
            }
            out.push((lit - 1) as u8);
            out.extend_from_slice(&input[start..start + lit]);
        }
    }
    out
}

/// Wrap a single encoded row as a mode-1 plane: mode, one row length, row.
fn mode1_plane(row: &[u8]) -> Vec<u8> {
    let mut plane = vec![0x00, 0x01];
    plane.extend_from_slice(&(row.len() as u16).to_be_bytes());
    plane.extend_from_slice(row);
    plane
}

fn lcg_bytes(seed: u64, len: usize) -> Vec<u8> {
    let mut state = seed;
    let mut out = Vec::with_capacity(len);
    for _ in 0..len {
        state = state.wrapping_mul(6364136223846793005).wrapping_add(1442695040888963407);
        // Mix of raw noise and runs, so both literal and repeat runs occur.
        if state & 0x30000 == 0 {
            let b = (state >> 24) as u8;
            for _ in 0..(state >> 40) % 7 {
                out.push(b);
                if out.len() == len {
                    return out;
                }
            }
        }
        out.push((state >> 32) as u8);
        if out.len() == len {
            return out;
        }
    }
    out
}

#[test]
fn packbits_round_trip_small_cases() {
    for input in [
        vec![],
        vec![0xFF],
        vec![1, 2, 3],
        vec![7; 300],
        vec![0, 0, 0, 1, 2, 2, 2, 2, 3],
        (0..=255u8).collect::<Vec<u8>>(),
    ] {
        let row = packbits_encode(&input);
        let plane = mode1_plane(&row);
        let mut out = Vec::new();
        let n = append_img_data(&plane, &mut out, plane.len() as u64, 1).expect("decode");
        assert_eq!(out, input);
        assert_eq!(n, plane.len());
    }
}

#[test]
fn packbits_round_trip_random() {
    for seed in 1..40u64 {
        let len = (seed as usize * 131) % 4096;
        let input = lcg_bytes(seed, len);
        let row = packbits_encode(&input);
        let plane = mode1_plane(&row);
        let mut out = Vec::new();
        append_img_data(&plane, &mut out, plane.len() as u64, 1).expect("decode");
        assert_eq!(out, input);
    }
}

#[test]
fn strided_decode_matches_append() {
    for seed in 1..20u64 {
        let input = lcg_bytes(seed, (seed as usize * 97) % 1024 + 1);
        let row = packbits_encode(&input);
        let plane = mode1_plane(&row);

        let mut appended = Vec::new();
        append_img_data(&plane, &mut appended, plane.len() as u64, 1).expect("append");

        let mut strided = vec![0u8; appended.len() * 4];
        let n = copy_img_data(&plane, &mut strided, 4, plane.len() as u64, 1).expect("copy");
        assert_eq!(n, plane.len());
        let every_fourth: Vec<u8> = strided.iter().step_by(4).copied().collect();
        assert_eq!(every_fourth, appended);
    }
}

#[test]
fn raw_mode_append_and_copy() {
    let plane = vec![0x00, 0x00, 9, 8, 7];
    let mut out = Vec::new();
    let n = append_img_data(&plane, &mut out, 5, 1).expect("append");
    assert_eq!(out, vec![9, 8, 7]);
    assert_eq!(n, 5);

    let mut buf = vec![0u8; 6];
    let n = copy_img_data(&plane, &mut buf, 2, 5, 1).expect("copy");
    assert_eq!(n, 5);
    assert_eq!(buf, vec![9, 0, 8, 0, 7, 0]);
}

#[test]
fn strided_writes_past_end_are_dropped() {
    // Three decoded bytes, but room for only one at stride 2.
    let plane = vec![0x00, 0x00, 9, 8, 7];
    let mut buf = vec![1u8; 2];
    let n = copy_img_data(&plane, &mut buf, 2, 5, 1).expect("copy");
    assert_eq!(n, 5);
    assert_eq!(buf, vec![9, 1]);
}

#[test]
fn unsupported_compression_mode() {
    let plane = vec![0x00, 0x02, 1, 2, 3];
    let mut out = Vec::new();
    let err = append_img_data(&plane, &mut out, 5, 1).unwrap_err();
    assert_eq!(err, "unsupported compression format");
    let mut buf = vec![0u8; 4];
    let err = copy_img_data(&plane, &mut buf, 1, 5, 1).unwrap_err();
    assert_eq!(err, "unsupported compression format");
}

#[test]
fn strided_desynchronized_size() {
    // Declared size disagrees with the bytes the rows cover.
    let row = packbits_encode(&[1, 2, 3, 4]);
    let plane = mode1_plane(&row);
    let mut buf = vec![0u8; 16];
    let err = copy_img_data(&plane, &mut buf, 1, plane.len() as u64 + 1, 1).unwrap_err();
    assert_eq!(err, "Desynchronized while reading image data");
}

#[test]
fn short_encoded_data_is_an_error() {
    // A literal run that claims more bytes than the buffer holds.
    let plane = vec![0x00, 0x01, 0x00, 0x05, 0x04, 0xAA];
    let mut out = Vec::new();
    let err = append_img_data(&plane, &mut out, plane.len() as u64, 1).unwrap_err();
    assert_eq!(err, "Unexpected end of stream");
}

#[test]
fn cursor_primitive_reads() {
    let data = [0x01, 0x02, 0x03, 0x04, 0x05, 0x06, 0x07, 0x08, 0xFF, 0xFF, 0xFF, 0xFF];
    let mut c = SliceCursor::new(&data);
    assert_eq!(read_u8(&mut c).unwrap(), 0x01);
    assert_eq!(c.position(), 1);
    c.set_position(0);
    assert_eq!(read_u16(&mut c).unwrap(), 0x0102);
    c.set_position(0);
    assert_eq!(read_u32(&mut c).unwrap(), 0x01020304);
    c.set_position(0);
    assert_eq!(read_u64(&mut c).unwrap(), 0x0102030405060708);
    c.set_position(8);
    assert_eq!(read_i32(&mut c).unwrap(), -1);
    c.set_position(0);
    assert_eq!(read_b4(&mut c).unwrap(), [0x01, 0x02, 0x03, 0x04]);
    c.set_position(10);
    assert!(read_u32(&mut c).is_err());
    assert_eq!(c.position(), 10);
}

#[test]
fn cursor_take_and_read_exact() {
    let data = [1u8, 2, 3, 4, 5, 6];
    let mut c = SliceCursor::new(&data);
    c.set_position(1);
    let mut sub = c.take(3);
    // The parent cursor stays where it was; the sub-cursor is independent.
    assert_eq!(c.position(), 1);
    let mut buf = [0u8; 2];
    sub.read_exact(&mut buf).unwrap();
    assert_eq!(buf, [2, 3]);
    c.set_position(4);
    let mut rest = c.take_rest();
    assert_eq!(c.position(), 4);
    let mut out = Vec::new();
    let n = rest.read_to_end(&mut out).unwrap();
    assert_eq!(n, 2);
    assert_eq!(out, vec![5, 6]);
    let mut too_much = [0u8; 9];
    let mut c2 = SliceCursor::new(&data);
    assert!(c2.read_exact(&mut too_much).is_err());
    assert_eq!(c2.position(), 0);
}

#[test]
fn multi_row_plane_round_trip() {
    // Two rows, each its own PackBits stream; the decoder joins them.
    let row1 = packbits_encode(&[1, 1, 1, 1, 2]);
    let row2 = packbits_encode(&[9, 8, 7, 6, 5]);
    let mut plane = vec![0x00, 0x01];
    plane.extend_from_slice(&(row1.len() as u16).to_be_bytes());
    plane.extend_from_slice(&(row2.len() as u16).to_be_bytes());
    plane.extend_from_slice(&row1);
    plane.extend_from_slice(&row2);

    let mut appended = Vec::new();
    let n = append_img_data(&plane, &mut appended, plane.len() as u64, 2).expect("append");
    assert_eq!(appended, vec![1, 1, 1, 1, 2, 9, 8, 7, 6, 5]);
    assert_eq!(n, plane.len());

    let mut strided = vec![0u8; appended.len() * 4];
    copy_img_data(&plane, &mut strided, 4, plane.len() as u64, 2).expect("copy");
    let every_fourth: Vec<u8> = strided.iter().step_by(4).copied().collect();
    assert_eq!(every_fourth, appended);
}
