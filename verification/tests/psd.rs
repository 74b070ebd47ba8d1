//! End-to-end parser tests over hand-built PSD byte buffers.

use rawpsd::{parse_psd_metadata, parse_layer_records, AdjustmentParam, DescItem, LayerInfo};

fn be16(v: u16) -> [u8; 2] {
    v.to_be_bytes()
}

fn be32(v: u32) -> [u8; 4] {
    v.to_be_bytes()
}

fn header(channel_count: u16, height: u32, width: u32, depth: u16, color_mode: u16) -> Vec<u8> {
    let mut out = Vec::new();
    out.extend_from_slice(b"8BPS");
    out.extend_from_slice(&be16(1));
    out.extend_from_slice(&[0; 6]);
    out.extend_from_slice(&be16(channel_count));
    out.extend_from_slice(&be32(height));
    out.extend_from_slice(&be32(width));
    out.extend_from_slice(&be16(depth));
    out.extend_from_slice(&be16(color_mode));
    out
}

/// A whole PSD: header, empty color-mode and image-resources sections, a
/// layer-info block with the given records, then the channel image data.
fn psd(hdr: Vec<u8>, count: i16, records: &[Vec<u8>], chan_data: &[u8]) -> Vec<u8> {
    let mut out = hdr;
    out.extend_from_slice(&be32(0));
    out.extend_from_slice(&be32(0));
    let records_len: usize = records.iter().map(|r| r.len()).sum();
    let li_len = 2 + records_len + chan_data.len();
    out.extend_from_slice(&be32(li_len as u32 + 4));
    out.extend_from_slice(&be32(li_len as u32));
    out.extend_from_slice(&be16(count as u16));
    for r in records {
        out.extend_from_slice(r);
    }
    out.extend_from_slice(chan_data);
    out
}

fn pascal_name(name: &[u8]) -> Vec<u8> {
    let mut out = vec![name.len() as u8];
    out.extend_from_slice(name);
    while out.len() % 4 != 0 {
        out.push(0);
    }
    out
}

fn block(tag: &[u8; 4], payload: &[u8]) -> Vec<u8> {
    let mut out = Vec::new();
    out.extend_from_slice(b"8BIM");
    out.extend_from_slice(tag);
    out.extend_from_slice(&be32(payload.len() as u32));
    out.extend_from_slice(payload);
    out
}

#[allow(clippy::too_many_arguments)]
fn layer_record(
    rect: (i32, i32, i32, i32),
    channels: &[(i16, u32)],
    blend: &[u8; 4],
    opacity: u8,
    clipping: u8,
    flags: u8,
    mask_body: &[u8],
    name: &[u8],
    blocks: &[u8],
) -> Vec<u8> {
    let mut out = Vec::new();
    out.extend_from_slice(&rect.0.to_be_bytes());
    out.extend_from_slice(&rect.1.to_be_bytes());
    out.extend_from_slice(&rect.2.to_be_bytes());
    out.extend_from_slice(&rect.3.to_be_bytes());
    out.extend_from_slice(&be16(channels.len() as u16));
    for (id, len) in channels {
        out.extend_from_slice(&be16(*id as u16));
        out.extend_from_slice(&be32(*len));
    }
    out.extend_from_slice(b"8BIM");
    out.extend_from_slice(blend);
    out.push(opacity);
    out.push(clipping);
    out.push(flags);
    out.push(0);
    let mut inner = Vec::new();
    inner.extend_from_slice(&be32(mask_body.len() as u32));
    inner.extend_from_slice(mask_body);
    inner.extend_from_slice(&be32(0));
    inner.extend_from_slice(&pascal_name(name));
    inner.extend_from_slice(blocks);
    out.extend_from_slice(&be32(inner.len() as u32));
    out.extend_from_slice(&inner);
    out
}

fn simple_layer(blocks: &[u8]) -> Vec<u8> {
    layer_record((0, 0, 0, 0), &[], b"norm", 255, 0, 0, &[], b"base", blocks)
}

// --- Descriptor byte builders ---

fn d_ascii(s: &[u8]) -> Vec<u8> {
    let mut out = Vec::new();
    if s.len() == 4 {
        out.extend_from_slice(&be32(0));
    } else {
        out.extend_from_slice(&be32(s.len() as u32));
    }
    out.extend_from_slice(s);
    out
}

fn descriptor(class_id: &[u8], items: &[(&[u8], Vec<u8>)]) -> Vec<u8> {
    let mut out = Vec::new();
    out.extend_from_slice(&be32(0));
    out.extend_from_slice(&d_ascii(class_id));
    out.extend_from_slice(&be32(items.len() as u32));
    for (key, val) in items {
        out.extend_from_slice(&d_ascii(key));
        out.extend_from_slice(val);
    }
    out
}

fn d_long(v: i32) -> Vec<u8> {
    let mut out = b"long".to_vec();
    out.extend_from_slice(&v.to_be_bytes());
    out
}

fn d_bool(v: bool) -> Vec<u8> {
    let mut out = b"bool".to_vec();
    out.push(if v { 1 } else { 0 });
    out
}

fn d_doub(v: f64) -> Vec<u8> {
    let mut out = b"doub".to_vec();
    out.extend_from_slice(&v.to_be_bytes());
    out
}

fn d_text(units: &[u16]) -> Vec<u8> {
    let mut out = b"TEXT".to_vec();
    out.extend_from_slice(&be32(units.len() as u32));
    for u in units {
        out.extend_from_slice(&be16(*u));
    }
    out
}

fn d_untf(unit: &[u8; 4], v: f64) -> Vec<u8> {
    let mut out = b"UntF".to_vec();
    out.extend_from_slice(unit);
    out.extend_from_slice(&v.to_be_bytes());
    out
}

fn d_enum(a: &[u8], b: &[u8]) -> Vec<u8> {
    let mut out = b"enum".to_vec();
    out.extend_from_slice(&d_ascii(a));
    out.extend_from_slice(&d_ascii(b));
    out
}

fn d_list(items: &[Vec<u8>]) -> Vec<u8> {
    let mut out = b"VlLs".to_vec();
    out.extend_from_slice(&be32(items.len() as u32));
    for i in items {
        out.extend_from_slice(i);
    }
    out
}

fn d_objc(desc: &[u8]) -> Vec<u8> {
    let mut out = b"Objc".to_vec();
    out.extend_from_slice(desc);
    out
}

// --- Scenarios ---

#[test]
fn header_only() {
    let bytes: Vec<u8> = vec![
        0x38, 0x42, 0x50, 0x53, 0x00, 0x01, 0x00, 0x00, 0x00, 0x00, 0x00, 0x00, 0x00, 0x03, 0x00,
        0x00, 0x00, 0x64, 0x00, 0x00, 0x00, 0xC8, 0x00, 0x08, 0x00, 0x03,
    ];
    let m = parse_psd_metadata(&bytes).expect("header");
    assert_eq!(m.channel_count, 3);
    assert_eq!(m.height, 100);
    assert_eq!(m.width, 200);
    assert_eq!(m.depth, 8);
    assert_eq!(m.color_mode, 3);

    // With layer_info_length 0 the parse succeeds with an empty list.
    let mut file = bytes;
    file.extend_from_slice(&be32(0));
    file.extend_from_slice(&be32(0));
    file.extend_from_slice(&be32(4));
    file.extend_from_slice(&be32(0));
    let layers = parse_layer_records(&file).expect("empty layer list");
    assert!(layers.is_empty());
}

#[test]
fn bad_magic() {
    let mut bytes = header(3, 1, 1, 8, 3);
    bytes[0] = 0;
    bytes[1] = 0;
    bytes[2] = 0;
    bytes[3] = 0;
    assert_eq!(parse_psd_metadata(&bytes).unwrap_err(), "Invalid PSD signature");
    let (layers, err) = parse_layer_records(&bytes).unwrap_err();
    assert!(layers.is_empty());
    assert_eq!(err, "Invalid PSD signature");
}

#[test]
fn unsupported_version() {
    let mut bytes = header(3, 1, 1, 8, 3);
    bytes[5] = 2;
    assert_eq!(parse_psd_metadata(&bytes).unwrap_err(), "Unsupported PSD version");
    let (_, err) = parse_layer_records(&bytes).unwrap_err();
    assert_eq!(err, "Unsupported PSD version");
}

#[test]
fn unsupported_depth_and_mode() {
    let bytes = header(3, 1, 1, 16, 3);
    let err = parse_psd_metadata(&bytes).unwrap_err();
    assert_eq!(err, "Only PSDs in 8-bit RGB, CMYK, or Grayscale mode are currently supported.");
    let (_, err) = parse_layer_records(&bytes).unwrap_err();
    assert_eq!(err, "Only PSDs in 8-bit RGB, CMYK, or Grayscale mode are currently supported.");

    let bytes = header(3, 1, 1, 8, 2);
    let err = parse_psd_metadata(&bytes).unwrap_err();
    assert_eq!(err, "Only PSDs in 8-bit RGB, CMYK, or Grayscale mode are currently supported.");
}

fn parse_single(rec: Vec<u8>, chan: &[u8]) -> LayerInfo {
    let file = psd(header(3, 4, 4, 8, 3), 1, &[rec], chan);
    let mut layers = parse_layer_records(&file).expect("parse");
    assert_eq!(layers.len(), 1);
    layers.remove(0)
}

#[test]
fn single_rgb_layer_rle() {
    // A 2x1 layer with an RLE-compressed R channel: one row of length 2,
    // decoding to two 0xFF pixels.
    let chan: Vec<u8> = vec![0x00, 0x01, 0x00, 0x02, 0x01, 0xFF, 0xFF];
    let rec = layer_record(
        (0, 0, 1, 2),
        &[(0, chan.len() as u32)],
        b"norm",
        200,
        1,
        0b01,
        &[],
        b"pix",
        &[],
    );
    let layer = parse_single(rec, &chan);
    assert_eq!(layer.w, 2);
    assert_eq!(layer.h, 1);
    assert_eq!(layer.x, 0);
    assert_eq!(layer.y, 0);
    assert_eq!(layer.name, "pix");
    assert_eq!(layer.blend_mode, "norm");
    assert_eq!(layer.opacity, 200);
    assert!(layer.is_clipped);
    assert!(layer.is_alpha_locked);
    assert!(layer.is_visible);
    assert_eq!(layer.image_channel_count, 1);
    assert_eq!(layer.image_data_rgba.len(), 8);
    assert_eq!(layer.image_data_rgba[0], 0xFF);
    assert_eq!(layer.image_data_rgba[4], 0xFF);
    assert!(!layer.image_data_has_g);
    assert!(!layer.image_data_has_b);
    assert!(!layer.image_data_has_a);
    // G/B positions keep the 0xFF fill; A was initialized opaque.
    assert_eq!(layer.image_data_rgba[1], 0xFF);
    assert_eq!(layer.image_data_rgba[2], 0xFF);
    assert_eq!(layer.image_data_rgba[3], 0xFF);
}

#[test]
fn group_brackets() {
    let closer = simple_layer(&block(b"lsct", &be32(3)));
    let layer = parse_single(closer, &[]);
    assert!(layer.group_closer);
    assert!(!layer.group_opener);
    assert!(!layer.group_expanded);

    let opener = simple_layer(&block(b"lsct", &be32(1)));
    let layer = parse_single(opener, &[]);
    assert!(layer.group_opener);
    assert!(layer.group_expanded);
    assert!(!layer.group_closer);

    let collapsed = simple_layer(&block(b"lsct", &be32(2)));
    let layer = parse_single(collapsed, &[]);
    assert!(layer.group_opener);
    assert!(!layer.group_expanded);
    assert!(!layer.group_closer);
}

#[test]
fn group_bracket_balance() {
    // A well-formed file closes every group it opens: the opener and closer
    // counts match.
    let records = vec![
        simple_layer(&block(b"lsct", &be32(3))),
        simple_layer(&[]),
        simple_layer(&block(b"lsct", &be32(1))),
        simple_layer(&block(b"lsct", &be32(3))),
        simple_layer(&block(b"lsct", &be32(2))),
    ];
    let file = psd(header(3, 4, 4, 8, 3), records.len() as i16, &records, &[]);
    let layers = parse_layer_records(&file).expect("parse");
    let openers = layers.iter().filter(|l| l.group_opener).count();
    let closers = layers.iter().filter(|l| l.group_closer).count();
    assert_eq!(openers, 2);
    assert_eq!(closers, 2);
    assert_eq!(openers, closers);
}

#[test]
fn negative_layer_count_takes_magnitude() {
    let records = vec![simple_layer(&[]), simple_layer(&[])];
    let file = psd(header(3, 4, 4, 8, 3), -2, &records, &[]);
    let layers = parse_layer_records(&file).expect("parse");
    assert_eq!(layers.len(), 2);
}

#[test]
fn unicode_name_wins() {
    let luni: Vec<u8> = {
        let mut p = be32(3).to_vec();
        p.extend_from_slice(&be16('N' as u16));
        p.extend_from_slice(&be16('e' as u16));
        p.extend_from_slice(&be16('w' as u16));
        p
    };
    let rec = simple_layer(&block(b"luni", &luni));
    let layer = parse_single(rec, &[]);
    assert_eq!(layer.name, "New");

    // Without the block the ASCII name stands.
    let layer = parse_single(simple_layer(&[]), &[]);
    assert_eq!(layer.name, "base");

    // A non-ASCII code unit decodes as UTF-16.
    let luni: Vec<u8> = {
        let mut p = be32(1).to_vec();
        p.extend_from_slice(&be16(0x00E9));
        p
    };
    let layer = parse_single(simple_layer(&block(b"luni", &luni)), &[]);
    assert_eq!(layer.name, "\u{e9}");
}

#[test]
fn transparency_shapes_and_fill_opacity() {
    let layer = parse_single(simple_layer(&block(b"tsly", &[0])), &[]);
    assert!(layer.funny_flag);
    let layer = parse_single(simple_layer(&block(b"tsly", &[1])), &[]);
    assert!(!layer.funny_flag);

    let layer = parse_single(simple_layer(&block(b"iOpa", &[128])), &[]);
    assert_eq!(layer.fill_opacity, 128);
    let layer = parse_single(simple_layer(&[]), &[]);
    assert_eq!(layer.fill_opacity, 255);
}

#[test]
fn posterize_invert_threshold() {
    let layer = parse_single(simple_layer(&block(b"post", &be16(4))), &[]);
    assert_eq!(layer.adjustment_type, "post");
    assert_eq!(layer.adjustment_info, vec![AdjustmentParam::Raw(4)]);

    let layer = parse_single(simple_layer(&block(b"nvrt", &[])), &[]);
    assert_eq!(layer.adjustment_type, "nvrt");
    assert!(layer.adjustment_info.is_empty());

    let layer = parse_single(simple_layer(&block(b"thrs", &be16(128))), &[]);
    assert_eq!(layer.adjustment_type, "thrs");
    assert_eq!(layer.adjustment_info, vec![AdjustmentParam::Raw(128)]);
}

#[test]
fn legacy_brightness_contrast() {
    let mut p = Vec::new();
    p.extend_from_slice(&be16(7));
    p.extend_from_slice(&be16(9));
    p.extend_from_slice(&be16(127));
    p.push(1);
    let layer = parse_single(simple_layer(&block(b"brit", &p)), &[]);
    assert_eq!(layer.adjustment_type, "brit");
    assert_eq!(
        layer.adjustment_info,
        vec![
            AdjustmentParam::Raw(7),
            AdjustmentParam::Raw(9),
            AdjustmentParam::Raw(127),
            AdjustmentParam::Raw(1),
            AdjustmentParam::Raw(1),
        ]
    );
}

#[test]
fn hue_saturation() {
    let mut p = Vec::new();
    p.extend_from_slice(&be16(2));
    p.push(1);
    p.push(0);
    for v in [1i16, 2, 3, -1, -2, 5] {
        p.extend_from_slice(&(v as u16).to_be_bytes());
    }
    let layer = parse_single(simple_layer(&block(b"hue2", &p)), &[]);
    assert_eq!(layer.adjustment_type, "hue2");
    assert_eq!(
        layer.adjustment_info,
        vec![
            AdjustmentParam::Raw(1),
            AdjustmentParam::Raw(1),
            AdjustmentParam::Raw(2),
            AdjustmentParam::Raw(3),
            AdjustmentParam::Raw(-1),
            AdjustmentParam::Raw(-2),
            AdjustmentParam::Raw(5),
        ]
    );
}

#[test]
fn levels() {
    let mut p = Vec::new();
    p.extend_from_slice(&be16(2));
    for j in 0..140u16 {
        p.extend_from_slice(&be16(j));
    }
    let layer = parse_single(simple_layer(&block(b"levl", &p)), &[]);
    assert_eq!(layer.adjustment_type, "levl");
    assert_eq!(layer.adjustment_info.len(), 140);
    assert_eq!(layer.adjustment_info[0], AdjustmentParam::Frac255(0));
    assert_eq!(layer.adjustment_info[3], AdjustmentParam::Frac255(3));
    assert_eq!(layer.adjustment_info[4], AdjustmentParam::Frac100(4));
    assert_eq!(layer.adjustment_info[5], AdjustmentParam::Frac255(5));
    assert_eq!(layer.adjustment_info[139], AdjustmentParam::Frac100(139));

    let mut bad = Vec::new();
    bad.extend_from_slice(&be16(3));
    let file = psd(header(3, 4, 4, 8, 3), 1, &[simple_layer(&block(b"levl", &bad))], &[]);
    let (_, err) = parse_layer_records(&file).unwrap_err();
    assert_eq!(err, "Ran into an unsupported subdata version");
}

#[test]
fn curves() {
    let mut p = Vec::new();
    p.push(0);
    p.extend_from_slice(&be16(1));
    p.extend_from_slice(&be32(1));
    p.extend_from_slice(&be16(2));
    p.extend_from_slice(&be16(10)); // y1
    p.extend_from_slice(&be16(20)); // x1
    p.extend_from_slice(&be16(30)); // y2
    p.extend_from_slice(&be16(40)); // x2
    let layer = parse_single(simple_layer(&block(b"curv", &p)), &[]);
    assert_eq!(layer.adjustment_type, "curv");
    let mut expected = vec![
        AdjustmentParam::Raw(2),
        AdjustmentParam::Frac255(20),
        AdjustmentParam::Frac255(10),
        AdjustmentParam::Frac255(40),
        AdjustmentParam::Frac255(30),
    ];
    for _ in 1..32 {
        expected.push(AdjustmentParam::Raw(0));
    }
    assert_eq!(layer.adjustment_info, expected);
}

#[test]
fn black_and_white() {
    let desc = descriptor(b"null", &[(b"Rd  ", d_long(40))]);
    let mut p = be32(16).to_vec();
    p.extend_from_slice(&desc);
    let layer = parse_single(simple_layer(&block(b"blwh", &p)), &[]);
    assert_eq!(layer.adjustment_type, "blwh");
    let d = layer.adjustment_desc.expect("descriptor");
    assert_eq!(d.0, "null");
    assert_eq!(d.1.len(), 1);
    assert_eq!(d.1[0].0, "Rd  ");
    assert_eq!(d.1[0].1.long(), 40);
}

#[test]
fn modern_brightness_contrast() {
    let desc = descriptor(
        b"null",
        &[
            (b"Vrsn", d_long(1)),
            (b"Brgh", d_long(9)),
            (b"Cntr", d_long(30)),
            (b"means", d_long(127)),
            (b"Lab ", d_bool(false)),
            (b"useLegacy", d_bool(true)),
        ],
    );
    let mut p = be32(16).to_vec();
    p.extend_from_slice(&desc);
    let layer = parse_single(simple_layer(&block(b"CgEd", &p)), &[]);
    // CgEd leaves the adjustment type untouched; only the parameters land.
    assert_eq!(layer.adjustment_type, "");
    assert_eq!(
        layer.adjustment_info,
        vec![
            AdjustmentParam::Raw(9),
            AdjustmentParam::Raw(30),
            AdjustmentParam::Raw(127),
            AdjustmentParam::Raw(0),
            AdjustmentParam::Raw(1),
        ]
    );

    // A missing required key is malformed.
    let desc = descriptor(b"null", &[(b"Cntr", d_long(30))]);
    let mut p = be32(16).to_vec();
    p.extend_from_slice(&desc);
    let file = psd(header(3, 4, 4, 8, 3), 1, &[simple_layer(&block(b"CgEd", &p))], &[]);
    let (_, err) = parse_layer_records(&file).unwrap_err();
    assert_eq!(err, "Malformed data structure");
}

#[test]
fn layer_effects_descriptor() {
    let inner = descriptor(b"abcd", &[(b"In  ", d_long(1))]);
    let desc = descriptor(
        b"FXs ",
        &[
            (b"Scl ", d_untf(b"#Prc", 100.0)),
            (b"masterFXSwitch", d_bool(true)),
            (b"Txt ", d_text(&['H' as u16, 'i' as u16, 0])),
            (b"Md  ", d_enum(b"BlnM", b"Nrml")),
            (b"Vrsn", d_long(7)),
            (b"Opct", d_doub(0.75)),
            (b"Lst ", d_list(&[d_long(1), d_long(2)])),
            (b"Nest", d_objc(&inner)),
        ],
    );
    let mut p = be32(0).to_vec();
    p.extend_from_slice(&be32(16));
    p.extend_from_slice(&desc);
    let layer = parse_single(simple_layer(&block(b"lfx2", &p)), &[]);
    let d = layer.effects_desc.expect("effects descriptor");
    assert_eq!(d.0, "FXs ");
    assert_eq!(d.1.len(), 8);
    assert_eq!(d.1[0].0, "Scl ");
    let (unit, bits) = d.1[0].1.UntF();
    assert_eq!(unit, "#Prc");
    assert_eq!(f64::from_bits(bits), 100.0);
    assert!(d.1[1].1.bool());
    assert_eq!(d.1[2].1.TEXT(), "Hi");
    let (etyp, eval) = d.1[3].1._enum();
    assert_eq!(etyp, "BlnM");
    assert_eq!(eval, "Nrml");
    assert_eq!(d.1[4].1.long(), 7);
    assert_eq!(f64::from_bits(d.1[5].1.doub()), 0.75);
    let list = d.1[6].1.VlLs();
    assert_eq!(list.len(), 2);
    assert_eq!(list[0].long(), 1);
    assert_eq!(list[1].long(), 2);
    let nested = d.1[7].1.Objc();
    assert_eq!(nested.0, "abcd");
    assert_eq!(nested.1[0].1.long(), 1);

    // A preamble other than (0, 16) parses the descriptor but discards it.
    let mut p = be32(1).to_vec();
    p.extend_from_slice(&be32(16));
    p.extend_from_slice(&desc);
    let layer = parse_single(simple_layer(&block(b"lfx2", &p)), &[]);
    assert!(layer.effects_desc.is_none());
}

#[test]
fn errant_descriptor_tag_is_recorded() {
    let desc = descriptor(b"null", &[(b"Wat ", b"QQQQ".to_vec()), (b"Aftr", d_long(3))]);
    let mut p = be32(0).to_vec();
    p.extend_from_slice(&be32(16));
    p.extend_from_slice(&desc);
    let layer = parse_single(simple_layer(&block(b"lfx2", &p)), &[]);
    let d = layer.effects_desc.expect("effects descriptor");
    match &d.1[0].1 {
        DescItem::Errant(msg) => {
            assert_eq!(msg, "!!! errant descriptor subobject type... QQQQ");
        },
        other => panic!("expected error sentinel, got {:?}", other),
    }
    // The item after the sentinel still parses.
    assert_eq!(d.1[1].1.long(), 3);
}

#[test]
fn mask_channel_and_info() {
    let mut mask_body = Vec::new();
    mask_body.extend_from_slice(&0i32.to_be_bytes()); // mtop
    mask_body.extend_from_slice(&3i32.to_be_bytes()); // mleft
    mask_body.extend_from_slice(&1i32.to_be_bytes()); // mbottom
    mask_body.extend_from_slice(&5i32.to_be_bytes()); // mright
    mask_body.push(255);
    mask_body.push(0b101);
    let chan: Vec<u8> = vec![0x00, 0x00, 9, 8]; // raw mode, two mask pixels
    let rec = layer_record(
        (0, 0, 0, 0),
        &[(-2, chan.len() as u32)],
        b"norm",
        255,
        0,
        0,
        &mask_body,
        b"m",
        &[],
    );
    let layer = parse_single(rec, &chan);
    assert_eq!(layer.mask_info.x, 3);
    assert_eq!(layer.mask_info.y, 0);
    assert_eq!(layer.mask_info.w, 2);
    assert_eq!(layer.mask_info.h, 1);
    assert_eq!(layer.mask_info.default_color, 255);
    assert!(layer.mask_info.relative);
    assert!(!layer.mask_info.disabled);
    assert!(layer.mask_info.invert);
    assert_eq!(layer.mask_channel_count, 1);
    assert_eq!(layer.image_data_mask, vec![9, 8]);
}

#[test]
fn cmyk_k_plane() {
    let chan: Vec<u8> = vec![0x00, 0x00, 42];
    let rec = layer_record(
        (0, 0, 1, 1),
        &[(3, chan.len() as u32)],
        b"norm",
        255,
        0,
        0,
        &[],
        b"k",
        &[],
    );
    let file = psd(header(4, 4, 4, 8, 4), 1, &[rec], &chan);
    let layers = parse_layer_records(&file).expect("parse");
    assert_eq!(layers[0].image_data_k, vec![42]);
    assert_eq!(layers[0].image_data_rgba.len(), 4);
}

#[test]
fn unknown_tags_are_skipped() {
    let mut blocks = block(b"zzzz", &[1, 2, 3, 4, 5]);
    blocks.extend_from_slice(&block(b"tsly", &[0]));
    let layer = parse_single(simple_layer(&blocks), &[]);
    assert!(layer.funny_flag);
}

#[test]
fn bad_blend_signature() {
    let mut rec = simple_layer(&[]);
    // The blend signature sits right after the rectangle and channel count.
    rec[18] = b'X';
    let file = psd(header(3, 4, 4, 8, 3), 1, &[rec], &[]);
    let (layers, err) = parse_layer_records(&file).unwrap_err();
    assert!(layers.is_empty());
    assert_eq!(err, "Invalid blend mode magic signature");
}

#[test]
fn bad_extended_signature() {
    let rec = simple_layer(b"XXXXYYYYZZZZ");
    let file = psd(header(3, 4, 4, 8, 3), 1, &[rec], &[]);
    let (_, err) = parse_layer_records(&file).unwrap_err();
    assert_eq!(err, "Invalid extended data magic signature");
}

#[test]
fn overrunning_block_desynchronizes() {
    let mut blocks = Vec::new();
    blocks.extend_from_slice(b"8BIM");
    blocks.extend_from_slice(b"zzzz");
    blocks.extend_from_slice(&be32(100));
    let rec = simple_layer(&blocks);
    let file = psd(header(3, 4, 4, 8, 3), 1, &[rec], &[]);
    let (_, err) = parse_layer_records(&file).unwrap_err();
    assert_eq!(err, "Desynchronized while reading or skipping extra data");
}

#[test]
fn partial_list_on_failure() {
    let good = simple_layer(&[]);
    let mut bad = simple_layer(&[]);
    bad[18] = b'X';
    let file = psd(header(3, 4, 4, 8, 3), 2, &[good, bad], &[]);
    let (layers, err) = parse_layer_records(&file).unwrap_err();
    assert_eq!(layers.len(), 1);
    assert_eq!(layers[0].name, "base");
    assert_eq!(err, "Invalid blend mode magic signature");
}

#[test]
fn truncated_file_is_a_short_read() {
    let rec = simple_layer(&[]);
    let mut file = psd(header(3, 4, 4, 8, 3), 1, &[rec], &[]);
    file.truncate(file.len() - 8);
    let (_, err) = parse_layer_records(&file).unwrap_err();
    assert_eq!(err, "Unexpected end of stream");
}

#[test]
fn non_utf8_name_bytes_decode_lossily() {
    let rec = layer_record((0, 0, 0, 0), &[], b"norm", 255, 0, 0, &[], &[0xFF, b'a'], &[]);
    let layer = parse_single(rec, &[]);
    assert_eq!(layer.name, "\u{FFFD}a");
}

#[test]
fn all_four_channels_interleave() {
    // A 1x1 RGBA layer with all four channels present, raw mode.
    let r: Vec<u8> = vec![0x00, 0x00, 10];
    let g: Vec<u8> = vec![0x00, 0x00, 20];
    let b: Vec<u8> = vec![0x00, 0x00, 30];
    let a: Vec<u8> = vec![0x00, 0x00, 40];
    let mut chan = Vec::new();
    chan.extend_from_slice(&r);
    chan.extend_from_slice(&g);
    chan.extend_from_slice(&b);
    chan.extend_from_slice(&a);
    let rec = layer_record(
        (0, 0, 1, 1),
        &[(0, 3), (1, 3), (2, 3), (-1, 3)],
        b"norm",
        255,
        0,
        0,
        &[],
        b"px",
        &[],
    );
    let layer = parse_single(rec, &chan);
    assert_eq!(layer.image_data_rgba, vec![10, 20, 30, 40]);
    assert!(layer.image_data_has_g);
    assert!(layer.image_data_has_b);
    assert!(layer.image_data_has_a);
    assert_eq!(layer.mask_channel_count, 0);
}

#[test]
fn grayscale_mode_parses() {
    let rec = simple_layer(&[]);
    let file = psd(header(1, 4, 4, 8, 1), 1, &[rec], &[]);
    let layers = parse_layer_records(&file).expect("parse");
    assert_eq!(layers.len(), 1);
}

#[test]
fn empty_channel_prefix_is_skipped() {
    // A channel of declared length 2 holds only the compression-mode
    // prefix: the decoder is not invoked and the fill stays.
    let chan: Vec<u8> = vec![0x00, 0x00];
    let rec = layer_record((0, 0, 1, 1), &[(0, 2)], b"norm", 255, 0, 0, &[], b"e", &[]);
    let layer = parse_single(rec, &chan);
    assert_eq!(layer.image_data_rgba, vec![0xFF, 0xFF, 0xFF, 0xFF]);
}
