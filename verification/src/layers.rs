//! The layer walker: the top-level driver that skips the color-mode and
//! image-resources sections, then decodes every layer record — geometry,
//! channel table, blend mode, mask, name, image data and tagged extra-data
//! blocks — into a flat, bottom-to-top list of [`LayerInfo`] records.

use vstd::prelude::*;
use crate::cursor::{be_u16_at, be_u32_at, be_i32_at, get_u16, get_u32, get_i32};
use crate::descriptor::{DescItem, Descriptor, DescValue, view_fields, spec_find_field, find_field};
use crate::header::{parse_psd_metadata, header_ok, spec_header_err};
use crate::packbits::{append_img_data, copy_img_data, spec_append_decode, spec_copy_decode};
use crate::text::{utf8_lossy, utf8_lossy_of, utf16_lossy, utf16_lossy_of};

verus! {

/// Metadata about where a mask attached to an object physically is and how
/// to interpret it.
///
/// Every field in this struct is public, and it is safe to initialize with
/// `{ ..., ..Default::default() }`.
#[derive(Clone, Copy, Debug, PartialEq, Eq, Structural)]
pub struct MaskInfo {
    /// Mask global X position.
    pub x: i32,
    /// Mask global Y position.
    pub y: i32,
    /// Mask image data width.
    pub w: u32,
    /// Mask image data height.
    pub h: u32,
    /// Default color of the mask outside of its explicit image area.  Must
    /// be 0 or 255.
    pub default_color: u8,
    /// Is the mask flagged as moving along with the layer it's attached to?
    pub relative: bool,
    /// Is the mask disabled, i.e. marked as currently having no effect?
    pub disabled: bool,
    /// Is the mask marked as inverted, i.e. the default color and image data
    /// should be treated as being the opposite color?
    pub invert: bool,
}

/// The all-zero mask record a layer without mask data carries.
pub open spec fn spec_mask_default() -> MaskInfo {
    MaskInfo {
        x: 0,
        y: 0,
        w: 0,
        h: 0,
        default_color: 0,
        relative: false,
        disabled: false,
        invert: false,
    }
}

impl Default for MaskInfo {
    /// All fields zero or false.
    fn default() -> (r: Self)
        ensures
            r == spec_mask_default(),
    {
        MaskInfo {
            x: 0,
            y: 0,
            w: 0,
            h: 0,
            default_color: 0,
            relative: false,
            disabled: false,
            invert: false,
        }
    }
}

/// One decoded adjustment-layer parameter.  The PSD stores adjustment data
/// as raw integers; each parameter records how consumers are meant to scale
/// it into a fraction.
#[derive(Clone, Copy, Debug, PartialEq, Eq, Structural)]
pub enum AdjustmentParam {
    /// A raw value, meaningful as it stands (a level count, an angle, a
    /// flag stored as 0 or 1).
    Raw(i32),
    /// A byte-scaled fraction: the value over 255.
    Frac255(u16),
    /// A percent-scaled value: the value over 100 (used for gamma).
    Frac100(u16),
}

/// Dummy struct to keep the main docs from being bloated.  See
/// [`LayerInfo::blend_mode`].
///
/// Normal blend modes:
/// ```text
///     "pass" => "Normal", // "Pass through" for groups; affects composition pipeline behavior.
///     "norm" => "Normal",
///     "diss" => "Dissolve",
///     "dark" => "Darken",
///     "mul " => "Multiply",
///     "idiv" => "Color Burn",
///     "lbrn" => "Linear Burn",
///     "dkCl" => "Darken",
///     "lite" => "Lighten",
///     "scrn" => "Screen",
///     "div " => "Color Dodge",
///     "lddg" => "Add",
///     "lgCl" => "Lighten",
///     "over" => "Overlay",
///     "sLit" => "Soft Light",
///     "hLit" => "Hard Light",
///     "vLit" => "Vivid Light",
///     "lLit" => "Linear Light",
///     "pLit" => "Pin Light",
///     "hMix" => "Hard Mix",
///     "diff" => "Difference",
///     "smud" => "Exclusion",
///     "fsub" => "Subtract",
///     "fdiv" => "Divide",
///     "hue " => "Hue",
///     "sat " => "Saturation",
///     "colr" => "Color",
///     "lum " => "Luminosity",
/// ```
/// Blend modes as found in certain Class Descriptor objects in certain
/// effect- and filter-related features:
/// ```text
///     "Nrml" => "Normal",
///     "Dslv" => "Dissolve",
///     "Drkn" => "Darken",
///     "Mltp" => "Multiply",
///     "CBrn" => "Color Burn",
///     "linearBurn" => "Linear Burn",
///     "darkerColor" => "Darken",
///     "Lghn" => "Lighten",
///     "Scrn" => "Screen",
///     "CDdg" => "Color Dodge",
///     "linearDodge" => "Add",
///     "lighterColor" => "Lighten",
///     "Ovrl" => "Overlay",
///     "SftL" => "Soft Light",
///     "HrdL" => "Hard Light",
///     "vividLight" => "Vivid Light",
///     "linearLight" => "Linear Light",
///     "pinLight" => "Pin Light",
///     "hardMix" => "Hard Mix",
///     "Dfrn" => "Difference",
///     "Xclu" => "Exclusion",
///     "blendSubtraction" => "Subtract",
///     "blendDivide" => "Divide",
///     "H   " => "Hue",
///     "Strt" => "Saturation",
///     "Clr " => "Color",
///     "Lmns" => "Luminosity",
/// ```
pub struct BlendModeDocs {
    _no_init: core::marker::PhantomData<()>,
}

/// Describes a single layer stack entry.
///
/// Returned from [`parse_layer_records`].
#[derive(Debug)]
pub struct LayerInfo {
    /// Name of the layer (the Unicode name when the file carries one).
    pub name: String,
    /// Normal opacity of the layer, as the raw byte: 0 transparent, 255
    /// fully opaque.
    pub opacity: u8,
    /// Photoshop has separate "opacity" and "fill" sliders; the raw fill
    /// opacity byte, 255 when absent.
    pub fill_opacity: u8,
    /// Blend mode stored as a four-character code.  See [`BlendModeDocs`].
    pub blend_mode: String,
    /// Global X position of the layer, from the top left of the canvas.
    pub x: i32,
    /// Global Y position of the layer, from the top left of the canvas.
    pub y: i32,
    /// Layer image data width.
    pub w: u32,
    /// Layer image data height.
    pub h: u32,
    /// Number of channels in the image data.
    pub image_channel_count: u16,
    /// Four channels worth of image data, interleaved: one full RGBA pixel
    /// is 4 consecutive bytes.  Absent channels stay at the 0xFF fill.
    pub image_data_rgba: Vec<u8>,
    /// The K channel of CMYK image data, if present; planar.
    pub image_data_k: Vec<u8>,
    /// Whether the second channel of the RGBA data came from the file
    /// (true) or was synthesized (false).
    pub image_data_has_g: bool,
    /// Whether the third channel of the RGBA data came from the file (true)
    /// or was synthesized (false).
    pub image_data_has_b: bool,
    /// Whether the fourth channel of the RGBA data came from the file
    /// (true) or was synthesized (false).
    pub image_data_has_a: bool,
    /// Number of auxiliary mask channels the layer declared.
    pub mask_channel_count: u16,
    /// Where the mask is, and how to interpret it.
    pub mask_info: MaskInfo,
    /// Actual mask data; planar, unlike the RGBA data.
    pub image_data_mask: Vec<u8>,
    /// If this is a group opener, is the group expanded?
    pub group_expanded: bool,
    /// Is this a group opener?
    pub group_opener: bool,
    /// Is this a group closer?
    pub group_closer: bool,
    /// The inverse of the PSD "transparency shapes layer" flag.
    pub funny_flag: bool,
    /// Does this layer have the "clipping mask" flag enabled?
    pub is_clipped: bool,
    /// Is this layer alpha locked?
    pub is_alpha_locked: bool,
    /// Is this layer visible?
    pub is_visible: bool,
    /// Is this an adjustment layer, and if so, what kind?  Blank if not an
    /// adjustment layer.
    pub adjustment_type: String,
    /// Pile of raw, flattened adjustment layer parameters, in the order the
    /// adjustment's block stores them.
    pub adjustment_info: Vec<AdjustmentParam>,
    /// Some adjustments use class descriptors instead of fixed layouts;
    /// those adjustments get their data here.
    pub adjustment_desc: Option<Descriptor>,
    /// What effects, if any, does this layer have attached to it?
    pub effects_desc: Option<Descriptor>,
}

/// The structural invariant every layer record a successful parse emits
/// satisfies: the pixel grid is exactly `4 * w * h` bytes, a present K plane
/// is exactly `w * h` bytes, a present mask plane matches the mask
/// rectangle, the group markers are consistent, and the mask default color
/// is black or white.
pub open spec fn layer_wf(l: LayerInfo) -> bool {
    &&& l.image_data_rgba@.len() == 4 * l.w * l.h
    &&& (l.image_data_k@.len() == 0 || l.image_data_k@.len() == l.w * l.h)
    &&& (l.image_data_mask@.len() == 0 || l.image_data_mask@.len() == l.mask_info.w
        * l.mask_info.h)
    &&& !(l.group_opener && l.group_closer)
    &&& (l.group_expanded ==> l.group_opener)
    &&& (l.mask_info.default_color == 0 || l.mask_info.default_color == 255)
}

/// The diagnostic strings the layer walker can report: the short-read and
/// signature errors, the unsupported sub-block versions, the malformed
/// descriptor and mask errors, the oversized-grid error, the two
/// desynchronization errors, and the unsupported compression mode.
pub open spec fn spec_walk_err_msg(m: Seq<char>) -> bool {
    ||| m == "Unexpected end of stream"@
    ||| m == "Invalid blend mode magic signature"@
    ||| m == "Invalid extended data magic signature"@
    ||| m == "Ran into an unsupported subdata version"@
    ||| m == "Malformed data structure"@
    ||| m == "Layer dimensions too large"@
    ||| m == "unsupported compression format"@
    ||| m == "Desynchronized while reading image data"@
    ||| m == "Desynchronized while reading or skipping extra data"@
}

/// The two's-complement reinterpretation of a 16-bit value.
pub open spec fn i16_of_u16(x: u16) -> i32 {
    if x >= 0x8000 {
        (x - 0x10000) as i32
    } else {
        x as i32
    }
}

/// Section divider ("lsct"): a 32-bit kind.  Kind 1 opens an expanded
/// group, kind 2 opens a collapsed group, kind 3 closes a group.
fn apply_lsct(layer: &mut LayerInfo, data: &[u8], pos: usize) -> (r: Result<(), String>)
    requires
        pos <= data@.len(),
    ensures
        r is Ok <==> pos + 4 <= data@.len(),
        r is Ok ==> *final(layer) == (LayerInfo {
            group_expanded: be_u32_at(data@, pos as int) == 1,
            group_opener: be_u32_at(data@, pos as int) == 1 || be_u32_at(data@, pos as int) == 2,
            group_closer: be_u32_at(data@, pos as int) == 3,
            ..*old(layer)
        }),
        r is Err ==> *final(layer) == *old(layer) && (r matches Err(e) && e@
            == "Unexpected end of stream"@),
{
    let dlen = data.len();
    if dlen < 4 || pos > dlen - 4 {
        return Err("Unexpected end of stream".to_owned());
    }
    let kind = get_u32(data, pos);
    layer.group_expanded = kind == 1;
    layer.group_opener = kind == 1 || kind == 2;
    layer.group_closer = kind == 3;
    Ok(())
}

/// The mathematical value of a "luni" payload: the UTF-16 name it carries.
pub open spec fn spec_luni_name(data: Seq<u8>, pos: int) -> Seq<char> {
    let n = be_u32_at(data, pos);
    utf16_lossy_of(Seq::new(n as nat, |i: int| be_u16_at(data, pos + 4 + 2 * i)))
}

/// Whether a "luni" payload is long enough to decode.
pub open spec fn luni_ok(data: Seq<u8>, pos: int) -> bool {
    &&& pos + 4 <= data.len()
    &&& pos + 4 + 2 * be_u32_at(data, pos) <= data.len()
}

/// Unicode name ("luni"): a 32-bit code-unit count, then that many UTF-16
/// code units; overwrites the layer's name.
fn apply_luni(layer: &mut LayerInfo, data: &[u8], pos: usize) -> (r: Result<(), String>)
    requires
        pos <= data@.len(),
    ensures
        r is Ok <==> luni_ok(data@, pos as int),
        r is Ok ==> *final(layer) == (LayerInfo { name: final(layer).name, ..*old(layer) })
            && final(layer).name@ == spec_luni_name(data@, pos as int),
        r is Err ==> *final(layer) == *old(layer) && (r matches Err(e) && e@
            == "Unexpected end of stream"@),
{
    let dlen = data.len();
    if dlen < 4 || pos > dlen - 4 {
        return Err("Unexpected end of stream".to_owned());
    }
    let n = get_u32(data, pos);
    let base = pos + 4;
    if (n as u64) * 2 > (dlen - base) as u64 {
        return Err("Unexpected end of stream".to_owned());
    }
    let nn = n as usize;
    let mut units: Vec<u16> = Vec::new();
    let mut i: usize = 0;
    while i < nn
        invariant
            dlen == data@.len(),
            base + 2 * nn <= dlen,
            i <= nn,
            units@.len() == i,
            forall|k: int| 0 <= k < i ==> units@[k] == be_u16_at(data@, base + 2 * k),
        decreases nn - i,
    {
        let v = get_u16(data, base + 2 * i);
        units.push(v);
        i = i + 1;
    }
    proof {
        assert(units@ =~= Seq::new(n as nat, |k: int| be_u16_at(data@, pos + 4 + 2 * k)));
    }
    layer.name = utf16_lossy(units.as_slice());
    Ok(())
}

/// Transparency-shapes-layer ("tsly"): one byte; the layer flag is its
/// inverse.
fn apply_tsly(layer: &mut LayerInfo, data: &[u8], pos: usize) -> (r: Result<(), String>)
    requires
        pos <= data@.len(),
    ensures
        r is Ok <==> pos + 1 <= data@.len(),
        r is Ok ==> *final(layer) == (LayerInfo {
            funny_flag: data@[pos as int] == 0,
            ..*old(layer)
        }),
        r is Err ==> *final(layer) == *old(layer) && (r matches Err(e) && e@
            == "Unexpected end of stream"@),
{
    if pos >= data.len() {
        return Err("Unexpected end of stream".to_owned());
    }
    let thing = data[pos];
    layer.funny_flag = thing == 0;
    Ok(())
}

/// Fill opacity ("iOpa"): one raw byte.
fn apply_iopa(layer: &mut LayerInfo, data: &[u8], pos: usize) -> (r: Result<(), String>)
    requires
        pos <= data@.len(),
    ensures
        r is Ok <==> pos + 1 <= data@.len(),
        r is Ok ==> *final(layer) == (LayerInfo {
            fill_opacity: data@[pos as int],
            ..*old(layer)
        }),
        r is Err ==> *final(layer) == *old(layer) && (r matches Err(e) && e@
            == "Unexpected end of stream"@),
{
    if pos >= data.len() {
        return Err("Unexpected end of stream".to_owned());
    }
    layer.fill_opacity = data[pos];
    Ok(())
}

/// Layer effects ("lfx2"): two 32-bit preamble words, then a descriptor.
/// The descriptor is stored only when the preamble reads (0, 16); a
/// different preamble still parses the descriptor, then discards it.
fn apply_lfx2(layer: &mut LayerInfo, data: &[u8], pos: usize) -> (r: Result<(), String>)
    requires
        pos <= data@.len(),
    ensures
        r is Ok <==> pos + 8 <= data@.len() && crate::descriptor::spec_read_descriptor(
            data@,
            pos + 8,
        ) is Some,
        r is Ok ==> *final(layer) == (LayerInfo {
            effects_desc: final(layer).effects_desc,
            ..*old(layer)
        }),
        r is Ok && be_u32_at(data@, pos as int) == 0 && be_u32_at(data@, pos + 4) == 16 ==> {
            &&& final(layer).effects_desc matches Some(d)
            &&& crate::descriptor::spec_read_descriptor(data@, pos + 8) matches Some((dv, q))
                && (d.0@, view_fields(d.1@)) == dv
        },
        r is Ok && !(be_u32_at(data@, pos as int) == 0 && be_u32_at(data@, pos + 4) == 16)
            ==> final(layer).effects_desc == old(layer).effects_desc,
        r is Err ==> *final(layer) == *old(layer) && (r matches Err(e) && e@
            == "Unexpected end of stream"@),
{
    let dlen = data.len();
    if dlen < 8 || pos > dlen - 8 {
        return Err("Unexpected end of stream".to_owned());
    }
    let a = get_u32(data, pos);
    let b = get_u32(data, pos + 4);
    let (desc, _q) = match crate::descriptor::read_descriptor_at(data, pos + 8) {
        Ok(x) => x,
        Err(e) => {
            return Err(e);
        },
    };
    if a == 0 && b == 16 {
        layer.effects_desc = Some(desc);
    }
    Ok(())
}

/// Posterize ("post"): one 16-bit level count.
fn apply_post(layer: &mut LayerInfo, data: &[u8], pos: usize) -> (r: Result<(), String>)
    requires
        pos <= data@.len(),
    ensures
        r is Ok <==> pos + 2 <= data@.len(),
        r is Ok ==> *final(layer) == (LayerInfo {
            adjustment_type: final(layer).adjustment_type,
            adjustment_info: final(layer).adjustment_info,
            ..*old(layer)
        }),
        r is Ok ==> final(layer).adjustment_type@ == "post"@ && final(layer).adjustment_info@
            == seq![AdjustmentParam::Raw(be_u16_at(data@, pos as int) as i32)],
        r is Err ==> *final(layer) == *old(layer) && (r matches Err(e) && e@
            == "Unexpected end of stream"@),
{
    let dlen = data.len();
    if dlen < 2 || pos > dlen - 2 {
        return Err("Unexpected end of stream".to_owned());
    }
    let v = get_u16(data, pos);
    let mut info: Vec<AdjustmentParam> = Vec::new();
    info.push(AdjustmentParam::Raw(v as i32));
    layer.adjustment_type = "post".to_owned();
    layer.adjustment_info = info;
    proof {
        assert(final(layer).adjustment_info@ =~= seq![
            AdjustmentParam::Raw(be_u16_at(data@, pos as int) as i32),
        ]);
    }
    Ok(())
}

/// Invert ("nvrt"): no payload.
fn apply_nvrt(layer: &mut LayerInfo) -> (r: Result<(), String>)
    ensures
        r is Ok,
        *final(layer) == (LayerInfo {
            adjustment_type: final(layer).adjustment_type,
            adjustment_info: final(layer).adjustment_info,
            ..*old(layer)
        }),
        final(layer).adjustment_type@ == "nvrt"@,
        final(layer).adjustment_info@ == Seq::<AdjustmentParam>::empty(),
{
    layer.adjustment_type = "nvrt".to_owned();
    layer.adjustment_info = Vec::new();
    Ok(())
}

/// Legacy brightness/contrast ("brit"): brightness, contrast and mean as
/// 16-bit values, a lab-only byte, and a constant legacy marker.
fn apply_brit(layer: &mut LayerInfo, data: &[u8], pos: usize) -> (r: Result<(), String>)
    requires
        pos <= data@.len(),
    ensures
        r is Ok <==> pos + 7 <= data@.len(),
        r is Ok ==> *final(layer) == (LayerInfo {
            adjustment_type: final(layer).adjustment_type,
            adjustment_info: final(layer).adjustment_info,
            ..*old(layer)
        }),
        r is Ok ==> final(layer).adjustment_type@ == "brit"@ && final(layer).adjustment_info@
            == seq![
            AdjustmentParam::Raw(be_u16_at(data@, pos as int) as i32),
            AdjustmentParam::Raw(be_u16_at(data@, pos + 2) as i32),
            AdjustmentParam::Raw(be_u16_at(data@, pos + 4) as i32),
            AdjustmentParam::Raw(data@[pos + 6] as i32),
            AdjustmentParam::Raw(1),
        ],
        r is Err ==> *final(layer) == *old(layer) && (r matches Err(e) && e@
            == "Unexpected end of stream"@),
{
    let dlen = data.len();
    if dlen < 7 || pos > dlen - 7 {
        return Err("Unexpected end of stream".to_owned());
    }
    let brightness = get_u16(data, pos);
    let contrast = get_u16(data, pos + 2);
    let mean = get_u16(data, pos + 4);
    let lab_only = data[pos + 6];
    let mut info: Vec<AdjustmentParam> = Vec::new();
    info.push(AdjustmentParam::Raw(brightness as i32));
    info.push(AdjustmentParam::Raw(contrast as i32));
    info.push(AdjustmentParam::Raw(mean as i32));
    info.push(AdjustmentParam::Raw(lab_only as i32));
    info.push(AdjustmentParam::Raw(1));
    layer.adjustment_type = "brit".to_owned();
    layer.adjustment_info = info;
    proof {
        assert(final(layer).adjustment_info@ =~= seq![
            AdjustmentParam::Raw(be_u16_at(data@, pos as int) as i32),
            AdjustmentParam::Raw(be_u16_at(data@, pos + 2) as i32),
            AdjustmentParam::Raw(be_u16_at(data@, pos + 4) as i32),
            AdjustmentParam::Raw(data@[pos + 6] as i32),
            AdjustmentParam::Raw(1),
        ]);
    }
    Ok(())
}

/// Threshold ("thrs"): one 16-bit level.
fn apply_thrs(layer: &mut LayerInfo, data: &[u8], pos: usize) -> (r: Result<(), String>)
    requires
        pos <= data@.len(),
    ensures
        r is Ok <==> pos + 2 <= data@.len(),
        r is Ok ==> *final(layer) == (LayerInfo {
            adjustment_type: final(layer).adjustment_type,
            adjustment_info: final(layer).adjustment_info,
            ..*old(layer)
        }),
        r is Ok ==> final(layer).adjustment_type@ == "thrs"@ && final(layer).adjustment_info@
            == seq![AdjustmentParam::Raw(be_u16_at(data@, pos as int) as i32)],
        r is Err ==> *final(layer) == *old(layer) && (r matches Err(e) && e@
            == "Unexpected end of stream"@),
{
    let dlen = data.len();
    if dlen < 2 || pos > dlen - 2 {
        return Err("Unexpected end of stream".to_owned());
    }
    let v = get_u16(data, pos);
    let mut info: Vec<AdjustmentParam> = Vec::new();
    info.push(AdjustmentParam::Raw(v as i32));
    layer.adjustment_type = "thrs".to_owned();
    layer.adjustment_info = info;
    proof {
        assert(final(layer).adjustment_info@ =~= seq![
            AdjustmentParam::Raw(be_u16_at(data@, pos as int) as i32),
        ]);
    }
    Ok(())
}

/// Hue/Saturation ("hue2"): a skipped version word, a colorization flag and
/// a pad byte, then two (hue, saturation, lightness) triples of signed
/// 16-bit values: "colorization" first, "master" second.
fn apply_hue2(layer: &mut LayerInfo, data: &[u8], pos: usize) -> (r: Result<(), String>)
    requires
        pos <= data@.len(),
    ensures
        r is Ok <==> pos + 16 <= data@.len(),
        r is Ok ==> *final(layer) == (LayerInfo {
            adjustment_type: final(layer).adjustment_type,
            adjustment_info: final(layer).adjustment_info,
            ..*old(layer)
        }),
        r is Ok ==> final(layer).adjustment_type@ == "hue2"@ && final(layer).adjustment_info@
            == seq![
            AdjustmentParam::Raw(data@[pos + 2] as i32),
            AdjustmentParam::Raw(i16_of_u16(be_u16_at(data@, pos + 4))),
            AdjustmentParam::Raw(i16_of_u16(be_u16_at(data@, pos + 6))),
            AdjustmentParam::Raw(i16_of_u16(be_u16_at(data@, pos + 8))),
            AdjustmentParam::Raw(i16_of_u16(be_u16_at(data@, pos + 10))),
            AdjustmentParam::Raw(i16_of_u16(be_u16_at(data@, pos + 12))),
            AdjustmentParam::Raw(i16_of_u16(be_u16_at(data@, pos + 14))),
        ],
        r is Err ==> *final(layer) == *old(layer) && (r matches Err(e) && e@
            == "Unexpected end of stream"@),
{
    let dlen = data.len();
    if dlen < 16 || pos > dlen - 16 {
        return Err("Unexpected end of stream".to_owned());
    }
    let colorization = data[pos + 2];
    let mut info: Vec<AdjustmentParam> = Vec::new();
    info.push(AdjustmentParam::Raw(colorization as i32));
    let mut off: usize = pos + 4;
    let ghost base: int = pos + 4;
    let mut k: usize = 0;
    while k < 6
        invariant
            dlen == data@.len(),
            pos + 16 <= dlen,
            base == pos + 4,
            k <= 6,
            off == pos + 4 + 2 * k,
            info@.len() == 1 + k,
            info@[0] == AdjustmentParam::Raw(data@[pos + 2] as i32),
            forall|t: int|
                1 <= t <= k ==> #[trigger] info@[t] == AdjustmentParam::Raw(
                    i16_of_u16(be_u16_at(data@, base + 2 * (t - 1))),
                ),
        decreases 6 - k,
    {
        let v = get_u16(data, off);
        let sv: i32 = if v >= 0x8000 {
            v as i32 - 0x10000
        } else {
            v as i32
        };
        info.push(AdjustmentParam::Raw(sv));
        off = off + 2;
        k = k + 1;
    }
    layer.adjustment_type = "hue2".to_owned();
    layer.adjustment_info = info;
    proof {
        assert(final(layer).adjustment_info@ =~= seq![
            AdjustmentParam::Raw(data@[pos + 2] as i32),
            AdjustmentParam::Raw(i16_of_u16(be_u16_at(data@, pos + 4))),
            AdjustmentParam::Raw(i16_of_u16(be_u16_at(data@, pos + 6))),
            AdjustmentParam::Raw(i16_of_u16(be_u16_at(data@, pos + 8))),
            AdjustmentParam::Raw(i16_of_u16(be_u16_at(data@, pos + 10))),
            AdjustmentParam::Raw(i16_of_u16(be_u16_at(data@, pos + 12))),
            AdjustmentParam::Raw(i16_of_u16(be_u16_at(data@, pos + 14))),
        ]);
    }
    Ok(())
}

/// The 140 levels parameters: 28 groups of four byte-scaled bounds and one
/// percent-scaled gamma, laid out as consecutive 16-bit values at `base`.
pub open spec fn spec_levl_params(data: Seq<u8>, base: int) -> Seq<AdjustmentParam> {
    Seq::new(140, |j: int|
        if j % 5 == 4 {
            AdjustmentParam::Frac100(be_u16_at(data, base + 2 * j))
        } else {
            AdjustmentParam::Frac255(be_u16_at(data, base + 2 * j))
        })
}

/// Levels ("levl"): a version word that must be 2, then 28 rows of
/// (in-floor, in-ceil, out-floor, out-ceil, gamma), each a 16-bit value.
fn apply_levl(layer: &mut LayerInfo, data: &[u8], pos: usize) -> (r: Result<(), String>)
    requires
        pos <= data@.len(),
    ensures
        r is Ok <==> pos + 2 <= data@.len() && be_u16_at(data@, pos as int) == 2 && pos + 282
            <= data@.len(),
        r is Ok ==> *final(layer) == (LayerInfo {
            adjustment_type: final(layer).adjustment_type,
            adjustment_info: final(layer).adjustment_info,
            ..*old(layer)
        }),
        r is Ok ==> final(layer).adjustment_type@ == "levl"@ && final(layer).adjustment_info@
            == spec_levl_params(data@, pos + 2),
        r is Err ==> *final(layer) == *old(layer),
        r matches Err(e) ==> e@ == "Unexpected end of stream"@ || e@
            == "Ran into an unsupported subdata version"@,
        r is Err && pos + 2 <= data@.len() && be_u16_at(data@, pos as int) != 2 ==> (r matches Err(
            e,
        ) && e@ == "Ran into an unsupported subdata version"@),
{
    let dlen = data.len();
    if dlen < 2 || pos > dlen - 2 {
        return Err("Unexpected end of stream".to_owned());
    }
    let ver = get_u16(data, pos);
    if ver != 2 {
        return Err("Ran into an unsupported subdata version".to_owned());
    }
    if dlen < 282 || pos > dlen - 282 {
        return Err("Unexpected end of stream".to_owned());
    }
    let base = pos + 2;
    let mut info: Vec<AdjustmentParam> = Vec::new();
    let mut j: usize = 0;
    while j < 140
        invariant
            dlen == data@.len(),
            pos + 282 <= dlen,
            base == pos + 2,
            j <= 140,
            info@.len() == j,
            forall|t: int|
                0 <= t < j ==> info@[t] == (if t % 5 == 4 {
                    AdjustmentParam::Frac100(be_u16_at(data@, base + 2 * t))
                } else {
                    AdjustmentParam::Frac255(be_u16_at(data@, base + 2 * t))
                }),
        decreases 140 - j,
    {
        let v = get_u16(data, base + 2 * j);
        if j % 5 == 4 {
            info.push(AdjustmentParam::Frac100(v));
        } else {
            info.push(AdjustmentParam::Frac255(v));
        }
        j = j + 1;
    }
    layer.adjustment_type = "levl".to_owned();
    layer.adjustment_info = info;
    proof {
        assert(final(layer).adjustment_info@ =~= spec_levl_params(data@, pos + 2));
    }
    Ok(())
}

/// The flattened curve parameters for channels `bit` through 31: for each
/// enabled channel a point count followed by its (x, y) pairs byte-scaled,
/// and a lone zero for each disabled channel.  `None` means a short read.
pub open spec fn spec_curv_bits(data: Seq<u8>, pos: int, enabled: u32, bit: int) -> Option<(
    Seq<AdjustmentParam>,
    int,
)>
    decreases 32 - bit,
{
    if bit >= 32 {
        Some((Seq::empty(), pos))
    } else if enabled & (1u32 << bit as u32) != 0 {
        if pos + 2 <= data.len() {
            let n = be_u16_at(data, pos);
            if pos + 2 + 4 * n <= data.len() {
                let pts = Seq::new((2 * n) as nat, |t: int|
                    if t % 2 == 0 {
                        AdjustmentParam::Frac255(be_u16_at(data, pos + 4 + 2 * t))
                    } else {
                        AdjustmentParam::Frac255(be_u16_at(data, pos + 2 + 2 * (t - 1)))
                    });
                match spec_curv_bits(data, pos + 2 + 4 * n, enabled, bit + 1) {
                    Some((rest, q)) => Some((
                        seq![AdjustmentParam::Raw(n as i32)] + pts + rest,
                        q,
                    )),
                    None => None,
                }
            } else {
                None
            }
        } else {
            None
        }
    } else {
        match spec_curv_bits(data, pos, enabled, bit + 1) {
            Some((rest, q)) => Some((seq![AdjustmentParam::Raw(0)] + rest, q)),
            None => None,
        }
    }
}

/// Curves ("curv"): a skipped byte, a version word that must be 1, a 32-bit
/// enabled-channel bitmask, then per enabled channel a point count and that
/// many (y, x) 16-bit pairs, flattened as count then x, y per point.
fn apply_curv(layer: &mut LayerInfo, data: &[u8], pos: usize) -> (r: Result<(), String>)
    requires
        pos <= data@.len(),
    ensures
        r is Ok <==> pos + 7 <= data@.len() && be_u16_at(data@, pos + 1) == 1 && spec_curv_bits(
            data@,
            pos + 7,
            be_u32_at(data@, pos + 3),
            0,
        ) is Some,
        r is Ok ==> *final(layer) == (LayerInfo {
            adjustment_type: final(layer).adjustment_type,
            adjustment_info: final(layer).adjustment_info,
            ..*old(layer)
        }),
        r is Ok ==> final(layer).adjustment_type@ == "curv"@,
        r is Ok ==> (spec_curv_bits(data@, pos + 7, be_u32_at(data@, pos + 3), 0) matches Some((
            params,
            q,
        )) && final(layer).adjustment_info@ == params),
        r is Err ==> *final(layer) == *old(layer),
        r matches Err(e) ==> e@ == "Unexpected end of stream"@ || e@
            == "Ran into an unsupported subdata version"@,
        r is Err && pos + 7 <= data@.len() && be_u16_at(data@, pos + 1) != 1 ==> (r matches Err(
            e,
        ) && e@ == "Ran into an unsupported subdata version"@),
{
    let dlen = data.len();
    if dlen < 7 || pos > dlen - 7 {
        return Err("Unexpected end of stream".to_owned());
    }
    let ver = get_u16(data, pos + 1);
    if ver != 1 {
        return Err("Ran into an unsupported subdata version".to_owned());
    }
    let enabled = get_u32(data, pos + 3);
    let start = pos + 7;
    let mut info: Vec<AdjustmentParam> = Vec::new();
    let mut bit: u32 = 0;
    let mut cur: usize = start;
    proof {
        match spec_curv_bits(data@, cur as int, enabled, 0) {
            Some((ps, q)) => {
                assert(info@ + ps =~= ps);
            },
            None => {},
        }
    }
    while bit < 32
        invariant
            dlen == data@.len(),
            pos + 7 <= dlen,
            be_u16_at(data@, pos + 1) == 1,
            enabled == be_u32_at(data@, pos + 3),
            start == pos + 7,
            start <= cur <= dlen,
            bit <= 32,
            match spec_curv_bits(data@, cur as int, enabled, bit as int) {
                Some((ps, q)) => spec_curv_bits(data@, start as int, enabled, 0) matches Some((
                    all,
                    qq,
                )) && all == info@ + ps && qq == q,
                None => spec_curv_bits(data@, start as int, enabled, 0) is None,
            },
        decreases 32 - bit,
    {
        let ghost info0 = info@;
        let ghost cur0: int = cur as int;
        if enabled & (1u32 << bit) != 0 {
            if dlen < 2 || cur > dlen - 2 {
                return Err("Unexpected end of stream".to_owned());
            }
            let n = get_u16(data, cur);
            if (n as u64) * 4 > (dlen - (cur + 2)) as u64 {
                return Err("Unexpected end of stream".to_owned());
            }
            info.push(AdjustmentParam::Raw(n as i32));
            let nn = n as usize;
            let pbase = cur + 2;
            let ghost info1 = info@;
            let mut k: usize = 0;
            while k < nn
                invariant
                    dlen == data@.len(),
                    pbase + 4 * nn <= dlen,
                    k <= nn,
                    info@.len() == info1.len() + 2 * k,
                    info@.take(info1.len() as int) == info1,
                    forall|t: int|
                        info1.len() <= t < info@.len() ==> #[trigger] info@[t] == (if (t
                            - info1.len()) % 2 == 0 {
                            AdjustmentParam::Frac255(
                                be_u16_at(data@, pbase + 2 + 2 * (t - info1.len())),
                            )
                        } else {
                            AdjustmentParam::Frac255(
                                be_u16_at(data@, pbase + 2 * (t - info1.len() - 1)),
                            )
                        }),
                decreases nn - k,
            {
                let y = get_u16(data, pbase + 4 * k);
                let x = get_u16(data, pbase + 4 * k + 2);
                info.push(AdjustmentParam::Frac255(x));
                info.push(AdjustmentParam::Frac255(y));
                k = k + 1;
                proof {
                    assert(info@.take(info1.len() as int) =~= info1);
                }
            }
            cur = pbase + 4 * nn;
            proof {
                let pts = Seq::new((2 * n) as nat, |t: int|
                    if t % 2 == 0 {
                        AdjustmentParam::Frac255(be_u16_at(data@, cur0 + 4 + 2 * t))
                    } else {
                        AdjustmentParam::Frac255(be_u16_at(data@, cur0 + 2 + 2 * (t - 1)))
                    });
                assert(info1 =~= info0 + seq![AdjustmentParam::Raw(n as i32)]);
                assert(pts.len() == 2 * nn);
                assert(info@.len() == info1.len() + 2 * nn);
                assert forall|i: int| 0 <= i < info@.len() implies info@[i] == (info0 + seq![
                    AdjustmentParam::Raw(n as i32),
                ] + pts)[i] by {
                    if i < info1.len() {
                        assert(info@[i] == info@.take(info1.len() as int)[i]);
                    } else {
                        assert(pts[i - info1.len()] == info@[i]);
                    }
                }
                assert(info@ =~= info0 + seq![AdjustmentParam::Raw(n as i32)] + pts);
                match spec_curv_bits(data@, cur as int, enabled, bit + 1) {
                    Some((rest, q)) => {
                        assert(spec_curv_bits(data@, cur0, enabled, bit as int) == Some((
                            seq![AdjustmentParam::Raw(n as i32)] + pts + rest,
                            q,
                        )));
                        assert(info0 + (seq![AdjustmentParam::Raw(n as i32)] + pts + rest)
                            =~= info@ + rest);
                    },
                    None => {
                        assert(spec_curv_bits(data@, cur0, enabled, bit as int) is None);
                    },
                }
            }
        } else {
            info.push(AdjustmentParam::Raw(0));
            proof {
                match spec_curv_bits(data@, cur as int, enabled, bit + 1) {
                    Some((rest, q)) => {
                        assert(spec_curv_bits(data@, cur0, enabled, bit as int) == Some((
                            seq![AdjustmentParam::Raw(0)] + rest,
                            q,
                        )));
                        assert(info0 + (seq![AdjustmentParam::Raw(0)] + rest) =~= info@ + rest);
                    },
                    None => {
                        assert(spec_curv_bits(data@, cur0, enabled, bit as int) is None);
                    },
                }
            }
        }
        bit = bit + 1;
    }
    layer.adjustment_type = "curv".to_owned();
    layer.adjustment_info = info;
    proof {
        assert(spec_curv_bits(data@, cur as int, enabled, 32int) == Some((
            Seq::<AdjustmentParam>::empty(),
            cur as int,
        )));
        assert(final(layer).adjustment_info@ + Seq::<AdjustmentParam>::empty()
            =~= final(layer).adjustment_info@);
    }
    Ok(())
}

/// Black & White ("blwh"): a 32-bit length that must read 16, then a
/// descriptor stored as the adjustment data.
fn apply_blwh(layer: &mut LayerInfo, data: &[u8], pos: usize) -> (r: Result<(), String>)
    requires
        pos <= data@.len(),
    ensures
        r is Ok <==> pos + 4 <= data@.len() && be_u32_at(data@, pos as int) == 16
            && crate::descriptor::spec_read_descriptor(data@, pos + 4) is Some,
        r is Ok ==> *final(layer) == (LayerInfo {
            adjustment_type: final(layer).adjustment_type,
            adjustment_desc: final(layer).adjustment_desc,
            ..*old(layer)
        }),
        r is Ok ==> final(layer).adjustment_type@ == "blwh"@,
        r is Ok ==> (crate::descriptor::spec_read_descriptor(data@, pos + 4) matches Some((
            dv,
            q,
        )) && final(layer).adjustment_desc is Some && ({
            let d = final(layer).adjustment_desc->0;
            (d.0@, view_fields(d.1@)) == dv
        })),
        r is Err ==> *final(layer) == *old(layer),
        r matches Err(e) ==> e@ == "Unexpected end of stream"@ || e@
            == "Ran into an unsupported subdata version"@,
        r is Err && pos + 4 <= data@.len() && be_u32_at(data@, pos as int) != 16 ==> (r
            matches Err(e) && e@ == "Ran into an unsupported subdata version"@),
{
    let dlen = data.len();
    if dlen < 4 || pos > dlen - 4 {
        return Err("Unexpected end of stream".to_owned());
    }
    let v = get_u32(data, pos);
    if v != 16 {
        return Err("Ran into an unsupported subdata version".to_owned());
    }
    let (desc, _q) = match crate::descriptor::read_descriptor_at(data, pos + 4) {
        Ok(x) => x,
        Err(e) => {
            return Err(e);
        },
    };
    layer.adjustment_type = "blwh".to_owned();
    layer.adjustment_desc = Some(desc);
    Ok(())
}

/// Whether a "CgEd" payload at `pos` decodes: the 16 preamble, a
/// descriptor, and all five required keys present with the right kinds.
pub open spec fn spec_cged_ok(data: Seq<u8>, pos: int) -> bool {
    &&& pos + 4 <= data.len()
    &&& be_u32_at(data, pos) == 16
    &&& crate::descriptor::spec_read_descriptor(data, pos + 4) matches Some((dv, q))
    &&& (spec_find_field(
        crate::descriptor::spec_read_descriptor(data, pos + 4)->Some_0.0.1,
        "Brgh"@,
    ) matches Some(DescValue::Long(b1)))
    &&& (spec_find_field(
        crate::descriptor::spec_read_descriptor(data, pos + 4)->Some_0.0.1,
        "Cntr"@,
    ) matches Some(DescValue::Long(b2)))
    &&& (spec_find_field(
        crate::descriptor::spec_read_descriptor(data, pos + 4)->Some_0.0.1,
        "means"@,
    ) matches Some(DescValue::Long(b3)))
    &&& (spec_find_field(
        crate::descriptor::spec_read_descriptor(data, pos + 4)->Some_0.0.1,
        "Lab "@,
    ) matches Some(DescValue::Bool(b4)))
    &&& (spec_find_field(
        crate::descriptor::spec_read_descriptor(data, pos + 4)->Some_0.0.1,
        "useLegacy"@,
    ) matches Some(DescValue::Bool(b5)))
}

/// Modern brightness/contrast ("CgEd"): a 32-bit length that must read 16,
/// then a descriptor whose "Brgh", "Cntr" and "means" integers and "Lab "
/// and "useLegacy" flags become the adjustment parameters.
fn apply_cged(layer: &mut LayerInfo, data: &[u8], pos: usize) -> (r: Result<(), String>)
    requires
        pos <= data@.len(),
    ensures
        r is Ok <==> spec_cged_ok(data@, pos as int),
        r is Ok ==> *final(layer) == (LayerInfo {
            adjustment_info: final(layer).adjustment_info,
            ..*old(layer)
        }),
        r is Ok ==> (crate::descriptor::spec_read_descriptor(data@, pos + 4) matches Some((
            dv,
            q,
        )) && {
            &&& spec_find_field(dv.1, "Brgh"@) matches Some(DescValue::Long(brgh))
            &&& spec_find_field(dv.1, "Cntr"@) matches Some(DescValue::Long(cntr))
            &&& spec_find_field(dv.1, "means"@) matches Some(DescValue::Long(means))
            &&& spec_find_field(dv.1, "Lab "@) matches Some(DescValue::Bool(lab))
            &&& spec_find_field(dv.1, "useLegacy"@) matches Some(DescValue::Bool(legacy))
            &&& final(layer).adjustment_info@ == seq![
                AdjustmentParam::Raw(spec_find_field(dv.1, "Brgh"@)->Some_0->Long_0),
                AdjustmentParam::Raw(spec_find_field(dv.1, "Cntr"@)->Some_0->Long_0),
                AdjustmentParam::Raw(spec_find_field(dv.1, "means"@)->Some_0->Long_0),
                AdjustmentParam::Raw(
                    if spec_find_field(dv.1, "Lab "@)->Some_0->Bool_0 {
                        1int
                    } else {
                        0int
                    } as i32,
                ),
                AdjustmentParam::Raw(
                    if spec_find_field(dv.1, "useLegacy"@)->Some_0->Bool_0 {
                        1int
                    } else {
                        0int
                    } as i32,
                ),
            ]
        }),
        r is Err ==> *final(layer) == *old(layer),
        r matches Err(e) ==> e@ == "Unexpected end of stream"@ || e@
            == "Ran into an unsupported subdata version"@ || e@ == "Malformed data structure"@,
{
    let dlen = data.len();
    if dlen < 4 || pos > dlen - 4 {
        return Err("Unexpected end of stream".to_owned());
    }
    let v = get_u32(data, pos);
    if v != 16 {
        return Err("Ran into an unsupported subdata version".to_owned());
    }
    let (desc, _q) = match crate::descriptor::read_descriptor_at(data, pos + 4) {
        Ok(x) => x,
        Err(e) => {
            return Err(e);
        },
    };
    let fields = desc.1;
    let mut info: Vec<AdjustmentParam> = Vec::new();
    let key_brgh = "Brgh".to_owned();
    let brgh = match find_field(&fields, &key_brgh) {
        Some(item) => match item {
            DescItem::long(x) => *x,
            _ => {
                return Err("Malformed data structure".to_owned());
            },
        },
        None => {
            return Err("Malformed data structure".to_owned());
        },
    };
    let key_cntr = "Cntr".to_owned();
    let cntr = match find_field(&fields, &key_cntr) {
        Some(item) => match item {
            DescItem::long(x) => *x,
            _ => {
                return Err("Malformed data structure".to_owned());
            },
        },
        None => {
            return Err("Malformed data structure".to_owned());
        },
    };
    let key_means = "means".to_owned();
    let means = match find_field(&fields, &key_means) {
        Some(item) => match item {
            DescItem::long(x) => *x,
            _ => {
                return Err("Malformed data structure".to_owned());
            },
        },
        None => {
            return Err("Malformed data structure".to_owned());
        },
    };
    let key_lab = "Lab ".to_owned();
    let lab = match find_field(&fields, &key_lab) {
        Some(item) => match item {
            DescItem::bool(x) => *x,
            _ => {
                return Err("Malformed data structure".to_owned());
            },
        },
        None => {
            return Err("Malformed data structure".to_owned());
        },
    };
    let key_legacy = "useLegacy".to_owned();
    let legacy = match find_field(&fields, &key_legacy) {
        Some(item) => match item {
            DescItem::bool(x) => *x,
            _ => {
                return Err("Malformed data structure".to_owned());
            },
        },
        None => {
            return Err("Malformed data structure".to_owned());
        },
    };
    info.push(AdjustmentParam::Raw(brgh));
    info.push(AdjustmentParam::Raw(cntr));
    info.push(AdjustmentParam::Raw(means));
    info.push(AdjustmentParam::Raw(if lab {
        1
    } else {
        0
    }));
    info.push(AdjustmentParam::Raw(if legacy {
        1
    } else {
        0
    }));
    layer.adjustment_info = info;
    proof {
        assert(final(layer).adjustment_info@ =~= seq![
            AdjustmentParam::Raw(brgh),
            AdjustmentParam::Raw(cntr),
            AdjustmentParam::Raw(means),
            AdjustmentParam::Raw(
                if lab {
                    1int
                } else {
                    0int
                } as i32,
            ),
            AdjustmentParam::Raw(
                if legacy {
                    1int
                } else {
                    0int
                } as i32,
            ),
        ]);
    }
    Ok(())
}

/// The sequence of tagged blocks an extra-data region holds: each block is
/// an `8BIM` signature, a four-character tag, a 32-bit payload length and
/// the payload, and the next block starts right after the payload.  The
/// result records (tag, payload start, payload length) for each block, in
/// order.  `None` means the region is malformed: a block header short or
/// without its signature, or a block sticking out past the region's end.
pub open spec fn spec_tag_blocks(data: Seq<u8>, pos: int, end: int) -> Option<
    Seq<(u32, int, int)>,
>
    decreases end - pos,
{
    if pos >= end {
        if pos == end {
            Some(Seq::empty())
        } else {
            None
        }
    } else if !(pos + 12 <= data.len() && data[pos] == 0x38 && data[pos + 1] == 0x42 && data[pos
        + 2] == 0x49 && data[pos + 3] == 0x4D) {
        None
    } else {
        let tag = be_u32_at(data, pos + 4);
        let len = be_u32_at(data, pos + 8);
        let next = pos + 12 + len;
        if next > end {
            None
        } else {
            match spec_tag_blocks(data, next, end) {
                Some(rest) => Some(seq![(tag, pos + 12, len as int)] + rest),
                None => None,
            }
        }
    }
}

/// The last block carrying `tag`, if any: a later block with the same tag
/// overrides an earlier one.
pub open spec fn spec_last_with_tag(blocks: Seq<(u32, int, int)>, tag: u32) -> Option<
    (u32, int, int),
>
    decreases blocks.len(),
{
    if blocks.len() == 0 {
        None
    } else if blocks.last().0 == tag {
        Some(blocks.last())
    } else {
        spec_last_with_tag(blocks.drop_last(), tag)
    }
}

/// Whether a tag is one the walker decodes; every other tag is skipped
/// without effect or error.
pub open spec fn spec_dispatched(tag: u32) -> bool {
    ||| tag == 0x6C736374  // "lsct"
    ||| tag == 0x6C756E69  // "luni"
    ||| tag == 0x74736C79  // "tsly"
    ||| tag == 0x694F7061  // "iOpa"
    ||| tag == 0x6C667832  // "lfx2"
    ||| tag == 0x706F7374  // "post"
    ||| tag == 0x6E767274  // "nvrt"
    ||| tag == 0x62726974  // "brit"
    ||| tag == 0x74687273  // "thrs"
    ||| tag == 0x68756532  // "hue2"
    ||| tag == 0x6C65766C  // "levl"
    ||| tag == 0x63757276  // "curv"
    ||| tag == 0x626C7768  // "blwh"
    ||| tag == 0x43674564  // "CgEd"
}

/// Whether the handler for `tag` succeeds on the payload at `bstart`: the
/// payload is long enough and carries the versions, descriptors and keys
/// its tag calls for.  A tag the walker does not decode always succeeds.
pub open spec fn spec_dispatch_ok(data: Seq<u8>, tag: u32, bstart: int) -> bool {
    if tag == 0x6C736374 {  // "lsct"
        bstart + 4 <= data.len()
    } else if tag == 0x6C756E69 {  // "luni"
        luni_ok(data, bstart)
    } else if tag == 0x74736C79 || tag == 0x694F7061 {  // "tsly", "iOpa"
        bstart + 1 <= data.len()
    } else if tag == 0x6C667832 {  // "lfx2"
        bstart + 8 <= data.len() && crate::descriptor::spec_read_descriptor(
            data,
            bstart + 8,
        ) is Some
    } else if tag == 0x706F7374 || tag == 0x74687273 {  // "post", "thrs"
        bstart + 2 <= data.len()
    } else if tag == 0x6E767274 {  // "nvrt"
        true
    } else if tag == 0x62726974 {  // "brit"
        bstart + 7 <= data.len()
    } else if tag == 0x68756532 {  // "hue2"
        bstart + 16 <= data.len()
    } else if tag == 0x6C65766C {  // "levl"
        bstart + 2 <= data.len() && be_u16_at(data, bstart) == 2 && bstart + 282 <= data.len()
    } else if tag == 0x63757276 {  // "curv"
        bstart + 7 <= data.len() && be_u16_at(data, bstart + 1) == 1 && spec_curv_bits(
            data,
            bstart + 7,
            be_u32_at(data, bstart + 3),
            0,
        ) is Some
    } else if tag == 0x626C7768 {  // "blwh"
        bstart + 4 <= data.len() && be_u32_at(data, bstart) == 16
            && crate::descriptor::spec_read_descriptor(data, bstart + 4) is Some
    } else if tag == 0x43674564 {  // "CgEd"
        spec_cged_ok(data, bstart)
    } else {
        true
    }
}

/// Apply one tagged block's payload to the layer: the tags the walker
/// understands change the layer as their handlers say; every other tag is
/// skipped without effect.
#[verifier::rlimit(100)]
#[verifier::spinoff_prover]
fn dispatch_tag(layer: &mut LayerInfo, data: &[u8], tag: u32, bstart: usize) -> (r: Result<
    (),
    String,
>)
    requires
        bstart <= data@.len(),
    ensures
        r is Ok <==> spec_dispatch_ok(data@, tag, bstart as int),
        r is Ok ==> *final(layer) == (LayerInfo {
            name: final(layer).name,
            fill_opacity: final(layer).fill_opacity,
            funny_flag: final(layer).funny_flag,
            group_expanded: final(layer).group_expanded,
            group_opener: final(layer).group_opener,
            group_closer: final(layer).group_closer,
            adjustment_type: final(layer).adjustment_type,
            adjustment_info: final(layer).adjustment_info,
            adjustment_desc: final(layer).adjustment_desc,
            effects_desc: final(layer).effects_desc,
            ..*old(layer)
        }),
        !spec_dispatched(tag) ==> r is Ok && *final(layer) == *old(layer),
        tag == 0x6C756E69 && r is Ok ==> final(layer).name@ == spec_luni_name(
            data@,
            bstart as int,
        ),
        tag != 0x6C756E69 && r is Ok ==> final(layer).name == old(layer).name,
        tag == 0x6C736374 && r is Ok ==> {
            &&& final(layer).group_opener == (be_u32_at(data@, bstart as int) == 1 || be_u32_at(
                data@,
                bstart as int,
            ) == 2)
            &&& final(layer).group_closer == (be_u32_at(data@, bstart as int) == 3)
            &&& final(layer).group_expanded == (be_u32_at(data@, bstart as int) == 1)
        },
        tag != 0x6C736374 && r is Ok ==> {
            &&& final(layer).group_opener == old(layer).group_opener
            &&& final(layer).group_closer == old(layer).group_closer
            &&& final(layer).group_expanded == old(layer).group_expanded
        },
        r matches Err(e) ==> spec_walk_err_msg(e@),
{
    if tag == 0x6C736374 {
        match apply_lsct(layer, data, bstart) {
            Ok(_) => (),
            Err(e) => {
                return Err(e);
            },
        }
    } else if tag == 0x6C756E69 {
        match apply_luni(layer, data, bstart) {
            Ok(_) => (),
            Err(e) => {
                return Err(e);
            },
        }
    } else if tag == 0x74736C79 {
        match apply_tsly(layer, data, bstart) {
            Ok(_) => (),
            Err(e) => {
                return Err(e);
            },
        }
    } else if tag == 0x694F7061 {
        match apply_iopa(layer, data, bstart) {
            Ok(_) => (),
            Err(e) => {
                return Err(e);
            },
        }
    } else if tag == 0x6C667832 {
        match apply_lfx2(layer, data, bstart) {
            Ok(_) => (),
            Err(e) => {
                return Err(e);
            },
        }
    } else if tag == 0x706F7374 {
        match apply_post(layer, data, bstart) {
            Ok(_) => (),
            Err(e) => {
                return Err(e);
            },
        }
    } else if tag == 0x6E767274 {
        match apply_nvrt(layer) {
            Ok(_) => (),
            Err(e) => {
                return Err(e);
            },
        }
    } else if tag == 0x62726974 {
        match apply_brit(layer, data, bstart) {
            Ok(_) => (),
            Err(e) => {
                return Err(e);
            },
        }
    } else if tag == 0x74687273 {
        match apply_thrs(layer, data, bstart) {
            Ok(_) => (),
            Err(e) => {
                return Err(e);
            },
        }
    } else if tag == 0x68756532 {
        match apply_hue2(layer, data, bstart) {
            Ok(_) => (),
            Err(e) => {
                return Err(e);
            },
        }
    } else if tag == 0x6C65766C {
        match apply_levl(layer, data, bstart) {
            Ok(_) => (),
            Err(e) => {
                return Err(e);
            },
        }
    } else if tag == 0x63757276 {
        match apply_curv(layer, data, bstart) {
            Ok(_) => (),
            Err(e) => {
                return Err(e);
            },
        }
    } else if tag == 0x626C7768 {
        match apply_blwh(layer, data, bstart) {
            Ok(_) => (),
            Err(e) => {
                return Err(e);
            },
        }
    } else if tag == 0x43674564 {
        match apply_cged(layer, data, bstart) {
            Ok(_) => (),
            Err(e) => {
                return Err(e);
            },
        }
    }
    Ok(())
}

/// Whether a whole extra-data region decodes: its blocks parse cleanly to
/// the region's declared end, and every block's handler succeeds on its
/// payload.
pub open spec fn spec_extra_ok(data: Seq<u8>, start: int, end: int) -> bool {
    match spec_tag_blocks(data, start, end) {
        Some(bs) => forall|i: int|
            0 <= i < bs.len() ==> spec_dispatch_ok(data, #[trigger] bs[i].0, bs[i].1),
        None => false,
    }
}

/// Decode a layer's extra-data region: walk its tagged blocks, dispatch the
/// ones the walker understands onto the layer, skip the rest, and force the
/// position to each block's declared end.
///
/// On success the returned position equals the region's declared end; the
/// layer's name is the last Unicode name block's text when one is present,
/// and its group markers come from the last section-divider block.
#[verifier::rlimit(100)]
#[verifier::spinoff_prover]
fn parse_extra_data(layer: &mut LayerInfo, data: &[u8], start: usize, end: usize) -> (r: Result<
    usize,
    String,
>)
    requires
        start <= end <= data@.len(),
    ensures
        r matches Ok(p) ==> p == end,
        r is Ok ==> spec_tag_blocks(data@, start as int, end as int) is Some,
        r is Ok ==> *final(layer) == (LayerInfo {
            name: final(layer).name,
            fill_opacity: final(layer).fill_opacity,
            funny_flag: final(layer).funny_flag,
            group_expanded: final(layer).group_expanded,
            group_opener: final(layer).group_opener,
            group_closer: final(layer).group_closer,
            adjustment_type: final(layer).adjustment_type,
            adjustment_info: final(layer).adjustment_info,
            adjustment_desc: final(layer).adjustment_desc,
            effects_desc: final(layer).effects_desc,
            ..*old(layer)
        }),
        r is Ok ==> final(layer).name@ == (match spec_last_with_tag(
            spec_tag_blocks(data@, start as int, end as int)->Some_0,
            0x6C756E69,
        ) {
            Some(b) => spec_luni_name(data@, b.1),
            None => old(layer).name@,
        }),
        r is Ok ==> final(layer).group_opener == (match spec_last_with_tag(
            spec_tag_blocks(data@, start as int, end as int)->Some_0,
            0x6C736374,
        ) {
            Some(b) => be_u32_at(data@, b.1) == 1 || be_u32_at(data@, b.1) == 2,
            None => old(layer).group_opener,
        }),
        r is Ok ==> final(layer).group_closer == (match spec_last_with_tag(
            spec_tag_blocks(data@, start as int, end as int)->Some_0,
            0x6C736374,
        ) {
            Some(b) => be_u32_at(data@, b.1) == 3,
            None => old(layer).group_closer,
        }),
        r is Ok ==> final(layer).group_expanded == (match spec_last_with_tag(
            spec_tag_blocks(data@, start as int, end as int)->Some_0,
            0x6C736374,
        ) {
            Some(b) => be_u32_at(data@, b.1) == 1,
            None => old(layer).group_expanded,
        }),
        r is Ok <==> spec_extra_ok(data@, start as int, end as int),
        r matches Err(e) ==> spec_walk_err_msg(e@),
{
    let dlen = data.len();
    let mut pos: usize = start;
    let ghost mut blocks: Seq<(u32, int, int)> = Seq::empty();
    let ghost name0: Seq<char> = layer.name@;
    proof {
        match spec_tag_blocks(data@, pos as int, end as int) {
            Some(rest) => {
                assert(blocks + rest =~= rest);
            },
            None => {},
        }
    }
    while pos < end
        invariant
            dlen == data@.len(),
            start <= pos <= end <= dlen,
            name0 == old(layer).name@,
            match spec_tag_blocks(data@, pos as int, end as int) {
                Some(rest) => spec_tag_blocks(data@, start as int, end as int) == Some(
                    blocks + rest,
                ),
                None => spec_tag_blocks(data@, start as int, end as int) is None,
            },
            forall|i: int|
                0 <= i < blocks.len() ==> spec_dispatch_ok(data@, #[trigger] blocks[i].0, blocks[i].1),
            *layer == (LayerInfo {
                name: layer.name,
                fill_opacity: layer.fill_opacity,
                funny_flag: layer.funny_flag,
                group_expanded: layer.group_expanded,
                group_opener: layer.group_opener,
                group_closer: layer.group_closer,
                adjustment_type: layer.adjustment_type,
                adjustment_info: layer.adjustment_info,
                adjustment_desc: layer.adjustment_desc,
                effects_desc: layer.effects_desc,
                ..*old(layer)
            }),
            layer.name@ == (match spec_last_with_tag(blocks, 0x6C756E69) {
                Some(b) => spec_luni_name(data@, b.1),
                None => name0,
            }),
            layer.group_opener == (match spec_last_with_tag(blocks, 0x6C736374) {
                Some(b) => be_u32_at(data@, b.1) == 1 || be_u32_at(data@, b.1) == 2,
                None => old(layer).group_opener,
            }),
            layer.group_closer == (match spec_last_with_tag(blocks, 0x6C736374) {
                Some(b) => be_u32_at(data@, b.1) == 3,
                None => old(layer).group_closer,
            }),
            layer.group_expanded == (match spec_last_with_tag(blocks, 0x6C736374) {
                Some(b) => be_u32_at(data@, b.1) == 1,
                None => old(layer).group_expanded,
            }),
        decreases end - pos,
    {
        let ghost pos0: int = pos as int;
        let ghost blocks0: Seq<(u32, int, int)> = blocks;
        if dlen < 4 || pos > dlen - 4 {
            return Err("Unexpected end of stream".to_owned());
        }
        if !(data[pos] == 0x38 && data[pos + 1] == 0x42 && data[pos + 2] == 0x49 && data[pos + 3]
            == 0x4D) {
            return Err("Invalid extended data magic signature".to_owned());
        }
        if 8 > dlen - (pos + 4) {
            return Err("Unexpected end of stream".to_owned());
        }
        let tag = get_u32(data, pos + 4);
        let len = get_u32(data, pos + 8);
        let bstart = pos + 12;
        proof {
            match spec_tag_blocks(data@, pos0, end as int) {
                Some(rest) => {
                    assert((blocks0 + rest)[blocks0.len() as int].0 == tag);
                    assert((blocks0 + rest)[blocks0.len() as int].1 == bstart);
                },
                None => {},
            }
        }
        match dispatch_tag(layer, data, tag, bstart) {
            Ok(_) => (),
            Err(e) => {
                proof {
                    assert(!spec_dispatch_ok(data@, tag, bstart as int));
                }
                return Err(e);
            },
        }
        let next_wide: u128 = bstart as u128 + len as u128;
        if next_wide > end as u128 {
            return Err("Desynchronized while reading or skipping extra data".to_owned());
        }
        pos = next_wide as usize;
        proof {
            let b: (u32, int, int) = (tag, bstart as int, len as int);
            blocks = blocks0.push(b);
            assert(blocks0.push(b).drop_last() =~= blocks0);
            assert(spec_dispatch_ok(data@, tag, bstart as int));
            assert forall|i: int| 0 <= i < blocks.len() implies spec_dispatch_ok(
                data@,
                #[trigger] blocks[i].0,
                blocks[i].1,
            ) by {
                if i < blocks0.len() {
                    assert(blocks[i] == blocks0[i]);
                } else {
                    assert(blocks[i] == b);
                }
            }
            match spec_tag_blocks(data@, pos as int, end as int) {
                Some(rest) => {
                    assert(spec_tag_blocks(data@, pos0, end as int) == Some(seq![b] + rest));
                    assert(blocks0 + (seq![b] + rest) =~= blocks + rest);
                },
                None => {
                    assert(spec_tag_blocks(data@, pos0, end as int) is None);
                },
            }
        }
    }
    proof {
        assert(spec_tag_blocks(data@, pos as int, end as int) == Some(
            Seq::<(u32, int, int)>::empty(),
        ));
        assert(blocks + Seq::<(u32, int, int)>::empty() =~= blocks);
    }
    Ok(pos)
}

/// A 32-bit wrap of a small signed difference, as casting an `i32`
/// subtraction to `u32` would produce it.  Meaningful for `-0x100000000 <
/// v < 0x100000000`.
pub open spec fn u32_wrap_of(v: int) -> u32 {
    if v < 0 {
        (v + 0x100000000) as u32
    } else {
        v as u32
    }
}

/// The offset of the blend-mode signature inside a layer record starting at
/// `pos`: past the 16-byte rectangle, the channel count and the channel
/// table.
pub open spec fn spec_blend_off(data: Seq<u8>, pos: int) -> int {
    pos + 18 + 6 * be_u16_at(data, pos + 16)
}

/// The offset of a layer record's extra-data region (mask data onwards).
pub open spec fn spec_exdat_start(data: Seq<u8>, pos: int) -> int {
    spec_blend_off(data, pos) + 16
}

/// The declared end of a layer record's extra-data region, which is also
/// where the next layer record starts.
pub open spec fn spec_exdat_end(data: Seq<u8>, pos: int) -> int {
    spec_exdat_start(data, pos) + be_u32_at(data, spec_blend_off(data, pos) + 12)
}

/// The padded length of a Pascal-style layer name of `n` bytes: the name
/// field (length byte plus text) is padded up to a multiple of four.
pub open spec fn spec_padded_name_len(n: u8) -> int {
    n + ((4 - ((n + 1) % 4)) % 4)
}

/// The offset where a layer's tagged extra-data blocks start: past the mask
/// data, the blending ranges and the padded Pascal name.
pub open spec fn spec_blocks_start(data: Seq<u8>, pos: int) -> int {
    let es = spec_exdat_start(data, pos);
    let mp = es + 4 + be_u32_at(data, es);
    let np = mp + 4 + be_u32_at(data, mp);
    np + 1 + spec_padded_name_len(data[np])
}

/// The layer's ASCII (Pascal-string) name as stored before any Unicode
/// override.
pub open spec fn spec_pascal_name(data: Seq<u8>, pos: int) -> Seq<char> {
    let es = spec_exdat_start(data, pos);
    let mp = es + 4 + be_u32_at(data, es);
    let np = mp + 4 + be_u32_at(data, mp);
    utf8_lossy_of(data.subrange(np + 1, np + 1 + data[np]))
}

/// The mask record stored at `p`: rectangle as top/left/bottom/right, the
/// default color byte, and the three flag bits.
pub open spec fn spec_mask_at(data: Seq<u8>, p: int) -> MaskInfo {
    MaskInfo {
        x: be_i32_at(data, p + 4),
        y: be_i32_at(data, p),
        w: u32_wrap_of(be_i32_at(data, p + 12) - be_i32_at(data, p + 4)),
        h: u32_wrap_of(be_i32_at(data, p + 8) - be_i32_at(data, p)),
        default_color: data[p + 16],
        relative: data[p + 17] & 1 != 0,
        disabled: data[p + 17] & 2 != 0,
        invert: data[p + 17] & 4 != 0,
    }
}

/// Whether any of the first `n` channel-table entries at `table` carries
/// the signed channel id `id`.
pub open spec fn spec_has_id(data: Seq<u8>, table: int, n: int, id: int) -> bool
    decreases n,
{
    if n <= 0 {
        false
    } else {
        spec_has_id(data, table, n - 1, id) || i16_of_u16(be_u16_at(data, table + 6 * (n - 1)))
            == id
    }
}

/// How many of the first `n` channel-table entries at `table` are auxiliary
/// (mask) channels: entries whose id is outside the RGBA ids -1..2 and the
/// K id 3.
pub open spec fn spec_aux_count(data: Seq<u8>, table: int, n: int) -> int
    decreases n,
{
    if n <= 0 {
        0
    } else {
        spec_aux_count(data, table, n - 1) + {
            let id = i16_of_u16(be_u16_at(data, table + 6 * (n - 1)));
            if -1 <= id <= 3 {
                0int
            } else {
                1int
            }
        }
    }
}

/// `base` with `plane` written over it starting at `slot`, one byte every
/// `stride` slots; writes that would land past the end of `base` are
/// dropped.  This is how one decoded channel plane lands in the interleaved
/// pixel grid.
pub open spec fn strided_image(base: Seq<u8>, plane: Seq<u8>, slot: int, stride: int) -> Seq<u8> {
    Seq::new(
        base.len(),
        |j: int|
            if j >= slot && (j - slot) % stride == 0 && (j - slot) / stride < plane.len() {
                plane[(j - slot) / stride]
            } else {
                base[j]
            },
    )
}

proof fn lemma_strided_fill_to_image(
    before: Seq<u8>,
    after: Seq<u8>,
    plane: Seq<u8>,
    slot: int,
    stride: int,
)
    requires
        stride >= 1,
        0 <= slot,
        after.len() == before.len(),
        ({
            let mid = if slot < before.len() {
                slot
            } else {
                before.len() as int
            };
            &&& after.take(mid) == before.take(mid)
            &&& crate::packbits::strided_fill(after.skip(mid), before.skip(mid), plane, stride)
        }),
    ensures
        after == strided_image(before, plane, slot, stride),
{
    let mid = if slot < before.len() {
        slot
    } else {
        before.len() as int
    };
    assert forall|j: int| 0 <= j < after.len() implies after[j] == strided_image(
        before,
        plane,
        slot,
        stride,
    )[j] by {
        if j < mid {
            assert(after[j] == after.take(mid)[j]);
            assert(before[j] == before.take(mid)[j]);
        } else {
            assert(after[j] == after.skip(mid)[j - mid]);
        }
    }
    assert(after =~= strided_image(before, plane, slot, stride));
}

/// Decode one RGBA channel plane into the pixel grid: a strided write at
/// offset `slot`, dropping anything past the end of the grid.  On success
/// the whole declared channel length was consumed.
fn decode_rgba_channel(
    data: &[u8],
    idata: usize,
    clen: u32,
    h: u32,
    slot: usize,
    rgba: &mut Vec<u8>,
) -> (r: Result<usize, String>)
    requires
        idata <= data@.len(),
        clen > 2,
        slot <= 3,
    ensures
        r is Ok <==> spec_copy_decode(
            data@.subrange(idata as int, data@.len() as int),
            clen as int,
            h as int,
        ) is Some,
        r matches Ok(p) ==> p == clen && final(rgba)@ == strided_image(
            old(rgba)@,
            spec_copy_decode(
                data@.subrange(idata as int, data@.len() as int),
                clen as int,
                h as int,
            )->Some_0,
            slot as int,
            4,
        ),
        r matches Err(e) ==> spec_walk_err_msg(e@),
{
    let sub = &data[idata..data.len()];
    let rgba_len = rgba.len();
    let mid = if slot < rgba_len {
        slot
    } else {
        rgba_len
    };
    let ghost before = rgba@;
    let (_head, tail) = rgba.as_mut_slice().split_at_mut(mid);
    let progress = match copy_img_data(sub, tail, 4, clen as u64, h as u64) {
        Ok(p) => p,
        Err(e) => {
            return Err(e);
        },
    };
    proof {
        assert(rgba@.take(mid as int) =~= before.take(mid as int));
        lemma_strided_fill_to_image(
            before,
            rgba@,
            spec_copy_decode(
                data@.subrange(idata as int, data@.len() as int),
                clen as int,
                h as int,
            )->Some_0,
            slot as int,
            4,
        );
    }
    Ok(progress)
}

/// What decoding a channel table does, entry `i` through `n - 1`, to the
/// pixel grid, the K plane, the mask plane, the auxiliary channel count and
/// the image-data position: RGBA channels (ids -1 through 2) stride their
/// decoded plane into the grid, the K channel (id 3) and the first
/// auxiliary channel append to their planes, later auxiliary channels are
/// length-skipped, and any channel of declared length 2 or less contributes
/// only its mode prefix.  `None` exactly when the decode fails.
pub open spec fn spec_decode_channels(
    data: Seq<u8>,
    table: int,
    i: int,
    n: int,
    idata: int,
    h: int,
    mask_h: int,
    rgba: Seq<u8>,
    k: Seq<u8>,
    mask: Seq<u8>,
    aux: int,
) -> Option<(Seq<u8>, Seq<u8>, Seq<u8>, int, int)>
    decreases n - i,
{
    if i >= n {
        Some((rgba, k, mask, aux, idata))
    } else {
        let id = i16_of_u16(be_u16_at(data, table + 6 * i));
        let clen = be_u32_at(data, table + 6 * i + 2);
        if -1 <= id <= 2 {
            if clen > 2 {
                if idata <= data.len() {
                    let slot: int = if id >= 0 {
                        id as int
                    } else {
                        3
                    };
                    match spec_copy_decode(
                        data.subrange(idata, data.len() as int),
                        clen as int,
                        h,
                    ) {
                        Some(plane) => spec_decode_channels(
                            data,
                            table,
                            i + 1,
                            n,
                            idata + clen,
                            h,
                            mask_h,
                            strided_image(rgba, plane, slot, 4),
                            k,
                            mask,
                            aux,
                        ),
                        None => None,
                    }
                } else {
                    None
                }
            } else {
                spec_decode_channels(data, table, i + 1, n, idata + 2, h, mask_h, rgba, k, mask, aux)
            }
        } else if id == 3 {
            if clen > 2 {
                if idata <= data.len() {
                    match spec_append_decode(
                        data.subrange(idata, data.len() as int),
                        clen as int,
                        h,
                    ) {
                        Some((out, p)) => spec_decode_channels(
                            data,
                            table,
                            i + 1,
                            n,
                            idata + p,
                            h,
                            mask_h,
                            rgba,
                            k + out,
                            mask,
                            aux,
                        ),
                        None => None,
                    }
                } else {
                    None
                }
            } else {
                spec_decode_channels(data, table, i + 1, n, idata + 2, h, mask_h, rgba, k, mask, aux)
            }
        } else {
            if aux + 1 > 1 {
                spec_decode_channels(
                    data,
                    table,
                    i + 1,
                    n,
                    idata + clen,
                    h,
                    mask_h,
                    rgba,
                    k,
                    mask,
                    aux + 1,
                )
            } else if clen > 2 {
                if idata <= data.len() {
                    match spec_append_decode(
                        data.subrange(idata, data.len() as int),
                        clen as int,
                        mask_h,
                    ) {
                        Some((out, p)) => spec_decode_channels(
                            data,
                            table,
                            i + 1,
                            n,
                            idata + p,
                            h,
                            mask_h,
                            rgba,
                            k,
                            mask + out,
                            aux + 1,
                        ),
                        None => None,
                    }
                } else {
                    None
                }
            } else {
                spec_decode_channels(
                    data,
                    table,
                    i + 1,
                    n,
                    idata + 2,
                    h,
                    mask_h,
                    rgba,
                    k,
                    mask,
                    aux + 1,
                )
            }
        }
    }
}

/// Decode the image data for every entry of a layer's channel table, in
/// table order: RGBA channels stride into the pixel grid, the K channel and
/// the first auxiliary channel append to their planes, later auxiliary
/// channels are length-skipped.  Returns the channel-presence flags, the
/// auxiliary channel count and the advanced image-data position; the final
/// planes are exactly what [`spec_decode_channels`] folds the channel table
/// to.
#[verifier::rlimit(100)]
#[verifier::spinoff_prover]
#[allow(clippy::too_many_arguments)]
fn decode_channels(
    data: &[u8],
    table: usize,
    cc: u16,
    w: u32,
    h: u32,
    mask_h: u32,
    idata: u128,
    image_data_rgba: &mut Vec<u8>,
    image_data_k: &mut Vec<u8>,
    image_data_mask: &mut Vec<u8>,
) -> (r: Result<(bool, bool, bool, u16, u128), String>)
    requires
        table + 6 * cc + 16 <= data@.len(),
        old(image_data_rgba)@.len() == 4 * w * h,
        idata <= 0x10000000000000000000000000u128,
    ensures
        r is Ok ==> spec_decode_channels(
            data@,
            table as int,
            0,
            cc as int,
            idata as int,
            h as int,
            mask_h as int,
            old(image_data_rgba)@,
            old(image_data_k)@,
            old(image_data_mask)@,
            0,
        ) is Some,
        r is Err ==> spec_decode_channels(
            data@,
            table as int,
            0,
            cc as int,
            idata as int,
            h as int,
            mask_h as int,
            old(image_data_rgba)@,
            old(image_data_k)@,
            old(image_data_mask)@,
            0,
        ) is None,
        r matches Ok((g, b, a, aux, id2)) ==> {
            &&& g == spec_has_id(data@, table as int, cc as int, 1)
            &&& b == spec_has_id(data@, table as int, cc as int, 2)
            &&& a == spec_has_id(data@, table as int, cc as int, -1)
            &&& aux == spec_aux_count(data@, table as int, cc as int)
            &&& final(image_data_rgba)@.len() == 4 * w * h
            &&& spec_decode_channels(
                data@,
                table as int,
                0,
                cc as int,
                idata as int,
                h as int,
                mask_h as int,
                old(image_data_rgba)@,
                old(image_data_k)@,
                old(image_data_mask)@,
                0,
            ) == Some(
                (
                    final(image_data_rgba)@,
                    final(image_data_k)@,
                    final(image_data_mask)@,
                    aux as int,
                    id2 as int,
                ),
            )
            &&& (id2 <= idata + 0x100000000000000u128 || id2 <= data@.len()
                + 0x100000000000000u128)
        },
        r matches Err(e) ==> spec_walk_err_msg(e@),
{
    let dlen = data.len();
    let mut has_g = false;
    let mut has_b = false;
    let mut has_a = false;
    let mut aux_count: u16 = 0;
    let ghost idata0: int = idata as int;
    let mut idata_cur = idata;
    let ghost idata_cap: u128 = if idata_cur > dlen as u128 {
        idata_cur
    } else {
        dlen as u128
    };
    let mut ci: u16 = 0;
    while ci < cc
        invariant
            dlen == data@.len(),
            table + 6 * cc + 16 <= dlen,
            ci <= cc,
            idata0 == idata as int,
            idata_cur <= idata_cap + (ci as u128) * 0x100000000u128,
            dlen <= idata_cap,
            idata_cap <= 0x20000000000000000000000000u128,
            aux_count <= ci,
            image_data_rgba@.len() == 4 * w * h,
            has_g == spec_has_id(data@, table as int, ci as int, 1),
            has_b == spec_has_id(data@, table as int, ci as int, 2),
            has_a == spec_has_id(data@, table as int, ci as int, -1),
            aux_count == spec_aux_count(data@, table as int, ci as int),
            match spec_decode_channels(
                data@,
                table as int,
                ci as int,
                cc as int,
                idata_cur as int,
                h as int,
                mask_h as int,
                image_data_rgba@,
                image_data_k@,
                image_data_mask@,
                aux_count as int,
            ) {
                Some(res) => spec_decode_channels(
                    data@,
                    table as int,
                    0,
                    cc as int,
                    idata0,
                    h as int,
                    mask_h as int,
                    old(image_data_rgba)@,
                    old(image_data_k)@,
                    old(image_data_mask)@,
                    0,
                ) == Some(res),
                None => spec_decode_channels(
                    data@,
                    table as int,
                    0,
                    cc as int,
                    idata0,
                    h as int,
                    mask_h as int,
                    old(image_data_rgba)@,
                    old(image_data_k)@,
                    old(image_data_mask)@,
                    0,
                ) is None,
            },
        decreases cc - ci,
    {
        let ghost auxc: int = aux_count as int;
        let ghost rgba_c: Seq<u8> = image_data_rgba@;
        let ghost k_c: Seq<u8> = image_data_k@;
        let ghost mask_c: Seq<u8> = image_data_mask@;
        let ghost idata_c: int = idata_cur as int;
        let id_u = get_u16(data, table + 6 * (ci as usize));
        let id: i32 = if id_u >= 0x8000 {
            id_u as i32 - 0x10000
        } else {
            id_u as i32
        };
        let clen = get_u32(data, table + 6 * (ci as usize) + 2);
        proof {
            assert(id == i16_of_u16(be_u16_at(data@, table + 6 * (ci as int))));
        }
        has_g = has_g || id == 1;
        has_b = has_b || id == 2;
        has_a = has_a || id == -1;
        if -1 <= id && id <= 2 {
            if clen > 2 {
                if idata_cur > dlen as u128 {
                    proof {
                        assert(spec_decode_channels(data@, table as int, ci as int, cc as int,
                            idata_c, h as int, mask_h as int, rgba_c, k_c, mask_c, auxc) is None);
                    }
                    return Err("Unexpected end of stream".to_owned());
                }
                let slot: usize = if id >= 0 {
                    id as usize
                } else {
                    3
                };
                let progress = match decode_rgba_channel(
                    data,
                    idata_cur as usize,
                    clen,
                    h,
                    slot,
                    image_data_rgba,
                ) {
                    Ok(p) => p,
                    Err(e) => {
                        return Err(e);
                    },
                };
                idata_cur = idata_cur + progress as u128;
            } else {
                idata_cur = idata_cur + 2;
            }
        } else if id == 3 {
            if clen > 2 {
                if idata_cur > dlen as u128 {
                    proof {
                        assert(spec_decode_channels(data@, table as int, ci as int, cc as int,
                            idata_c, h as int, mask_h as int, rgba_c, k_c, mask_c, auxc) is None);
                    }
                    return Err("Unexpected end of stream".to_owned());
                }
                let sub = &data[idata_cur as usize..dlen];
                let progress = match append_img_data(sub, image_data_k, clen as u64, h as u64) {
                    Ok(p) => p,
                    Err(e) => {
                        return Err(e);
                    },
                };
                idata_cur = idata_cur + progress as u128;
            } else {
                idata_cur = idata_cur + 2;
            }
        } else {
            aux_count = aux_count + 1;
            if aux_count > 1 {
                idata_cur = idata_cur + clen as u128;
            } else if clen > 2 {
                if idata_cur > dlen as u128 {
                    proof {
                        assert(spec_decode_channels(data@, table as int, ci as int, cc as int,
                            idata_c, h as int, mask_h as int, rgba_c, k_c, mask_c, auxc) is None);
                    }
                    return Err("Unexpected end of stream".to_owned());
                }
                let sub = &data[idata_cur as usize..dlen];
                let progress = match append_img_data(
                    sub,
                    image_data_mask,
                    clen as u64,
                    mask_h as u64,
                ) {
                    Ok(p) => p,
                    Err(e) => {
                        return Err(e);
                    },
                };
                idata_cur = idata_cur + progress as u128;
            } else {
                idata_cur = idata_cur + 2;
            }
        }
        ci = ci + 1;
    }
    Ok((has_g, has_b, has_a, aux_count, idata_cur))
}

/// The planes a layer record's channel table decodes to, as
/// [`spec_decode_channels`] folds it starting from an opaque-white pixel
/// grid of the record's geometry and empty K and mask planes: the final
/// (pixel grid, K plane, mask plane, auxiliary count, image-data position).
#[verifier::opaque]
pub open spec fn spec_layer_planes(data: Seq<u8>, pos: int, idata: int) -> Option<
    (Seq<u8>, Seq<u8>, Seq<u8>, int, int),
> {
    let cc = be_u16_at(data, pos + 16);
    let w = u32_wrap_of(be_i32_at(data, pos + 12) - be_i32_at(data, pos + 4));
    let h = u32_wrap_of(be_i32_at(data, pos + 8) - be_i32_at(data, pos));
    let mh: int = if be_u32_at(data, spec_exdat_start(data, pos)) == 0 {
        0
    } else {
        spec_mask_at(data, spec_exdat_start(data, pos) + 4).h as int
    };
    spec_decode_channels(
        data,
        pos + 18,
        0,
        cc as int,
        idata,
        h as int,
        mh,
        Seq::new((4 * w * h) as nat, |j: int| 255u8),
        Seq::empty(),
        Seq::empty(),
        0,
    )
}

/// Whether the fixed part of a layer record at `pos` decodes: every field
/// read stays inside the data, the blend signature is present, the mask
/// record (when present) is complete with a black-or-white default color,
/// the pixel grid fits in memory, every channel plane decodes, the K and
/// mask planes match their declared geometry, and the tagged blocks start
/// at or before the region's declared end.
pub open spec fn spec_layer_head_ok(data: Seq<u8>, pos: int, idata: int) -> bool {
    let bo = spec_blend_off(data, pos);
    let es = spec_exdat_start(data, pos);
    let ee = spec_exdat_end(data, pos);
    let maskdat = be_u32_at(data, es);
    let mp = es + 4 + maskdat;
    let np = mp + 4 + be_u32_at(data, mp);
    let w = u32_wrap_of(be_i32_at(data, pos + 12) - be_i32_at(data, pos + 4));
    let h = u32_wrap_of(be_i32_at(data, pos + 8) - be_i32_at(data, pos));
    &&& pos + 18 <= data.len()
    &&& bo + 16 <= data.len()
    &&& data[bo] == 0x38 && data[bo + 1] == 0x42 && data[bo + 2] == 0x49 && data[bo + 3] == 0x4D
    &&& ee <= data.len()
    &&& spec_mask_name_ok(data, es)
    &&& 4 * w * h <= usize::MAX
    &&& spec_layer_planes(data, pos, idata) is Some
    &&& {
        let planes = spec_layer_planes(data, pos, idata)->Some_0;
        let mi = if maskdat == 0 {
            spec_mask_default()
        } else {
            spec_mask_at(data, es + 4)
        };
        &&& (planes.1.len() == 0 || planes.1.len() == w * h)
        &&& (planes.2.len() == 0 || planes.2.len() == mi.w * mi.h)
    }
    &&& spec_blocks_start(data, pos) <= ee
}

/// Whether a layer record's mask block, blending-ranges block and Pascal
/// name, laid out from the extra-data region's start `es`, all stay inside
/// the data, with a black-or-white mask default color.
pub open spec fn spec_mask_name_ok(data: Seq<u8>, es: int) -> bool {
    let maskdat = be_u32_at(data, es);
    let mp = es + 4 + maskdat;
    let np = mp + 4 + be_u32_at(data, mp);
    &&& es + 4 <= data.len()
    &&& (maskdat != 0 ==> es + 22 <= data.len() && (data[es + 20] == 0 || data[es + 20] == 255))
    &&& mp + 4 <= data.len()
    &&& np + 1 <= data.len()
    &&& np + 1 + spec_padded_name_len(data[np]) <= data.len()
}

/// Decode a layer record's mask block, skip its blending ranges, and read
/// its padded Pascal name, all laid out from the extra-data region's start
/// `es`.  Returns the mask record, the ASCII name and the offset of the
/// tagged blocks that follow.
fn parse_mask_and_name(data: &[u8], es: usize) -> (r: Result<(MaskInfo, String, usize), String>)
    requires
        es <= data@.len(),
    ensures
        r is Ok <==> spec_mask_name_ok(data@, es as int),
        r matches Ok((mi, name, bs)) ==> {
            let mp = es + 4 + be_u32_at(data@, es as int);
            let np = mp + 4 + be_u32_at(data@, mp);
            &&& (be_u32_at(data@, es as int) == 0 ==> mi == spec_mask_default())
            &&& (be_u32_at(data@, es as int) != 0 ==> mi == spec_mask_at(data@, es + 4))
            &&& name@ == utf8_lossy_of(data@.subrange(np + 1, np + 1 + data@[np]))
            &&& bs == np + 1 + spec_padded_name_len(data@[np])
            &&& es < bs <= data@.len()
        },
        r matches Err(e) ==> e@ == "Unexpected end of stream"@ || e@
            == "Malformed data structure"@,
{
    let dlen = data.len();
    // Mask data block.
    if 4 > dlen - es {
        return Err("Unexpected end of stream".to_owned());
    }
    let maskdat_len = get_u32(data, es);
    let maskdat_start = es + 4;
    let mut mask_info = MaskInfo::default();
    if maskdat_len != 0 {
        if 18 > dlen - maskdat_start {
            return Err("Unexpected end of stream".to_owned());
        }
        let mtop = get_i32(data, maskdat_start);
        let mleft = get_i32(data, maskdat_start + 4);
        let mbottom = get_i32(data, maskdat_start + 8);
        let mright = get_i32(data, maskdat_start + 12);
        let mwd: i64 = mright as i64 - mleft as i64;
        let mhd: i64 = mbottom as i64 - mtop as i64;
        let default_color = data[maskdat_start + 16];
        if default_color != 0 && default_color != 255 {
            return Err("Malformed data structure".to_owned());
        }
        let mflags = data[maskdat_start + 17];
        mask_info = MaskInfo {
            x: mleft,
            y: mtop,
            w: if mwd < 0 {
                (mwd + 0x100000000i64) as u32
            } else {
                mwd as u32
            },
            h: if mhd < 0 {
                (mhd + 0x100000000i64) as u32
            } else {
                mhd as u32
            },
            default_color,
            relative: mflags & 1 != 0,
            disabled: mflags & 2 != 0,
            invert: mflags & 4 != 0,
        };
    }
    let mp_wide: u128 = maskdat_start as u128 + maskdat_len as u128;
    if mp_wide + 4 > dlen as u128 {
        return Err("Unexpected end of stream".to_owned());
    }
    let mp = mp_wide as usize;

    // Blending ranges: length-skipped.
    let blendat_len = get_u32(data, mp);
    let np_wide: u128 = mp as u128 + 4 + blendat_len as u128;
    if np_wide + 1 > dlen as u128 {
        return Err("Unexpected end of stream".to_owned());
    }
    let np = np_wide as usize;

    // Pascal-style name, padded with the length byte to a multiple of four.
    let name_len = data[np];
    let pad_add: u32 = (4 - ((name_len as u32 + 1) % 4)) % 4;
    proof {
        assert(name_len + pad_add <= 255);
    }
    let padded: u8 = name_len + pad_add as u8;
    proof {
        assert(padded == spec_padded_name_len(name_len));
    }
    if (padded as usize + 1) > dlen - np {
        return Err("Unexpected end of stream".to_owned());
    }
    let name = utf8_lossy(&data[np + 1..np + 1 + name_len as usize]);
    let blocks_start = np + 1 + padded as usize;
    Ok((mask_info, name, blocks_start))
}

/// Decode the fixed part of one layer record at `pos`: rectangle, channel
/// table, blend header, mask block, blending ranges, Pascal name, and the
/// channel image data read from the separate image-data region at `idata`.
/// Returns the layer (tagged extra-data blocks not yet applied), the offset
/// of those blocks, the record's declared end, and the advanced image-data
/// position.
#[verifier::rlimit(100)]
#[verifier::spinoff_prover]
fn parse_layer_record_head(data: &[u8], pos: usize, idata: u128) -> (r: Result<
    (LayerInfo, usize, usize, u128),
    String,
>)
    requires
        pos <= data@.len(),
        idata <= 0x10000000000000000000000000u128,
    ensures
        r is Ok <==> spec_layer_head_ok(data@, pos as int, idata as int),
        r matches Ok((layer, bs, p, id2)) ==> {
            &&& (id2 <= idata + 0x100000000000000u128 || id2 <= data@.len()
                + 0x100000000000000u128)
            &&& layer_wf(layer)
            &&& pos < p <= data@.len()
            &&& bs <= p
            &&& bs == spec_blocks_start(data@, pos as int)
            &&& p == spec_exdat_end(data@, pos as int)
            &&& layer.y == be_i32_at(data@, pos as int)
            &&& layer.x == be_i32_at(data@, pos + 4)
            &&& layer.w == u32_wrap_of(be_i32_at(data@, pos + 12) - be_i32_at(data@, pos + 4))
            &&& layer.h == u32_wrap_of(be_i32_at(data@, pos + 8) - be_i32_at(data@, pos as int))
            &&& layer.image_channel_count == be_u16_at(data@, pos + 16)
            &&& layer.blend_mode@ == utf8_lossy_of(
                data@.subrange(
                    spec_blend_off(data@, pos as int) + 4,
                    spec_blend_off(data@, pos as int) + 8,
                ),
            )
            &&& layer.opacity == data@[spec_blend_off(data@, pos as int) + 8]
            &&& layer.is_clipped == (data@[spec_blend_off(data@, pos as int) + 9] != 0)
            &&& layer.is_alpha_locked == (data@[spec_blend_off(data@, pos as int) + 10] & 1 != 0)
            &&& layer.is_visible == (data@[spec_blend_off(data@, pos as int) + 10] & 2 == 0)
            &&& layer.image_data_has_g == spec_has_id(
                data@,
                pos + 18,
                be_u16_at(data@, pos + 16) as int,
                1,
            )
            &&& layer.image_data_has_b == spec_has_id(
                data@,
                pos + 18,
                be_u16_at(data@, pos + 16) as int,
                2,
            )
            &&& layer.image_data_has_a == spec_has_id(
                data@,
                pos + 18,
                be_u16_at(data@, pos + 16) as int,
                -1,
            )
            &&& layer.mask_channel_count == spec_aux_count(
                data@,
                pos + 18,
                be_u16_at(data@, pos + 16) as int,
            )
            &&& (be_u32_at(data@, spec_exdat_start(data@, pos as int)) == 0
                ==> layer.mask_info == spec_mask_default())
            &&& (be_u32_at(data@, spec_exdat_start(data@, pos as int)) != 0
                ==> layer.mask_info == spec_mask_at(
                    data@,
                    spec_exdat_start(data@, pos as int) + 4,
                ))
            &&& (spec_layer_planes(data@, pos as int, idata as int) matches Some(planes)
                && layer.image_data_rgba@ == planes.0 && layer.image_data_k@ == planes.1
                && layer.image_data_mask@ == planes.2 && id2 == planes.4)
            &&& layer.name@ == spec_pascal_name(data@, pos as int)
            &&& !layer.group_opener
            &&& !layer.group_closer
            &&& !layer.group_expanded
        },
        r matches Err(e) ==> spec_walk_err_msg(e@),
{
    proof {
        reveal(spec_layer_planes);
    }
    let dlen = data.len();
    if dlen < 18 || pos > dlen - 18 {
        return Err("Unexpected end of stream".to_owned());
    }
    let top = get_i32(data, pos);
    let left = get_i32(data, pos + 4);
    let bottom = get_i32(data, pos + 8);
    let right = get_i32(data, pos + 12);
    let x = left;
    let y = top;
    let wd: i64 = right as i64 - left as i64;
    let w: u32 = if wd < 0 {
        (wd + 0x100000000i64) as u32
    } else {
        wd as u32
    };
    let hd: i64 = bottom as i64 - top as i64;
    let h: u32 = if hd < 0 {
        (hd + 0x100000000i64) as u32
    } else {
        hd as u32
    };
    let cc = get_u16(data, pos + 16);
    let table = pos + 18;
    let at_wide: u128 = table as u128 + 6 * (cc as u128);
    if at_wide + 16 > dlen as u128 {
        return Err("Unexpected end of stream".to_owned());
    }
    let at = at_wide as usize;
    if !(data[at] == 0x38 && data[at + 1] == 0x42 && data[at + 2] == 0x49 && data[at + 3]
        == 0x4D) {
        return Err("Invalid blend mode magic signature".to_owned());
    }
    let blend_mode = utf8_lossy(&data[at + 4..at + 8]);
    let opacity = data[at + 8];
    let clipping = data[at + 9];
    let flags = data[at + 10];
    let exdat_len = get_u32(data, at + 12);
    let exdat_start = at + 16;
    let exdat_end_wide: u128 = exdat_start as u128 + exdat_len as u128;
    if exdat_end_wide > dlen as u128 {
        return Err("Unexpected end of stream".to_owned());
    }
    let exdat_end = exdat_end_wide as usize;

    let (mask_info, name, blocks_start) = match parse_mask_and_name(data, exdat_start) {
        Ok(x) => x,
        Err(e) => {
            return Err(e);
        },
    };

    // Image data: a fresh opaque-white RGBA grid, then one decode per
    // channel-table entry.
    proof {
        assert((w as int) * (h as int) <= 0xFFFFFFFF * 0xFFFFFFFF) by (nonlinear_arith)
            requires
                w <= 0xFFFFFFFFu32,
                h <= 0xFFFFFFFFu32,
        ;
    }
    let wh_wide: u128 = (w as u128) * (h as u128);
    let px_wide: u128 = wh_wide * 4;
    proof {
        assert(4 * (w as int) * (h as int) == ((w as int) * (h as int)) * 4) by (nonlinear_arith);
    }
    if px_wide > usize::MAX as u128 {
        return Err("Layer dimensions too large".to_owned());
    }
    let mut image_data_rgba: Vec<u8> = vec![255u8; px_wide as usize];
    let mut image_data_k: Vec<u8> = Vec::new();
    let mut image_data_mask: Vec<u8> = Vec::new();
    let ghost rgba_init: Seq<u8> = image_data_rgba@;
    proof {
        assert(rgba_init =~= Seq::new(
            (4 * (w as int) * (h as int)) as nat,
            |j: int| 255u8,
        ));
        assert(spec_layer_planes(data@, pos as int, idata as int) == spec_decode_channels(
            data@,
            table as int,
            0,
            cc as int,
            idata as int,
            h as int,
            mask_info.h as int,
            rgba_init,
            Seq::<u8>::empty(),
            Seq::<u8>::empty(),
            0,
        ));
    }
    let (has_g, has_b, has_a, aux_count, idata2) = match decode_channels(
        data,
        table,
        cc,
        w,
        h,
        mask_info.h,
        idata,
        &mut image_data_rgba,
        &mut image_data_k,
        &mut image_data_mask,
    ) {
        Ok(x) => x,
        Err(e) => {
            return Err(e);
        },
    };
    if image_data_k.len() != 0 && image_data_k.len() as u128 != wh_wide {
        return Err("Desynchronized while reading image data".to_owned());
    }
    proof {
        assert((mask_info.w as int) * (mask_info.h as int) <= 0xFFFFFFFF * 0xFFFFFFFF)
            by (nonlinear_arith)
            requires
                mask_info.w <= 0xFFFFFFFFu32,
                mask_info.h <= 0xFFFFFFFFu32,
        ;
    }
    let mwh_wide: u128 = (mask_info.w as u128) * (mask_info.h as u128);
    if image_data_mask.len() != 0 && image_data_mask.len() as u128 != mwh_wide {
        return Err("Desynchronized while reading image data".to_owned());
    }

    let mut layer = LayerInfo {
        name,
        opacity,
        fill_opacity: 255,
        blend_mode,
        x,
        y,
        w,
        h,
        image_channel_count: cc,
        image_data_rgba,
        image_data_k,
        image_data_has_g: has_g,
        image_data_has_b: has_b,
        image_data_has_a: has_a,
        mask_channel_count: aux_count,
        mask_info,
        image_data_mask,
        group_expanded: false,
        group_opener: false,
        group_closer: false,
        funny_flag: false,
        is_clipped: clipping != 0,
        is_alpha_locked: flags & 1 != 0,
        is_visible: flags & 2 == 0,
        adjustment_type: String::new(),
        adjustment_info: Vec::new(),
        adjustment_desc: None,
        effects_desc: None,
    };

    if blocks_start > exdat_end {
        return Err("Desynchronized while reading or skipping extra data".to_owned());
    }
    Ok((layer, blocks_start, exdat_end, idata2))
}

/// Whether the whole layer record at `pos` decodes: its fixed part and
/// every tagged extra-data block.
#[verifier::opaque]
pub open spec fn spec_layer_ok(data: Seq<u8>, pos: int, idata: int) -> bool {
    &&& spec_layer_head_ok(data, pos, idata)
    &&& spec_extra_ok(data, spec_blocks_start(data, pos), spec_exdat_end(data, pos))
}

/// What a decoded layer record holds, as a function of the record's bytes
/// at `pos` and the image data at `idata`: geometry and header bytes, the
/// channel-presence flags and auxiliary count from the channel table, the
/// mask record, the decoded planes, and the name and group markers with the
/// last "luni" and "lsct" blocks winning.
///
/// Kept opaque so the walker's proofs stay tractable; `reveal` it to reason
/// about the individual fields.
#[verifier::opaque]
pub open spec fn spec_layer_matches(data: Seq<u8>, pos: int, idata: int, layer: LayerInfo) -> bool {
    &&& layer_wf(layer)
    &&& layer.y == be_i32_at(data, pos)
    &&& layer.x == be_i32_at(data, pos + 4)
    &&& layer.w == u32_wrap_of(be_i32_at(data, pos + 12) - be_i32_at(data, pos + 4))
    &&& layer.h == u32_wrap_of(be_i32_at(data, pos + 8) - be_i32_at(data, pos))
    &&& layer.image_channel_count == be_u16_at(data, pos + 16)
    &&& layer.blend_mode@ == utf8_lossy_of(
        data.subrange(spec_blend_off(data, pos) + 4, spec_blend_off(data, pos) + 8),
    )
    &&& layer.opacity == data[spec_blend_off(data, pos) + 8]
    &&& layer.is_clipped == (data[spec_blend_off(data, pos) + 9] != 0)
    &&& layer.is_alpha_locked == (data[spec_blend_off(data, pos) + 10] & 1 != 0)
    &&& layer.is_visible == (data[spec_blend_off(data, pos) + 10] & 2 == 0)
    &&& layer.image_data_has_g == spec_has_id(data, pos + 18, be_u16_at(data, pos + 16) as int, 1)
    &&& layer.image_data_has_b == spec_has_id(data, pos + 18, be_u16_at(data, pos + 16) as int, 2)
    &&& layer.image_data_has_a == spec_has_id(data, pos + 18, be_u16_at(data, pos + 16) as int, -1)
    &&& layer.mask_channel_count == spec_aux_count(
        data,
        pos + 18,
        be_u16_at(data, pos + 16) as int,
    )
    &&& (be_u32_at(data, spec_exdat_start(data, pos)) == 0 ==> layer.mask_info
        == spec_mask_default())
    &&& (be_u32_at(data, spec_exdat_start(data, pos)) != 0 ==> layer.mask_info == spec_mask_at(
        data,
        spec_exdat_start(data, pos) + 4,
    ))
    &&& (spec_layer_planes(data, pos, idata) matches Some(planes) && layer.image_data_rgba@
        == planes.0 && layer.image_data_k@ == planes.1 && layer.image_data_mask@ == planes.2)
    &&& spec_tag_blocks(data, spec_blocks_start(data, pos), spec_exdat_end(data, pos)) is Some
    &&& layer.name@ == (match spec_last_with_tag(
        spec_tag_blocks(data, spec_blocks_start(data, pos), spec_exdat_end(data, pos))->Some_0,
        0x6C756E69,
    ) {
        Some(b) => spec_luni_name(data, b.1),
        None => spec_pascal_name(data, pos),
    })
    &&& layer.group_opener == (match spec_last_with_tag(
        spec_tag_blocks(data, spec_blocks_start(data, pos), spec_exdat_end(data, pos))->Some_0,
        0x6C736374,
    ) {
        Some(b) => be_u32_at(data, b.1) == 1 || be_u32_at(data, b.1) == 2,
        None => false,
    })
    &&& layer.group_closer == (match spec_last_with_tag(
        spec_tag_blocks(data, spec_blocks_start(data, pos), spec_exdat_end(data, pos))->Some_0,
        0x6C736374,
    ) {
        Some(b) => be_u32_at(data, b.1) == 3,
        None => false,
    })
    &&& layer.group_expanded == (match spec_last_with_tag(
        spec_tag_blocks(data, spec_blocks_start(data, pos), spec_exdat_end(data, pos))->Some_0,
        0x6C736374,
    ) {
        Some(b) => be_u32_at(data, b.1) == 1,
        None => false,
    })
}

/// Decode one layer record at `pos`, reading its channel image data from
/// the separate image-data region at `idata`.  Returns the layer, the
/// position of the next layer record, and the advanced image-data position.
///
/// Succeeds exactly when the record decodes ([`spec_layer_ok`]); the layer
/// then holds exactly what the record's bytes say ([`spec_layer_matches`]).
#[verifier::rlimit(100)]
#[verifier::spinoff_prover]
fn parse_one_layer(data: &[u8], pos: usize, idata: u128) -> (r: Result<
    (LayerInfo, usize, u128),
    String,
>)
    requires
        pos <= data@.len(),
        idata <= 0x10000000000000000000000000u128,
    ensures
        r is Ok <==> spec_layer_ok(data@, pos as int, idata as int),
        r matches Ok((layer, p, id2)) ==> {
            &&& (id2 <= idata + 0x100000000000000u128 || id2 <= data@.len()
                + 0x100000000000000u128)
            &&& layer_wf(layer)
            &&& pos < p <= data@.len()
            &&& p == spec_exdat_end(data@, pos as int)
            &&& id2 == spec_layer_planes(data@, pos as int, idata as int)->Some_0.4
            &&& spec_layer_matches(data@, pos as int, idata as int, layer)
        },
        r matches Err(e) ==> spec_walk_err_msg(e@),
{
    proof {
        reveal(spec_layer_matches);
        reveal(spec_layer_ok);
    }
    let (mut layer, blocks_start, exdat_end, id2) = match parse_layer_record_head(
        data,
        pos,
        idata,
    ) {
        Ok(x) => x,
        Err(e) => {
            return Err(e);
        },
    };
    match parse_extra_data(&mut layer, data, blocks_start, exdat_end) {
        Ok(_) => (),
        Err(e) => {
            return Err(e);
        },
    }
    Ok((layer, exdat_end, id2))
}

/// Where the per-layer channel image data starts: the position reached by
/// walking `n` layer-record headers from `pos`, skipping each record's
/// channel table and extra data.  `None` means a header read fell past the
/// end of the data.
pub open spec fn spec_prewalk(data: Seq<u8>, pos: int, n: int) -> Option<int>
    decreases n,
{
    if n <= 0 {
        Some(pos)
    } else {
        if pos + 18 <= data.len() {
            let q = pos + 18 + 6 * be_u16_at(data, pos + 16) + 12;
            if q + 4 <= data.len() {
                spec_prewalk(data, q + 4 + be_u32_at(data, q), n - 1)
            } else {
                None
            }
        } else {
            None
        }
    }
}

/// Pre-walk `n` layer-record headers starting at `start` to find where the
/// image-data region begins: each record contributes its 16-byte rectangle,
/// channel count, channel table, blend header and declared extra-data
/// length.
fn prewalk_layers(data: &[u8], start: usize, n: u16) -> (r: Result<u128, String>)
    requires
        start <= data@.len(),
    ensures
        r is Ok <==> spec_prewalk(data@, start as int, n as int) is Some,
        r matches Ok(p) ==> Some(p as int) == spec_prewalk(data@, start as int, n as int) && p
            <= data@.len() + 0x300000000u128,
        r matches Err(e) ==> e@ == "Unexpected end of stream"@,
{
    let dlen = data.len();
    let mut pos: u128 = start as u128;
    let mut i: u16 = 0;
    while i < n
        invariant
            dlen == data@.len(),
            i <= n,
            pos <= dlen as u128 + 0x300000000u128,
            match spec_prewalk(data@, pos as int, n - i) {
                Some(q) => spec_prewalk(data@, start as int, n as int) == Some(q),
                None => spec_prewalk(data@, start as int, n as int) is None,
            },
        decreases n - i,
    {
        if pos + 18 > dlen as u128 {
            return Err("Unexpected end of stream".to_owned());
        }
        let p = pos as usize;
        let cc = get_u16(data, p + 16);
        let q: u128 = pos + 18 + 6 * (cc as u128) + 12;
        if q + 4 > dlen as u128 {
            return Err("Unexpected end of stream".to_owned());
        }
        let qu = q as usize;
        let ex = get_u32(data, qu);
        pos = q + 4 + ex as u128;
        i = i + 1;
    }
    Ok(pos)
}

/// The file-level preamble before the layer records: `Some((count, first))`
/// when the header is valid and the section lengths stay inside the data,
/// where `count` is the layer count's magnitude (zero when the layer-info
/// block is absent) and `first` is the position of the first layer record.
pub open spec fn spec_preamble(data: Seq<u8>) -> Option<(int, int)> {
    if header_ok(data) && data.len() >= 30 {
        let p1 = 30 + be_u32_at(data, 26);
        if p1 + 4 <= data.len() {
            let p2 = p1 + 4 + be_u32_at(data, p1);
            if p2 + 4 <= data.len() {
                let p3 = p2 + 4;
                if p3 + 4 <= data.len() {
                    let p4 = p3 + 4;
                    if be_u32_at(data, p3) == 0 {
                        Some((0, p4))
                    } else if p4 + 2 <= data.len() {
                        let c = i16_of_u16(be_u16_at(data, p4));
                        Some(
                            (
                                if c < 0 {
                                    -c as int
                                } else {
                                    c as int
                                },
                                p4 + 2,
                            ),
                        )
                    } else {
                        None
                    }
                } else {
                    None
                }
            } else {
                None
            }
        } else {
            None
        }
    } else {
        None
    }
}

/// Whether `k` consecutive layer records decode, starting at `pos` with
/// image data at `idata`, each record's positions feeding the next.
pub open spec fn spec_walk_ok(data: Seq<u8>, pos: int, idata: int, k: int) -> bool
    decreases k,
{
    k <= 0 || (spec_layer_ok(data, pos, idata) && spec_walk_ok(
        data,
        spec_exdat_end(data, pos),
        spec_layer_planes(data, pos, idata)->Some_0.4,
        k - 1,
    ))
}

/// The (record position, image-data position) pair of each of `k`
/// consecutive layer records, starting at `pos` and `idata`.
pub open spec fn spec_walk_positions(data: Seq<u8>, pos: int, idata: int, k: int) -> Seq<
    (int, int),
>
    decreases k,
{
    if k <= 0 {
        Seq::empty()
    } else {
        seq![(pos, idata)] + spec_walk_positions(
            data,
            spec_exdat_end(data, pos),
            spec_layer_planes(data, pos, idata)->Some_0.4,
            k - 1,
        )
    }
}

/// A walk over `k` records yields one position pair per record.
pub proof fn lemma_walk_positions_len(data: Seq<u8>, pos: int, idata: int, k: int)
    ensures
        spec_walk_positions(data, pos, idata, k).len() == (if k <= 0 {
            0int
        } else {
            k
        }),
    decreases k,
{
    if k > 0 {
        lemma_walk_positions_len(
            data,
            spec_exdat_end(data, pos),
            spec_layer_planes(data, pos, idata)->Some_0.4,
            k - 1,
        );
    }
}

/// The (record position, image-data position) pair of every layer record
/// the file declares, for a file whose preamble and header pre-walk are
/// valid.
pub open spec fn spec_record_slots(data: Seq<u8>) -> Seq<(int, int)> {
    let n = spec_preamble(data)->Some_0.0;
    let first = spec_preamble(data)->Some_0.1;
    let id0 = spec_prewalk(data, first, n)->Some_0;
    spec_walk_positions(data, first, id0, n)
}

/// Whether a whole file parses to its full layer list: a valid preamble, a
/// successful header pre-walk, and every declared layer record decoding.
pub open spec fn spec_parse_ok(data: Seq<u8>) -> bool {
    match spec_preamble(data) {
        Some((n, first)) => match spec_prewalk(data, first, n) {
            Some(id0) => spec_walk_ok(data, first, id0, n),
            None => false,
        },
        None => false,
    }
}

/// The walker behind [`parse_layer_records`]: validates the header, skips
/// the color-mode and image-resources sections, reads the layer count, and
/// decodes each layer record in storage order, appending it to `layers`.
#[verifier::rlimit(100)]
#[verifier::spinoff_prover]
fn parse_layer_records_impl(data: &[u8], layers: &mut Vec<LayerInfo>) -> (r: Result<(), String>)
    requires
        old(layers)@.len() == 0,
    ensures
        forall|i: int|
            0 <= i < final(layers)@.len() ==> layer_wf(#[trigger] final(layers)@[i]),
        !header_ok(data@) ==> r is Err && (r matches Err(e) && e@ == spec_header_err(data@)),
        !header_ok(data@) ==> final(layers)@.len() == 0,
        spec_parse_ok(data@) ==> r is Ok,
        r is Ok ==> {
            &&& spec_preamble(data@) is Some
            &&& spec_prewalk(
                data@,
                spec_preamble(data@)->Some_0.1,
                spec_preamble(data@)->Some_0.0,
            ) is Some
            &&& final(layers)@.len() == spec_preamble(data@)->Some_0.0
            &&& (forall|i: int|
                0 <= i < final(layers)@.len() ==> spec_layer_matches(
                    data@,
                    spec_record_slots(data@)[i].0,
                    spec_record_slots(data@)[i].1,
                    #[trigger] final(layers)@[i],
                ))
        },
        r is Err && spec_preamble(data@) is None ==> final(layers)@.len() == 0,
        r is Err && spec_preamble(data@) is Some && spec_prewalk(
            data@,
            spec_preamble(data@)->Some_0.1,
            spec_preamble(data@)->Some_0.0,
        ) is None ==> final(layers)@.len() == 0,
        r is Err && spec_preamble(data@) is Some && spec_prewalk(
            data@,
            spec_preamble(data@)->Some_0.1,
            spec_preamble(data@)->Some_0.0,
        ) is Some ==> {
            &&& final(layers)@.len() <= spec_preamble(data@)->Some_0.0
            &&& (forall|i: int|
                0 <= i < final(layers)@.len() ==> spec_layer_matches(
                    data@,
                    spec_record_slots(data@)[i].0,
                    spec_record_slots(data@)[i].1,
                    #[trigger] final(layers)@[i],
                ))
            &&& (final(layers)@.len() < spec_preamble(data@)->Some_0.0 ==> !spec_layer_ok(
                data@,
                spec_record_slots(data@)[final(layers)@.len() as int].0,
                spec_record_slots(data@)[final(layers)@.len() as int].1,
            ))
        },
        r matches Err(e) ==> spec_walk_err_msg(e@) || e@ == spec_header_err(data@),
{
    let _metadata = match parse_psd_metadata(data) {
        Ok(m) => m,
        Err(e) => {
            return Err(e);
        },
    };
    let dlen = data.len();
    if dlen < 30 {
        return Err("Unexpected end of stream".to_owned());
    }

    // Color-mode data section: length-skipped.
    let cm_len = get_u32(data, 26);
    let p1: u128 = 30 + cm_len as u128;
    if p1 + 4 > dlen as u128 {
        return Err("Unexpected end of stream".to_owned());
    }

    // Image-resources section: length-skipped.
    let ir_len = get_u32(data, p1 as usize);
    let p2: u128 = p1 + 4 + ir_len as u128;
    if p2 + 4 > dlen as u128 {
        return Err("Unexpected end of stream".to_owned());
    }

    // Layer-and-mask-info block, then the layer-info block inside it.
    let _lmi_len = get_u32(data, p2 as usize);
    let p3: u128 = p2 + 4;
    if p3 + 4 > dlen as u128 {
        return Err("Unexpected end of stream".to_owned());
    }
    let li_len = get_u32(data, p3 as usize);
    let p4: u128 = p3 + 4;
    if li_len == 0 {
        // No layer-info block at all: an empty layer stack.
        proof {
            assert(spec_preamble(data@) == Some((0int, p4 as int)));
        }
        return Ok(());
    }
    if p4 + 2 > dlen as u128 {
        return Err("Unexpected end of stream".to_owned());
    }

    // Layer count; negative means the first alpha channel is the merged
    // transparency, and the magnitude is the real count.
    let count_u = get_u16(data, p4 as usize);
    let count_i: i32 = if count_u >= 0x8000 {
        count_u as i32 - 0x10000
    } else {
        count_u as i32
    };
    let layer_count: u16 = if count_i < 0 {
        (-count_i) as u16
    } else {
        count_i as u16
    };
    let first = (p4 + 2) as usize;
    proof {
        assert(spec_preamble(data@) == Some((layer_count as int, first as int)));
    }

    let idata0 = match prewalk_layers(data, first, layer_count) {
        Ok(p) => p,
        Err(e) => {
            return Err(e);
        },
    };
    let ghost n0: int = layer_count as int;
    let ghost first0: int = first as int;
    let ghost id0: int = idata0 as int;
    let ghost wp: Seq<(int, int)> = spec_walk_positions(data@, first0, id0, n0);
    proof {
        assert(spec_record_slots(data@) == wp);
        lemma_walk_positions_len(data@, first0, id0, n0);
    }

    let mut pos = first;
    let mut idata = idata0;
    let mut i: u16 = 0;
    while i < layer_count
        invariant
            dlen == data@.len(),
            header_ok(data@),
            pos <= dlen,
            i <= layer_count,
            idata <= dlen as u128 + 0x300000000u128 + (i as u128) * 0x100000000000000u128,
            n0 == layer_count as int,
            spec_preamble(data@) == Some((n0, first0)),
            spec_prewalk(data@, first0, n0) == Some(id0),
            wp == spec_walk_positions(data@, first0, id0, n0),
            wp == spec_record_slots(data@),
            wp.len() == n0,
            layers@.len() == i,
            forall|k: int|
                0 <= k < i ==> spec_layer_matches(data@, wp[k].0, wp[k].1, #[trigger] layers@[k]),
            wp.skip(i as int) == spec_walk_positions(data@, pos as int, idata as int, n0 - i),
            spec_walk_ok(data@, first0, id0, n0) ==> spec_walk_ok(
                data@,
                pos as int,
                idata as int,
                n0 - i,
            ),
            forall|k: int| 0 <= k < layers@.len() ==> layer_wf(#[trigger] layers@[k]),
        decreases layer_count - i,
    {
        proof {
            assert(spec_walk_positions(data@, pos as int, idata as int, n0 - i)[0] == (
                pos as int,
                idata as int,
            ));
            assert(wp[i as int] == wp.skip(i as int)[0]);
        }
        let (layer, p, id2) = match parse_one_layer(data, pos, idata) {
            Ok(x) => x,
            Err(e) => {
                proof {
                    assert(!spec_walk_ok(data@, pos as int, idata as int, n0 - i));
                }
                return Err(e);
            },
        };
        proof {
            assert(wp.skip(i as int).drop_first() =~= wp.skip(i + 1));
        }
        layers.push(layer);
        pos = p;
        idata = id2;
        i = i + 1;
    }
    Ok(())
}

/// How many of `layers` open a group.
pub open spec fn spec_count_openers(layers: Seq<LayerInfo>) -> int
    decreases layers.len(),
{
    if layers.len() == 0 {
        0
    } else {
        spec_count_openers(layers.drop_last()) + (if layers.last().group_opener {
            1int
        } else {
            0int
        })
    }
}

/// How many of `layers` close a group.
pub open spec fn spec_count_closers(layers: Seq<LayerInfo>) -> int
    decreases layers.len(),
{
    if layers.len() == 0 {
        0
    } else {
        spec_count_closers(layers.drop_last()) + (if layers.last().group_closer {
            1int
        } else {
            0int
        })
    }
}

/// Whether the record at `pos` marks a group opener: its last
/// section-divider block carries kind 1 or 2.
pub open spec fn spec_slot_opener(data: Seq<u8>, pos: int) -> bool {
    match spec_last_with_tag(
        spec_tag_blocks(data, spec_blocks_start(data, pos), spec_exdat_end(data, pos))->Some_0,
        0x6C736374,
    ) {
        Some(b) => be_u32_at(data, b.1) == 1 || be_u32_at(data, b.1) == 2,
        None => false,
    }
}

/// Whether the record at `pos` marks a group closer: its last
/// section-divider block carries kind 3.
pub open spec fn spec_slot_closer(data: Seq<u8>, pos: int) -> bool {
    match spec_last_with_tag(
        spec_tag_blocks(data, spec_blocks_start(data, pos), spec_exdat_end(data, pos))->Some_0,
        0x6C736374,
    ) {
        Some(b) => be_u32_at(data, b.1) == 3,
        None => false,
    }
}

/// How many of the records at `slots` mark group openers.
pub open spec fn spec_count_slot_openers(data: Seq<u8>, slots: Seq<(int, int)>) -> int
    decreases slots.len(),
{
    if slots.len() == 0 {
        0
    } else {
        spec_count_slot_openers(data, slots.drop_last()) + (if spec_slot_opener(
            data,
            slots.last().0,
        ) {
            1int
        } else {
            0int
        })
    }
}

/// How many of the records at `slots` mark group closers.
pub open spec fn spec_count_slot_closers(data: Seq<u8>, slots: Seq<(int, int)>) -> int
    decreases slots.len(),
{
    if slots.len() == 0 {
        0
    } else {
        spec_count_slot_closers(data, slots.drop_last()) + (if spec_slot_closer(
            data,
            slots.last().0,
        ) {
            1int
        } else {
            0int
        })
    }
}

/// Layers that hold what their records say carry exactly the records' group
/// markers: the opener and closer counts of the list equal the opener and
/// closer counts of the records themselves.
pub proof fn lemma_group_marker_counts(data: Seq<u8>, slots: Seq<(int, int)>, layers: Seq<
    LayerInfo,
>)
    requires
        layers.len() == slots.len(),
        forall|i: int|
            0 <= i < layers.len() ==> spec_layer_matches(
                data,
                slots[i].0,
                slots[i].1,
                #[trigger] layers[i],
            ),
    ensures
        spec_count_openers(layers) == spec_count_slot_openers(data, slots),
        spec_count_closers(layers) == spec_count_slot_closers(data, slots),
    decreases layers.len(),
{
    reveal(spec_layer_matches);
    if layers.len() > 0 {
        lemma_group_marker_counts(data, slots.drop_last(), layers.drop_last());
    }
}

/// Group bracket balance: in a file whose records open exactly as many
/// groups as they close, a successfully parsed layer list has as many
/// group openers as group closers.
pub proof fn lemma_group_bracket_balance(data: Seq<u8>, layers: Seq<LayerInfo>)
    requires
        layers.len() == spec_record_slots(data).len(),
        forall|i: int|
            0 <= i < layers.len() ==> spec_layer_matches(
                data,
                spec_record_slots(data)[i].0,
                spec_record_slots(data)[i].1,
                #[trigger] layers[i],
            ),
        spec_count_slot_openers(data, spec_record_slots(data)) == spec_count_slot_closers(
            data,
            spec_record_slots(data),
        ),
    ensures
        spec_count_openers(layers) == spec_count_closers(layers),
{
    lemma_group_marker_counts(data, spec_record_slots(data), layers);
}

/// Parses the layer records out of a PSD file, producing a bottom-to-top
/// list.
///
/// PSD doesn't store its layer data in a tree; instead, it uses
/// start-of-group and end-of-group entries in the flat list to indicate
/// tree structure.
///
/// On failure, returns all the layers that had been parsed so far, from the
/// bottom (PSD files are stored bottom-up), and a string describing the
/// error.  The incomplete list is unlikely to be useful for an application,
/// but it may help debugging.
///
/// Succeeds exactly when the whole file parses ([`spec_parse_ok`]); the
/// list then holds one layer per declared record, in storage order, each
/// holding exactly what its record's bytes say ([`spec_layer_matches`] at
/// that record's position).  On failure the partial list holds exactly the
/// layers decoded before the first failing record, and every layer either
/// way satisfies [`layer_wf`].
pub fn parse_layer_records(data: &[u8]) -> (r: Result<Vec<LayerInfo>, (Vec<LayerInfo>, String)>)
    ensures
        r matches Ok(layers) ==> forall|i: int|
            0 <= i < layers@.len() ==> layer_wf(#[trigger] layers@[i]),
        r matches Err((layers, e)) ==> forall|i: int|
            0 <= i < layers@.len() ==> layer_wf(#[trigger] layers@[i]),
        !header_ok(data@) ==> r is Err,
        !header_ok(data@) ==> (r matches Err((layers, e)) && layers@.len() == 0 && e@
            == spec_header_err(data@)),
        spec_parse_ok(data@) ==> r is Ok,
        r matches Ok(layers) ==> {
            &&& spec_preamble(data@) is Some
            &&& spec_prewalk(
                data@,
                spec_preamble(data@)->Some_0.1,
                spec_preamble(data@)->Some_0.0,
            ) is Some
            &&& layers@.len() == spec_preamble(data@)->Some_0.0
            &&& (forall|i: int|
                0 <= i < layers@.len() ==> spec_layer_matches(
                    data@,
                    spec_record_slots(data@)[i].0,
                    spec_record_slots(data@)[i].1,
                    #[trigger] layers@[i],
                ))
        },
        r matches Err((layers, e)) ==> (spec_preamble(data@) is None ==> layers@.len() == 0),
        r matches Err((layers, e)) ==> (spec_preamble(data@) is Some && spec_prewalk(
            data@,
            spec_preamble(data@)->Some_0.1,
            spec_preamble(data@)->Some_0.0,
        ) is None ==> layers@.len() == 0),
        r matches Err((layers, e)) ==> (spec_preamble(data@) is Some && spec_prewalk(
            data@,
            spec_preamble(data@)->Some_0.1,
            spec_preamble(data@)->Some_0.0,
        ) is Some ==> {
            &&& layers@.len() <= spec_preamble(data@)->Some_0.0
            &&& (forall|i: int|
                0 <= i < layers@.len() ==> spec_layer_matches(
                    data@,
                    spec_record_slots(data@)[i].0,
                    spec_record_slots(data@)[i].1,
                    #[trigger] layers@[i],
                ))
            &&& (layers@.len() < spec_preamble(data@)->Some_0.0 ==> !spec_layer_ok(
                data@,
                spec_record_slots(data@)[layers@.len() as int].0,
                spec_record_slots(data@)[layers@.len() as int].1,
            ))
        }),
        r matches Err((layers, e)) ==> spec_walk_err_msg(e@) || e@ == spec_header_err(data@),
{
    let mut layers: Vec<LayerInfo> = Vec::new();
    let ret = parse_layer_records_impl(data, &mut layers);
    match ret {
        Ok(_) => Ok(layers),
        Err(err) => Err((layers, err)),
    }
}

} // verus!
