//! A read-only parser for 8-bit RGB, CMYK and Grayscale Adobe PSD documents.
//!
//! The parser consumes a fully materialized byte buffer and produces a flat,
//! bottom-to-top list of layer records together with canvas-level metadata.
//! Values found in the file are preserved with a minimum of interpretation:
//! blend modes stay four-character codes, and dynamic "class descriptor"
//! payloads are kept as typed trees.
//!
//! You want [`parse_layer_records`] and [`parse_psd_metadata`].

pub mod cursor;
pub mod descriptor;
pub mod header;
pub mod layers;
pub mod packbits;
pub mod text;

pub use cursor::SliceCursor;
pub use descriptor::{DescItem, Descriptor};
pub use header::{PsdMetadata, parse_psd_metadata};
pub use layers::{AdjustmentParam, BlendModeDocs, LayerInfo, MaskInfo, parse_layer_records};
pub use packbits::{append_img_data, copy_img_data};
