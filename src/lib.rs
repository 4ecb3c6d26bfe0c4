//! Reading and writing the legacy text property-list format used by font
//! source documents, and mapping its untyped value tree onto typed records.

use vstd::prelude::*;

pub mod text;
pub mod lexer;
pub mod plist;
pub mod convert;
pub mod schema;
pub mod font;
pub mod records;
pub mod roundtrip;
pub mod traits;
pub mod interop;

pub use lexer::{Error, Token};
pub use plist::{Plist, PValue, escape_string, numeric_ok};
pub use convert::{Number, ValueKind, VariantError, BoolConversionError, DownsizeToU16Error, ArrayConversionError};
pub use schema::{FieldDescriptor, Requiredness};
pub use traits::{FromPlist, ToPlist};
pub use font::{
    GlyphsFromPlistError, AnchorOrientation, Direction, Case, MetricType, InstanceType, NodeType, Color,
    Point, Scale, Kerning,
};
pub use records::{Axis, FontNumbers, FontStems, Metric, Settings, NodeAttrs, PathShadow, Node, Path};

verus! {

} // verus!
