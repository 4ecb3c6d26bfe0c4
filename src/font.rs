//! The records of a font document and the conversions of their field types.

use vstd::prelude::*;
use crate::plist::{Plist, PValue, items_view, lemma_items_view, lemma_items_view_push, entries_view, lemma_entries_view};
use crate::text::{text_eq, chars_of, equals_ignoring_case, equals_word_ignoring_case};
use crate::convert::{
    VariantError, DownsizeToU16Error, BoolConversionError, ArrayConversionError, Number,
    plain_number, plain_number_of, number_to_plist,
};

verus! {

#[derive(Debug, PartialEq, Eq)]
pub struct NameConversionError;

#[derive(Debug, PartialEq, Eq)]
pub enum AnchorOrientationConversionError {
    WrongVariant,
    UnknownOrientation(String),
}

#[derive(Debug, PartialEq, Eq)]
pub enum ColorConversionError {
    WrongVariant,
    UnsupportedArray,
    OutOfBounds(i64),
}

#[derive(Debug, PartialEq, Eq)]
pub struct DirectionConversionError;

#[derive(Debug, PartialEq, Eq)]
pub struct CaseConversionError;

#[derive(Debug, PartialEq, Eq)]
pub struct MetricTypeConversionError;

#[derive(Debug, PartialEq, Eq)]
pub struct InstanceTypeConversionError;

#[derive(Debug, PartialEq, Eq)]
pub enum CodepointsConversionError {
    InvalidCodepoint(i64),
    WrongVariant,
}

#[derive(Debug, PartialEq, Eq)]
pub struct NodeTypeParseError;

#[derive(Debug)]
pub enum NodeConversionError {
    WrongVariant,
    MissingX,
    MissingY,
    MissingType,
    NotFloatX,
    NotFloatY,
    InvalidAttr(Box<GlyphsFromPlistError>),
    InvalidType(NodeTypeParseError),
}

#[derive(Debug, PartialEq, Eq)]
pub enum PointConversionError {
    WrongVariant,
    MissingX,
    MissingY,
    NotFloatX,
    NotFloatY,
}

#[derive(Debug, PartialEq, Eq)]
pub enum ScaleConversionError {
    WrongVariant,
    MissingHorizontal,
    MissingVertical,
    NotFloatHorizontal,
    NotFloatVertical,
}

#[derive(Debug, PartialEq, Eq)]
pub enum KerningConversionError {
    WrongVariant,
    NotFloatValue { left_name: String, right_name: String },
    /// A glyph name that is empty or holds a control character.
    InvalidName(String),
}

/// Why a value could not be read as a record or as one of its fields.
#[derive(Debug)]
pub enum GlyphsFromPlistError {
    MissingField(String),
    UnrecognisedFields(Vec<String>),
    Variant(VariantError),
    DownsizeToU16(DownsizeToU16Error),
    Bool(BoolConversionError),
    Array(ArrayConversionError<Box<GlyphsFromPlistError>>),
    Name(NameConversionError),
    AnchorOrientation(AnchorOrientationConversionError),
    Color(ColorConversionError),
    Direction(DirectionConversionError),
    Case(CaseConversionError),
    MetricType(MetricTypeConversionError),
    InstanceType(InstanceTypeConversionError),
    Node(NodeConversionError),
    Point(PointConversionError),
    Scale(ScaleConversionError),
    Kerning(KerningConversionError),
    Codepoints(CodepointsConversionError),
}

#[derive(Clone, Copy, Debug, PartialEq, Eq, Structural)]
pub enum AnchorOrientation {
    Center,
    Right,
}

impl AnchorOrientation {
    /// How this value is written.
    pub open spec fn wire_text(self) -> Seq<char> {
        match self {
            AnchorOrientation::Center => "center"@,
            AnchorOrientation::Right => "right"@,
        }
    }

    pub fn as_str(&self) -> (r: &'static str)
        ensures
            r@ == self.wire_text(),
    {
        match self {
            AnchorOrientation::Center => "center",
            AnchorOrientation::Right => "right",
        }
    }

    pub fn try_from(plist: Plist) -> (r: Result<AnchorOrientation, AnchorOrientationConversionError>)
        ensures
            match plist@ {
            PValue::Str(s) => match r {
                Ok(x) => x.wire_text() == s,
                Err(e) => (forall|x: AnchorOrientation| x.wire_text() != s) && (e matches AnchorOrientationConversionError::UnknownOrientation(t) && t@ == s),
            },
            _ => r matches Err(AnchorOrientationConversionError::WrongVariant),
            },
    {
        match plist {
            Plist::String(s) => {
                if text_eq(s.as_str(), "center") {
                    Ok(AnchorOrientation::Center)
                } else if text_eq(s.as_str(), "right") {
                    Ok(AnchorOrientation::Right)
                } else {
                    Err(AnchorOrientationConversionError::UnknownOrientation(s))
                }
            },
            _ => Err(AnchorOrientationConversionError::WrongVariant),
        }
    }

    pub fn to_plist(self) -> (r: Plist)
        ensures
            r@ == PValue::Str(self.wire_text()),
    {
        Plist::String(self.as_str().to_owned())
    }
}

#[derive(Clone, Copy, Debug, PartialEq, Eq, Structural)]
pub enum Direction {
    Bidi,
    Ltr,
    Rtl,
    Vtl,
    Vtr,
}

impl Direction {
    /// How this value is written.
    pub open spec fn wire_text(self) -> Seq<char> {
        match self {
            Direction::Bidi => "BIDI"@,
            Direction::Ltr => "LTR"@,
            Direction::Rtl => "RTL"@,
            Direction::Vtl => "VTL"@,
            Direction::Vtr => "VTR"@,
        }
    }

    pub fn as_str(&self) -> (r: &'static str)
        ensures
            r@ == self.wire_text(),
    {
        match self {
            Direction::Bidi => "BIDI",
            Direction::Ltr => "LTR",
            Direction::Rtl => "RTL",
            Direction::Vtl => "VTL",
            Direction::Vtr => "VTR",
        }
    }

    pub fn try_from(plist: Plist) -> (r: Result<Direction, DirectionConversionError>)
        ensures
            match plist@ {
            PValue::Str(s) => match r {
                Ok(x) => x.wire_text() == s,
                Err(_) => forall|x: Direction| x.wire_text() != s,
            },
            _ => r is Err,
            },
    {
        match plist {
            Plist::String(s) => {
                if text_eq(s.as_str(), "BIDI") {
                    Ok(Direction::Bidi)
                } else if text_eq(s.as_str(), "LTR") {
                    Ok(Direction::Ltr)
                } else if text_eq(s.as_str(), "RTL") {
                    Ok(Direction::Rtl)
                } else if text_eq(s.as_str(), "VTL") {
                    Ok(Direction::Vtl)
                } else if text_eq(s.as_str(), "VTR") {
                    Ok(Direction::Vtr)
                } else {
                    Err(DirectionConversionError)
                }
            },
            _ => Err(DirectionConversionError),
        }
    }

    pub fn to_plist(self) -> (r: Plist)
        ensures
            r@ == PValue::Str(self.wire_text()),
    {
        Plist::String(self.as_str().to_owned())
    }
}

#[derive(Clone, Copy, Debug, PartialEq, Eq, Structural)]
pub enum Case {
    NoCase,
    Upper,
    Lower,
    SmallCaps,
    Other,
}

impl Case {
    /// How this value is written.
    pub open spec fn wire_text(self) -> Seq<char> {
        match self {
            Case::NoCase => "noCase"@,
            Case::Upper => "upper"@,
            Case::Lower => "lower"@,
            Case::SmallCaps => "smallCaps"@,
            Case::Other => "other"@,
        }
    }

    pub fn as_str(&self) -> (r: &'static str)
        ensures
            r@ == self.wire_text(),
    {
        match self {
            Case::NoCase => "noCase",
            Case::Upper => "upper",
            Case::Lower => "lower",
            Case::SmallCaps => "smallCaps",
            Case::Other => "other",
        }
    }

    pub fn try_from(plist: Plist) -> (r: Result<Case, CaseConversionError>)
        ensures
            match plist@ {
            PValue::Str(s) => match r {
                Ok(x) => x.wire_text() == s,
                Err(_) => forall|x: Case| x.wire_text() != s,
            },
            _ => r is Err,
            },
    {
        match plist {
            Plist::String(s) => {
                if text_eq(s.as_str(), "noCase") {
                    Ok(Case::NoCase)
                } else if text_eq(s.as_str(), "upper") {
                    Ok(Case::Upper)
                } else if text_eq(s.as_str(), "lower") {
                    Ok(Case::Lower)
                } else if text_eq(s.as_str(), "smallCaps") {
                    Ok(Case::SmallCaps)
                } else if text_eq(s.as_str(), "other") {
                    Ok(Case::Other)
                } else {
                    Err(CaseConversionError)
                }
            },
            _ => Err(CaseConversionError),
        }
    }

    pub fn to_plist(self) -> (r: Plist)
        ensures
            r@ == PValue::Str(self.wire_text()),
    {
        Plist::String(self.as_str().to_owned())
    }
}

#[derive(Clone, Copy, Debug, PartialEq, Eq, Structural)]
pub enum MetricType {
    Ascender,
    Baseline,
    BodyHeight,
    CapHeight,
    Descender,
    ItalicAngle,
    MidHeight,
    SlantHeight,
    TopHeight,
    XHeight,
}

impl MetricType {
    /// How this value is written.
    pub open spec fn wire_text(self) -> Seq<char> {
        match self {
            MetricType::Ascender => "ascender"@,
            MetricType::Baseline => "baseline"@,
            MetricType::BodyHeight => "bodyHeight"@,
            MetricType::CapHeight => "cap height"@,
            MetricType::Descender => "descender"@,
            MetricType::ItalicAngle => "italic angle"@,
            MetricType::MidHeight => "midHeight"@,
            MetricType::SlantHeight => "slant height"@,
            MetricType::TopHeight => "topHeight"@,
            MetricType::XHeight => "x-height"@,
        }
    }

    pub fn as_str(&self) -> (r: &'static str)
        ensures
            r@ == self.wire_text(),
    {
        match self {
            MetricType::Ascender => "ascender",
            MetricType::Baseline => "baseline",
            MetricType::BodyHeight => "bodyHeight",
            MetricType::CapHeight => "cap height",
            MetricType::Descender => "descender",
            MetricType::ItalicAngle => "italic angle",
            MetricType::MidHeight => "midHeight",
            MetricType::SlantHeight => "slant height",
            MetricType::TopHeight => "topHeight",
            MetricType::XHeight => "x-height",
        }
    }

    pub fn try_from(plist: Plist) -> (r: Result<MetricType, MetricTypeConversionError>)
        ensures
            match plist@ {
            PValue::Str(s) => match r {
                Ok(x) => x.wire_text() == s,
                Err(_) => forall|x: MetricType| x.wire_text() != s,
            },
            _ => r is Err,
            },
    {
        match plist {
            Plist::String(s) => {
                if text_eq(s.as_str(), "ascender") {
                    Ok(MetricType::Ascender)
                } else if text_eq(s.as_str(), "baseline") {
                    Ok(MetricType::Baseline)
                } else if text_eq(s.as_str(), "bodyHeight") {
                    Ok(MetricType::BodyHeight)
                } else if text_eq(s.as_str(), "cap height") {
                    Ok(MetricType::CapHeight)
                } else if text_eq(s.as_str(), "descender") {
                    Ok(MetricType::Descender)
                } else if text_eq(s.as_str(), "italic angle") {
                    Ok(MetricType::ItalicAngle)
                } else if text_eq(s.as_str(), "midHeight") {
                    Ok(MetricType::MidHeight)
                } else if text_eq(s.as_str(), "slant height") {
                    Ok(MetricType::SlantHeight)
                } else if text_eq(s.as_str(), "topHeight") {
                    Ok(MetricType::TopHeight)
                } else if text_eq(s.as_str(), "x-height") {
                    Ok(MetricType::XHeight)
                } else {
                    Err(MetricTypeConversionError)
                }
            },
            _ => Err(MetricTypeConversionError),
        }
    }

    pub fn to_plist(self) -> (r: Plist)
        ensures
            r@ == PValue::Str(self.wire_text()),
    {
        Plist::String(self.as_str().to_owned())
    }
}

#[derive(Clone, Copy, Debug, PartialEq, Eq, Structural)]
pub enum InstanceType {
    Variable,
}

impl InstanceType {
    /// How this value is written.
    pub open spec fn wire_text(self) -> Seq<char> {
        match self {
            InstanceType::Variable => "variable"@,
        }
    }

    pub fn as_str(&self) -> (r: &'static str)
        ensures
            r@ == self.wire_text(),
    {
        match self {
            InstanceType::Variable => "variable",
        }
    }

    pub fn try_from(plist: Plist) -> (r: Result<InstanceType, InstanceTypeConversionError>)
        ensures
            match plist@ {
            PValue::Str(s) => match r {
                Ok(x) => x.wire_text() == s,
                Err(_) => forall|x: InstanceType| x.wire_text() != s,
            },
            _ => r is Err,
            },
    {
        match plist {
            Plist::String(s) => {
                if text_eq(s.as_str(), "variable") {
                    Ok(InstanceType::Variable)
                } else {
                    Err(InstanceTypeConversionError)
                }
            },
            _ => Err(InstanceTypeConversionError),
        }
    }

    pub fn to_plist(self) -> (r: Plist)
        ensures
            r@ == PValue::Str(self.wire_text()),
    {
        Plist::String(self.as_str().to_owned())
    }
}

#[derive(Clone, Copy, Debug, PartialEq, Eq, Structural)]
pub enum NodeType {
    Line,
    LineSmooth,
    OffCurve,
    Curve,
    CurveSmooth,
    QCurve,
    QCurveSmooth,
}

impl NodeType {
    /// The tag that stands for this node type in a node tuple.
    pub open spec fn tag(self) -> Seq<char> {
        match self {
            NodeType::Line => "l"@,
            NodeType::LineSmooth => "ls"@,
            NodeType::Curve => "c"@,
            NodeType::CurveSmooth => "cs"@,
            NodeType::QCurve => "q"@,
            NodeType::QCurveSmooth => "qs"@,
            NodeType::OffCurve => "o"@,
        }
    }

    pub fn glyphs_str(&self) -> (r: &'static str)
        ensures
            r@ == self.tag(),
    {
        match self {
            NodeType::Line => "l",
            NodeType::LineSmooth => "ls",
            NodeType::Curve => "c",
            NodeType::CurveSmooth => "cs",
            NodeType::QCurve => "q",
            NodeType::QCurveSmooth => "qs",
            NodeType::OffCurve => "o",
        }
    }

    pub fn from_str(s: &str) -> (r: Result<NodeType, NodeTypeParseError>)
        ensures
            match r {
                Ok(x) => x.tag() == s@,
                Err(_) => forall|x: NodeType| x.tag() != s@,
            },
    {
        if text_eq(s, "l") {
            Ok(NodeType::Line)
        } else if text_eq(s, "ls") {
            Ok(NodeType::LineSmooth)
        } else if text_eq(s, "c") {
            Ok(NodeType::Curve)
        } else if text_eq(s, "cs") {
            Ok(NodeType::CurveSmooth)
        } else if text_eq(s, "q") {
            Ok(NodeType::QCurve)
        } else if text_eq(s, "qs") {
            Ok(NodeType::QCurveSmooth)
        } else if text_eq(s, "o") {
            Ok(NodeType::OffCurve)
        } else {
            Err(NodeTypeParseError)
        }
    }

    pub fn try_from(plist: Plist) -> (r: Result<NodeType, NodeTypeParseError>)
        ensures
            match plist@ {
                PValue::Str(s) => match r {
                    Ok(x) => x.tag() == s,
                    Err(_) => forall|x: NodeType| x.tag() != s,
                },
                _ => r is Err,
            },
    {
        match plist {
            Plist::String(s) => NodeType::from_str(s.as_str()),
            _ => Err(NodeTypeParseError),
        }
    }
}

#[derive(Clone, Copy, Debug, PartialEq, Eq, Structural)]
pub enum Color {
    Index(i64),
    GreyAlpha(u8, u8),
    Rgba(u8, u8, u8, u8),
    Cmyka(u8, u8, u8, u8, u8),
}

/// The color of a run of channel bytes: grey and alpha, RGBA, or CMYK and alpha.
pub open spec fn color_of_bytes(b: Seq<u8>) -> Result<Color, ColorConversionError> {
    if b.len() == 2 {
        Ok(Color::GreyAlpha(b[0], b[1]))
    } else if b.len() == 4 {
        Ok(Color::Rgba(b[0], b[1], b[2], b[3]))
    } else if b.len() == 5 {
        Ok(Color::Cmyka(b[0], b[1], b[2], b[3], b[4]))
    } else {
        Err(ColorConversionError::UnsupportedArray)
    }
}

/// The color of the channel values `a` from `i` on, after the bytes `acc`
/// were read; the first value that is not an integer in 0..=255 is the error.
pub open spec fn color_from(a: Seq<PValue>, i: int, acc: Seq<u8>) -> Result<Color, ColorConversionError>
    decreases a.len() - i,
{
    if i < 0 || i >= a.len() {
        color_of_bytes(acc)
    } else {
        match a[i] {
            PValue::Int(n) => if 0 <= n <= 255 {
                color_from(a, i + 1, acc.push(n as u8))
            } else {
                Err(ColorConversionError::OutOfBounds(n))
            },
            _ => Err(ColorConversionError::WrongVariant),
        }
    }
}

pub open spec fn color_spec(v: PValue) -> Result<Color, ColorConversionError> {
    match v {
        PValue::Int(n) => Ok(Color::Index(n)),
        PValue::Array(a) => color_from(a, 0, Seq::empty()),
        _ => Err(ColorConversionError::WrongVariant),
    }
}

pub open spec fn color_value(c: Color) -> PValue {
    match c {
        Color::Index(n) => PValue::Int(n),
        Color::GreyAlpha(g, a) => PValue::Array(seq![PValue::Int(g as i64), PValue::Int(a as i64)]),
        Color::Rgba(r, g, b, a) => PValue::Array(
            seq![PValue::Int(r as i64), PValue::Int(g as i64), PValue::Int(b as i64), PValue::Int(a as i64)],
        ),
        Color::Cmyka(c, m, y, k, a) => PValue::Array(
            seq![
                PValue::Int(c as i64),
                PValue::Int(m as i64),
                PValue::Int(y as i64),
                PValue::Int(k as i64),
                PValue::Int(a as i64),
            ],
        ),
    }
}

fn byte_items(b: &[u8]) -> (r: Vec<Plist>)
    ensures
        items_view(r@) == Seq::new(b@.len(), |i: int| PValue::Int(b@[i] as i64)),
{
    let mut r: Vec<Plist> = Vec::new();
    let mut i: usize = 0;
    while i < b.len()
        invariant
            0 <= i <= b@.len(),
            items_view(r@) == Seq::new(i as nat, |k: int| PValue::Int(b@[k] as i64)),
        decreases b@.len() - i,
    {
        proof { lemma_items_view_push(r@, Plist::Integer(b[i as int] as i64)); }
        r.push(Plist::Integer(b[i] as i64));
        i = i + 1;
        proof {
            assert(items_view(r@) =~= Seq::new(i as nat, |k: int| PValue::Int(b@[k] as i64)));
        }
    }
    r
}

impl Color {
    pub fn try_from(plist: Plist) -> (r: Result<Color, ColorConversionError>)
        ensures
            r == color_spec(plist@),
    {
        match plist {
            Plist::Integer(n) => Ok(Color::Index(n)),
            Plist::Array(array) => {
                proof { lemma_items_view(array@); }
                let ghost a = items_view(array@);
                let mut bytes: Vec<u8> = Vec::new();
                let mut i: usize = 0;
                while i < array.len()
                    invariant
                        0 <= i <= array@.len(),
                        a.len() == array@.len(),
                        forall|k: int| 0 <= k < array@.len() ==> #[trigger] a[k] == array@[k]@,
                        color_from(a, i as int, bytes@) == color_from(a, 0, Seq::empty()),
                        color_spec(plist@) == color_from(a, 0, Seq::empty()),
                    decreases array@.len() - i,
                {
                    match &array[i] {
                        Plist::Integer(n) => {
                            if 0 <= *n && *n <= 255 {
                                bytes.push(*n as u8);
                            } else {
                                return Err(ColorConversionError::OutOfBounds(*n));
                            }
                        },
                        _ => return Err(ColorConversionError::WrongVariant),
                    }
                    i = i + 1;
                }
                if bytes.len() == 2 {
                    Ok(Color::GreyAlpha(bytes[0], bytes[1]))
                } else if bytes.len() == 4 {
                    Ok(Color::Rgba(bytes[0], bytes[1], bytes[2], bytes[3]))
                } else if bytes.len() == 5 {
                    Ok(Color::Cmyka(bytes[0], bytes[1], bytes[2], bytes[3], bytes[4]))
                } else {
                    Err(ColorConversionError::UnsupportedArray)
                }
            },
            _ => Err(ColorConversionError::WrongVariant),
        }
    }

    pub fn to_plist(self) -> (r: Plist)
        ensures
            r@ == color_value(self),
    {
        let b: Vec<u8> = match self {
            Color::Index(n) => return Plist::Integer(n),
            Color::GreyAlpha(g, a) => vec![g, a],
            Color::Rgba(r, g, b, a) => vec![r, g, b, a],
            Color::Cmyka(c, m, y, k, a) => vec![c, m, y, k, a],
        };
        let items = byte_items(b.as_slice());
        proof {
            assert(items_view(items@) =~= color_value(self)->Array_0);
        }
        Plist::Array(items)
    }
}

/// Whether `n` is a Unicode scalar value.
pub open spec fn scalar_value(n: int) -> bool {
    0 <= n <= 0x10FFFF && !(0xD800 <= n <= 0xDFFF)
}

/// The character of a Unicode scalar value.
pub open spec fn scalar_char(n: i64) -> char {
    (n as u32) as char
}

/// The code points of `a` from `i` on, after `acc` was collected; each code
/// point is kept once, where it first occurs.
pub open spec fn codepoints_from(a: Seq<PValue>, i: int, acc: Seq<char>) -> Result<Seq<char>, CodepointsConversionError>
    decreases a.len() - i,
{
    if i < 0 || i >= a.len() {
        Ok(acc)
    } else {
        match a[i] {
            PValue::Int(n) => if scalar_value(n as int) {
                codepoints_from(
                    a,
                    i + 1,
                    if acc.contains(scalar_char(n)) {
                        acc
                    } else {
                        acc.push(scalar_char(n))
                    },
                )
            } else {
                Err(CodepointsConversionError::InvalidCodepoint(n))
            },
            _ => Err(CodepointsConversionError::WrongVariant),
        }
    }
}

pub open spec fn codepoints_spec(v: PValue) -> Result<Seq<char>, CodepointsConversionError> {
    match v {
        PValue::Int(n) => if scalar_value(n as int) {
            Ok(seq![scalar_char(n)])
        } else {
            Err(CodepointsConversionError::InvalidCodepoint(n))
        },
        PValue::Array(a) => codepoints_from(a, 0, Seq::empty()),
        _ => Err(CodepointsConversionError::WrongVariant),
    }
}

#[verifier::external_type_specification]
#[verifier::external_body]
pub struct ExCodepoints(norad::Codepoints);

/// The code points that a set of norad holds, in the order of insertion.
pub uninterp spec fn codepoints_of(c: norad::Codepoints) -> Seq<char>;

/// Relies on norad's `Codepoints::new`: given no code points, an empty set.
#[verifier::external_body]
fn empty_codepoints() -> (r: norad::Codepoints)
    ensures
        codepoints_of(r) == Seq::<char>::empty(),
{
    norad::Codepoints::new(Vec::<char>::new())
}

/// Relies on norad's `Codepoints::insert`: a code point not yet in the set is
/// added after the others, and one already there leaves the set unchanged.
#[verifier::external_body]
fn insert_codepoint(c: &mut norad::Codepoints, cp: char) -> (r: bool)
    ensures
        r == !codepoints_of(*old(c)).contains(cp),
        codepoints_of(*final(c)) == if r {
            codepoints_of(*old(c)).push(cp)
        } else {
            codepoints_of(*old(c))
        },
{
    c.insert(cp)
}

/// Relies on norad's `Codepoints::iter`: the code points, in order.
#[verifier::external_body]
fn codepoints_list(c: &norad::Codepoints) -> (r: Vec<char>)
    ensures
        r@ == codepoints_of(*c),
{
    c.iter().collect()
}

/// Relies on `char::from_u32`: the character whose code is `n`, which exists
/// exactly when `n` is a Unicode scalar value.
#[verifier::external_body]
fn char_from_u32(n: u32) -> (r: Option<char>)
    ensures
        r is Some <==> scalar_value(n as int),
        r matches Some(c) ==> c as u32 == n,
{
    char::from_u32(n)
}

/// Reads one code point or an array of them; a code point given twice is
/// kept once.
pub fn codepoints_from_plist(plist: Plist) -> (r: Result<norad::Codepoints, CodepointsConversionError>)
    ensures
        match codepoints_spec(plist@) {
            Ok(cs) => r matches Ok(c) && codepoints_of(c) == cs,
            Err(e) => r == Err::<norad::Codepoints, CodepointsConversionError>(e),
        },
{
    let mut set = empty_codepoints();
    match plist {
        Plist::Integer(n) => {
            if 0 <= n && n <= 0x10FFFF {
                if let Some(c) = char_from_u32(n as u32) {
                    proof { vstd::utf8::char_u32_cast(c, n as u32); }
                    insert_codepoint(&mut set, c);
                    proof { assert(Seq::<char>::empty().push(c) =~= seq![scalar_char(n)]); }
                    return Ok(set);
                }
            }
            Err(CodepointsConversionError::InvalidCodepoint(n))
        },
        Plist::Array(array) => {
            proof { lemma_items_view(array@); }
            let ghost a = items_view(array@);
            let mut i: usize = 0;
            while i < array.len()
                invariant
                    0 <= i <= array@.len(),
                    a.len() == array@.len(),
                    forall|k: int| 0 <= k < array@.len() ==> #[trigger] a[k] == array@[k]@,
                    codepoints_from(a, i as int, codepoints_of(set)) == codepoints_from(a, 0, Seq::empty()),
                    codepoints_spec(plist@) == codepoints_from(a, 0, Seq::empty()),
                decreases array@.len() - i,
            {
                match &array[i] {
                    Plist::Integer(n) => {
                        let n = *n;
                        let c = if 0 <= n && n <= 0x10FFFF {
                            char_from_u32(n as u32)
                        } else {
                            None
                        };
                        match c {
                            Some(c) => {
                                proof { vstd::utf8::char_u32_cast(c, n as u32); }
                                insert_codepoint(&mut set, c);
                            },
                            None => return Err(CodepointsConversionError::InvalidCodepoint(n)),
                        }
                    },
                    _ => return Err(CodepointsConversionError::WrongVariant),
                }
                i = i + 1;
            }
            Ok(set)
        },
        _ => Err(CodepointsConversionError::WrongVariant),
    }
}

/// The code points of a set, in order.
pub fn codepoints_chars(c: &norad::Codepoints) -> (r: Vec<char>)
    ensures
        r@ == codepoints_of(*c),
{
    codepoints_list(c)
}

/// One code point is written as an integer, several as an array.
pub fn codepoints_to_plist(c: &norad::Codepoints) -> (r: Plist)
    requires
        codepoints_of(*c).len() > 0,
    ensures
        r@ == if codepoints_of(*c).len() == 1 {
            PValue::Int(codepoints_of(*c)[0] as u32 as i64)
        } else {
            PValue::Array(
                Seq::new(codepoints_of(*c).len(), |i: int| PValue::Int(codepoints_of(*c)[i] as u32 as i64)),
            )
        },
{
    let cs = codepoints_list(c);
    if cs.len() == 1 {
        return Plist::Integer(cs[0] as u32 as i64);
    }
    let mut items: Vec<Plist> = Vec::new();
    let mut i: usize = 0;
    while i < cs.len()
        invariant
            0 <= i <= cs@.len(),
            items_view(items@) == Seq::new(i as nat, |k: int| PValue::Int(cs@[k] as u32 as i64)),
        decreases cs@.len() - i,
    {
        proof { lemma_items_view_push(items@, Plist::Integer(cs@[i as int] as u32 as i64)); }
        items.push(Plist::Integer(cs[i] as u32 as i64));
        i = i + 1;
        proof {
            assert(items_view(items@) =~= Seq::new(i as nat, |k: int| PValue::Int(cs@[k] as u32 as i64)));
        }
    }
    Plist::Array(items)
}
/// A point of a glyph's outline.
#[derive(Clone, Debug, PartialEq, Eq)]
pub struct Point {
    pub x: Number,
    pub y: Number,
}

#[derive(Clone, Debug, PartialEq, Eq)]
pub struct Scale {
    pub horizontal: Number,
    pub vertical: Number,
}

/// Reads two numbers from an array of exactly two, reporting which one failed.
fn number_pair(plist: Plist) -> (r: Result<(Number, Number), u8>)
    ensures
        match plist@ {
            PValue::Array(a) => if a.len() != 2 {
                r == Err::<(Number, Number), u8>(0)
            } else if plain_number_of(a[0]) is None {
                r == Err::<(Number, Number), u8>(1)
            } else if plain_number_of(a[1]) is None {
                r == Err::<(Number, Number), u8>(2)
            } else {
                r matches Ok((x, y)) && x.view_value() == a[0] && y.view_value() == a[1]
            },
            _ => r == Err::<(Number, Number), u8>(0),
        },
{
    match plist {
        Plist::Array(mut tuple) => {
            proof {
                lemma_items_view(tuple@);
            }
            if tuple.len() != 2 {
                return Err(0);
            }
            let second = tuple.pop().unwrap();
            let first = tuple.pop().unwrap();
            let x = match plain_number(first) {
                Some(x) => x,
                None => return Err(1),
            };
            match plain_number(second) {
                Some(y) => Ok((x, y)),
                None => Err(2),
            }
        },
        _ => Err(0),
    }
}

impl Point {
    pub fn try_from(plist: Plist) -> (r: Result<Point, PointConversionError>)
        ensures
            match plist@ {
                PValue::Array(a) => if a.len() != 2 {
                    r == Err::<Point, PointConversionError>(PointConversionError::WrongVariant)
                } else if plain_number_of(a[0]) is None {
                    r == Err::<Point, PointConversionError>(PointConversionError::NotFloatX)
                } else if plain_number_of(a[1]) is None {
                    r == Err::<Point, PointConversionError>(PointConversionError::NotFloatY)
                } else {
                    r matches Ok(p) && p.x.view_value() == a[0] && p.y.view_value() == a[1]
                },
                _ => r == Err::<Point, PointConversionError>(PointConversionError::WrongVariant),
            },
    {
        match number_pair(plist) {
            Ok((x, y)) => Ok(Point { x, y }),
            Err(0) => Err(PointConversionError::WrongVariant),
            Err(1) => Err(PointConversionError::NotFloatX),
            Err(_) => Err(PointConversionError::NotFloatY),
        }
    }

    pub fn to_plist(self) -> (r: Plist)
        ensures
            r@ == PValue::Array(seq![self.x.view_value(), self.y.view_value()]),
    {
        let items = vec![number_to_plist(self.x), number_to_plist(self.y)];
        proof {
            lemma_items_view(items@);
            assert(items_view(items@) =~= seq![self.x.view_value(), self.y.view_value()]);
        }
        Plist::Array(items)
    }
}

impl Scale {
    pub fn try_from(plist: Plist) -> (r: Result<Scale, ScaleConversionError>)
        ensures
            match plist@ {
                PValue::Array(a) => if a.len() != 2 {
                    r == Err::<Scale, ScaleConversionError>(ScaleConversionError::WrongVariant)
                } else if plain_number_of(a[0]) is None {
                    r == Err::<Scale, ScaleConversionError>(ScaleConversionError::NotFloatHorizontal)
                } else if plain_number_of(a[1]) is None {
                    r == Err::<Scale, ScaleConversionError>(ScaleConversionError::NotFloatVertical)
                } else {
                    r matches Ok(p) && p.horizontal.view_value() == a[0] && p.vertical.view_value() == a[1]
                },
                _ => r == Err::<Scale, ScaleConversionError>(ScaleConversionError::WrongVariant),
            },
    {
        match number_pair(plist) {
            Ok((horizontal, vertical)) => Ok(Scale { horizontal, vertical }),
            Err(0) => Err(ScaleConversionError::WrongVariant),
            Err(1) => Err(ScaleConversionError::NotFloatHorizontal),
            Err(_) => Err(ScaleConversionError::NotFloatVertical),
        }
    }

    pub fn to_plist(self) -> (r: Plist)
        ensures
            r@ == PValue::Array(seq![self.horizontal.view_value(), self.vertical.view_value()]),
    {
        let items = vec![number_to_plist(self.horizontal), number_to_plist(self.vertical)];
        proof {
            lemma_items_view(items@);
            assert(items_view(items@) =~= seq![self.horizontal.view_value(), self.vertical.view_value()]);
        }
        Plist::Array(items)
    }
}


/// Whether `s` may name a glyph: it is not empty and holds no control
/// character (U+0000 to U+001F, U+007F, U+0080 to U+009F).
pub open spec fn valid_glyph_name(s: Seq<char>) -> bool {
    s.len() > 0 && forall|i: int| 0 <= i < s.len() ==> {
        let c = #[trigger] s[i] as u32;
        !(c <= 0x1f || (0x80 <= c && c <= 0x9f) || c == 0x7f)
    }
}

/// Relies on norad's `Name::new`, which accepts a glyph name exactly when it
/// is not empty and holds no control character.
#[verifier::external_body]
pub(crate) fn is_valid_glyph_name(s: &str) -> (r: bool)
    ensures
        r == valid_glyph_name(s@),
{
    norad::Name::new(s).is_ok()
}

/// What a glyph name reads as: a valid name, or the name that a float value
/// stands for where an unquoted `infinity` or `nan` was read as a number.
pub open spec fn glyph_name_spec(v: PValue) -> Option<Seq<char>> {
    match v {
        PValue::Str(s) => if valid_glyph_name(s) {
            Some(s)
        } else {
            None
        },
        PValue::Float(t) => {
            let u = if t.len() > 0 && (t[0] == '+' || t[0] == '-') {
                t.drop_first()
            } else {
                t
            };
            if equals_ignoring_case(u, "inf"@) || equals_ignoring_case(u, "infinity"@) {
                Some("infinity"@)
            } else if equals_ignoring_case(u, "nan"@) {
                Some("nan"@)
            } else {
                None
            }
        },
        _ => None,
    }
}

/// Reads a glyph name.
pub fn name_from_plist(plist: Plist) -> (r: Result<String, NameConversionError>)
    ensures
        match glyph_name_spec(plist@) {
            Some(n) => r matches Ok(s) && s@ == n,
            None => r is Err,
        },
{
    match plist {
        Plist::String(s) => {
            if is_valid_glyph_name(s.as_str()) {
                Ok(s)
            } else {
                Err(NameConversionError)
            }
        },
        Plist::Float(t) => {
            let c = chars_of(t.as_str());
            let u: &[char] = if c.len() > 0 && (c[0] == '+' || c[0] == '-') {
                &c.as_slice()[1..c.len()]
            } else {
                c.as_slice()
            };
            proof {
                if c@.len() > 0 && (c@[0] == '+' || c@[0] == '-') {
                    assert(u@ =~= t@.drop_first());
                }
            }
            let inf = chars_of("inf");
            let infinity = chars_of("infinity");
            let nan = chars_of("nan");
            if equals_word_ignoring_case(u, inf.as_slice()) || equals_word_ignoring_case(u, infinity.as_slice()) {
                Ok("infinity".to_owned())
            } else if equals_word_ignoring_case(u, nan.as_slice()) {
                Ok("nan".to_owned())
            } else {
                Err(NameConversionError)
            }
        },
        _ => Err(NameConversionError),
    }
}


/// Kerning: for each master, for each left glyph, the value for each right glyph.
#[derive(Debug, PartialEq)]
pub struct Kerning {
    pub masters: Vec<(String, Vec<(String, Vec<(String, Number)>)>)>,
}

/// A kerning error, with its glyph names as character sequences.
pub enum KerningFailure {
    WrongVariant,
    NotFloatValue(Seq<char>, Seq<char>),
    InvalidName(Seq<char>),
}

pub open spec fn failure_of(e: KerningConversionError) -> KerningFailure {
    match e {
        KerningConversionError::WrongVariant => KerningFailure::WrongVariant,
        KerningConversionError::NotFloatValue { left_name, right_name } => KerningFailure::NotFloatValue(
            left_name@,
            right_name@,
        ),
        KerningConversionError::InvalidName(n) => KerningFailure::InvalidName(n@),
    }
}

/// The first failure among the pairs of left glyph `left`, from entry `i` on:
/// a right glyph name that is not valid, or a value that is not a number.
pub open spec fn pairs_error(d: Seq<(Seq<char>, PValue)>, left: Seq<char>, i: int) -> Option<KerningFailure>
    decreases d.len() - i,
{
    if i < 0 || i >= d.len() {
        None
    } else if !valid_glyph_name(d[i].0) {
        Some(KerningFailure::InvalidName(d[i].0))
    } else if plain_number_of(d[i].1) is None {
        Some(KerningFailure::NotFloatValue(left, d[i].0))
    } else {
        pairs_error(d, left, i + 1)
    }
}

/// The first failure among the left glyphs of a master, from entry `i` on.
pub open spec fn lefts_error(d: Seq<(Seq<char>, PValue)>, i: int) -> Option<KerningFailure>
    decreases d.len() - i,
{
    if i < 0 || i >= d.len() {
        None
    } else if !valid_glyph_name(d[i].0) {
        Some(KerningFailure::InvalidName(d[i].0))
    } else {
        match d[i].1 {
            PValue::Dict(p) => match pairs_error(p, d[i].0, 0) {
                Some(e) => Some(e),
                None => lefts_error(d, i + 1),
            },
            _ => Some(KerningFailure::WrongVariant),
        }
    }
}

/// The first failure among the masters, from entry `i` on.
pub open spec fn masters_error(d: Seq<(Seq<char>, PValue)>, i: int) -> Option<KerningFailure>
    decreases d.len() - i,
{
    if i < 0 || i >= d.len() {
        None
    } else {
        match d[i].1 {
            PValue::Dict(l) => match lefts_error(l, 0) {
                Some(e) => Some(e),
                None => masters_error(d, i + 1),
            },
            _ => Some(KerningFailure::WrongVariant),
        }
    }
}

/// The first failure in reading a value as kerning, entries taken in order.
pub open spec fn kerning_error(v: PValue) -> Option<KerningFailure> {
    match v {
        PValue::Dict(d) => masters_error(d, 0),
        _ => Some(KerningFailure::WrongVariant),
    }
}

/// Whether a value reads as kerning: a dictionary of dictionaries of
/// dictionaries of numbers, with valid glyph names.
pub open spec fn kerning_ok(v: PValue) -> bool {
    kerning_error(v) is None
}

pub open spec fn pairs_value(p: Seq<(String, Number)>) -> PValue {
    PValue::Dict(Seq::new(p.len(), |k: int| (p[k].0@, p[k].1.view_value())))
}

pub open spec fn lefts_value(l: Seq<(String, Vec<(String, Number)>)>) -> PValue {
    PValue::Dict(Seq::new(l.len(), |k: int| (l[k].0@, pairs_value(l[k].1@))))
}

impl Kerning {
    /// The nested dictionaries that this kerning is written as, in the order held.
    pub open spec fn value(&self) -> PValue {
        PValue::Dict(Seq::new(self.masters@.len(), |k: int| (self.masters@[k].0@, lefts_value(self.masters@[k].1@))))
    }
}

fn kerning_pairs(d: Vec<(String, Plist)>, left: &String) -> (r: Result<Vec<(String, Number)>, KerningConversionError>)
    ensures
        match pairs_error(entries_view(d@), left@, 0) {
            None => r matches Ok(p) && pairs_value(p@) == PValue::Dict(entries_view(d@)),
            Some(f) => r matches Err(e) && failure_of(e) == f,
        },
{
    let ghost whole = d@;
    proof { lemma_entries_view(whole); }
    let ghost e = entries_view(whole);
    let mut rest = d;
    let n = rest.len();
    let mut out: Vec<(String, Number)> = Vec::new();
    let mut i: usize = 0;
    while i < n
        invariant
            n == whole.len(),
            d@ == whole,
            e == entries_view(d@),
            0 <= i <= n,
            e.len() == n,
            forall|k: int| 0 <= k < n ==> #[trigger] e[k] == (whole[k].0@, whole[k].1@),
            rest@ == whole.subrange(i as int, n as int),
            out@.len() == i,
            pairs_error(e, left@, i as int) == pairs_error(e, left@, 0),
            forall|k: int| 0 <= k < i ==> (#[trigger] out@[k]).0@ == e[k].0 && out@[k].1.view_value() == e[k].1,
        decreases n - i,
    {
        let (right, value) = rest.remove(0);
        proof {
            assert((right, value) == whole[i as int]);
            assert(rest@ =~= whole.subrange(i + 1, n as int));
            assert(e[i as int] == (right@, value@));
        }
        if !is_valid_glyph_name(right.as_str()) {
            return Err(KerningConversionError::InvalidName(right));
        }
        match plain_number(value) {
            Some(num) => out.push((right, num)),
            None => {
                return Err(KerningConversionError::NotFloatValue { left_name: left.clone(), right_name: right });
            },
        }
        i = i + 1;
    }
    proof {
        assert(pairs_value(out@)->Dict_0 =~= e);
    }
    Ok(out)
}

fn kerning_lefts(d: Vec<(String, Plist)>) -> (r: Result<Vec<(String, Vec<(String, Number)>)>, KerningConversionError>)
    ensures
        match lefts_error(entries_view(d@), 0) {
            None => r matches Ok(l) && lefts_value(l@) == PValue::Dict(entries_view(d@)),
            Some(f) => r matches Err(e) && failure_of(e) == f,
        },
{
    let ghost whole = d@;
    proof { lemma_entries_view(whole); }
    let ghost e = entries_view(whole);
    let mut rest = d;
    let n = rest.len();
    let mut out: Vec<(String, Vec<(String, Number)>)> = Vec::new();
    let mut i: usize = 0;
    while i < n
        invariant
            n == whole.len(),
            d@ == whole,
            e == entries_view(d@),
            0 <= i <= n,
            e.len() == n,
            forall|k: int| 0 <= k < n ==> #[trigger] e[k] == (whole[k].0@, whole[k].1@),
            rest@ == whole.subrange(i as int, n as int),
            out@.len() == i,
            lefts_error(e, i as int) == lefts_error(e, 0),
            forall|k: int| 0 <= k < i ==> (#[trigger] out@[k]).0@ == e[k].0 && pairs_value(out@[k].1@) == e[k].1,
        decreases n - i,
    {
        let (left, value) = rest.remove(0);
        proof {
            assert((left, value) == whole[i as int]);
            assert(rest@ =~= whole.subrange(i + 1, n as int));
            assert(e[i as int] == (left@, value@));
        }
        if !is_valid_glyph_name(left.as_str()) {
            return Err(KerningConversionError::InvalidName(left));
        }
        let pairs = match value {
            Plist::Dictionary(kerns) => {
                proof { assert(e[i as int].1 == PValue::Dict(entries_view(kerns@))); }
                match kerning_pairs(kerns, &left) {
                    Ok(p) => p,
                    Err(err) => return Err(err),
                }
            },
            _ => return Err(KerningConversionError::WrongVariant),
        };
        out.push((left, pairs));
        i = i + 1;
    }
    proof {
        assert(lefts_value(out@)->Dict_0 =~= e);
    }
    Ok(out)
}

impl Kerning {
    /// Reads kerning; the entries are taken in order, and the first one that
    /// does not read is the error.
    pub fn try_from(plist: Plist) -> (r: Result<Kerning, KerningConversionError>)
        ensures
            match kerning_error(plist@) {
                None => r matches Ok(k) && k.value() == plist@,
                Some(f) => r matches Err(e) && failure_of(e) == f,
            },
    {
        let d = match plist {
            Plist::Dictionary(d) => d,
            _ => return Err(KerningConversionError::WrongVariant),
        };
        let ghost whole = d@;
        proof { lemma_entries_view(whole); }
        let ghost e = entries_view(whole);
        let mut rest = d;
        let n = rest.len();
        let mut out: Vec<(String, Vec<(String, Vec<(String, Number)>)>)> = Vec::new();
        let mut i: usize = 0;
        while i < n
            invariant
                n == whole.len(),
                0 <= i <= n,
                e.len() == n,
                plist@ == PValue::Dict(e),
                forall|k: int| 0 <= k < n ==> #[trigger] e[k] == (whole[k].0@, whole[k].1@),
                rest@ == whole.subrange(i as int, n as int),
                out@.len() == i,
                masters_error(e, i as int) == masters_error(e, 0),
                forall|k: int| 0 <= k < i ==> (#[trigger] out@[k]).0@ == e[k].0 && lefts_value(out@[k].1@) == e[k].1,
            decreases n - i,
        {
            let (master, value) = rest.remove(0);
            proof {
                assert((master, value) == whole[i as int]);
                assert(rest@ =~= whole.subrange(i + 1, n as int));
                assert(e[i as int] == (master@, value@));
            }
            let lefts = match value {
                Plist::Dictionary(m) => {
                    proof { assert(e[i as int].1 == PValue::Dict(entries_view(m@))); }
                    match kerning_lefts(m) {
                        Ok(l) => l,
                        Err(err) => return Err(err),
                    }
                },
                _ => return Err(KerningConversionError::WrongVariant),
            };
            out.push((master, lefts));
            i = i + 1;
        }
        let k = Kerning { masters: out };
        proof {
            assert(k.value()->Dict_0 =~= e);
        }
        Ok(k)
    }

    /// Writes the kerning as nested dictionaries, in the order held.
    pub fn to_plist(self) -> (r: Plist)
        ensures
            r@ == self.value(),
    {
        let ghost this = self;
        let mut masters = self.masters;
        let n = masters.len();
        let mut out: Vec<(String, Plist)> = Vec::new();
        let mut i: usize = 0;
        while i < n
            invariant
                n == this.masters@.len(),
                0 <= i <= n,
                masters@ == this.masters@.subrange(i as int, n as int),
                entries_view(out@) == this.value()->Dict_0.subrange(0, i as int),
            decreases n - i,
        {
            let (master, lefts) = masters.remove(0);
            proof {
                assert((master, lefts) == this.masters@[i as int]);
                assert(masters@ =~= this.masters@.subrange(i + 1, n as int));
            }
            let value = lefts_to_plist(lefts);
            let ghost before = out@;
            out.push((master, value));
            proof {
                assert(out@.drop_last() =~= before);
                assert(this.value()->Dict_0.subrange(0, i + 1) =~= this.value()->Dict_0.subrange(0, i as int).push(
                    (master@, value@),
                ));
            }
            i = i + 1;
        }
        proof {
            assert(this.value()->Dict_0.subrange(0, n as int) =~= this.value()->Dict_0);
        }
        Plist::Dictionary(out)
    }
}

fn pairs_to_plist(pairs: Vec<(String, Number)>) -> (r: Plist)
    ensures
        r@ == pairs_value(pairs@),
{
    let ghost whole = pairs@;
    let mut pairs = pairs;
    let n = pairs.len();
    let mut out: Vec<(String, Plist)> = Vec::new();
    let mut i: usize = 0;
    while i < n
        invariant
            n == whole.len(),
            0 <= i <= n,
            pairs@ == whole.subrange(i as int, n as int),
            entries_view(out@) == pairs_value(whole)->Dict_0.subrange(0, i as int),
        decreases n - i,
    {
        let (right, num) = pairs.remove(0);
        proof {
            assert((right, num) == whole[i as int]);
            assert(pairs@ =~= whole.subrange(i + 1, n as int));
        }
        let value = number_to_plist(num);
        let ghost before = out@;
        out.push((right, value));
        proof {
            assert(out@.drop_last() =~= before);
            assert(pairs_value(whole)->Dict_0.subrange(0, i + 1) =~= pairs_value(whole)->Dict_0.subrange(0, i as int).push(
                (right@, value@),
            ));
        }
        i = i + 1;
    }
    proof {
        assert(pairs_value(whole)->Dict_0.subrange(0, n as int) =~= pairs_value(whole)->Dict_0);
    }
    Plist::Dictionary(out)
}

fn lefts_to_plist(lefts: Vec<(String, Vec<(String, Number)>)>) -> (r: Plist)
    ensures
        r@ == lefts_value(lefts@),
{
    let ghost whole = lefts@;
    let mut lefts = lefts;
    let n = lefts.len();
    let mut out: Vec<(String, Plist)> = Vec::new();
    let mut i: usize = 0;
    while i < n
        invariant
            n == whole.len(),
            0 <= i <= n,
            lefts@ == whole.subrange(i as int, n as int),
            entries_view(out@) == lefts_value(whole)->Dict_0.subrange(0, i as int),
        decreases n - i,
    {
        let (left, pairs) = lefts.remove(0);
        proof {
            assert((left, pairs) == whole[i as int]);
            assert(lefts@ =~= whole.subrange(i + 1, n as int));
        }
        let value = pairs_to_plist(pairs);
        let ghost before = out@;
        out.push((left, value));
        proof {
            assert(out@.drop_last() =~= before);
            assert(lefts_value(whole)->Dict_0.subrange(0, i + 1) =~= lefts_value(whole)->Dict_0.subrange(0, i as int).push(
                (left@, value@),
            ));
        }
        i = i + 1;
    }
    proof {
        assert(lefts_value(whole)->Dict_0.subrange(0, n as int) =~= lefts_value(whole)->Dict_0);
    }
    Plist::Dictionary(out)
}

} // verus!
