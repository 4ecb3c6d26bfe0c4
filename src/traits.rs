//! The registration point of scalar converters: a type that implements
//! `FromPlist` and `ToPlist` can stand in records and arrays.

use vstd::prelude::*;
use crate::plist::{Plist, PValue, items_view, lemma_items_view, lemma_items_view_push};
use crate::convert::{
    ArrayConversionError, BoolConversionError, DownsizeToU16Error, VariantError, ValueKind, Number, integer_of,
    number_of, bool_from_plist, bool_to_plist, i64_from_plist, u16_from_plist, string_from_plist,
    number_from_plist, number_to_plist, plain_number_of, i64_to_plist, u16_to_plist, string_to_plist,
};
use crate::font::{
    Color, ColorConversionError, color_spec, color_value, GlyphsFromPlistError, NodeConversionError,
    AnchorOrientation, AnchorOrientationConversionError, Direction, DirectionConversionError, Case,
    CaseConversionError, MetricType, MetricTypeConversionError, InstanceType, InstanceTypeConversionError,
    Point, PointConversionError, Scale, ScaleConversionError, CodepointsConversionError, codepoints_from_plist,
    codepoints_spec, codepoints_of, Kerning, KerningConversionError, kerning_ok, kerning_error, failure_of,
};
use crate::records::{
    Axis, FontNumbers, FontStems, Metric, Settings, NodeAttrs, PathShadow, Path, Node, node_ok, node_matches,
    node_tag_ok, node_attr_ok,
};
use crate::schema::{DecodeFailure, failure_view, opt_string_view, option_view};
use crate::plist::entries_view;

verus! {

/// A type read from a property-list value.
pub trait FromPlist: Sized {
    type Error;

    /// Whether the value `v` converts.
    spec fn converts(v: PValue) -> bool;

    /// What converting the value `v` gives: the value, or the error.
    spec fn outcome(v: PValue, r: Result<Self, Self::Error>) -> bool;

    fn from_plist(plist: Plist) -> (r: Result<Self, Self::Error>)
        ensures
            r is Ok <==> Self::converts(plist@),
            Self::outcome(plist@, r);
}

/// A type written as a property-list value.
pub trait ToPlist: Sized {
    /// The value that `self` is written as.
    spec fn plist_value(&self) -> PValue;

    fn to_plist(self) -> (r: Plist)
        ensures
            r@ == self.plist_value();
}

impl FromPlist for bool {
    type Error = BoolConversionError;

    open spec fn outcome(v: PValue, r: Result<bool, BoolConversionError>) -> bool {
        match integer_of(v) {
            Some(n) => if n == 0 {
                r == Ok::<bool, BoolConversionError>(false)
            } else if n == 1 {
                r == Ok::<bool, BoolConversionError>(true)
            } else {
                r matches Err(BoolConversionError::BadNumber(m)) && m == n
            },
            None => r matches Err(BoolConversionError::WrongVariant(p)) && p@ == v,
        }
    }

    open spec fn converts(v: PValue) -> bool {
        integer_of(v) == Some(0i64) || integer_of(v) == Some(1i64)
    }

    fn from_plist(plist: Plist) -> (r: Result<bool, BoolConversionError>) {
        bool_from_plist(plist)
    }
}

impl ToPlist for bool {
    open spec fn plist_value(&self) -> PValue {
        PValue::Int(if *self { 1 } else { 0 })
    }

    fn to_plist(self) -> (r: Plist) {
        bool_to_plist(self)
    }
}

impl FromPlist for i64 {
    type Error = VariantError;

    open spec fn outcome(v: PValue, r: Result<i64, VariantError>) -> bool {
        match integer_of(v) {
            Some(n) => r == Ok::<i64, VariantError>(n),
            None => r matches Err(VariantError(k, p)) && k == ValueKind::Integer && p@ == v,
        }
    }

    open spec fn converts(v: PValue) -> bool {
        integer_of(v) is Some
    }

    fn from_plist(plist: Plist) -> (r: Result<i64, VariantError>) {
        i64_from_plist(plist)
    }
}

impl ToPlist for i64 {
    open spec fn plist_value(&self) -> PValue {
        PValue::Int(*self)
    }

    fn to_plist(self) -> (r: Plist) {
        i64_to_plist(self)
    }
}

impl FromPlist for u16 {
    type Error = DownsizeToU16Error;

    open spec fn outcome(v: PValue, r: Result<u16, DownsizeToU16Error>) -> bool {
        match integer_of(v) {
            Some(n) => if 0 <= n <= 65535 {
                r == Ok::<u16, DownsizeToU16Error>(n as u16)
            } else {
                r matches Err(DownsizeToU16Error::OutOfBounds(m)) && m == n
            },
            None => r matches Err(DownsizeToU16Error::WrongVariant(p)) && p@ == v,
        }
    }

    open spec fn converts(v: PValue) -> bool {
        integer_of(v) matches Some(n) && 0 <= n <= 65535
    }

    fn from_plist(plist: Plist) -> (r: Result<u16, DownsizeToU16Error>) {
        u16_from_plist(plist)
    }
}

impl ToPlist for u16 {
    open spec fn plist_value(&self) -> PValue {
        PValue::Int(*self as i64)
    }

    fn to_plist(self) -> (r: Plist) {
        u16_to_plist(self)
    }
}

impl FromPlist for String {
    type Error = VariantError;

    open spec fn outcome(v: PValue, r: Result<String, VariantError>) -> bool {
        match v {
            PValue::Str(s) => r matches Ok(t) && t@ == s,
            _ => r matches Err(VariantError(k, p)) && k == ValueKind::String && p@ == v,
        }
    }

    open spec fn converts(v: PValue) -> bool {
        v is Str
    }

    fn from_plist(plist: Plist) -> (r: Result<String, VariantError>) {
        string_from_plist(plist)
    }
}

impl ToPlist for String {
    open spec fn plist_value(&self) -> PValue {
        PValue::Str(self@)
    }

    fn to_plist(self) -> (r: Plist) {
        string_to_plist(self)
    }
}

impl FromPlist for Number {
    type Error = VariantError;

    open spec fn outcome(v: PValue, r: Result<Number, VariantError>) -> bool {
        match number_of(v) {
            Some(v) => r matches Ok(n) && n.view_value() == v,
            None => r matches Err(VariantError(k, p)) && k == ValueKind::Float && p@ == v,
        }
    }

    open spec fn converts(v: PValue) -> bool {
        number_of(v) is Some
    }

    fn from_plist(plist: Plist) -> (r: Result<Number, VariantError>) {
        number_from_plist(plist)
    }
}

impl ToPlist for Number {
    open spec fn plist_value(&self) -> PValue {
        self.view_value()
    }

    fn to_plist(self) -> (r: Plist) {
        number_to_plist(self)
    }
}

impl FromPlist for Color {
    type Error = ColorConversionError;

    open spec fn outcome(v: PValue, r: Result<Color, ColorConversionError>) -> bool {
        r == color_spec(v)
    }

    open spec fn converts(v: PValue) -> bool {
        color_spec(v) is Ok
    }

    fn from_plist(plist: Plist) -> (r: Result<Color, ColorConversionError>) {
        Color::try_from(plist)
    }
}

impl ToPlist for Color {
    open spec fn plist_value(&self) -> PValue {
        color_value(*self)
    }

    fn to_plist(self) -> (r: Plist) {
        Color::to_plist(self)
    }
}

impl ToPlist for Plist {
    open spec fn plist_value(&self) -> PValue {
        self@
    }

    fn to_plist(self) -> (r: Plist) {
        self
    }
}

impl FromPlist for AnchorOrientation {
    type Error = AnchorOrientationConversionError;

    open spec fn outcome(v: PValue, r: Result<AnchorOrientation, AnchorOrientationConversionError>) -> bool {
        match v {
        PValue::Str(s) => match r {
            Ok(x) => x.wire_text() == s,
            Err(e) => (forall|x: AnchorOrientation| x.wire_text() != s) && (e matches AnchorOrientationConversionError::UnknownOrientation(t) && t@ == s),
        },
        _ => r matches Err(AnchorOrientationConversionError::WrongVariant),
        }
    }

    open spec fn converts(v: PValue) -> bool {
        v matches PValue::Str(s) && exists|x: AnchorOrientation| x.wire_text() == s
    }

    fn from_plist(plist: Plist) -> (r: Result<AnchorOrientation, AnchorOrientationConversionError>) {
        AnchorOrientation::try_from(plist)
    }
}

impl ToPlist for AnchorOrientation {
    open spec fn plist_value(&self) -> PValue {
        PValue::Str(self.wire_text())
    }

    fn to_plist(self) -> (r: Plist) {
        AnchorOrientation::to_plist(self)
    }
}

impl FromPlist for Direction {
    type Error = DirectionConversionError;

    open spec fn outcome(v: PValue, r: Result<Direction, DirectionConversionError>) -> bool {
        match v {
        PValue::Str(s) => match r {
            Ok(x) => x.wire_text() == s,
            Err(_) => forall|x: Direction| x.wire_text() != s,
        },
        _ => r is Err,
        }
    }

    open spec fn converts(v: PValue) -> bool {
        v matches PValue::Str(s) && exists|x: Direction| x.wire_text() == s
    }

    fn from_plist(plist: Plist) -> (r: Result<Direction, DirectionConversionError>) {
        Direction::try_from(plist)
    }
}

impl ToPlist for Direction {
    open spec fn plist_value(&self) -> PValue {
        PValue::Str(self.wire_text())
    }

    fn to_plist(self) -> (r: Plist) {
        Direction::to_plist(self)
    }
}

impl FromPlist for Case {
    type Error = CaseConversionError;

    open spec fn outcome(v: PValue, r: Result<Case, CaseConversionError>) -> bool {
        match v {
        PValue::Str(s) => match r {
            Ok(x) => x.wire_text() == s,
            Err(_) => forall|x: Case| x.wire_text() != s,
        },
        _ => r is Err,
        }
    }

    open spec fn converts(v: PValue) -> bool {
        v matches PValue::Str(s) && exists|x: Case| x.wire_text() == s
    }

    fn from_plist(plist: Plist) -> (r: Result<Case, CaseConversionError>) {
        Case::try_from(plist)
    }
}

impl ToPlist for Case {
    open spec fn plist_value(&self) -> PValue {
        PValue::Str(self.wire_text())
    }

    fn to_plist(self) -> (r: Plist) {
        Case::to_plist(self)
    }
}

impl FromPlist for MetricType {
    type Error = MetricTypeConversionError;

    open spec fn outcome(v: PValue, r: Result<MetricType, MetricTypeConversionError>) -> bool {
        match v {
        PValue::Str(s) => match r {
            Ok(x) => x.wire_text() == s,
            Err(_) => forall|x: MetricType| x.wire_text() != s,
        },
        _ => r is Err,
        }
    }

    open spec fn converts(v: PValue) -> bool {
        v matches PValue::Str(s) && exists|x: MetricType| x.wire_text() == s
    }

    fn from_plist(plist: Plist) -> (r: Result<MetricType, MetricTypeConversionError>) {
        MetricType::try_from(plist)
    }
}

impl ToPlist for MetricType {
    open spec fn plist_value(&self) -> PValue {
        PValue::Str(self.wire_text())
    }

    fn to_plist(self) -> (r: Plist) {
        MetricType::to_plist(self)
    }
}

impl FromPlist for InstanceType {
    type Error = InstanceTypeConversionError;

    open spec fn outcome(v: PValue, r: Result<InstanceType, InstanceTypeConversionError>) -> bool {
        match v {
        PValue::Str(s) => match r {
            Ok(x) => x.wire_text() == s,
            Err(_) => forall|x: InstanceType| x.wire_text() != s,
        },
        _ => r is Err,
        }
    }

    open spec fn converts(v: PValue) -> bool {
        v matches PValue::Str(s) && exists|x: InstanceType| x.wire_text() == s
    }

    fn from_plist(plist: Plist) -> (r: Result<InstanceType, InstanceTypeConversionError>) {
        InstanceType::try_from(plist)
    }
}

impl ToPlist for InstanceType {
    open spec fn plist_value(&self) -> PValue {
        PValue::Str(self.wire_text())
    }

    fn to_plist(self) -> (r: Plist) {
        InstanceType::to_plist(self)
    }
}

impl FromPlist for Axis {
    type Error = GlyphsFromPlistError;

    open spec fn outcome(v: PValue, r: Result<Axis, GlyphsFromPlistError>) -> bool {
        match v {
            PValue::Dict(d) => match Axis::decoded(d) {
                Ok(t) => r matches Ok(x) && x.name@ == t.0 && x.tag@ == t.1 && x.hidden == t.2,
                Err(f) => r matches Err(e) && failure_view(e) == Some(f),
            },
            _ => r matches Err(e) && failure_view(e) == Some(DecodeFailure::WrongShape(ValueKind::Dictionary, v)),
        }
    }

    open spec fn converts(v: PValue) -> bool {
        v matches PValue::Dict(d) && Axis::decoded(d) is Ok
    }

    fn from_plist(plist: Plist) -> (r: Result<Axis, GlyphsFromPlistError>) {
        Axis::try_from(plist)
    }
}

impl ToPlist for Axis {
    open spec fn plist_value(&self) -> PValue {
        PValue::Dict(self.encoded())
    }

    fn to_plist(self) -> (r: Plist) {
        Axis::to_plist(self)
    }
}

impl FromPlist for FontNumbers {
    type Error = GlyphsFromPlistError;

    open spec fn outcome(v: PValue, r: Result<FontNumbers, GlyphsFromPlistError>) -> bool {
        match v {
            PValue::Dict(d) => match FontNumbers::decoded(d) {
                Ok(t) => r matches Ok(x) && x.name@ == t.0,
                Err(f) => r matches Err(e) && failure_view(e) == Some(f),
            },
            _ => r matches Err(e) && failure_view(e) == Some(DecodeFailure::WrongShape(ValueKind::Dictionary, v)),
        }
    }

    open spec fn converts(v: PValue) -> bool {
        v matches PValue::Dict(d) && FontNumbers::decoded(d) is Ok
    }

    fn from_plist(plist: Plist) -> (r: Result<FontNumbers, GlyphsFromPlistError>) {
        FontNumbers::try_from(plist)
    }
}

impl ToPlist for FontNumbers {
    open spec fn plist_value(&self) -> PValue {
        PValue::Dict(self.encoded())
    }

    fn to_plist(self) -> (r: Plist) {
        FontNumbers::to_plist(self)
    }
}

impl FromPlist for FontStems {
    type Error = GlyphsFromPlistError;

    open spec fn outcome(v: PValue, r: Result<FontStems, GlyphsFromPlistError>) -> bool {
        match v {
            PValue::Dict(d) => match FontStems::decoded(d) {
                Ok(t) => r matches Ok(x) && x.name@ == t.0 && opt_string_view(x.filter) == t.1 && x.horizontal == t.2,
                Err(f) => r matches Err(e) && failure_view(e) == Some(f),
            },
            _ => r matches Err(e) && failure_view(e) == Some(DecodeFailure::WrongShape(ValueKind::Dictionary, v)),
        }
    }

    open spec fn converts(v: PValue) -> bool {
        v matches PValue::Dict(d) && FontStems::decoded(d) is Ok
    }

    fn from_plist(plist: Plist) -> (r: Result<FontStems, GlyphsFromPlistError>) {
        FontStems::try_from(plist)
    }
}

impl ToPlist for FontStems {
    open spec fn plist_value(&self) -> PValue {
        PValue::Dict(self.encoded())
    }

    fn to_plist(self) -> (r: Plist) {
        FontStems::to_plist(self)
    }
}

impl FromPlist for Metric {
    type Error = GlyphsFromPlistError;

    open spec fn outcome(v: PValue, r: Result<Metric, GlyphsFromPlistError>) -> bool {
        match v {
            PValue::Dict(d) => match Metric::decoded(d) {
                Ok(t) => r matches Ok(x) && opt_string_view(x.filter) == t.0 && opt_string_view(x.name) == t.1 && match t.2 { Some(s) => x.type_ matches Some(k) && k.wire_text() == s, None => x.type_ is None },
                Err(f) => r matches Err(e) && failure_view(e) == Some(f),
            },
            _ => r matches Err(e) && failure_view(e) == Some(DecodeFailure::WrongShape(ValueKind::Dictionary, v)),
        }
    }

    open spec fn converts(v: PValue) -> bool {
        v matches PValue::Dict(d) && Metric::decoded(d) is Ok
    }

    fn from_plist(plist: Plist) -> (r: Result<Metric, GlyphsFromPlistError>) {
        Metric::try_from(plist)
    }
}

impl ToPlist for Metric {
    open spec fn plist_value(&self) -> PValue {
        PValue::Dict(self.encoded())
    }

    fn to_plist(self) -> (r: Plist) {
        Metric::to_plist(self)
    }
}

impl FromPlist for Settings {
    type Error = GlyphsFromPlistError;

    open spec fn outcome(v: PValue, r: Result<Settings, GlyphsFromPlistError>) -> bool {
        match v {
            PValue::Dict(d) => match Settings::decoded(d) {
                Ok(t) => r matches Ok(x) && x.disables_automatic_alignment == t.0 && x.disables_nice_names == t.1 && entries_view(x.other_stuff@) == t.2,
                Err(f) => r matches Err(e) && failure_view(e) == Some(f),
            },
            _ => r matches Err(e) && failure_view(e) == Some(DecodeFailure::WrongShape(ValueKind::Dictionary, v)),
        }
    }

    open spec fn converts(v: PValue) -> bool {
        v matches PValue::Dict(d) && Settings::decoded(d) is Ok
    }

    fn from_plist(plist: Plist) -> (r: Result<Settings, GlyphsFromPlistError>) {
        Settings::try_from(plist)
    }
}

impl ToPlist for Settings {
    open spec fn plist_value(&self) -> PValue {
        PValue::Dict(self.encoded())
    }

    fn to_plist(self) -> (r: Plist) {
        Settings::to_plist(self)
    }
}

impl FromPlist for NodeAttrs {
    type Error = GlyphsFromPlistError;

    open spec fn outcome(v: PValue, r: Result<NodeAttrs, GlyphsFromPlistError>) -> bool {
        match v {
            PValue::Dict(d) => match NodeAttrs::decoded(d) {
                Ok(t) => r matches Ok(x) && opt_string_view(x.name) == t.0 && entries_view(x.other_stuff@) == t.1,
                Err(f) => r matches Err(e) && failure_view(e) == Some(f),
            },
            _ => r matches Err(e) && failure_view(e) == Some(DecodeFailure::WrongShape(ValueKind::Dictionary, v)),
        }
    }

    open spec fn converts(v: PValue) -> bool {
        v matches PValue::Dict(d) && NodeAttrs::decoded(d) is Ok
    }

    fn from_plist(plist: Plist) -> (r: Result<NodeAttrs, GlyphsFromPlistError>) {
        NodeAttrs::try_from(plist)
    }
}

impl ToPlist for NodeAttrs {
    open spec fn plist_value(&self) -> PValue {
        PValue::Dict(self.encoded())
    }

    fn to_plist(self) -> (r: Plist) {
        NodeAttrs::to_plist(self)
    }
}

impl FromPlist for PathShadow {
    type Error = GlyphsFromPlistError;

    open spec fn outcome(v: PValue, r: Result<PathShadow, GlyphsFromPlistError>) -> bool {
        match v {
            PValue::Dict(d) => match PathShadow::decoded(d) {
                Ok(t) => r matches Ok(x) && x.blur@ == t.0 && x.color@ == t.1 && x.offset_x@ == t.2 && x.offset_y@ == t.3,
                Err(f) => r matches Err(e) && failure_view(e) == Some(f),
            },
            _ => r matches Err(e) && failure_view(e) == Some(DecodeFailure::WrongShape(ValueKind::Dictionary, v)),
        }
    }

    open spec fn converts(v: PValue) -> bool {
        v matches PValue::Dict(d) && PathShadow::decoded(d) is Ok
    }

    fn from_plist(plist: Plist) -> (r: Result<PathShadow, GlyphsFromPlistError>) {
        PathShadow::try_from(plist)
    }
}

impl ToPlist for PathShadow {
    open spec fn plist_value(&self) -> PValue {
        PValue::Dict(self.encoded())
    }

    fn to_plist(self) -> (r: Plist) {
        PathShadow::to_plist(self)
    }
}

impl FromPlist for Path {
    type Error = GlyphsFromPlistError;

    open spec fn outcome(v: PValue, r: Result<Path, GlyphsFromPlistError>) -> bool {
        match v {
            PValue::Dict(d) => match Path::decoded(d) {
                Ok(t) => r matches Ok(x) && option_view(x.attr) == t.0 && x.closed == t.1 && x.nodes@.len() == t.2.len() && forall|i: int| 0 <= i < t.2.len() ==> node_matches(#[trigger] x.nodes@[i], t.2[i]),
                Err(f) => r matches Err(e) && failure_view(e) == Some(f),
            },
            _ => r matches Err(e) && failure_view(e) == Some(DecodeFailure::WrongShape(ValueKind::Dictionary, v)),
        }
    }

    open spec fn converts(v: PValue) -> bool {
        v matches PValue::Dict(d) && Path::decoded(d) is Ok
    }

    fn from_plist(plist: Plist) -> (r: Result<Path, GlyphsFromPlistError>) {
        Path::try_from(plist)
    }
}

impl ToPlist for Path {
    open spec fn plist_value(&self) -> PValue {
        PValue::Dict(self.encoded())
    }

    fn to_plist(self) -> (r: Plist) {
        Path::to_plist(self)
    }
}

impl FromPlist for Node {
    type Error = NodeConversionError;

    open spec fn outcome(v: PValue, r: Result<Node, NodeConversionError>) -> bool {
        match v {
            PValue::Array(a) => if a.len() > 4 {
                r matches Err(NodeConversionError::WrongVariant)
            } else if a.len() < 1 {
                r matches Err(NodeConversionError::MissingX)
            } else if plain_number_of(a[0]) is None {
                r matches Err(NodeConversionError::NotFloatX)
            } else if a.len() < 2 {
                r matches Err(NodeConversionError::MissingY)
            } else if plain_number_of(a[1]) is None {
                r matches Err(NodeConversionError::NotFloatY)
            } else if a.len() < 3 {
                r matches Err(NodeConversionError::MissingType)
            } else if !node_tag_ok(a[2]) {
                r matches Err(NodeConversionError::InvalidType(_))
            } else if a.len() == 4 && !node_attr_ok(a[3]) {
                r matches Err(NodeConversionError::InvalidAttr(_))
            } else {
                r matches Ok(n) && node_matches(n, v)
            },
            _ => r matches Err(NodeConversionError::WrongVariant),
        }
    }

    open spec fn converts(v: PValue) -> bool {
        node_ok(v)
    }

    fn from_plist(plist: Plist) -> (r: Result<Node, NodeConversionError>) {
        Node::try_from(plist)
    }
}

impl ToPlist for Node {
    open spec fn plist_value(&self) -> PValue {
        self.value()
    }

    fn to_plist(self) -> (r: Plist) {
        Node::to_plist(self)
    }
}

impl FromPlist for Point {
    type Error = PointConversionError;

    open spec fn outcome(v: PValue, r: Result<Point, PointConversionError>) -> bool {
        match v {
            PValue::Array(a) => if a.len() != 2 {
                r == Err::<Point, PointConversionError>(PointConversionError::WrongVariant)
            } else if plain_number_of(a[0]) is None {
                r == Err::<Point, PointConversionError>(PointConversionError::NotFloatX)
            } else if plain_number_of(a[1]) is None {
                r == Err::<Point, PointConversionError>(PointConversionError::NotFloatY)
            } else {
                r matches Ok(p) && p.x.view_value() == a[0] && p.y.view_value() == a[1]
            },
            _ => r == Err::<Point, PointConversionError>(PointConversionError::WrongVariant),
        }
    }

    open spec fn converts(v: PValue) -> bool {
        v matches PValue::Array(a) && a.len() == 2 && plain_number_of(a[0]) is Some && plain_number_of(a[1]) is Some
    }

    fn from_plist(plist: Plist) -> (r: Result<Point, PointConversionError>) {
        Point::try_from(plist)
    }
}

impl ToPlist for Point {
    open spec fn plist_value(&self) -> PValue {
        PValue::Array(seq![self.x.view_value(), self.y.view_value()])
    }

    fn to_plist(self) -> (r: Plist) {
        Point::to_plist(self)
    }
}

impl FromPlist for Scale {
    type Error = ScaleConversionError;

    open spec fn outcome(v: PValue, r: Result<Scale, ScaleConversionError>) -> bool {
        match v {
            PValue::Array(a) => if a.len() != 2 {
                r == Err::<Scale, ScaleConversionError>(ScaleConversionError::WrongVariant)
            } else if plain_number_of(a[0]) is None {
                r == Err::<Scale, ScaleConversionError>(ScaleConversionError::NotFloatHorizontal)
            } else if plain_number_of(a[1]) is None {
                r == Err::<Scale, ScaleConversionError>(ScaleConversionError::NotFloatVertical)
            } else {
                r matches Ok(p) && p.horizontal.view_value() == a[0] && p.vertical.view_value() == a[1]
            },
            _ => r == Err::<Scale, ScaleConversionError>(ScaleConversionError::WrongVariant),
        }
    }

    open spec fn converts(v: PValue) -> bool {
        v matches PValue::Array(a) && a.len() == 2 && plain_number_of(a[0]) is Some && plain_number_of(a[1]) is Some
    }

    fn from_plist(plist: Plist) -> (r: Result<Scale, ScaleConversionError>) {
        Scale::try_from(plist)
    }
}

impl ToPlist for Scale {
    open spec fn plist_value(&self) -> PValue {
        PValue::Array(seq![self.horizontal.view_value(), self.vertical.view_value()])
    }

    fn to_plist(self) -> (r: Plist) {
        Scale::to_plist(self)
    }
}

impl FromPlist for norad::Codepoints {
    type Error = CodepointsConversionError;

    open spec fn outcome(v: PValue, r: Result<norad::Codepoints, CodepointsConversionError>) -> bool {
        match codepoints_spec(v) {
            Ok(cs) => r matches Ok(c) && codepoints_of(c) == cs,
            Err(e) => r == Err::<norad::Codepoints, CodepointsConversionError>(e),
        }
    }

    open spec fn converts(v: PValue) -> bool {
        codepoints_spec(v) is Ok
    }

    fn from_plist(plist: Plist) -> (r: Result<norad::Codepoints, CodepointsConversionError>) {
        codepoints_from_plist(plist)
    }
}

impl FromPlist for Kerning {
    type Error = KerningConversionError;

    open spec fn outcome(v: PValue, r: Result<Kerning, KerningConversionError>) -> bool {
        match kerning_error(v) {
            None => r matches Ok(k) && k.value() == v,
            Some(f) => r matches Err(e) && failure_of(e) == f,
        }
    }

    open spec fn converts(v: PValue) -> bool {
        kerning_ok(v)
    }

    fn from_plist(plist: Plist) -> (r: Result<Kerning, KerningConversionError>) {
        Kerning::try_from(plist)
    }
}

impl ToPlist for Kerning {
    open spec fn plist_value(&self) -> PValue {
        self.value()
    }

    fn to_plist(self) -> (r: Plist) {
        Kerning::to_plist(self)
    }
}

/// Reads an array element by element; the first element that does not
/// convert is the error.
pub fn vec_from_plist<T: FromPlist>(plist: Plist) -> (r: Result<Vec<T>, ArrayConversionError<T::Error>>)
    ensures
        match plist@ {
            PValue::Array(a) => if forall|i: int| 0 <= i < a.len() ==> T::converts(#[trigger] a[i]) {
                r matches Ok(v) && v@.len() == a.len() && forall|i: int|
                    0 <= i < a.len() ==> T::outcome(#[trigger] a[i], Ok::<T, T::Error>(v@[i]))
            } else {
                r matches Err(ArrayConversionError::Element(e)) && exists|i: int|
                    0 <= i < a.len() && !T::converts(#[trigger] a[i]) && T::outcome(a[i], Err::<T, T::Error>(e))
                        && forall|k: int| 0 <= k < i ==> T::converts(#[trigger] a[k])
            },
            _ => r matches Err(ArrayConversionError::WrongVariant),
        },
{
    let array = match plist {
        Plist::Array(a) => a,
        _ => return Err(ArrayConversionError::WrongVariant),
    };
    let ghost whole = array@;
    proof { lemma_items_view(whole); }
    let ghost a = items_view(whole);
    let mut rest = array;
    let n = rest.len();
    let mut out: Vec<T> = Vec::new();
    let mut i: usize = 0;
    while i < n
        invariant
            n == whole.len(),
            0 <= i <= n,
            a == items_view(whole),
            a.len() == n,
            forall|k: int| 0 <= k < n ==> #[trigger] a[k] == whole[k]@,
            plist@ == PValue::Array(a),
            rest@ == whole.subrange(i as int, n as int),
            out@.len() == i,
            forall|k: int| 0 <= k < i ==> T::converts(#[trigger] a[k]),
            forall|k: int| 0 <= k < i ==> T::outcome(#[trigger] a[k], Ok::<T, T::Error>(out@[k])),
        decreases n - i,
    {
        let p = rest.remove(0);
        proof {
            assert(p == whole[i as int]);
            assert(rest@ =~= whole.subrange(i + 1, n as int));
        }
        match T::from_plist(p) {
            Ok(x) => {
                let ghost before = out@;
                out.push(x);
                proof {
                    assert forall|k: int| 0 <= k < i + 1 implies T::outcome(#[trigger] a[k], Ok::<T, T::Error>(out@[k])) by {
                        if k < i {
                            assert(out@[k] == before[k]);
                        }
                    }
                }
            },
            Err(e) => {
                proof {
                    assert(!T::converts(a[i as int]));
                    assert(T::outcome(a[i as int], Err::<T, T::Error>(e)));
                    assert(!(forall|k: int| 0 <= k < a.len() ==> T::converts(#[trigger] a[k])));
                    assert(plist@->Array_0 == a);
                }
                return Err(ArrayConversionError::Element(e));
            },
        }
        i = i + 1;
    }
    Ok(out)
}

/// The array that a vector is written as.
pub open spec fn vec_value<T: ToPlist>(v: Seq<T>) -> PValue {
    PValue::Array(Seq::new(v.len(), |i: int| v[i].plist_value()))
}

/// Writes a vector as an array, element by element.
pub fn vec_to_plist<T: ToPlist>(v: Vec<T>) -> (r: Plist)
    ensures
        r@ == vec_value(v@),
{
    let ghost whole = v@;
    let mut rest = v;
    let n = rest.len();
    let mut items: Vec<Plist> = Vec::new();
    let mut i: usize = 0;
    while i < n
        invariant
            n == whole.len(),
            0 <= i <= n,
            rest@ == whole.subrange(i as int, n as int),
            items_view(items@) == Seq::new(i as nat, |k: int| whole[k].plist_value()),
        decreases n - i,
    {
        let x = rest.remove(0);
        proof {
            assert(x == whole[i as int]);
            assert(rest@ =~= whole.subrange(i + 1, n as int));
        }
        let p = x.to_plist();
        proof { lemma_items_view_push(items@, p); }
        items.push(p);
        i = i + 1;
        proof {
            assert(items_view(items@) =~= Seq::new(i as nat, |k: int| whole[k].plist_value()));
        }
    }
    proof {
        assert(items_view(items@) =~= vec_value(whole)->Array_0);
    }
    Plist::Array(items)
}

} // verus!
