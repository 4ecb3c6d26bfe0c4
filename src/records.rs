//! Typed records of a font document, read from and written to dictionaries
//! through the schema engine.

use vstd::prelude::*;
use crate::plist::{Plist, PValue, entries_view, items_view, lemma_items_view, lemma_items_view_push};
use crate::schema::{
    FieldDescriptor, Requiredness, lower_camel_of, dict_lookup, dict_remove, emit_spec,
    opt_string_view, record_entries, take_value, take_string, take_bool, finish_record,
    emit_field, emit_string, emit_bool, option_view, DecodeFailure, failure_view, string_result,
    bool_result, dict_keys,
};
use crate::convert::{
    ArrayConversionError, VariantError, ValueKind, plain_number, plain_number_of, number_to_plist,
    integer_of, integer_value,
};
use crate::font::{GlyphsFromPlistError, NodeConversionError, NodeType, MetricType, Point};

verus! {

pub open spec fn key(name: Seq<char>) -> Seq<char> {
    lower_camel_of(name)
}

pub open spec fn empty_dict() -> Seq<(Seq<char>, PValue)> {
    Seq::empty()
}

/// A design axis of the font.
#[derive(Debug, PartialEq)]
pub struct Axis {
    pub name: String,
    pub tag: String,
    pub hidden: bool,
}

impl Axis {
    /// What a dictionary reads as, field by field in order: the fields, or
    /// the first failure.
    pub open spec fn decoded(d0: Seq<(Seq<char>, PValue)>) -> Result<(Seq<char>, Seq<char>, bool), DecodeFailure> {
        let d1 = dict_remove(d0, key("name"@));
        let d2 = dict_remove(d1, key("tag"@));
        let d3 = dict_remove(d2, key("hidden"@));
        match string_result(dict_lookup(d0, key("name"@)), true, "name"@) { Err(f) => Err(f), Ok(v0) => match string_result(dict_lookup(d1, key("tag"@)), true, "tag"@) { Err(f) => Err(f), Ok(v1) => match bool_result(dict_lookup(d2, key("hidden"@)), false, "hidden"@) { Err(f) => Err(f), Ok(v2) => if d3.len() == 0 { Ok((v0->Some_0, v1->Some_0, match v2 { Some(b) => b, None => false })) } else { Err(DecodeFailure::UnrecognisedFields(dict_keys(d3))) } } } }
    }

    pub open spec fn encoded(&self) -> Seq<(Seq<char>, PValue)> {
        let d1 = emit_spec(empty_dict(), key("name"@), true, Some(PValue::Str(self.name@)), false);
        let d2 = emit_spec(d1, key("tag"@), true, Some(PValue::Str(self.tag@)), false);
        emit_spec(d2, key("hidden"@), false, Some(PValue::Int(if self.hidden { 1 } else { 0 })), !self.hidden)
    }

    pub fn try_from(plist: Plist) -> (r: Result<Axis, GlyphsFromPlistError>)
        ensures
            match plist@ {
                PValue::Dict(d) => match Axis::decoded(d) {
                    Ok(t) => r matches Ok(x) && x.name@ == t.0 && x.tag@ == t.1 && x.hidden == t.2,
                    Err(f) => r matches Err(e) && failure_view(e) == Some(f),
                },
                _ => r matches Err(e) && failure_view(e) == Some(DecodeFailure::WrongShape(ValueKind::Dictionary, plist@)),
            },
    {
        let mut dict = match record_entries(plist) {
            Ok(d) => d,
            Err(e) => return Err(e),
        };
        let f_name = FieldDescriptor::new("name", Requiredness::Required, true);
        let f_tag = FieldDescriptor::new("tag", Requiredness::Required, true);
        let f_hidden = FieldDescriptor::new("hidden", Requiredness::DefaultFromType, false);
        let name = match take_string(&mut dict, &f_name) {
            Ok(Some(v)) => v,
            Ok(None) => return Err(GlyphsFromPlistError::MissingField(f_name.name)),
            Err(e) => return Err(e),
        };
        let tag = match take_string(&mut dict, &f_tag) {
            Ok(Some(v)) => v,
            Ok(None) => return Err(GlyphsFromPlistError::MissingField(f_tag.name)),
            Err(e) => return Err(e),
        };
        let hidden = match take_bool(&mut dict, &f_hidden) {
            Ok(v) => v,
            Err(e) => return Err(e),
        };
        match finish_record(dict, false) {
            Ok(_) => {},
            Err(e) => return Err(e),
        }
        Ok(Axis { name, tag, hidden: hidden == Some(true) })
    }

    pub fn to_plist(self) -> (r: Plist)
        ensures
            r@ == PValue::Dict(self.encoded()),
    {
        let mut dict: Vec<(String, Plist)> = Vec::new();
        proof { assert(entries_view(dict@) =~= empty_dict()); }
        let f_name = FieldDescriptor::new("name", Requiredness::Required, true);
        let f_tag = FieldDescriptor::new("tag", Requiredness::Required, true);
        let f_hidden = FieldDescriptor::new("hidden", Requiredness::DefaultFromType, false);
        emit_string(&mut dict, &f_name, Some(self.name));
        emit_string(&mut dict, &f_tag, Some(self.tag));
        emit_bool(&mut dict, &f_hidden, self.hidden, false);
        Plist::Dictionary(dict)
    }
}

/// A named number of the font.
#[derive(Debug, PartialEq)]
pub struct FontNumbers {
    pub name: String,
}

impl FontNumbers {
    /// What a dictionary reads as, field by field in order: the fields, or
    /// the first failure.
    pub open spec fn decoded(d0: Seq<(Seq<char>, PValue)>) -> Result<(Seq<char>,), DecodeFailure> {
        let d1 = dict_remove(d0, key("name"@));
        match string_result(dict_lookup(d0, key("name"@)), true, "name"@) { Err(f) => Err(f), Ok(v0) => if d1.len() == 0 { Ok((v0->Some_0,)) } else { Err(DecodeFailure::UnrecognisedFields(dict_keys(d1))) } }
    }

    /// The dictionary that this record is written as.
    pub open spec fn encoded(&self) -> Seq<(Seq<char>, PValue)> {
        let e1 = emit_spec(empty_dict(), key("name"@), false, Some(PValue::Str(self.name@)), false);
        e1
    }

    pub fn try_from(plist: Plist) -> (r: Result<FontNumbers, GlyphsFromPlistError>)
        ensures
            match plist@ {
                PValue::Dict(d) => match FontNumbers::decoded(d) {
                    Ok(t) => r matches Ok(x) && x.name@ == t.0,
                    Err(f) => r matches Err(e) && failure_view(e) == Some(f),
                },
                _ => r matches Err(e) && failure_view(e) == Some(DecodeFailure::WrongShape(ValueKind::Dictionary, plist@)),
            },
    {
        let mut dict = match record_entries(plist) {
            Ok(d) => d,
            Err(e) => return Err(e),
        };
        let f0 = FieldDescriptor::new("name", Requiredness::Required, false);
        let name = match take_string(&mut dict, &f0) {
            Ok(Some(v)) => v,
            Ok(None) => return Err(GlyphsFromPlistError::MissingField(f0.name)),
            Err(e) => return Err(e),
        };
        match finish_record(dict, false) {
            Ok(_) => {},
            Err(e) => return Err(e),
        }
        Ok(FontNumbers { name })
    }

    pub fn to_plist(self) -> (r: Plist)
        ensures
            r@ == PValue::Dict(self.encoded()),
    {
        let mut dict: Vec<(String, Plist)> = Vec::new();
        proof { assert(entries_view(dict@) =~= empty_dict()); }
        let f0 = FieldDescriptor::new("name", Requiredness::Required, false);
        emit_string(&mut dict, &f0, Some(self.name));
        Plist::Dictionary(dict)
    }
}
/// A stem of the font.
#[derive(Debug, PartialEq)]
pub struct FontStems {
    pub name: String,
    pub filter: Option<String>,
    pub horizontal: bool,
}

impl FontStems {
    /// What a dictionary reads as, field by field in order: the fields, or
    /// the first failure.
    pub open spec fn decoded(d0: Seq<(Seq<char>, PValue)>) -> Result<(Seq<char>, Option<Seq<char>>, bool), DecodeFailure> {
        let d1 = dict_remove(d0, key("name"@));
        let d2 = dict_remove(d1, key("filter"@));
        let d3 = dict_remove(d2, key("horizontal"@));
        match string_result(dict_lookup(d0, key("name"@)), true, "name"@) { Err(f) => Err(f), Ok(v0) => match string_result(dict_lookup(d1, key("filter"@)), false, "filter"@) { Err(f) => Err(f), Ok(v1) => match bool_result(dict_lookup(d2, key("horizontal"@)), false, "horizontal"@) { Err(f) => Err(f), Ok(v2) => if d3.len() == 0 { Ok((v0->Some_0, v1, match v2 { Some(b) => b, None => false })) } else { Err(DecodeFailure::UnrecognisedFields(dict_keys(d3))) } } } }
    }

    /// The dictionary that this record is written as.
    pub open spec fn encoded(&self) -> Seq<(Seq<char>, PValue)> {
        let e1 = emit_spec(empty_dict(), key("name"@), false, Some(PValue::Str(self.name@)), false);
        let e2 = emit_spec(e1, key("filter"@), false, match self.filter { Some(s) => Some(PValue::Str(s@)), None => None }, false);
        let e3 = emit_spec(e2, key("horizontal"@), false, Some(PValue::Int(if self.horizontal { 1 } else { 0 })), self.horizontal == false);
        e3
    }

    pub fn try_from(plist: Plist) -> (r: Result<FontStems, GlyphsFromPlistError>)
        ensures
            match plist@ {
                PValue::Dict(d) => match FontStems::decoded(d) {
                    Ok(t) => r matches Ok(x) && x.name@ == t.0 && opt_string_view(x.filter) == t.1 && x.horizontal == t.2,
                    Err(f) => r matches Err(e) && failure_view(e) == Some(f),
                },
                _ => r matches Err(e) && failure_view(e) == Some(DecodeFailure::WrongShape(ValueKind::Dictionary, plist@)),
            },
    {
        let mut dict = match record_entries(plist) {
            Ok(d) => d,
            Err(e) => return Err(e),
        };
        let f0 = FieldDescriptor::new("name", Requiredness::Required, false);
        let f1 = FieldDescriptor::new("filter", Requiredness::Optional, false);
        let f2 = FieldDescriptor::new("horizontal", Requiredness::DefaultFromType, false);
        let name = match take_string(&mut dict, &f0) {
            Ok(Some(v)) => v,
            Ok(None) => return Err(GlyphsFromPlistError::MissingField(f0.name)),
            Err(e) => return Err(e),
        };
        let filter = match take_string(&mut dict, &f1) {
            Ok(v) => v,
            Err(e) => return Err(e),
        };
        let horizontal = match take_bool(&mut dict, &f2) {
            Ok(Some(b)) => b,
            Ok(None) => false,
            Err(e) => return Err(e),
        };
        match finish_record(dict, false) {
            Ok(_) => {},
            Err(e) => return Err(e),
        }
        Ok(FontStems { name, filter, horizontal })
    }

    pub fn to_plist(self) -> (r: Plist)
        ensures
            r@ == PValue::Dict(self.encoded()),
    {
        let mut dict: Vec<(String, Plist)> = Vec::new();
        proof { assert(entries_view(dict@) =~= empty_dict()); }
        let f0 = FieldDescriptor::new("name", Requiredness::Required, false);
        let f1 = FieldDescriptor::new("filter", Requiredness::Optional, false);
        let f2 = FieldDescriptor::new("horizontal", Requiredness::DefaultFromType, false);
        emit_string(&mut dict, &f0, Some(self.name));
        emit_string(&mut dict, &f1, self.filter);
        emit_bool(&mut dict, &f2, self.horizontal, false);
        Plist::Dictionary(dict)
    }
}
/// Settings of the font document.
#[derive(Debug, PartialEq)]
pub struct Settings {
    pub disables_automatic_alignment: bool,
    pub disables_nice_names: bool,
    pub other_stuff: Vec<(String, Plist)>,
}

impl Settings {
    /// What a dictionary reads as, field by field in order: the fields, or
    /// the first failure.
    pub open spec fn decoded(d0: Seq<(Seq<char>, PValue)>) -> Result<(bool, bool, Seq<(Seq<char>, PValue)>), DecodeFailure> {
        let d1 = dict_remove(d0, key("disables_automatic_alignment"@));
        let d2 = dict_remove(d1, key("disables_nice_names"@));
        match bool_result(dict_lookup(d0, key("disables_automatic_alignment"@)), false, "disables_automatic_alignment"@) { Err(f) => Err(f), Ok(v0) => match bool_result(dict_lookup(d1, key("disables_nice_names"@)), false, "disables_nice_names"@) { Err(f) => Err(f), Ok(v1) => Ok((match v0 { Some(b) => b, None => false }, match v1 { Some(b) => b, None => false }, d2)) } }
    }

    /// The dictionary that this record is written as.
    pub open spec fn encoded(&self) -> Seq<(Seq<char>, PValue)> {
        let e1 = emit_spec(entries_view(self.other_stuff@), key("disables_automatic_alignment"@), false, Some(PValue::Int(if self.disables_automatic_alignment { 1 } else { 0 })), self.disables_automatic_alignment == false);
        let e2 = emit_spec(e1, key("disables_nice_names"@), false, Some(PValue::Int(if self.disables_nice_names { 1 } else { 0 })), self.disables_nice_names == false);
        e2
    }

    pub fn try_from(plist: Plist) -> (r: Result<Settings, GlyphsFromPlistError>)
        ensures
            match plist@ {
                PValue::Dict(d) => match Settings::decoded(d) {
                    Ok(t) => r matches Ok(x) && x.disables_automatic_alignment == t.0 && x.disables_nice_names == t.1 && entries_view(x.other_stuff@) == t.2,
                    Err(f) => r matches Err(e) && failure_view(e) == Some(f),
                },
                _ => r matches Err(e) && failure_view(e) == Some(DecodeFailure::WrongShape(ValueKind::Dictionary, plist@)),
            },
    {
        let mut dict = match record_entries(plist) {
            Ok(d) => d,
            Err(e) => return Err(e),
        };
        let f0 = FieldDescriptor::new("disables_automatic_alignment", Requiredness::DefaultFromType, false);
        let f1 = FieldDescriptor::new("disables_nice_names", Requiredness::DefaultFromType, false);
        let disables_automatic_alignment = match take_bool(&mut dict, &f0) {
            Ok(Some(b)) => b,
            Ok(None) => false,
            Err(e) => return Err(e),
        };
        let disables_nice_names = match take_bool(&mut dict, &f1) {
            Ok(Some(b)) => b,
            Ok(None) => false,
            Err(e) => return Err(e),
        };
        let rest = match finish_record(dict, true) {
            Ok(rest) => rest,
            Err(e) => return Err(e),
        };
        Ok(Settings { disables_automatic_alignment, disables_nice_names, other_stuff: rest })
    }

    pub fn to_plist(self) -> (r: Plist)
        ensures
            r@ == PValue::Dict(self.encoded()),
    {
        let mut dict = self.other_stuff;
        let f0 = FieldDescriptor::new("disables_automatic_alignment", Requiredness::DefaultFromType, false);
        let f1 = FieldDescriptor::new("disables_nice_names", Requiredness::DefaultFromType, false);
        emit_bool(&mut dict, &f0, self.disables_automatic_alignment, false);
        emit_bool(&mut dict, &f1, self.disables_nice_names, false);
        Plist::Dictionary(dict)
    }
}
/// Attributes of an outline node.
#[derive(Debug, PartialEq)]
pub struct NodeAttrs {
    pub name: Option<String>,
    pub other_stuff: Vec<(String, Plist)>,
}

impl NodeAttrs {
    /// What a dictionary reads as, field by field in order: the fields, or
    /// the first failure.
    pub open spec fn decoded(d0: Seq<(Seq<char>, PValue)>) -> Result<(Option<Seq<char>>, Seq<(Seq<char>, PValue)>), DecodeFailure> {
        let d1 = dict_remove(d0, key("name"@));
        match string_result(dict_lookup(d0, key("name"@)), false, "name"@) { Err(f) => Err(f), Ok(v0) => Ok((v0, d1)) }
    }

    /// The dictionary that this record is written as.
    pub open spec fn encoded(&self) -> Seq<(Seq<char>, PValue)> {
        let e1 = emit_spec(entries_view(self.other_stuff@), key("name"@), false, match self.name { Some(s) => Some(PValue::Str(s@)), None => None }, false);
        e1
    }

    pub fn try_from(plist: Plist) -> (r: Result<NodeAttrs, GlyphsFromPlistError>)
        ensures
            match plist@ {
                PValue::Dict(d) => match NodeAttrs::decoded(d) {
                    Ok(t) => r matches Ok(x) && opt_string_view(x.name) == t.0 && entries_view(x.other_stuff@) == t.1,
                    Err(f) => r matches Err(e) && failure_view(e) == Some(f),
                },
                _ => r matches Err(e) && failure_view(e) == Some(DecodeFailure::WrongShape(ValueKind::Dictionary, plist@)),
            },
    {
        let mut dict = match record_entries(plist) {
            Ok(d) => d,
            Err(e) => return Err(e),
        };
        let f0 = FieldDescriptor::new("name", Requiredness::Optional, false);
        let name = match take_string(&mut dict, &f0) {
            Ok(v) => v,
            Err(e) => return Err(e),
        };
        let rest = match finish_record(dict, true) {
            Ok(rest) => rest,
            Err(e) => return Err(e),
        };
        Ok(NodeAttrs { name, other_stuff: rest })
    }

    pub fn to_plist(self) -> (r: Plist)
        ensures
            r@ == PValue::Dict(self.encoded()),
    {
        let mut dict = self.other_stuff;
        let f0 = FieldDescriptor::new("name", Requiredness::Optional, false);
        emit_string(&mut dict, &f0, self.name);
        Plist::Dictionary(dict)
    }
}


/// A metric of the font: an optional filter, name and kind.
#[derive(Debug, PartialEq)]
pub struct Metric {
    pub filter: Option<String>,
    pub name: Option<String>,
    pub type_: Option<MetricType>,
}

/// What a metric-type field reads as: `Some(None)` when absent, `None` when
/// it is not the text of a metric type.
pub open spec fn metric_type_field(v: Option<PValue>) -> Option<Option<Seq<char>>> {
    match v {
        None => Some(None),
        Some(PValue::Str(s)) => if exists|x: MetricType| x.wire_text() == s {
            Some(Some(s))
        } else {
            None
        },
        Some(_) => None,
    }
}

impl Metric {
    /// What a dictionary reads as, field by field in order: the fields, or
    /// the first failure.
    pub open spec fn decoded(d0: Seq<(Seq<char>, PValue)>) -> Result<(Option<Seq<char>>, Option<Seq<char>>, Option<Seq<char>>), DecodeFailure> {
        let d1 = dict_remove(d0, key("filter"@));
        let d2 = dict_remove(d1, key("name"@));
        let d3 = dict_remove(d2, key("type"@));
        match string_result(dict_lookup(d0, key("filter"@)), false, "filter"@) { Err(f) => Err(f), Ok(v0) => match string_result(dict_lookup(d1, key("name"@)), false, "name"@) { Err(f) => Err(f), Ok(v1) => match metric_type_result(dict_lookup(d2, key("type"@))) { Err(f) => Err(f), Ok(v2) => if d3.len() == 0 { Ok((v0, v1, v2)) } else { Err(DecodeFailure::UnrecognisedFields(dict_keys(d3))) } } } }
    }

    pub open spec fn encoded(&self) -> Seq<(Seq<char>, PValue)> {
        let e1 = emit_spec(empty_dict(), key("filter"@), false, match self.filter {
            Some(s) => Some(PValue::Str(s@)),
            None => None,
        }, false);
        let e2 = emit_spec(e1, key("name"@), false, match self.name {
            Some(s) => Some(PValue::Str(s@)),
            None => None,
        }, false);
        emit_spec(e2, key("type"@), false, match self.type_ {
            Some(t) => Some(PValue::Str(t.wire_text())),
            None => None,
        }, false)
    }

    pub fn try_from(plist: Plist) -> (r: Result<Metric, GlyphsFromPlistError>)
        ensures
            match plist@ {
                PValue::Dict(d) => match Metric::decoded(d) {
                    Ok(t) => r matches Ok(x) && opt_string_view(x.filter) == t.0 && opt_string_view(x.name) == t.1 && match t.2 { Some(s) => x.type_ matches Some(k) && k.wire_text() == s, None => x.type_ is None },
                    Err(f) => r matches Err(e) && failure_view(e) == Some(f),
                },
                _ => r matches Err(e) && failure_view(e) == Some(DecodeFailure::WrongShape(ValueKind::Dictionary, plist@)),
            },
    {
        let mut dict = match record_entries(plist) {
            Ok(d) => d,
            Err(e) => return Err(e),
        };
        let f0 = FieldDescriptor::new("filter", Requiredness::Optional, false);
        let f1 = FieldDescriptor::new("name", Requiredness::Optional, false);
        let f2 = FieldDescriptor::new("type", Requiredness::Optional, false);
        let filter = match take_string(&mut dict, &f0) {
            Ok(v) => v,
            Err(e) => return Err(e),
        };
        let name = match take_string(&mut dict, &f1) {
            Ok(v) => v,
            Err(e) => return Err(e),
        };
        let type_ = match take_value(&mut dict, &f2) {
            Ok(Some(p)) => match MetricType::try_from(p) {
                Ok(t) => Some(t),
                Err(e) => return Err(GlyphsFromPlistError::MetricType(e)),
            },
            Ok(None) => None,
            Err(e) => return Err(e),
        };
        match finish_record(dict, false) {
            Ok(_) => {},
            Err(e) => return Err(e),
        }
        Ok(Metric { filter, name, type_ })
    }

    pub fn to_plist(self) -> (r: Plist)
        ensures
            r@ == PValue::Dict(self.encoded()),
    {
        let mut dict: Vec<(String, Plist)> = Vec::new();
        proof { assert(entries_view(dict@) =~= empty_dict()); }
        let f0 = FieldDescriptor::new("filter", Requiredness::Optional, false);
        let f1 = FieldDescriptor::new("name", Requiredness::Optional, false);
        let f2 = FieldDescriptor::new("type", Requiredness::Optional, false);
        emit_string(&mut dict, &f0, self.filter);
        emit_string(&mut dict, &f1, self.name);
        let t = match self.type_ {
            Some(t) => Some(t.to_plist()),
            None => None,
        };
        emit_field(&mut dict, &f2, t, false);
        Plist::Dictionary(dict)
    }
}

/// What an integer-list field reads as: `Some(None)` when absent, `None`
/// when it is not an array of integers.
pub open spec fn int_list_field(v: Option<PValue>) -> Option<Option<Seq<i64>>> {
    match v {
        None => Some(None),
        Some(PValue::Array(a)) => if forall|i: int| 0 <= i < a.len() ==> (#[trigger] integer_of(a[i])) is Some {
            Some(Some(Seq::new(a.len(), |i: int| integer_of(a[i])->Some_0)))
        } else {
            None
        },
        Some(_) => None,
    }
}

pub open spec fn int_list_value(v: Seq<i64>) -> PValue {
    PValue::Array(Seq::new(v.len(), |i: int| PValue::Int(v[i])))
}

/// Reads an array of integers; the first element that is not one is the error.
pub fn int_list_from_plist(plist: Plist) -> (r: Result<Vec<i64>, GlyphsFromPlistError>)
    ensures
        match int_list_field(Some(plist@)) {
            Some(Some(v)) => r matches Ok(x) && x@ == v,
            _ => r matches Err(e) && failure_view(e) == Some(if plist@ is Array {
                DecodeFailure::BadElement
            } else {
                DecodeFailure::NotAnArray
            }),
        },
{
    match plist {
        Plist::Array(mut array) => {
            proof { lemma_items_view(array@); }
            let ghost a = items_view(array@);
            let mut out: Vec<i64> = Vec::new();
            let mut i: usize = 0;
            while i < array.len()
                invariant
                    0 <= i <= array@.len(),
                    a.len() == array@.len(),
                    forall|k: int| 0 <= k < array@.len() ==> #[trigger] a[k] == array@[k]@,
                    plist@ == PValue::Array(a),
                    out@.len() == i,
                    forall|k: int| 0 <= k < i ==> (#[trigger] integer_of(a[k])) == Some(out@[k]),
                decreases array@.len() - i,
            {
                match integer_value(&array[i]) {
                    Some(n) => out.push(n),
                    None => {
                        proof {
                            assert(a[i as int] == array@[i as int]@);
                            assert(integer_of(a[i as int]) is None);
                        }
                        let bad = array.remove(i);
                        let e = GlyphsFromPlistError::Variant(VariantError(ValueKind::Integer, bad));
                        return Err(GlyphsFromPlistError::Array(ArrayConversionError::Element(Box::new(e))));
                    },
                }
                i = i + 1;
            }
            proof {
                assert(out@ =~= Seq::new(a.len(), |k: int| integer_of(a[k])->Some_0));
            }
            Ok(out)
        },
        _ => Err(GlyphsFromPlistError::Array(ArrayConversionError::WrongVariant)),
    }
}

pub fn int_list_to_plist(v: &Vec<i64>) -> (r: Plist)
    ensures
        r@ == int_list_value(v@),
{
    let mut items: Vec<Plist> = Vec::new();
    let mut i: usize = 0;
    while i < v.len()
        invariant
            0 <= i <= v@.len(),
            items_view(items@) == Seq::new(i as nat, |k: int| PValue::Int(v@[k])),
        decreases v@.len() - i,
    {
        proof { lemma_items_view_push(items@, Plist::Integer(v@[i as int])); }
        items.push(Plist::Integer(v[i]));
        i = i + 1;
        proof {
            assert(items_view(items@) =~= Seq::new(i as nat, |k: int| PValue::Int(v@[k])));
        }
    }
    Plist::Array(items)
}

/// What a metric-type field gives: the text of a metric type, nothing when
/// absent, or the failure.
pub open spec fn metric_type_result(v: Option<PValue>) -> Result<Option<Seq<char>>, DecodeFailure> {
    match metric_type_field(v) {
        Some(t) => Ok(t),
        None => Err(DecodeFailure::BadMetricType),
    }
}

/// What a required integer-list field gives.
pub open spec fn int_list_result(v: Option<PValue>, name: Seq<char>) -> Result<Option<Seq<i64>>, DecodeFailure> {
    match v {
        None => Err(DecodeFailure::MissingField(name)),
        Some(x) => match int_list_field(Some(x)) {
            Some(l) => Ok(l),
            None => Err(if x is Array {
                DecodeFailure::BadElement
            } else {
                DecodeFailure::NotAnArray
            }),
        },
    }
}

/// What a required field of nodes gives: the node tuples, or the failure.
pub open spec fn nodes_result(v: Option<PValue>, name: Seq<char>) -> Result<Option<Seq<PValue>>, DecodeFailure> {
    match v {
        None => Err(DecodeFailure::MissingField(name)),
        Some(PValue::Array(a)) => if forall|i: int| 0 <= i < a.len() ==> node_ok(#[trigger] a[i]) {
            Ok(Some(a))
        } else {
            Err(DecodeFailure::BadElement)
        },
        Some(_) => Err(DecodeFailure::NotAnArray),
    }
}

/// The shadow of a path.
#[derive(Debug, PartialEq)]
pub struct PathShadow {
    pub blur: String,
    pub color: Vec<i64>,
    pub offset_x: String,
    pub offset_y: String,
}

impl PathShadow {
    /// What a dictionary reads as, field by field in order: the fields, or
    /// the first failure.
    pub open spec fn decoded(d0: Seq<(Seq<char>, PValue)>) -> Result<(Seq<char>, Seq<i64>, Seq<char>, Seq<char>), DecodeFailure> {
        let d1 = dict_remove(d0, key("blur"@));
        let d2 = dict_remove(d1, key("color"@));
        let d3 = dict_remove(d2, key("offset_x"@));
        let d4 = dict_remove(d3, key("offset_y"@));
        match string_result(dict_lookup(d0, key("blur"@)), true, "blur"@) { Err(f) => Err(f), Ok(v0) => match int_list_result(dict_lookup(d1, key("color"@)), "color"@) { Err(f) => Err(f), Ok(v1) => match string_result(dict_lookup(d2, key("offset_x"@)), true, "offset_x"@) { Err(f) => Err(f), Ok(v2) => match string_result(dict_lookup(d3, key("offset_y"@)), true, "offset_y"@) { Err(f) => Err(f), Ok(v3) => if d4.len() == 0 { Ok((v0->Some_0, v1->Some_0, v2->Some_0, v3->Some_0)) } else { Err(DecodeFailure::UnrecognisedFields(dict_keys(d4))) } } } } }
    }

    pub open spec fn encoded(&self) -> Seq<(Seq<char>, PValue)> {
        let e1 = emit_spec(empty_dict(), key("blur"@), false, Some(PValue::Str(self.blur@)), false);
        let e2 = emit_spec(e1, key("color"@), false, Some(int_list_value(self.color@)), false);
        let e3 = emit_spec(e2, key("offset_x"@), false, Some(PValue::Str(self.offset_x@)), false);
        emit_spec(e3, key("offset_y"@), false, Some(PValue::Str(self.offset_y@)), false)
    }

    pub fn try_from(plist: Plist) -> (r: Result<PathShadow, GlyphsFromPlistError>)
        ensures
            match plist@ {
                PValue::Dict(d) => match PathShadow::decoded(d) {
                    Ok(t) => r matches Ok(x) && x.blur@ == t.0 && x.color@ == t.1 && x.offset_x@ == t.2 && x.offset_y@ == t.3,
                    Err(f) => r matches Err(e) && failure_view(e) == Some(f),
                },
                _ => r matches Err(e) && failure_view(e) == Some(DecodeFailure::WrongShape(ValueKind::Dictionary, plist@)),
            },
    {
        let mut dict = match record_entries(plist) {
            Ok(d) => d,
            Err(e) => return Err(e),
        };
        let f0 = FieldDescriptor::new("blur", Requiredness::Required, false);
        let f1 = FieldDescriptor::new("color", Requiredness::Required, false);
        let f2 = FieldDescriptor::new("offset_x", Requiredness::Required, false);
        let f3 = FieldDescriptor::new("offset_y", Requiredness::Required, false);
        let blur = match take_string(&mut dict, &f0) {
            Ok(Some(v)) => v,
            Ok(None) => return Err(GlyphsFromPlistError::MissingField(f0.name)),
            Err(e) => return Err(e),
        };
        let color = match take_value(&mut dict, &f1) {
            Ok(Some(p)) => match int_list_from_plist(p) {
                Ok(v) => v,
                Err(e) => return Err(e),
            },
            Ok(None) => return Err(GlyphsFromPlistError::MissingField(f1.name)),
            Err(e) => return Err(e),
        };
        let offset_x = match take_string(&mut dict, &f2) {
            Ok(Some(v)) => v,
            Ok(None) => return Err(GlyphsFromPlistError::MissingField(f2.name)),
            Err(e) => return Err(e),
        };
        let offset_y = match take_string(&mut dict, &f3) {
            Ok(Some(v)) => v,
            Ok(None) => return Err(GlyphsFromPlistError::MissingField(f3.name)),
            Err(e) => return Err(e),
        };
        match finish_record(dict, false) {
            Ok(_) => {},
            Err(e) => return Err(e),
        }
        Ok(PathShadow { blur, color, offset_x, offset_y })
    }

    pub fn to_plist(self) -> (r: Plist)
        ensures
            r@ == PValue::Dict(self.encoded()),
    {
        let mut dict: Vec<(String, Plist)> = Vec::new();
        proof { assert(entries_view(dict@) =~= empty_dict()); }
        let f0 = FieldDescriptor::new("blur", Requiredness::Required, false);
        let f1 = FieldDescriptor::new("color", Requiredness::Required, false);
        let f2 = FieldDescriptor::new("offset_x", Requiredness::Required, false);
        let f3 = FieldDescriptor::new("offset_y", Requiredness::Required, false);
        emit_string(&mut dict, &f0, Some(self.blur));
        let c = int_list_to_plist(&self.color);
        emit_field(&mut dict, &f1, Some(c), false);
        emit_string(&mut dict, &f2, Some(self.offset_x));
        emit_string(&mut dict, &f3, Some(self.offset_y));
        Plist::Dictionary(dict)
    }
}


/// A node of an outline: a point, its type, and optional attributes.
#[derive(Debug, PartialEq)]
pub struct Node {
    pub pt: Point,
    pub node_type: NodeType,
    pub attr: Option<NodeAttrs>,
}

/// Whether the third element of a node tuple names a node type.
pub open spec fn node_tag_ok(v: PValue) -> bool {
    v matches PValue::Str(s) && exists|t: NodeType| t.tag() == s
}

/// Whether the fourth element of a node tuple reads as node attributes.
pub open spec fn node_attr_ok(v: PValue) -> bool {
    v matches PValue::Dict(d) && NodeAttrs::decoded(d) is Ok
}

/// Whether a value reads as a node: an array of three or four elements, two
/// numbers, a node type, and optionally attributes.
pub open spec fn node_ok(v: PValue) -> bool {
    v matches PValue::Array(a) && (a.len() == 3 || a.len() == 4) && plain_number_of(a[0]) is Some
        && plain_number_of(a[1]) is Some && node_tag_ok(a[2]) && (a.len() == 4 ==> node_attr_ok(a[3]))
}

/// Whether node `n` is what the tuple `v` reads as.
pub open spec fn node_matches(n: Node, v: PValue) -> bool {
    let a = v->Array_0;
    n.pt.x.view_value() == a[0] && n.pt.y.view_value() == a[1] && n.node_type.tag() == a[2]->Str_0
        && (n.attr is Some <==> a.len() == 4) && (n.attr matches Some(at) ==> match NodeAttrs::decoded(
        a[3]->Dict_0,
    ) {
        Ok((name, rest)) => opt_string_view(at.name) == name && entries_view(at.other_stuff@) == rest,
        Err(_) => false,
    })
}

impl Node {
    /// The tuple that this node is written as.
    pub open spec fn value(&self) -> PValue {
        let head = seq![
            self.pt.x.view_value(),
            self.pt.y.view_value(),
            PValue::Str(self.node_type.tag()),
        ];
        PValue::Array(
            match self.attr {
                Some(at) => head.push(PValue::Dict(at.encoded())),
                None => head,
            },
        )
    }

    pub fn try_from(plist: Plist) -> (r: Result<Node, NodeConversionError>)
        ensures
            match plist@ {
                PValue::Array(a) => if a.len() > 4 {
                    r matches Err(NodeConversionError::WrongVariant)
                } else if a.len() < 1 {
                    r matches Err(NodeConversionError::MissingX)
                } else if plain_number_of(a[0]) is None {
                    r matches Err(NodeConversionError::NotFloatX)
                } else if a.len() < 2 {
                    r matches Err(NodeConversionError::MissingY)
                } else if plain_number_of(a[1]) is None {
                    r matches Err(NodeConversionError::NotFloatY)
                } else if a.len() < 3 {
                    r matches Err(NodeConversionError::MissingType)
                } else if !node_tag_ok(a[2]) {
                    r matches Err(NodeConversionError::InvalidType(_))
                } else if a.len() == 4 && !node_attr_ok(a[3]) {
                    r matches Err(NodeConversionError::InvalidAttr(_))
                } else {
                    r matches Ok(n) && node_matches(n, plist@)
                },
                _ => r matches Err(NodeConversionError::WrongVariant),
            },
    {
        let mut tuple = match plist {
            Plist::Array(t) => t,
            _ => return Err(NodeConversionError::WrongVariant),
        };
        proof { lemma_items_view(tuple@); }
        let ghost a = items_view(tuple@);
        let ghost whole = tuple@;
        let len = tuple.len();
        if len > 4 {
            return Err(NodeConversionError::WrongVariant);
        }
        let attr_p = if len == 4 { tuple.pop() } else { None };
        let type_p = if len >= 3 { tuple.pop() } else { None };
        let y_p = if len >= 2 { tuple.pop() } else { None };
        let x_p = if len >= 1 { tuple.pop() } else { None };
        let x = match x_p {
            None => return Err(NodeConversionError::MissingX),
            Some(p) => {
                proof { assert(p == whole[0]); }
                match plain_number(p) {
                    Some(n) => n,
                    None => return Err(NodeConversionError::NotFloatX),
                }
            },
        };
        let y = match y_p {
            None => return Err(NodeConversionError::MissingY),
            Some(p) => {
                proof { assert(p == whole[1]); }
                match plain_number(p) {
                    Some(n) => n,
                    None => return Err(NodeConversionError::NotFloatY),
                }
            },
        };
        let node_type = match type_p {
            None => return Err(NodeConversionError::MissingType),
            Some(p) => {
                proof { assert(p == whole[2]); }
                match NodeType::try_from(p) {
                    Ok(t) => t,
                    Err(e) => return Err(NodeConversionError::InvalidType(e)),
                }
            },
        };
        let attr = match attr_p {
            None => None,
            Some(p) => {
                proof { assert(p == whole[3]); }
                match NodeAttrs::try_from(p) {
                    Ok(at) => Some(at),
                    Err(e) => return Err(NodeConversionError::InvalidAttr(Box::new(e))),
                }
            },
        };
        Ok(Node { pt: Point { x, y }, node_type, attr })
    }

    /// Writes a tuple of three elements, or four when there are attributes.
    pub fn to_plist(self) -> (r: Plist)
        ensures
            r@ == self.value(),
    {
        let ghost this = self;
        let mut tuple = vec![
            number_to_plist(self.pt.x),
            number_to_plist(self.pt.y),
            Plist::String(self.node_type.glyphs_str().to_owned()),
        ];
        proof {
            lemma_items_view(tuple@);
            assert(items_view(tuple@) =~= this.value()->Array_0.subrange(0, 3));
        }
        if let Some(attr) = self.attr {
            let p = attr.to_plist();
            proof { lemma_items_view_push(tuple@, p); }
            tuple.push(p);
        }
        proof {
            assert(items_view(tuple@) =~= this.value()->Array_0);
        }
        Plist::Array(tuple)
    }
}


/// Reads an array of nodes; the first element that is not a node is the error.
pub fn nodes_from_plist(plist: Plist) -> (r: Result<Vec<Node>, GlyphsFromPlistError>)
    ensures
        match plist@ {
            PValue::Array(a) => if forall|i: int| 0 <= i < a.len() ==> node_ok(#[trigger] a[i]) {
                r matches Ok(v) && v@.len() == a.len() && forall|i: int|
                    0 <= i < a.len() ==> node_matches(#[trigger] v@[i], a[i])
            } else {
                r matches Err(e) && failure_view(e) == Some(DecodeFailure::BadElement)
            },
            _ => r matches Err(e) && failure_view(e) == Some(DecodeFailure::NotAnArray),
        },
{
    let mut array = match plist {
        Plist::Array(a) => a,
        _ => return Err(GlyphsFromPlistError::Array(ArrayConversionError::WrongVariant)),
    };
    let ghost whole = array@;
    proof { lemma_items_view(whole); }
    let ghost a = items_view(whole);
    let mut out: Vec<Node> = Vec::new();
    let mut i: usize = 0;
    let n = array.len();
    while i < n
        invariant
            n == whole.len(),
            0 <= i <= n,
            a.len() == n,
            forall|k: int| 0 <= k < n ==> #[trigger] a[k] == whole[k]@,
            plist@ == PValue::Array(a),
            array@ == whole.subrange(i as int, n as int),
            out@.len() == i,
            forall|k: int| 0 <= k < i ==> node_ok(#[trigger] a[k]),
            forall|k: int| 0 <= k < i ==> node_matches(#[trigger] out@[k], a[k]),
        decreases n - i,
    {
        let p = array.remove(0);
        proof {
            assert(p == whole[i as int]);
            assert(array@ =~= whole.subrange(i + 1, n as int));
        }
        match Node::try_from(p) {
            Ok(node) => out.push(node),
            Err(e) => {
                proof {
                    assert(!node_ok(a[i as int]));
                    assert(!(forall|k: int| 0 <= k < a.len() ==> node_ok(#[trigger] a[k])));
                    assert(plist@ == PValue::Array(a));
                    assert(plist@->Array_0 == a);
                }
                return Err(
                    GlyphsFromPlistError::Array(
                        ArrayConversionError::Element(Box::new(GlyphsFromPlistError::Node(e))),
                    ),
                );
            },
        }
        i = i + 1;
    }
    Ok(out)
}

/// Writes nodes as an array of node tuples.
pub fn nodes_to_plist(nodes: Vec<Node>) -> (r: Plist)
    ensures
        r@ == PValue::Array(Seq::new(nodes@.len(), |i: int| nodes@[i].value())),
{
    let ghost whole = nodes@;
    let mut nodes = nodes;
    let mut items: Vec<Plist> = Vec::new();
    let n = nodes.len();
    let mut i: usize = 0;
    while i < n
        invariant
            n == whole.len(),
            0 <= i <= n,
            nodes@ == whole.subrange(i as int, n as int),
            items_view(items@) == Seq::new(i as nat, |k: int| whole[k].value()),
        decreases n - i,
    {
        let node = nodes.remove(0);
        proof {
            assert(node == whole[i as int]);
            assert(nodes@ =~= whole.subrange(i + 1, n as int));
        }
        let p = node.to_plist();
        proof { lemma_items_view_push(items@, p); }
        items.push(p);
        i = i + 1;
        proof {
            assert(items_view(items@) =~= Seq::new(i as nat, |k: int| whole[k].value()));
        }
    }
    Plist::Array(items)
}

impl Settings {
    /// Settings with every flag off and nothing else.
    pub fn new() -> (r: Settings)
        ensures
            !r.disables_automatic_alignment,
            !r.disables_nice_names,
            r.other_stuff@.len() == 0,
    {
        Settings { disables_automatic_alignment: false, disables_nice_names: false, other_stuff: Vec::new() }
    }
}

/// An outline: optional attributes, whether it is closed, and its nodes.
#[derive(Debug, PartialEq)]
pub struct Path {
    pub attr: Option<Plist>,
    pub closed: bool,
    pub nodes: Vec<Node>,
}

impl Path {
    /// What a dictionary reads as, field by field in order: the fields, or
    /// the first failure.
    pub open spec fn decoded(d0: Seq<(Seq<char>, PValue)>) -> Result<(Option<PValue>, bool, Seq<PValue>), DecodeFailure> {
        let d1 = dict_remove(d0, key("attr"@));
        let d2 = dict_remove(d1, key("closed"@));
        let d3 = dict_remove(d2, key("nodes"@));
        match Ok::<Option<PValue>, DecodeFailure>(dict_lookup(d0, key("attr"@))) { Err(f) => Err(f), Ok(v0) => match bool_result(dict_lookup(d1, key("closed"@)), false, "closed"@) { Err(f) => Err(f), Ok(v1) => match nodes_result(dict_lookup(d2, key("nodes"@)), "nodes"@) { Err(f) => Err(f), Ok(v2) => if d3.len() == 0 { Ok((v0, match v1 { Some(b) => b, None => true }, v2->Some_0)) } else { Err(DecodeFailure::UnrecognisedFields(dict_keys(d3))) } } } }
    }

    pub open spec fn encoded(&self) -> Seq<(Seq<char>, PValue)> {
        let e1 = emit_spec(empty_dict(), key("attr"@), false, option_view(self.attr), false);
        let e2 = emit_spec(e1, key("closed"@), true, Some(PValue::Int(if self.closed { 1 } else { 0 })), self.closed);
        emit_spec(e2, key("nodes"@), false, Some(PValue::Array(Seq::new(self.nodes@.len(), |i: int| self.nodes@[i].value()))), false)
    }

    pub fn try_from(plist: Plist) -> (r: Result<Path, GlyphsFromPlistError>)
        ensures
            match plist@ {
                PValue::Dict(d) => match Path::decoded(d) {
                    Ok(t) => r matches Ok(x) && option_view(x.attr) == t.0 && x.closed == t.1 && x.nodes@.len() == t.2.len() && forall|i: int| 0 <= i < t.2.len() ==> node_matches(#[trigger] x.nodes@[i], t.2[i]),
                    Err(f) => r matches Err(e) && failure_view(e) == Some(f),
                },
                _ => r matches Err(e) && failure_view(e) == Some(DecodeFailure::WrongShape(ValueKind::Dictionary, plist@)),
            },
    {
        let mut dict = match record_entries(plist) {
            Ok(d) => d,
            Err(e) => return Err(e),
        };
        let f0 = FieldDescriptor::new("attr", Requiredness::Optional, false);
        let f1 = FieldDescriptor::new("closed", Requiredness::DefaultExpression, true);
        let f2 = FieldDescriptor::new("nodes", Requiredness::Required, false);
        let attr = match take_value(&mut dict, &f0) {
            Ok(v) => v,
            Err(e) => return Err(e),
        };
        let closed = match take_bool(&mut dict, &f1) {
            Ok(Some(b)) => b,
            Ok(None) => true,
            Err(e) => return Err(e),
        };
        let nodes = match take_value(&mut dict, &f2) {
            Ok(Some(p)) => match nodes_from_plist(p) {
                Ok(v) => v,
                Err(e) => return Err(e),
            },
            Ok(None) => return Err(GlyphsFromPlistError::MissingField(f2.name)),
            Err(e) => return Err(e),
        };
        match finish_record(dict, false) {
            Ok(_) => {},
            Err(e) => return Err(e),
        }
        Ok(Path { attr, closed, nodes })
    }

    pub fn to_plist(self) -> (r: Plist)
        ensures
            r@ == PValue::Dict(self.encoded()),
    {
        let mut dict: Vec<(String, Plist)> = Vec::new();
        proof { assert(entries_view(dict@) =~= empty_dict()); }
        let f0 = FieldDescriptor::new("attr", Requiredness::Optional, false);
        let f1 = FieldDescriptor::new("closed", Requiredness::DefaultExpression, true);
        let f2 = FieldDescriptor::new("nodes", Requiredness::Required, false);
        emit_field(&mut dict, &f0, self.attr, false);
        emit_bool(&mut dict, &f1, self.closed, true);
        let nodes = nodes_to_plist(self.nodes);
        emit_field(&mut dict, &f2, Some(nodes), false);
        Plist::Dictionary(dict)
    }

    pub fn new(closed: bool) -> (r: Path)
        ensures
            r.attr is None,
            r.closed == closed,
            r.nodes@.len() == 0,
    {
        Path { attr: None, nodes: Vec::new(), closed }
    }

    pub fn add(&mut self, pt: Point, node_type: NodeType)
        ensures
            final(self).attr == old(self).attr,
            final(self).closed == old(self).closed,
            final(self).nodes@ == old(self).nodes@.push(Node { pt, node_type, attr: None }),
    {
        self.nodes.push(Node { pt, node_type, attr: None });
    }

    /// Moves the first `delta` nodes to the end.
    pub fn rotate_left(&mut self, delta: usize)
        requires
            delta <= old(self).nodes@.len(),
        ensures
            final(self).attr == old(self).attr,
            final(self).closed == old(self).closed,
            final(self).nodes@ == old(self).nodes@.subrange(delta as int, old(self).nodes@.len() as int)
                + old(self).nodes@.subrange(0, delta as int),
    {
        let ghost start = self.nodes@;
        let mut i: usize = 0;
        proof {
            assert(start =~= start.subrange(0, start.len() as int) + start.subrange(0, 0));
        }
        while i < delta
            invariant
                0 <= i <= delta <= start.len(),
                self.nodes@ == start.subrange(i as int, start.len() as int) + start.subrange(0, i as int),
                self.attr == old(self).attr,
                self.closed == old(self).closed,
            decreases delta - i,
        {
            let first = self.nodes.remove(0);
            self.nodes.push(first);
            proof {
                assert(self.nodes@ =~= start.subrange(i + 1, start.len() as int) + start.subrange(0, i + 1));
            }
            i = i + 1;
        }
    }

    /// Reverses the order of the nodes.
    pub fn reverse(&mut self)
        ensures
            final(self).attr == old(self).attr,
            final(self).closed == old(self).closed,
            final(self).nodes@.len() == old(self).nodes@.len(),
            forall|i: int| 0 <= i < old(self).nodes@.len() ==> #[trigger] final(self).nodes@[i]
                == old(self).nodes@[old(self).nodes@.len() - 1 - i],
    {
        let ghost start = self.nodes@;
        let mut out: Vec<Node> = Vec::new();
        while self.nodes.len() > 0
            invariant
                self.nodes@ == start.subrange(0, start.len() - out@.len()),
                out@.len() <= start.len(),
                forall|k: int| 0 <= k < out@.len() ==> #[trigger] out@[k] == start[start.len() - 1 - k],
                self.attr == old(self).attr,
                self.closed == old(self).closed,
            decreases self.nodes@.len(),
        {
            let last = self.nodes.pop().unwrap();
            out.push(last);
            proof {
                assert(self.nodes@ =~= start.subrange(0, start.len() - out@.len()));
            }
        }
        self.nodes = out;
    }
}

} // verus!
