//! The generic mapping between dictionaries and records: each record type
//! lists its fields, and the same few functions take them out of a
//! dictionary and put them back.

use vstd::prelude::*;
use crate::plist::{Plist, PValue, entries_view, lemma_entries_view, dict_insert, insert_entry, key_lt, keys_sorted, lemma_key_lt_asymmetric};
use crate::font::GlyphsFromPlistError;
use crate::convert::{
    integer_of, bool_from_plist, string_from_plist, VariantError, ValueKind, bool_to_plist,
    BoolConversionError, ArrayConversionError,
};

verus! {

/// What decoding does when a field's key is absent.
#[derive(Clone, Copy, Debug, PartialEq, Eq, Structural)]
pub enum Requiredness {
    /// Absence is a `MissingField` error.
    Required,
    /// The record substitutes a default of its own choosing.
    DefaultExpression,
    /// The record substitutes the default of the field's type.
    DefaultFromType,
    /// The field is left empty.
    Optional,
}

/// How one field of a record is read and written.
#[derive(Debug)]
pub struct FieldDescriptor {
    pub name: String,
    pub wire_key: String,
    pub requiredness: Requiredness,
    pub always_emit: bool,
}

/// The lower camel case form of a field name, as heck computes it.
pub uninterp spec fn lower_camel_of(s: Seq<char>) -> Seq<char>;

/// Relies on heck's `ToLowerCamelCase::to_lower_camel_case`: the wire key that
/// a field name gives; it depends on the name alone, and a name of lower case
/// ASCII letters only is one word, which comes back unchanged.
#[verifier::external_body]
fn lower_camel_case(s: &str) -> (r: String)
    ensures
        r@ == lower_camel_of(s@),
        s@.len() > 0 && (forall|i: int| 0 <= i < s@.len() ==> 'a' <= #[trigger] s@[i] <= 'z') ==> r@ == s@,
{
    heck::ToLowerCamelCase::to_lower_camel_case(s)
}

impl FieldDescriptor {
    /// A field whose wire key is the lower camel case form of its name.
    pub fn new(name: &str, requiredness: Requiredness, always_emit: bool) -> (r: FieldDescriptor)
        ensures
            r.name@ == name@,
            r.wire_key@ == lower_camel_of(name@),
            r.requiredness == requiredness,
            r.always_emit == always_emit,
    {
        FieldDescriptor {
            name: name.to_owned(),
            wire_key: lower_camel_case(name),
            requiredness,
            always_emit,
        }
    }

    /// A field written under the wire key `wire_key`.
    pub fn renamed(name: &str, wire_key: &str, requiredness: Requiredness, always_emit: bool) -> (r:
        FieldDescriptor)
        ensures
            r.name@ == name@,
            r.wire_key@ == wire_key@,
            r.requiredness == requiredness,
            r.always_emit == always_emit,
    {
        FieldDescriptor { name: name.to_owned(), wire_key: wire_key.to_owned(), requiredness, always_emit }
    }
}

/// The value bound to `key`, if any.
pub open spec fn dict_lookup(d: Seq<(Seq<char>, PValue)>, key: Seq<char>) -> Option<PValue>
    decreases d.len(),
{
    if d.len() == 0 {
        None
    } else if d[0].0 == key {
        Some(d[0].1)
    } else {
        dict_lookup(d.drop_first(), key)
    }
}

/// `d` without the entry for `key`.
pub open spec fn dict_remove(d: Seq<(Seq<char>, PValue)>, key: Seq<char>) -> Seq<(Seq<char>, PValue)>
    decreases d.len(),
{
    if d.len() == 0 {
        d
    } else if d[0].0 == key {
        d.drop_first()
    } else {
        seq![d[0]] + dict_remove(d.drop_first(), key)
    }
}

pub open spec fn dict_keys(d: Seq<(Seq<char>, PValue)>) -> Seq<Seq<char>> {
    Seq::new(d.len(), |i: int| d[i].0)
}

pub open spec fn strings_view(ks: Seq<String>) -> Seq<Seq<char>> {
    Seq::new(ks.len(), |i: int| ks[i]@)
}

pub open spec fn option_view(v: Option<Plist>) -> Option<PValue> {
    match v {
        Some(p) => Some(p@),
        None => None,
    }
}

/// The dictionary after a field is written: it is bound when it has a value
/// and is either always written or differs from its default.
pub open spec fn emit_spec(
    d: Seq<(Seq<char>, PValue)>,
    key: Seq<char>,
    always_emit: bool,
    value: Option<PValue>,
    equals_default: bool,
) -> Seq<(Seq<char>, PValue)> {
    match value {
        Some(v) => if always_emit || !equals_default {
            dict_insert(d, key, v)
        } else {
            d
        },
        None => d,
    }
}

pub proof fn lemma_lookup_skip(d: Seq<(Seq<char>, PValue)>, i: int, key: Seq<char>)
    requires
        0 <= i <= d.len(),
        forall|k: int| 0 <= k < i ==> #[trigger] d[k].0 != key,
    ensures
        dict_lookup(d, key) == dict_lookup(d.subrange(i, d.len() as int), key),
        dict_remove(d, key) == d.subrange(0, i) + dict_remove(d.subrange(i, d.len() as int), key),
    decreases i,
{
    if i == 0 {
        assert(d.subrange(0, d.len() as int) =~= d);
        assert(d.subrange(0, 0) + dict_remove(d, key) =~= dict_remove(d, key));
    } else {
        let t = d.drop_first();
        assert forall|k: int| 0 <= k < i - 1 implies #[trigger] t[k].0 != key by {
            assert(t[k] == d[k + 1]);
        }
        lemma_lookup_skip(t, i - 1, key);
        assert(t.subrange(i - 1, t.len() as int) =~= d.subrange(i, d.len() as int));
        assert(seq![d[0]] + (t.subrange(0, i - 1) + dict_remove(d.subrange(i, d.len() as int), key))
            =~= d.subrange(0, i) + dict_remove(d.subrange(i, d.len() as int), key));
    }
}

/// Takes the field `field` out of the dictionary `dict`.
pub fn take_field(dict: &mut Vec<(String, Plist)>, field: &FieldDescriptor) -> (r: Result<
    Option<Plist>,
    GlyphsFromPlistError,
>)
    ensures
        match dict_lookup(entries_view(old(dict)@), field.wire_key@) {
            Some(v) => r matches Ok(Some(p)) && p@ == v && entries_view(final(dict)@) == dict_remove(
                entries_view(old(dict)@),
                field.wire_key@,
            ),
            None => entries_view(final(dict)@) == entries_view(old(dict)@) && if field.requiredness
                == Requiredness::Required {
                r matches Err(GlyphsFromPlistError::MissingField(n)) && n@ == field.name@
            } else {
                r matches Ok(None)
            },
        },
{
    let ghost e = entries_view(dict@);
    proof { lemma_entries_view(dict@); }
    let mut i: usize = 0;
    while i < dict.len() && dict[i].0 != field.wire_key
        invariant
            0 <= i <= dict@.len(),
            e.len() == dict@.len(),
            forall|k: int| 0 <= k < i ==> #[trigger] e[k].0 != field.wire_key@,
            forall|k: int| 0 <= k < dict@.len() ==> #[trigger] e[k] == (dict@[k].0@, dict@[k].1@),
        decreases dict@.len() - i,
    {
        i = i + 1;
    }
    proof { lemma_lookup_skip(e, i as int, field.wire_key@); }
    if i < dict.len() {
        let ghost rest = e.subrange(i as int, e.len() as int);
        proof { assert(rest[0] == e[i as int]); }
        let (_key, value) = dict.remove(i);
        proof {
            lemma_entries_view(dict@);
            assert(entries_view(dict@) =~= e.subrange(0, i as int) + rest.drop_first());
        }
        Ok(Some(value))
    } else {
        proof {
            assert(e.subrange(i as int, e.len() as int) =~= Seq::<(Seq<char>, PValue)>::empty());
        }
        if field.requiredness == Requiredness::Required {
            Err(GlyphsFromPlistError::MissingField(field.name.clone()))
        } else {
            Ok(None)
        }
    }
}

/// Ends the decoding of a record: what is left is its rest bucket when it has
/// one, and otherwise must be nothing.
pub fn finish_record(dict: Vec<(String, Plist)>, captures_rest: bool) -> (r: Result<
    Vec<(String, Plist)>,
    GlyphsFromPlistError,
>)
    ensures
        if captures_rest || entries_view(dict@).len() == 0 {
            r matches Ok(rest) && entries_view(rest@) == entries_view(dict@)
        } else {
            r matches Err(GlyphsFromPlistError::UnrecognisedFields(keys)) && strings_view(keys@)
                == dict_keys(entries_view(dict@))
        },
{
    proof { lemma_entries_view(dict@); }
    if captures_rest || dict.len() == 0 {
        return Ok(dict);
    }
    let mut keys: Vec<String> = Vec::new();
    let mut i: usize = 0;
    while i < dict.len()
        invariant
            0 <= i <= dict@.len(),
            keys@.len() == i,
            forall|k: int| 0 <= k < i ==> #[trigger] keys@[k]@ == dict@[k].0@,
        decreases dict@.len() - i,
    {
        keys.push(dict[i].0.clone());
        i = i + 1;
    }
    proof {
        assert(strings_view(keys@) =~= dict_keys(entries_view(dict@)));
    }
    Err(GlyphsFromPlistError::UnrecognisedFields(keys))
}

/// Writes the field `field` with the value `value` into `dict`, unless it
/// may be left out: it is not always written and equals its default.
pub fn emit_field(
    dict: &mut Vec<(String, Plist)>,
    field: &FieldDescriptor,
    value: Option<Plist>,
    equals_default: bool,
)
    ensures
        entries_view(final(dict)@) == emit_spec(
            entries_view(old(dict)@),
            field.wire_key@,
            field.always_emit,
            option_view(value),
            equals_default,
        ),
{
    if let Some(v) = value {
        if field.always_emit || !equals_default {
            insert_entry(dict, field.wire_key.clone(), v);
        }
    }
}


pub proof fn lemma_lookup_insert(d: Seq<(Seq<char>, PValue)>, key: Seq<char>, v: PValue, other: Seq<char>)
    ensures
        dict_lookup(dict_insert(d, key, v), other) == if other == key {
            Some(v)
        } else {
            dict_lookup(d, other)
        },
    decreases d.len(),
{
    let r = dict_insert(d, key, v);
    if d.len() == 0 {
        assert(r[0] == (key, v));
        assert(r.drop_first() =~= Seq::<(Seq<char>, PValue)>::empty());
        assert(dict_lookup(r, other) == if other == key { Some(v) } else { dict_lookup(d, other) });
    } else if d[0].0 == key {
        assert(r[0] == (key, v));
        assert(r.drop_first() =~= d.drop_first());
        assert(dict_lookup(r, other) == if other == key { Some(v) } else { dict_lookup(d, other) });
    } else if key_lt(key, d[0].0) {
        assert(r[0] == (key, v));
        assert(r.drop_first() =~= d);
        assert(dict_lookup(r, other) == if other == key { Some(v) } else { dict_lookup(d, other) });
    } else {
        lemma_lookup_insert(d.drop_first(), key, v, other);
        assert(r[0] == d[0]);
        assert(r.drop_first() =~= dict_insert(d.drop_first(), key, v));
    }
}

pub proof fn lemma_lookup_remove(d: Seq<(Seq<char>, PValue)>, key: Seq<char>, other: Seq<char>)
    requires
        other != key,
    ensures
        dict_lookup(dict_remove(d, key), other) == dict_lookup(d, other),
    decreases d.len(),
{
    if d.len() > 0 && d[0].0 != key {
        lemma_lookup_remove(d.drop_first(), key, other);
        assert((seq![d[0]] + dict_remove(d.drop_first(), key)).drop_first() =~= dict_remove(
            d.drop_first(),
            key,
        ));
    }
}

pub proof fn lemma_keys_remove(d: Seq<(Seq<char>, PValue)>, key: Seq<char>, other: Seq<char>)
    requires
        keys_sorted(d),
    ensures
        dict_keys(dict_remove(d, key)).contains(other) <==> (dict_keys(d).contains(other) && other
            != key),
    decreases d.len(),
{
    if d.len() == 0 {
        return;
    }
    let t = d.drop_first();
    assert(keys_sorted(t)) by {
        assert forall|i: int, j: int| 0 <= i < j < t.len() implies key_lt(#[trigger] t[i].0, #[trigger] t[j].0) by {
            assert(t[i] == d[i + 1] && t[j] == d[j + 1]);
        }
    }
    let r = dict_remove(d, key);
    if d[0].0 == key {
        if dict_keys(r).contains(other) {
            let i = choose|i: int| 0 <= i < dict_keys(r).len() && dict_keys(r)[i] == other;
            assert(dict_keys(d)[i + 1] == other);
            lemma_key_lt_asymmetric(d[0].0, d[i + 1].0);
        }
        if dict_keys(d).contains(other) && other != key {
            let j = choose|j: int| 0 <= j < dict_keys(d).len() && dict_keys(d)[j] == other;
            assert(j != 0);
            assert(dict_keys(r)[j - 1] == other);
        }
    } else {
        lemma_keys_remove(t, key, other);
        let rt = dict_remove(t, key);
        assert(r == seq![d[0]] + rt);
        if dict_keys(r).contains(other) {
            let i = choose|i: int| 0 <= i < dict_keys(r).len() && dict_keys(r)[i] == other;
            if i == 0 {
                assert(dict_keys(d)[0] == other);
                if other == key {
                    assert(false);
                }
            } else {
                assert(dict_keys(rt)[i - 1] == other);
                let j = choose|j: int| 0 <= j < dict_keys(t).len() && dict_keys(t)[j] == other;
                assert(dict_keys(d)[j + 1] == other);
            }
        }
        if dict_keys(d).contains(other) && other != key {
            let j = choose|j: int| 0 <= j < dict_keys(d).len() && dict_keys(d)[j] == other;
            if j == 0 {
                assert(dict_keys(r)[0] == other);
            } else {
                assert(dict_keys(t)[j - 1] == other);
                let i = choose|i: int| 0 <= i < dict_keys(rt).len() && dict_keys(rt)[i] == other;
                assert(dict_keys(r)[i + 1] == other);
            }
        }
    }
}

/// Keys that a record does not declare survive decoding and encoding: when
/// the declared field `key` is taken out of `d` and then written back (or
/// left out), every other key is bound to the value it had in `d`.
pub proof fn law_rest_preserved(
    d: Seq<(Seq<char>, PValue)>,
    key: Seq<char>,
    always_emit: bool,
    value: Option<PValue>,
    equals_default: bool,
    other: Seq<char>,
)
    requires
        other != key,
    ensures
        dict_lookup(emit_spec(dict_remove(d, key), key, always_emit, value, equals_default), other)
            == dict_lookup(d, other),
{
    lemma_lookup_remove(d, key, other);
    if let Some(v) = value {
        lemma_lookup_insert(dict_remove(d, key), key, v, other);
    }
}

/// Without a rest bucket, the keys that decoding reports as unrecognised are
/// exactly the keys of the dictionary other than the declared field `key`.
pub proof fn law_unrecognised_keys(d: Seq<(Seq<char>, PValue)>, key: Seq<char>, other: Seq<char>)
    requires
        keys_sorted(d),
    ensures
        dict_keys(dict_remove(d, key)).contains(other) <==> (dict_keys(d).contains(other) && other
            != key),
{
    lemma_keys_remove(d, key, other);
}

/// An array field without a default that holds an empty array reads back
/// as the empty array, leaves nothing over, and is written as the empty array
/// again, so such a record comes back unchanged.
pub proof fn law_empty_array_round_trip(key: Seq<char>, always_emit: bool)
    ensures
        ({
            let d = seq![(key, PValue::Array(Seq::empty()))];
            &&& dict_lookup(d, key) == Some(PValue::Array(Seq::empty()))
            &&& dict_remove(d, key).len() == 0
            &&& emit_spec(Seq::empty(), key, always_emit, Some(PValue::Array(Seq::empty())), false) == d
        }),
{
    let d = seq![(key, PValue::Array(Seq::<PValue>::empty()))];
    assert(d.drop_first() =~= Seq::<(Seq<char>, PValue)>::empty());
    assert(dict_insert(Seq::empty(), key, PValue::Array(Seq::<PValue>::empty())) =~= d);
}

/// A field that is not always written is left out when it equals its
/// default, and written when it differs from it.
pub proof fn law_default_suppression(d: Seq<(Seq<char>, PValue)>, key: Seq<char>, v: PValue, always_emit: bool)
    requires
        dict_lookup(d, key) is None,
    ensures
        dict_lookup(emit_spec(d, key, false, Some(v), true), key) is None,
        dict_lookup(emit_spec(d, key, always_emit, Some(v), false), key) == Some(v),
{
    lemma_lookup_insert(d, key, v, key);
}


pub proof fn lemma_remove_absent(d: Seq<(Seq<char>, PValue)>, key: Seq<char>)
    requires
        dict_lookup(d, key) is None,
    ensures
        dict_remove(d, key) == d,
    decreases d.len(),
{
    if d.len() > 0 {
        lemma_remove_absent(d.drop_first(), key);
        assert(seq![d[0]] + d.drop_first() =~= d);
    }
}

/// Why decoding a record or one of its fields failed, with values as models.
pub enum DecodeFailure {
    MissingField(Seq<char>),
    UnrecognisedFields(Seq<Seq<char>>),
    /// A value of another shape than the one expected.
    WrongShape(ValueKind, PValue),
    BoolWrongVariant(PValue),
    BoolBadNumber(i64),
    /// An array field that is not an array.
    NotAnArray,
    /// An array field one of whose elements does not convert.
    BadElement,
    BadMetricType,
}

/// The model of a decoding error.
pub open spec fn failure_view(e: GlyphsFromPlistError) -> Option<DecodeFailure> {
    match e {
        GlyphsFromPlistError::MissingField(n) => Some(DecodeFailure::MissingField(n@)),
        GlyphsFromPlistError::UnrecognisedFields(ks) => Some(DecodeFailure::UnrecognisedFields(strings_view(ks@))),
        GlyphsFromPlistError::Variant(VariantError(k, p)) => Some(DecodeFailure::WrongShape(k, p@)),
        GlyphsFromPlistError::Bool(BoolConversionError::WrongVariant(p)) => Some(DecodeFailure::BoolWrongVariant(p@)),
        GlyphsFromPlistError::Bool(BoolConversionError::BadNumber(n)) => Some(DecodeFailure::BoolBadNumber(n)),
        GlyphsFromPlistError::Array(ArrayConversionError::WrongVariant) => Some(DecodeFailure::NotAnArray),
        GlyphsFromPlistError::Array(ArrayConversionError::Element(_)) => Some(DecodeFailure::BadElement),
        GlyphsFromPlistError::MetricType(_) => Some(DecodeFailure::BadMetricType),
        _ => None,
    }
}

/// What a string field gives: the string, nothing when it is absent and not
/// required, or the failure.
pub open spec fn string_result(v: Option<PValue>, required: bool, name: Seq<char>) -> Result<
    Option<Seq<char>>,
    DecodeFailure,
> {
    match v {
        None => if required {
            Err(DecodeFailure::MissingField(name))
        } else {
            Ok(None)
        },
        Some(PValue::Str(s)) => Ok(Some(s)),
        Some(x) => Err(DecodeFailure::WrongShape(ValueKind::String, x)),
    }
}

/// What a boolean field gives: 0 or 1 as a boolean, nothing when it is
/// absent and not required, or the failure.
pub open spec fn bool_result(v: Option<PValue>, required: bool, name: Seq<char>) -> Result<
    Option<bool>,
    DecodeFailure,
> {
    match v {
        None => if required {
            Err(DecodeFailure::MissingField(name))
        } else {
            Ok(None)
        },
        Some(x) => match integer_of(x) {
            Some(n) => if n == 0 {
                Ok(Some(false))
            } else if n == 1 {
                Ok(Some(true))
            } else {
                Err(DecodeFailure::BoolBadNumber(n))
            },
            None => Err(DecodeFailure::BoolWrongVariant(x)),
        },
    }
}

pub open spec fn opt_string_view(x: Option<String>) -> Option<Seq<char>> {
    match x {
        Some(s) => Some(s@),
        None => None,
    }
}

/// The entries of a dictionary value, which a record is read from.
pub fn record_entries(plist: Plist) -> (r: Result<Vec<(String, Plist)>, GlyphsFromPlistError>)
    ensures
        match plist@ {
            PValue::Dict(d) => r matches Ok(e) && entries_view(e@) == d,
            _ => r matches Err(e) && failure_view(e) == Some(DecodeFailure::WrongShape(ValueKind::Dictionary, plist@)),
        },
{
    match plist {
        Plist::Dictionary(d) => Ok(d),
        _ => Err(GlyphsFromPlistError::Variant(VariantError(ValueKind::Dictionary, plist))),
    }
}

/// Takes a field out of `dict` as it stands, without converting it.
pub fn take_value(dict: &mut Vec<(String, Plist)>, field: &FieldDescriptor) -> (r: Result<
    Option<Plist>,
    GlyphsFromPlistError,
>)
    ensures
        entries_view(final(dict)@) == dict_remove(entries_view(old(dict)@), field.wire_key@),
        r is Ok <==> (dict_lookup(entries_view(old(dict)@), field.wire_key@) is Some
            || field.requiredness != Requiredness::Required),
        r matches Ok(x) ==> option_view(x) == dict_lookup(entries_view(old(dict)@), field.wire_key@),
        r matches Err(e) ==> failure_view(e) == Some(DecodeFailure::MissingField(field.name@)),
{
    let ghost d = entries_view(dict@);
    let r = take_field(dict, field);
    proof {
        if dict_lookup(d, field.wire_key@) is None {
            lemma_remove_absent(d, field.wire_key@);
        }
    }
    r
}

/// Takes a string field out of `dict`.
pub fn take_string(dict: &mut Vec<(String, Plist)>, field: &FieldDescriptor) -> (r: Result<
    Option<String>,
    GlyphsFromPlistError,
>)
    ensures
        entries_view(final(dict)@) == dict_remove(entries_view(old(dict)@), field.wire_key@),
        match string_result(
            dict_lookup(entries_view(old(dict)@), field.wire_key@),
            field.requiredness == Requiredness::Required,
            field.name@,
        ) {
            Ok(x) => r matches Ok(y) && opt_string_view(y) == x,
            Err(f) => r matches Err(e) && failure_view(e) == Some(f),
        },
{
    match take_value(dict, field) {
        Ok(Some(v)) => match string_from_plist(v) {
            Ok(s) => Ok(Some(s)),
            Err(e) => Err(GlyphsFromPlistError::Variant(e)),
        },
        Ok(None) => Ok(None),
        Err(e) => Err(e),
    }
}

/// Takes a boolean field out of `dict`.
pub fn take_bool(dict: &mut Vec<(String, Plist)>, field: &FieldDescriptor) -> (r: Result<
    Option<bool>,
    GlyphsFromPlistError,
>)
    ensures
        entries_view(final(dict)@) == dict_remove(entries_view(old(dict)@), field.wire_key@),
        match bool_result(
            dict_lookup(entries_view(old(dict)@), field.wire_key@),
            field.requiredness == Requiredness::Required,
            field.name@,
        ) {
            Ok(x) => r == Ok::<Option<bool>, GlyphsFromPlistError>(x),
            Err(f) => r matches Err(e) && failure_view(e) == Some(f),
        },
{
    match take_value(dict, field) {
        Ok(Some(v)) => match bool_from_plist(v) {
            Ok(b) => Ok(Some(b)),
            Err(e) => Err(GlyphsFromPlistError::Bool(e)),
        },
        Ok(None) => Ok(None),
        Err(e) => Err(e),
    }
}

/// Writes an optional string field, which is left out when absent.
pub fn emit_string(dict: &mut Vec<(String, Plist)>, field: &FieldDescriptor, value: Option<String>)
    ensures
        entries_view(final(dict)@) == emit_spec(
            entries_view(old(dict)@),
            field.wire_key@,
            field.always_emit,
            match value {
                Some(s) => Some(PValue::Str(s@)),
                None => None,
            },
            false,
        ),
{
    match value {
        Some(s) => emit_field(dict, field, Some(Plist::String(s)), false),
        None => emit_field(dict, field, None, false),
    }
}

/// Writes a boolean field, which may be left out when it equals `default`.
pub fn emit_bool(dict: &mut Vec<(String, Plist)>, field: &FieldDescriptor, value: bool, default: bool)
    ensures
        entries_view(final(dict)@) == emit_spec(
            entries_view(old(dict)@),
            field.wire_key@,
            field.always_emit,
            Some(PValue::Int(if value { 1 } else { 0 })),
            value == default,
        ),
{
    emit_field(dict, field, Some(bool_to_plist(value)), value == default);
}

} // verus!
