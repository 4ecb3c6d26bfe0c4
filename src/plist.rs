//! The property-list value tree, its parser and its canonical text form.

use vstd::prelude::*;
use crate::schema::dict_lookup;
use crate::lexer::{
    Error, Token, TokenView, lex_spec, expect_spec, token_string,
    digit_char, hex_upper_char, is_hex_upper, alnum_strict_char, is_alnum_strict,
};
use crate::text::{
    int_from_text, float_literal, chars_of, string_from_chars, parse_i64, is_float_literal,
    int_to_text, int_text, push_str, push_char,
};

verus! {

/// A property-list value. Parsing and `from_pairs` keep the entries of a
/// dictionary sorted by key, each key once; the text of a dictionary lists
/// its keys in order in any case (see `write_order`).
#[derive(Debug, PartialEq)]
pub enum Plist {
    Dictionary(Vec<(String, Plist)>),
    Array(Vec<Plist>),
    String(String),
    Integer(i64),
    /// A floating-point number, held as the literal it was written as.
    Float(String),
}

/// The mathematical form of a `Plist`.
pub enum PValue {
    Dict(Seq<(Seq<char>, PValue)>),
    Array(Seq<PValue>),
    Str(Seq<char>),
    Int(i64),
    Float(Seq<char>),
}

impl View for Plist {
    type V = PValue;

    open spec fn view(&self) -> PValue
        decreases self,
    {
        match self {
            Plist::Dictionary(d) => PValue::Dict(entries_view(d@)),
            Plist::Array(a) => PValue::Array(items_view(a@)),
            Plist::String(t) => PValue::Str(t@),
            Plist::Integer(i) => PValue::Int(*i),
            Plist::Float(t) => PValue::Float(t@),
        }
    }
}

/// The entries of a dictionary, each as a key and a value.
pub open spec fn entries_view(d: Seq<(String, Plist)>) -> Seq<(Seq<char>, PValue)>
    decreases d,
{
    if d.len() == 0 {
        Seq::empty()
    } else {
        entries_view(d.drop_last()).push((d.last().0@, d.last().1.view()))
    }
}

pub open spec fn items_view(a: Seq<Plist>) -> Seq<PValue>
    decreases a,
{
    if a.len() == 0 {
        Seq::empty()
    } else {
        items_view(a.drop_last()).push(a.last().view())
    }
}

pub proof fn lemma_entries_view(d: Seq<(String, Plist)>)
    ensures
        entries_view(d).len() == d.len(),
        forall|i: int| 0 <= i < d.len() ==> #[trigger] entries_view(d)[i] == (d[i].0@, d[i].1@),
    decreases d.len(),
{
    if d.len() > 0 {
        lemma_entries_view(d.drop_last());
        assert(entries_view(d) == entries_view(d.drop_last()).push((d.last().0@, d.last().1.view())));
    } else {
        assert(entries_view(d) == Seq::<(Seq<char>, PValue)>::empty());
    }
}

pub proof fn lemma_items_view(a: Seq<Plist>)
    ensures
        items_view(a).len() == a.len(),
        forall|i: int| 0 <= i < a.len() ==> #[trigger] items_view(a)[i] == a[i]@,
    decreases a.len(),
{
    if a.len() > 0 {
        lemma_items_view(a.drop_last());
        assert(items_view(a) == items_view(a.drop_last()).push(a.last().view()));
    } else {
        assert(items_view(a) == Seq::<PValue>::empty());
    }
}

/// Lexicographic order of keys, character by character.
pub open spec fn key_lt(a: Seq<char>, b: Seq<char>) -> bool
    decreases a.len(),
{
    if b.len() == 0 {
        false
    } else if a.len() == 0 {
        true
    } else if a[0] != b[0] {
        a[0] < b[0]
    } else {
        key_lt(a.drop_first(), b.drop_first())
    }
}

/// Keys in strictly increasing order, so each key occurs once.
pub open spec fn keys_sorted(d: Seq<(Seq<char>, PValue)>) -> bool {
    forall|i: int, j: int| 0 <= i < j < d.len() ==> key_lt(#[trigger] d[i].0, #[trigger] d[j].0)
}

/// `d` with `key` bound to `v`: a new entry in its place in the order, or the
/// value of the entry with that key replaced.
pub open spec fn dict_insert(d: Seq<(Seq<char>, PValue)>, key: Seq<char>, v: PValue) -> Seq<
    (Seq<char>, PValue),
>
    decreases d.len(),
{
    if d.len() == 0 {
        seq![(key, v)]
    } else if d[0].0 == key {
        d.update(0, (key, v))
    } else if key_lt(key, d[0].0) {
        seq![(key, v)] + d
    } else {
        seq![d[0]] + dict_insert(d.drop_first(), key, v)
    }
}

/// The value that an atom stands for, under the numeric-ambiguity rule.
pub open spec fn atom_value(a: Seq<char>) -> PValue {
    if numeric_ok_spec(a) {
        match int_from_text(a) {
            Some(i) => PValue::Int(i),
            None => if float_literal(a) {
                PValue::Float(a)
            } else {
                PValue::Str(a)
            },
        }
    } else {
        PValue::Str(a)
    }
}

/// Whether an atom may be read as a number: it is not empty, does not merely
/// look hexadecimal (digits and `A`-`F` with at least one letter), and is not
/// a run of digits with a leading zero.
pub open spec fn numeric_ok_spec(s: Seq<char>) -> bool {
    let all_hex = forall|i: int| 0 <= i < s.len() ==> hex_upper_char(#[trigger] s[i]);
    let all_dec = forall|i: int| 0 <= i < s.len() ==> digit_char(#[trigger] s[i]);
    s.len() > 0 && !(all_hex && !all_dec) && !(s.len() > 1 && s[0] == '0' && all_dec)
}

/// The value that starts at or after `ix`, and the index after it.
pub open spec fn parse_value(s: Seq<char>, ix: int) -> Result<(PValue, int), Error>
    decreases s.len() - ix, 1nat,
{
    if !(0 <= ix <= s.len()) {
        Err(Error::SomethingWentWrong)
    } else {
        match lex_spec(s, ix) {
            Err(e) => Err(e),
            Ok((TokenView::Atom(a), j)) => Ok((atom_value(a), j)),
            Ok((TokenView::Str(t), j)) => Ok((PValue::Str(t), j)),
            Ok((TokenView::OpenBrace, j)) => if ix < j <= s.len() {
                parse_dict_rest(s, j, Seq::empty())
            } else {
                Err(Error::SomethingWentWrong)
            },
            Ok((TokenView::OpenParen, j)) => if ix < j <= s.len() {
                match expect_spec(s, j, ')') {
                    Some(k) => Ok((PValue::Array(Seq::empty()), k)),
                    None => parse_array_rest(s, j, Seq::empty()),
                }
            } else {
                Err(Error::SomethingWentWrong)
            },
            Ok((TokenView::Eof, _)) => Err(Error::SomethingWentWrong),
        }
    }
}

/// The rest of a dictionary from `ix`, after the entries `acc` were read.
pub open spec fn parse_dict_rest(s: Seq<char>, ix: int, acc: Seq<(Seq<char>, PValue)>) -> Result<
    (PValue, int),
    Error,
>
    decreases s.len() - ix, 0nat,
{
    if !(0 <= ix <= s.len()) {
        Err(Error::SomethingWentWrong)
    } else {
        match expect_spec(s, ix, '}') {
            Some(k) => Ok((PValue::Dict(acc), k)),
            None => match lex_spec(s, ix) {
                Err(e) => Err(e),
                Ok((kt, n)) => match token_string(kt) {
                    Err(e) => Err(e),
                    Ok(key) => match expect_spec(s, n, '=') {
                        None => Err(Error::ExpectedEquals),
                        Some(m) => if ix < m <= s.len() {
                            match parse_value(s, m) {
                                Err(e) => Err(e),
                                Ok((v, p)) => match expect_spec(s, p, ';') {
                                    None => Err(Error::ExpectedSemicolon),
                                    Some(q) => if ix < q <= s.len() {
                                        parse_dict_rest(s, q, dict_insert(acc, key, v))
                                    } else {
                                        Err(Error::SomethingWentWrong)
                                    },
                                },
                            }
                        } else {
                            Err(Error::SomethingWentWrong)
                        },
                    },
                },
            },
        }
    }
}

/// The rest of a non-empty array from `ix`, after the elements `acc` were read.
pub open spec fn parse_array_rest(s: Seq<char>, ix: int, acc: Seq<PValue>) -> Result<
    (PValue, int),
    Error,
>
    decreases s.len() - ix, 2nat,
{
    if !(0 <= ix <= s.len()) {
        Err(Error::SomethingWentWrong)
    } else {
        match parse_value(s, ix) {
            Err(e) => Err(e),
            Ok((v, p)) => match expect_spec(s, p, ')') {
                Some(k) => Ok((PValue::Array(acc.push(v)), k)),
                None => match expect_spec(s, p, ',') {
                    Some(q) => if ix < q <= s.len() {
                        parse_array_rest(s, q, acc.push(v))
                    } else {
                        Err(Error::SomethingWentWrong)
                    },
                    None => Err(Error::ExpectedComma),
                },
            },
        }
    }
}

/// What parsing the text `s` gives.
pub open spec fn parse_spec(s: Seq<char>) -> Result<PValue, Error> {
    match parse_value(s, 0) {
        Ok((v, _)) => Ok(v),
        Err(e) => Err(e),
    }
}


pub proof fn lemma_key_lt_irreflexive(a: Seq<char>)
    ensures
        !key_lt(a, a),
    decreases a.len(),
{
    if a.len() > 0 {
        lemma_key_lt_irreflexive(a.drop_first());
    }
}

pub proof fn lemma_key_lt_total(a: Seq<char>, b: Seq<char>)
    requires
        a != b,
    ensures
        key_lt(a, b) || key_lt(b, a),
    decreases a.len(),
{
    if a.len() > 0 && b.len() > 0 && a[0] == b[0] {
        if a.drop_first() == b.drop_first() {
            assert(a.drop_first().len() == b.drop_first().len());
            assert forall|i: int| 0 <= i < a.len() implies a[i] == b[i] by {
                if i > 0 {
                    assert(a[i] == a.drop_first()[i - 1]);
                    assert(b[i] == b.drop_first()[i - 1]);
                }
            }
            assert(a =~= b);
        }
        lemma_key_lt_total(a.drop_first(), b.drop_first());
    } else if a.len() == 0 && b.len() == 0 {
        assert(a =~= b);
    }
}

pub proof fn lemma_key_lt_transitive(a: Seq<char>, b: Seq<char>, c: Seq<char>)
    requires
        key_lt(a, b),
        key_lt(b, c),
    ensures
        key_lt(a, c),
    decreases a.len(),
{
    if a.len() > 0 && a[0] == b[0] && b[0] == c[0] {
        lemma_key_lt_transitive(a.drop_first(), b.drop_first(), c.drop_first());
    }
}

pub proof fn lemma_key_lt_asymmetric(a: Seq<char>, b: Seq<char>)
    requires
        key_lt(a, b),
    ensures
        !key_lt(b, a),
        a != b,
{
    lemma_key_lt_irreflexive(a);
    if key_lt(b, a) {
        lemma_key_lt_transitive(a, b, a);
    }
}

/// Inserting skips the entries whose keys sort before the new key.
pub proof fn lemma_dict_insert_skip(
    d: Seq<(Seq<char>, PValue)>,
    i: int,
    key: Seq<char>,
    v: PValue,
)
    requires
        0 <= i <= d.len(),
        forall|k: int| 0 <= k < i ==> key_lt(#[trigger] d[k].0, key),
    ensures
        dict_insert(d, key, v) == d.subrange(0, i) + dict_insert(d.subrange(i, d.len() as int), key, v),
    decreases i,
{
    if i == 0 {
        assert(d.subrange(0, 0) + dict_insert(d.subrange(0, d.len() as int), key, v) =~= dict_insert(
            d,
            key,
            v,
        )) by {
            assert(d.subrange(0, d.len() as int) =~= d);
        }
    } else {
        lemma_key_lt_asymmetric(d[0].0, key);
        let t = d.drop_first();
        assert forall|k: int| 0 <= k < i - 1 implies key_lt(#[trigger] t[k].0, key) by {
            assert(t[k] == d[k + 1]);
        }
        lemma_dict_insert_skip(t, i - 1, key, v);
        assert(t.subrange(i - 1, t.len() as int) =~= d.subrange(i, d.len() as int));
        assert(seq![d[0]] + t.subrange(0, i - 1) =~= d.subrange(0, i));
        assert(dict_insert(d, key, v) == seq![d[0]] + dict_insert(t, key, v));
        assert(seq![d[0]] + (t.subrange(0, i - 1) + dict_insert(d.subrange(i, d.len() as int), key, v))
            =~= d.subrange(0, i) + dict_insert(d.subrange(i, d.len() as int), key, v));
    }
}

pub proof fn lemma_items_view_push(a: Seq<Plist>, x: Plist)
    ensures
        items_view(a.push(x)) == items_view(a).push(x@),
{
    assert(a.push(x).drop_last() =~= a);
}

/// Whether key `a` sorts before key `b`.
pub fn key_less(a: &String, b: &String) -> (r: bool)
    ensures
        r == key_lt(a@, b@),
{
    let x = chars_of(a.as_str());
    let y = chars_of(b.as_str());
    let mut i: usize = 0;
    proof {
        assert(x@.subrange(0, x@.len() as int) =~= x@);
        assert(y@.subrange(0, y@.len() as int) =~= y@);
    }
    while i < x.len() && i < y.len() && x[i] == y[i]
        invariant
            0 <= i <= x@.len(),
            i <= y@.len(),
            key_lt(x@.subrange(i as int, x@.len() as int), y@.subrange(i as int, y@.len() as int))
                == key_lt(a@, b@),
        decreases x@.len() - i,
    {
        proof {
            assert(x@.subrange(i as int, x@.len() as int).drop_first() =~= x@.subrange(
                i + 1,
                x@.len() as int,
            ));
            assert(y@.subrange(i as int, y@.len() as int).drop_first() =~= y@.subrange(
                i + 1,
                y@.len() as int,
            ));
        }
        i = i + 1;
    }
    if i == y.len() {
        false
    } else if i == x.len() {
        true
    } else {
        x[i] < y[i]
    }
}

/// Binds `key` to `value` in the sorted entries `d`.
pub fn insert_entry(d: &mut Vec<(String, Plist)>, key: String, value: Plist)
    ensures
        entries_view(final(d)@) == dict_insert(entries_view(old(d)@), key@, value@),
{
    let ghost e = entries_view(d@);
    proof { lemma_entries_view(d@); }
    let mut i: usize = 0;
    while i < d.len() && key_less(&d[i].0, &key)
        invariant
            0 <= i <= d@.len(),
            e.len() == d@.len(),
            forall|k: int| 0 <= k < i ==> key_lt(#[trigger] e[k].0, key@),
            forall|k: int| 0 <= k < d@.len() ==> #[trigger] e[k] == (d@[k].0@, d@[k].1@),
        decreases d@.len() - i,
    {
        i = i + 1;
    }
    proof { lemma_dict_insert_skip(e, i as int, key@, value@); }
    let ghost rest = e.subrange(i as int, e.len() as int);
    if i < d.len() && d[i].0 == key {
        proof { assert(rest[0] == e[i as int]); }
        d.remove(i);
        d.insert(i, (key, value));
        proof {
            lemma_entries_view(d@);
            assert(entries_view(d@) =~= e.subrange(0, i as int) + rest.update(0, (key@, value@)));
        }
    } else {
        proof {
            if i < d@.len() {
                assert(rest[0] == e[i as int]);
                lemma_key_lt_total(e[i as int].0, key@);
            }
        }
        d.insert(i, (key, value));
        proof {
            lemma_entries_view(d@);
            assert(entries_view(d@) =~= e.subrange(0, i as int) + (seq![(key@, value@)] + rest));
        }
    }
}


/// Whether the atom `s` may be read as a number (see `numeric_ok_spec`).
pub fn numeric_ok(s: &str) -> (r: bool)
    ensures
        r == numeric_ok_spec(s@),
{
    let c = chars_of(s);
    if c.len() == 0 {
        return false;
    }
    let mut all_hex = true;
    let mut all_dec = true;
    let mut i: usize = 0;
    while i < c.len()
        invariant
            c@ == s@,
            0 <= i <= c@.len(),
            all_hex == forall|k: int| 0 <= k < i ==> hex_upper_char(#[trigger] c@[k]),
            all_dec == forall|k: int| 0 <= k < i ==> digit_char(#[trigger] c@[k]),
        decreases c@.len() - i,
    {
        all_hex = all_hex && is_hex_upper(c[i]);
        all_dec = all_dec && '0' <= c[i] && c[i] <= '9';
        i = i + 1;
    }
    if all_hex && !all_dec {
        return false;
    }
    if c.len() > 1 && c[0] == '0' {
        return !all_dec;
    }
    true
}

pub open spec fn value_result(r: Result<(Plist, usize), Error>) -> Result<(PValue, int), Error> {
    match r {
        Ok((v, j)) => Ok((v@, j as int)),
        Err(e) => Err(e),
    }
}

pub open spec fn plist_result(r: Result<Plist, Error>) -> Result<PValue, Error> {
    match r {
        Ok(v) => Ok(v@),
        Err(e) => Err(e),
    }
}

impl Plist {
    /// Parses the text of a property list; text after the first value is not read.
    pub fn parse(s: &str) -> (r: Result<Plist, Error>)
        ensures
            plist_result(r) == parse_spec(s@),
    {
        let chars = chars_of(s);
        match Plist::parse_rec(chars.as_slice(), 0) {
            Ok((plist, _ix)) => Ok(plist),
            Err(e) => Err(e),
        }
    }

    /// Reads the value that starts at or after `ix`.
    fn parse_rec(s: &[char], ix: usize) -> (r: Result<(Plist, usize), Error>)
        requires
            ix <= s@.len(),
        ensures
            value_result(r) == parse_value(s@, ix as int),
            r matches Ok((_, j)) ==> ix < j <= s@.len(),
        decreases s@.len() - ix,
    {
        let (tok, j) = match Token::lex(s, ix) {
            Ok(x) => x,
            Err(e) => return Err(e),
        };
        match tok {
            Token::Atom(a) => Ok((Plist::parse_atom(a.as_str()), j)),
            Token::String(t) => Ok((Plist::String(t), j)),
            Token::OpenBrace => {
                let mut dict: Vec<(String, Plist)> = Vec::new();
                let mut at: usize = j;
                proof {
                    assert(entries_view(dict@) =~= Seq::<(Seq<char>, PValue)>::empty());
                }
                loop
                    invariant
                        ix < at <= s@.len(),
                        parse_dict_rest(s@, at as int, entries_view(dict@)) == parse_value(s@, ix as int),
                    decreases s@.len() - at,
                {
                    if let Some(k) = Token::expect(s, at, '}') {
                        return Ok((Plist::Dictionary(dict), k));
                    }
                    let (key, next) = match Token::lex(s, at) {
                        Ok(x) => x,
                        Err(e) => return Err(e),
                    };
                    let key_str = match key.try_into_string() {
                        Ok(k) => k,
                        Err(e) => return Err(e),
                    };
                    let m = match Token::expect(s, next, '=') {
                        Some(m) => m,
                        None => return Err(Error::ExpectedEquals),
                    };
                    let (val, p) = match Plist::parse_rec(s, m) {
                        Ok(x) => x,
                        Err(e) => return Err(e),
                    };
                    insert_entry(&mut dict, key_str, val);
                    match Token::expect(s, p, ';') {
                        Some(q) => {
                            at = q;
                        },
                        None => return Err(Error::ExpectedSemicolon),
                    }
                }
            },
            Token::OpenParen => {
                let mut list: Vec<Plist> = Vec::new();
                proof {
                    assert(items_view(list@) =~= Seq::<PValue>::empty());
                }
                if let Some(k) = Token::expect(s, j, ')') {
                    return Ok((Plist::Array(list), k));
                }
                let mut at: usize = j;
                loop
                    invariant
                        ix < at <= s@.len(),
                        parse_array_rest(s@, at as int, items_view(list@)) == parse_value(s@, ix as int),
                    decreases s@.len() - at,
                {
                    let (val, next) = match Plist::parse_rec(s, at) {
                        Ok(x) => x,
                        Err(e) => return Err(e),
                    };
                    proof { lemma_items_view_push(list@, val); }
                    list.push(val);
                    if let Some(k) = Token::expect(s, next, ')') {
                        return Ok((Plist::Array(list), k));
                    }
                    match Token::expect(s, next, ',') {
                        Some(q) => {
                            at = q;
                        },
                        None => return Err(Error::ExpectedComma),
                    }
                }
            },
            _ => Err(Error::SomethingWentWrong),
        }
    }

    /// The value of an atom: a number where the numeric-ambiguity rule lets
    /// it be one and it reads as one, else a string.
    fn parse_atom(s: &str) -> (r: Plist)
        ensures
            r@ == atom_value(s@),
    {
        if numeric_ok(s) {
            if let Some(num) = parse_i64(s) {
                return Plist::Integer(num);
            }
            let c = chars_of(s);
            if is_float_literal(c.as_slice()) {
                return Plist::Float(string_from_chars(c.as_slice()));
            }
        }
        Plist::String(string_from_chars(chars_of(s).as_slice()))
    }
}


/// The characters of `t`, with `\\` before each `"` and `\\`.
pub open spec fn escape_chars(t: Seq<char>) -> Seq<char>
    decreases t.len(),
{
    if t.len() == 0 {
        Seq::empty()
    } else {
        escape_chars(t.drop_last()) + if t.last() == '"' || t.last() == '\\' {
            seq!['\\', t.last()]
        } else {
            seq![t.last()]
        }
    }
}

pub open spec fn quoted(t: Seq<char>) -> Seq<char> {
    seq!['"'] + t + seq!['"']
}

/// How a string is written: bare when it is made of safe characters only and
/// does not read as a number, else quoted with escapes.
pub open spec fn escaped_text(t: Seq<char>) -> Seq<char> {
    if t.len() > 0 && forall|i: int| 0 <= i < t.len() ==> alnum_strict_char(#[trigger] t[i]) {
        if float_literal(t) {
            quoted(t)
        } else {
            t
        }
    } else {
        quoted(escape_chars(t))
    }
}

/// `o` with index `j` of `d` in its place in the order of keys, or in place
/// of the index with the same key.
pub open spec fn order_insert(d: Seq<(Seq<char>, PValue)>, o: Seq<int>, j: int) -> Seq<int>
    decreases o.len(),
{
    if o.len() == 0 {
        seq![j]
    } else if d[o[0]].0 == d[j].0 {
        o.update(0, j)
    } else if key_lt(d[j].0, d[o[0]].0) {
        seq![j] + o
    } else {
        seq![o[0]] + order_insert(d, o.drop_first(), j)
    }
}

/// The order in which the first `n` entries of `d` are written: for each key,
/// the index of its last entry, by increasing key.
pub open spec fn write_order(d: Seq<(Seq<char>, PValue)>, n: int) -> Seq<int>
    decreases n,
{
    if n <= 0 {
        Seq::empty()
    } else {
        order_insert(d, write_order(d, n - 1), n - 1)
    }
}

/// The canonical text of a value.
pub open spec fn value_text(v: PValue) -> Seq<char>
    decreases v, 0nat,
{
    match v {
        PValue::Array(a) => seq!['('] + items_text(a) + seq!['\n', ')'],
        PValue::Dict(d) => seq!['{', '\n'] + entries_text_at(d, write_order(d, d.len() as int)) + seq!['}'],
        PValue::Str(t) => escaped_text(t),
        PValue::Int(i) => int_to_text(i),
        PValue::Float(t) => t,
    }
}

/// The elements of an array, one per line, separated by commas.
pub open spec fn items_text(a: Seq<PValue>) -> Seq<char>
    decreases a, 0nat,
{
    if a.len() == 0 {
        Seq::empty()
    } else {
        items_text(a.drop_last()) + (if a.len() == 1 {
            seq!['\n']
        } else {
            seq![',', '\n']
        }) + value_text(a.last())
    }
}

/// The entries of `d` at the indices `o`, each as `key = value;` on a line of its own.
pub open spec fn entries_text_at(d: Seq<(Seq<char>, PValue)>, o: Seq<int>) -> Seq<char>
    decreases d, o.len(),
{
    if o.len() == 0 {
        Seq::empty()
    } else {
        let j = o.last();
        entries_text_at(d, o.drop_last()) + if 0 <= j < d.len() {
            escaped_text(d[j].0) + seq![' ', '=', ' '] + value_text(d[j].1) + seq![';', '\n']
        } else {
            Seq::empty()
        }
    }
}

/// The entries of a dictionary in the order held, each as `key = value;`.
pub open spec fn entries_text(d: Seq<(Seq<char>, PValue)>) -> Seq<char>
    decreases d.len(),
{
    if d.len() == 0 {
        Seq::empty()
    } else {
        entries_text(d.drop_last()) + escaped_text(d.last().0) + seq![' ', '=', ' '] + value_text(
            d.last().1,
        ) + seq![';', '\n']
    }
}

pub open spec fn indices_view(o: Seq<usize>) -> Seq<int> {
    Seq::new(o.len(), |i: int| o[i] as int)
}

/// Inserting skips the indices whose keys sort before the new one.
pub proof fn lemma_order_insert_skip(d: Seq<(Seq<char>, PValue)>, o: Seq<int>, i: int, j: int)
    requires
        0 <= i <= o.len(),
        forall|k: int| 0 <= k < i ==> key_lt(#[trigger] d[o[k]].0, d[j].0),
    ensures
        order_insert(d, o, j) == o.subrange(0, i) + order_insert(d, o.subrange(i, o.len() as int), j),
    decreases i,
{
    if i == 0 {
        assert(o.subrange(0, o.len() as int) =~= o);
        assert(o.subrange(0, 0) + order_insert(d, o, j) =~= order_insert(d, o, j));
    } else {
        lemma_key_lt_asymmetric(d[o[0]].0, d[j].0);
        let t = o.drop_first();
        assert forall|k: int| 0 <= k < i - 1 implies key_lt(#[trigger] d[t[k]].0, d[j].0) by {
            assert(t[k] == o[k + 1]);
        }
        lemma_order_insert_skip(d, t, i - 1, j);
        assert(t.subrange(i - 1, t.len() as int) =~= o.subrange(i, o.len() as int));
        assert(seq![o[0]] + (t.subrange(0, i - 1) + order_insert(d, o.subrange(i, o.len() as int), j))
            =~= o.subrange(0, i) + order_insert(d, o.subrange(i, o.len() as int), j));
    }
}

/// The keys at the indices `o` strictly increase.
pub open spec fn order_sorted(d: Seq<(Seq<char>, PValue)>, o: Seq<int>) -> bool {
    forall|a: int, b: int| 0 <= a < b < o.len() ==> key_lt(#[trigger] d[o[a]].0, #[trigger] d[o[b]].0)
}

pub proof fn lemma_order_insert_sorted(d: Seq<(Seq<char>, PValue)>, o: Seq<int>, j: int)
    requires
        order_sorted(d, o),
    ensures
        order_sorted(d, order_insert(d, o, j)),
        forall|i: int| 0 <= i < order_insert(d, o, j).len() ==> #[trigger] order_insert(d, o, j)[i] == j
            || exists|k: int| 0 <= k < o.len() && order_insert(d, o, j)[i] == o[k],
    decreases o.len(),
{
    let r = order_insert(d, o, j);
    if o.len() == 0 {
        assert(r =~= seq![j]);
    } else if d[o[0]].0 == d[j].0 {
        assert forall|a: int, b: int| 0 <= a < b < r.len() implies key_lt(#[trigger] d[r[a]].0, #[trigger] d[r[b]].0) by {
            assert(d[r[a]].0 == d[o[a]].0 && d[r[b]].0 == d[o[b]].0);
        }
        assert forall|i: int| 0 <= i < r.len() implies #[trigger] r[i] == j || exists|k: int| 0 <= k < o.len() && r[i] == o[k] by {
            if i > 0 {
                assert(r[i] == o[i]);
            }
        }
    } else if key_lt(d[j].0, d[o[0]].0) {
        assert forall|a: int, b: int| 0 <= a < b < r.len() implies key_lt(#[trigger] d[r[a]].0, #[trigger] d[r[b]].0) by {
            assert(r[b] == o[b - 1]);
            if a == 0 {
                if b > 1 {
                    lemma_key_lt_transitive(d[j].0, d[o[0]].0, d[o[b - 1]].0);
                }
            } else {
                assert(r[a] == o[a - 1]);
            }
        }
        assert forall|i: int| 0 <= i < r.len() implies #[trigger] r[i] == j || exists|k: int| 0 <= k < o.len() && r[i] == o[k] by {
            if i > 0 {
                assert(r[i] == o[i - 1]);
            }
        }
    } else {
        let t = o.drop_first();
        assert(order_sorted(d, t)) by {
            assert forall|a: int, b: int| 0 <= a < b < t.len() implies key_lt(#[trigger] d[t[a]].0, #[trigger] d[t[b]].0) by {
                assert(t[a] == o[a + 1] && t[b] == o[b + 1]);
            }
        }
        lemma_order_insert_sorted(d, t, j);
        let r2 = order_insert(d, t, j);
        assert(r == seq![o[0]] + r2);
        lemma_key_lt_total(d[o[0]].0, d[j].0);
        assert forall|i: int| 0 <= i < r2.len() implies key_lt(d[o[0]].0, #[trigger] d[r2[i]].0) by {
            if r2[i] != j {
                let k = choose|k: int| 0 <= k < t.len() && r2[i] == t[k];
                assert(t[k] == o[k + 1]);
            }
        }
        assert forall|a: int, b: int| 0 <= a < b < r.len() implies key_lt(#[trigger] d[r[a]].0, #[trigger] d[r[b]].0) by {
            assert(r[b] == r2[b - 1]);
            if a > 0 {
                assert(r[a] == r2[a - 1]);
            }
        }
        assert forall|i: int| 0 <= i < r.len() implies #[trigger] r[i] == j || exists|k: int| 0 <= k < o.len() && r[i] == o[k] by {
            if i > 0 {
                assert(r[i] == r2[i - 1]);
                if r2[i - 1] != j {
                    let k = choose|k: int| 0 <= k < t.len() && r2[i - 1] == t[k];
                    assert(t[k] == o[k + 1]);
                }
            }
        }
    }
}

/// The keys of a dictionary are written in strictly increasing order, and
/// each written entry is one of the dictionary's entries.
pub proof fn law_written_keys_ascending(d: Seq<(Seq<char>, PValue)>, n: int)
    requires
        0 <= n <= d.len(),
    ensures
        order_sorted(d, write_order(d, n)),
        forall|i: int| 0 <= i < write_order(d, n).len() ==> 0 <= #[trigger] write_order(d, n)[i] < n,
    decreases n,
{
    if n > 0 {
        law_written_keys_ascending(d, n - 1);
        let o = write_order(d, n - 1);
        lemma_order_insert_sorted(d, o, n - 1);
        let r = write_order(d, n);
        assert forall|i: int| 0 <= i < r.len() implies 0 <= #[trigger] r[i] < n by {
            if r[i] != n - 1 {
                let k = choose|k: int| 0 <= k < o.len() && r[i] == o[k];
            }
        }
    }
}

/// Appends `s` to `buf` as the text format writes a string.
pub fn escape_string(buf: &mut String, s: &str)
    ensures
        final(buf)@ == old(buf)@ + escaped_text(s@),
{
    let c = chars_of(s);
    let mut safe = c.len() > 0;
    let mut i: usize = 0;
    while i < c.len()
        invariant
            c@ == s@,
            0 <= i <= c@.len(),
            safe == (c@.len() > 0 && forall|k: int| 0 <= k < i ==> alnum_strict_char(#[trigger] c@[k])),
        decreases c@.len() - i,
    {
        safe = safe && is_alnum_strict(c[i]);
        i = i + 1;
    }
    if safe {
        // Strings can drop quotation marks if they're alphanumeric, but not if
        // they look like numbers.
        if is_float_literal(c.as_slice()) {
            push_char(buf, '"');
            push_str(buf, s);
            push_char(buf, '"');
        } else {
            push_str(buf, s);
        }
    } else {
        let ghost start = buf@;
        push_char(buf, '"');
        let mut ix: usize = 0;
        proof {
            assert(escape_chars(c@.subrange(0, 0)) == Seq::<char>::empty());
        }
        while ix < c.len()
            invariant
                c@ == s@,
                0 <= ix <= c@.len(),
                buf@ == start + seq!['"'] + escape_chars(c@.subrange(0, ix as int)),
            decreases c@.len() - ix,
        {
            let ch = c[ix];
            if ch == '"' || ch == '\\' {
                push_char(buf, '\\');
            }
            push_char(buf, ch);
            proof {
                assert(c@.subrange(0, ix + 1).drop_last() =~= c@.subrange(0, ix as int));
            }
            ix = ix + 1;
        }
        push_char(buf, '"');
        proof {
            assert(c@.subrange(0, c@.len() as int) =~= c@);
        }
    }
}

/// The order in which the entries of `d` are written (see `write_order`).
fn entry_order(d: &Vec<(String, Plist)>) -> (o: Vec<usize>)
    ensures
        indices_view(o@) == write_order(entries_view(d@), d@.len() as int),
        forall|i: int| 0 <= i < o@.len() ==> #[trigger] o@[i] < d@.len(),
{
    proof { lemma_entries_view(d@); }
    let ghost e = entries_view(d@);
    let mut o: Vec<usize> = Vec::new();
    let mut j: usize = 0;
    proof {
        assert(indices_view(o@) =~= Seq::<int>::empty());
    }
    while j < d.len()
        invariant
            0 <= j <= d@.len(),
            e == entries_view(d@),
            e.len() == d@.len(),
            forall|k: int| 0 <= k < d@.len() ==> #[trigger] e[k] == (d@[k].0@, d@[k].1@),
            indices_view(o@) == write_order(e, j as int),
            forall|i: int| 0 <= i < o@.len() ==> #[trigger] o@[i] < j,
        decreases d@.len() - j,
    {
        let ghost oi = indices_view(o@);
        let mut i: usize = 0;
        while i < o.len() && key_less(&d[o[i]].0, &d[j].0)
            invariant
                0 <= j < d@.len(),
                e == entries_view(d@),
                e.len() == d@.len(),
                forall|k: int| 0 <= k < d@.len() ==> #[trigger] e[k] == (d@[k].0@, d@[k].1@),
                oi == indices_view(o@),
                forall|k: int| 0 <= k < o@.len() ==> #[trigger] o@[k] < j,
                0 <= i <= o@.len(),
                forall|k: int| 0 <= k < i ==> key_lt(#[trigger] e[oi[k]].0, e[j as int].0),
            decreases o@.len() - i,
        {
            proof {
                assert(e[oi[i as int]] == (d@[o@[i as int] as int].0@, d@[o@[i as int] as int].1@));
            }
            i = i + 1;
        }
        proof {
            lemma_order_insert_skip(e, oi, i as int, j as int);
            assert(write_order(e, j + 1) == order_insert(e, oi, j as int));
        }
        let ghost rest = oi.subrange(i as int, oi.len() as int);
        if i < o.len() && d[o[i]].0 == d[j].0 {
            proof {
                assert(rest[0] == oi[i as int]);
                assert(e[oi[i as int]].0 == e[j as int].0);
            }
            o.remove(i);
            o.insert(i, j);
            proof {
                assert(indices_view(o@) =~= oi.subrange(0, i as int) + rest.update(0, j as int));
            }
        } else {
            proof {
                if i < o@.len() {
                    assert(rest[0] == oi[i as int]);
                    assert(e[oi[i as int]] == (d@[o@[i as int] as int].0@, d@[o@[i as int] as int].1@));
                    lemma_key_lt_total(e[oi[i as int]].0, e[j as int].0);
                } else {
                    assert(rest =~= Seq::<int>::empty());
                }
            }
            o.insert(i, j);
            proof {
                assert(indices_view(o@) =~= oi.subrange(0, i as int) + (seq![j as int] + rest));
            }
        }
        j = j + 1;
    }
    o
}

broadcast use vstd::std_specs::vec::axiom_vec_index_decreases;

impl Plist {
    /// The canonical text of this value.
    pub fn to_text(&self) -> (r: String)
        ensures
            r@ == value_text(self@),
    {
        let mut s = String::new();
        self.push_to_string(&mut s);
        s
    }

    /// Appends the canonical text of this value to `s`.
    pub fn push_to_string(&self, s: &mut String)
        ensures
            final(s)@ == old(s)@ + value_text(self@),
        decreases self,
    {
        let ghost start = s@;
        match self {
            Plist::Array(a) => {
                proof { lemma_items_view(a@); }
                let ghost items = items_view(a@);
                push_char(s, '(');
                let mut i: usize = 0;
                proof {
                    assert(items.subrange(0, 0) =~= Seq::<PValue>::empty());
                }
                while i < a.len()
                    invariant
                        0 <= i <= a@.len(),
                        *self == Plist::Array(*a),
                        items == items_view(a@),
                        items.len() == a@.len(),
                        forall|k: int| 0 <= k < a@.len() ==> #[trigger] items[k] == a@[k]@,
                        s@ == start + seq!['('] + items_text(items.subrange(0, i as int)),
                    decreases a@.len() - i,
                {
                    if i == 0 {
                        push_char(s, '\n');
                    } else {
                        push_char(s, ',');
                        push_char(s, '\n');
                    }
                    proof {
                        assert(decreases_to!(*self => self->Array_0));
                        assert(decreases_to!(self->Array_0 => self->Array_0[i as int]));
                    }
                    a[i].push_to_string(s);
                    proof {
                        assert(items.subrange(0, i + 1).drop_last() =~= items.subrange(0, i as int));
                    }
                    i = i + 1;
                }
                push_char(s, '\n');
                push_char(s, ')');
                proof {
                    assert(items.subrange(0, a@.len() as int) =~= items);
                }
            },
            Plist::Dictionary(d) => {
                proof { lemma_entries_view(d@); }
                let ghost entries = entries_view(d@);
                let order = entry_order(d);
                let ghost oi = indices_view(order@);
                push_char(s, '{');
                push_char(s, '\n');
                let mut k: usize = 0;
                proof {
                    assert(oi.subrange(0, 0) =~= Seq::<int>::empty());
                }
                while k < order.len()
                    invariant
                        *self == Plist::Dictionary(*d),
                        0 <= k <= order@.len(),
                        oi == indices_view(order@),
                        oi.len() == order@.len(),
                        forall|i: int| 0 <= i < order@.len() ==> #[trigger] order@[i] < d@.len(),
                        entries == entries_view(d@),
                        entries.len() == d@.len(),
                        forall|i: int| 0 <= i < d@.len() ==> #[trigger] entries[i] == (d@[i].0@, d@[i].1@),
                        s@ == start + seq!['{', '\n'] + entries_text_at(entries, oi.subrange(0, k as int)),
                    decreases order@.len() - k,
                {
                    let j = order[k];
                    escape_string(s, d[j].0.as_str());
                    push_char(s, ' ');
                    push_char(s, '=');
                    push_char(s, ' ');
                    proof {
                        assert(decreases_to!(*self => self->Dictionary_0));
                        assert(decreases_to!(self->Dictionary_0 => self->Dictionary_0[j as int]));
                        assert(decreases_to!(self->Dictionary_0[j as int] => self->Dictionary_0[j as int].1));
                    }
                    d[j].1.push_to_string(s);
                    push_char(s, ';');
                    push_char(s, '\n');
                    proof {
                        assert(oi.subrange(0, k + 1).drop_last() =~= oi.subrange(0, k as int));
                        assert(oi.subrange(0, k + 1).last() == j as int);
                        assert(entries[j as int] == (d@[j as int].0@, d@[j as int].1@));
                    }
                    k = k + 1;
                }
                push_char(s, '}');
                proof {
                    assert(oi.subrange(0, order@.len() as int) =~= oi);
                }
            },
            Plist::String(t) => escape_string(s, t.as_str()),
            Plist::Integer(i) => {
                let t = int_text(*i);
                push_str(s, t.as_str());
            },
            Plist::Float(t) => push_str(s, t.as_str()),
        }
    }
}


/// The dictionary that binding each pair of `pairs` in turn gives, starting
/// from an empty one.
pub open spec fn dict_from_pairs(pairs: Seq<(Seq<char>, PValue)>) -> Seq<(Seq<char>, PValue)>
    decreases pairs.len(),
{
    if pairs.len() == 0 {
        Seq::empty()
    } else {
        dict_insert(dict_from_pairs(pairs.drop_last()), pairs.last().0, pairs.last().1)
    }
}

impl Plist {
    /// A dictionary of the given pairs; a later pair with the same key wins.
    pub fn from_pairs(pairs: Vec<(String, Plist)>) -> (r: Plist)
        ensures
            r@ == PValue::Dict(dict_from_pairs(entries_view(pairs@))),
    {
        let ghost whole = pairs@;
        proof { lemma_entries_view(whole); }
        let mut pairs = pairs;
        let mut d: Vec<(String, Plist)> = Vec::new();
        let n = pairs.len();
        let mut i: usize = 0;
        proof {
            assert(entries_view(whole).subrange(0, 0) =~= Seq::<(Seq<char>, PValue)>::empty());
            assert(entries_view(d@) =~= Seq::<(Seq<char>, PValue)>::empty());
        }
        while i < n
            invariant
                n == whole.len(),
                0 <= i <= n,
                entries_view(whole).len() == n,
                forall|k: int| 0 <= k < n ==> #[trigger] entries_view(whole)[k] == (whole[k].0@, whole[k].1@),
                pairs@ == whole.subrange(i as int, n as int),
                entries_view(d@) == dict_from_pairs(entries_view(whole).subrange(0, i as int)),
            decreases n - i,
        {
            let (k, v) = pairs.remove(0);
            proof {
                assert((k, v) == whole[i as int]);
                assert(pairs@ =~= whole.subrange(i + 1, n as int));
                assert(entries_view(whole).subrange(0, i + 1).drop_last() =~= entries_view(whole).subrange(
                    0,
                    i as int,
                ));
            }
            insert_entry(&mut d, k, v);
            i = i + 1;
        }
        proof {
            assert(entries_view(whole).subrange(0, n as int) =~= entries_view(whole));
        }
        Plist::Dictionary(d)
    }

    pub fn as_dict(&self) -> (r: Option<&Vec<(String, Plist)>>)
        ensures
            match self {
                Plist::Dictionary(d) => r == Some(d),
                _ => r is None,
            },
    {
        match self {
            Plist::Dictionary(d) => Some(d),
            _ => None,
        }
    }

    /// The value bound to `key`, when this is a dictionary.
    pub fn get(&self, key: &str) -> (r: Option<&Plist>)
        ensures
            match self@ {
                PValue::Dict(d) => match dict_lookup(d, key@) {
                    Some(v) => r matches Some(p) && p@ == v,
                    None => r is None,
                },
                _ => r is None,
            },
    {
        match self {
            Plist::Dictionary(d) => {
                proof { lemma_entries_view(d@); }
                let ghost e = entries_view(d@);
                let mut i: usize = 0;
                proof { assert(e.subrange(0, e.len() as int) =~= e); }
                while i < d.len()
                    invariant
                        0 <= i <= d@.len(),
                        self@ == PValue::Dict(e),
                        e == entries_view(d@),
                        e.len() == d@.len(),
                        forall|k: int| 0 <= k < d@.len() ==> #[trigger] e[k] == (d@[k].0@, d@[k].1@),
                        dict_lookup(e, key@) == dict_lookup(e.subrange(i as int, e.len() as int), key@),
                    decreases d@.len() - i,
                {
                    let ghost t = e.subrange(i as int, e.len() as int);
                    proof { assert(t[0] == e[i as int]); }
                    if crate::text::text_eq(d[i].0.as_str(), key) {
                        return Some(&d[i].1);
                    }
                    proof { assert(t.drop_first() =~= e.subrange(i + 1, e.len() as int)); }
                    i = i + 1;
                }
                proof { assert(e.subrange(i as int, e.len() as int).len() == 0); }
                None
            },
            _ => None,
        }
    }

    pub fn as_array(&self) -> (r: Option<&Vec<Plist>>)
        ensures
            match self {
                Plist::Array(a) => r == Some(a),
                _ => r is None,
            },
    {
        match self {
            Plist::Array(a) => Some(a),
            _ => None,
        }
    }

    pub fn as_str(&self) -> (r: Option<&str>)
        ensures
            match self@ {
                PValue::Str(s) => r matches Some(t) && t@ == s,
                _ => r is None,
            },
    {
        match self {
            Plist::String(s) => Some(s.as_str()),
            _ => None,
        }
    }

    pub fn as_i64(&self) -> (r: Option<i64>)
        ensures
            match self@ {
                PValue::Int(n) => r == Some(n),
                _ => r is None,
            },
    {
        match self {
            Plist::Integer(n) => Some(*n),
            _ => None,
        }
    }

    pub fn into_string(self) -> (r: String)
        requires
            self is String,
        ensures
            self@ == PValue::Str(r@),
    {
        match self {
            Plist::String(s) => s,
            _ => String::new(),
        }
    }

    pub fn into_vec(self) -> (r: Vec<Plist>)
        requires
            self is Array,
        ensures
            self@ == PValue::Array(items_view(r@)),
    {
        match self {
            Plist::Array(a) => a,
            _ => Vec::new(),
        }
    }

    /// The entries of a dictionary, sorted by key.
    pub fn into_dictionary(self) -> (r: Vec<(String, Plist)>)
        requires
            self is Dictionary,
        ensures
            self@ == PValue::Dict(entries_view(r@)),
    {
        match self {
            Plist::Dictionary(d) => d,
            _ => Vec::new(),
        }
    }
}

impl Plist {
    /// A copy of this value.
    pub fn deep_clone(&self) -> (r: Plist)
        ensures
            r@ == self@,
        decreases self,
    {
        match self {
            Plist::Dictionary(d) => {
                proof { lemma_entries_view(d@); }
                let mut out: Vec<(String, Plist)> = Vec::new();
                let mut i: usize = 0;
                proof {
                    assert(entries_view(out@) =~= entries_view(d@).subrange(0, 0));
                }
                while i < d.len()
                    invariant
                        *self == Plist::Dictionary(*d),
                        0 <= i <= d@.len(),
                        entries_view(d@).len() == d@.len(),
                        forall|k: int| 0 <= k < d@.len() ==> #[trigger] entries_view(d@)[k] == (d@[k].0@, d@[k].1@),
                        entries_view(out@) == entries_view(d@).subrange(0, i as int),
                    decreases d@.len() - i,
                {
                    proof {
                        assert(decreases_to!(*self => self->Dictionary_0));
                        assert(decreases_to!(self->Dictionary_0 => self->Dictionary_0[i as int]));
                        assert(decreases_to!(self->Dictionary_0[i as int] => self->Dictionary_0[i as int].1));
                    }
                    let v = d[i].1.deep_clone();
                    let k = d[i].0.clone();
                    let ghost before = out@;
                    out.push((k, v));
                    proof {
                        assert(out@.drop_last() =~= before);
                        assert(entries_view(out@) =~= entries_view(d@).subrange(0, i + 1));
                    }
                    i = i + 1;
                }
                proof {
                    assert(entries_view(d@).subrange(0, d@.len() as int) =~= entries_view(d@));
                }
                Plist::Dictionary(out)
            },
            Plist::Array(a) => {
                proof { lemma_items_view(a@); }
                let mut out: Vec<Plist> = Vec::new();
                let mut i: usize = 0;
                proof {
                    assert(items_view(out@) =~= items_view(a@).subrange(0, 0));
                }
                while i < a.len()
                    invariant
                        *self == Plist::Array(*a),
                        0 <= i <= a@.len(),
                        items_view(a@).len() == a@.len(),
                        forall|k: int| 0 <= k < a@.len() ==> #[trigger] items_view(a@)[k] == a@[k]@,
                        items_view(out@) == items_view(a@).subrange(0, i as int),
                    decreases a@.len() - i,
                {
                    proof {
                        assert(decreases_to!(*self => self->Array_0));
                        assert(decreases_to!(self->Array_0 => self->Array_0[i as int]));
                    }
                    let v = a[i].deep_clone();
                    proof { lemma_items_view_push(out@, v); }
                    out.push(v);
                    proof {
                        assert(items_view(out@) =~= items_view(a@).subrange(0, i + 1));
                    }
                    i = i + 1;
                }
                proof {
                    assert(items_view(a@).subrange(0, a@.len() as int) =~= items_view(a@));
                }
                Plist::Array(out)
            },
            Plist::String(t) => Plist::String(t.clone()),
            Plist::Integer(n) => Plist::Integer(*n),
            Plist::Float(t) => Plist::Float(t.clone()),
        }
    }
}

impl Clone for Plist {
    fn clone(&self) -> (r: Plist)
        ensures
            r@ == self@,
    {
        self.deep_clone()
    }
}

} // verus!
