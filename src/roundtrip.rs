//! The canonical text of a parsed value parses back to the same value.

use vstd::prelude::*;
use crate::lexer::{
    lemma_skip_ws_bounds, lemma_atom_end_bounds, lemma_lex_quoted_bounds,
    Error, TokenView, lex_spec, lex_quoted, skip_ws_spec, expect_spec, token_string, atom_end,
    alnum_char, alnum_strict_char, ws_char, digit_char, hex_upper_char,
};
use crate::plist::{
    PValue, atom_value, numeric_ok_spec, escaped_text, escape_chars, quoted, value_text, items_text,
    entries_text, keys_sorted, key_lt, dict_insert, parse_value, parse_dict_rest, parse_array_rest,
    parse_spec, write_order, entries_text_at, lemma_order_insert_skip, lemma_dict_insert_skip, lemma_key_lt_total,
    lemma_key_lt_transitive,
};
use crate::text::{
    int_from_text, int_to_text, decimal_text, digits_value, all_digits, digit_of, float_literal,
    digit_run_end, signed_decimal,
};

verus! {

/// `t` stands in `s` from index `ix` on.
pub open spec fn occurs_at(s: Seq<char>, ix: int, t: Seq<char>) -> bool {
    0 <= ix && ix + t.len() <= s.len() && forall|k: int| 0 <= k < t.len() ==> s[ix + k] == #[trigger] t[k]
}

/// A token that ends at `j` is not continued by the character there.
pub open spec fn ends_token(s: Seq<char>, j: int) -> bool {
    j == s.len() || (0 <= j < s.len() && !alnum_char(s[j]))
}

pub proof fn lemma_occurs_concat(s: Seq<char>, ix: int, a: Seq<char>, b: Seq<char>)
    requires
        occurs_at(s, ix, a + b),
    ensures
        occurs_at(s, ix, a),
        occurs_at(s, ix + a.len(), b),
{
    assert forall|k: int| 0 <= k < a.len() implies s[ix + k] == #[trigger] a[k] by {
        assert((a + b)[k] == a[k]);
    }
    assert forall|k: int| 0 <= k < b.len() implies s[ix + a.len() + k] == #[trigger] b[k] by {
        assert((a + b)[a.len() + k] == b[k]);
    }
}

pub proof fn lemma_digit_of(d: int)
    requires
        0 <= d <= 9,
    ensures
        digit_char(digit_of(d)),
        digit_of(d) as int - '0' as int == d,
        d != 0 ==> digit_of(d) != '0',
{
}

pub proof fn lemma_decimal_text(n: nat)
    ensures
        all_digits(decimal_text(n)),
        digits_value(decimal_text(n)) == n,
        decimal_text(n).len() >= 1,
        n >= 10 ==> decimal_text(n).len() > 1,
        decimal_text(n).len() > 1 ==> decimal_text(n)[0] != '0',
    decreases n,
{
    let t = decimal_text(n);
    if n < 10 {
        lemma_digit_of(n as int);
        assert(t.drop_last() =~= Seq::<char>::empty());
        assert(digits_value(t) == digits_value(t.drop_last()) * 10 + (t.last() as int - '0' as int));
    } else {
        lemma_decimal_text(n / 10);
        lemma_digit_of((n % 10) as int);
        let p = decimal_text(n / 10);
        assert(t == p.push(digit_of((n % 10) as int)));
        assert(t.drop_last() =~= p);
        assert(t.last() == digit_of((n % 10) as int));
        assert(t[0] == p[0]);
        assert(n == (n / 10) * 10 + n % 10) by (nonlinear_arith);
        assert(digits_value(t) == digits_value(p) * 10 + (n % 10));
        if n / 10 < 10 {
            lemma_digit_of((n / 10) as int);
        }
        assert forall|i: int| 0 <= i < t.len() implies digit_char(#[trigger] t[i]) by {
            if i < p.len() {
                assert(t[i] == p[i]);
            }
        }
    }
}

/// The text of an integer reads back as that integer.
pub proof fn lemma_int_text(i: i64)
    ensures
        int_to_text(i).len() > 0,
        forall|k: int| 0 <= k < int_to_text(i).len() ==> alnum_char(#[trigger] int_to_text(i)[k]),
        numeric_ok_spec(int_to_text(i)),
        int_from_text(int_to_text(i)) == Some(i),
        atom_value(int_to_text(i)) == PValue::Int(i),
{
    let t = int_to_text(i);
    if i < 0 {
        let n = (-(i as int)) as nat;
        lemma_decimal_text(n);
        let d = decimal_text(n);
        assert(t == seq!['-'] + d);
        assert(t.drop_first() =~= d);
        assert forall|k: int| 0 <= k < t.len() implies alnum_char(#[trigger] t[k]) by {
            if k > 0 {
                assert(t[k] == d[k - 1]);
            }
        }
        assert(!hex_upper_char(t[0]));
        assert(signed_decimal(t) == Some(-digits_value(d)));
    } else {
        lemma_decimal_text(i as nat);
        assert(t[0] != '-' && t[0] != '+') by {
            assert(digit_char(t[0]));
        }
        assert(forall|k: int| 0 <= k < t.len() ==> digit_char(#[trigger] t[k]));
    }
}

/// A signed run of digits is a floating-point literal too.
pub proof fn lemma_int_text_is_float(t: Seq<char>)
    requires
        int_from_text(t) is Some,
    ensures
        float_literal(t),
{
    let u = if t.len() > 0 && (t[0] == '+' || t[0] == '-') {
        t.drop_first()
    } else {
        t
    };
    assert(all_digits(u));
    lemma_digit_run_all(u, 0);
}

pub proof fn lemma_digit_run_all(u: Seq<char>, i: int)
    requires
        0 <= i <= u.len(),
        forall|k: int| 0 <= k < u.len() ==> digit_char(#[trigger] u[k]),
    ensures
        digit_run_end(u, i) == u.len(),
    decreases u.len() - i,
{
    if i < u.len() {
        lemma_digit_run_all(u, i + 1);
    }
}

pub proof fn lemma_atom_end_run(s: Seq<char>, i: int, e: int)
    requires
        0 <= i <= e <= s.len(),
        forall|k: int| i <= k < e ==> alnum_char(#[trigger] s[k]),
        ends_token(s, e),
    ensures
        atom_end(s, i) == e,
    decreases e - i,
{
    if i < e {
        lemma_atom_end_run(s, i + 1, e);
    }
}

/// An atom written at `start` (after whitespace from `ix`) lexes back as itself.
pub proof fn lemma_lex_atom(s: Seq<char>, ix: int, start: int, t: Seq<char>)
    requires
        0 <= ix <= start,
        skip_ws_spec(s, ix) == start,
        occurs_at(s, start, t),
        t.len() > 0,
        forall|k: int| 0 <= k < t.len() ==> alnum_char(#[trigger] t[k]),
        ends_token(s, start + t.len()),
    ensures
        lex_spec(s, ix) == Ok::<(TokenView, int), Error>((TokenView::Atom(t), start + t.len())),
{
    assert(s[start] == t[0]);
    assert(alnum_char(t[0]));
    assert forall|k: int| start + 1 <= k < start + t.len() implies alnum_char(#[trigger] s[k]) by {
        assert(s[k] == t[k - start]);
    }
    lemma_atom_end_run(s, start + 1, start + t.len());
    assert(s.subrange(start, start + t.len()) =~= t);
}

pub open spec fn escape_one(c: char) -> Seq<char> {
    if c == '"' || c == '\\' {
        seq!['\\', c]
    } else {
        seq![c]
    }
}

pub proof fn lemma_escape_front(t: Seq<char>)
    requires
        t.len() > 0,
    ensures
        escape_chars(t) == escape_one(t[0]) + escape_chars(t.drop_first()),
    decreases t.len(),
{
    if t.len() == 1 {
        assert(t.drop_last() =~= Seq::<char>::empty());
        assert(t.drop_first() =~= Seq::<char>::empty());
        assert(escape_chars(t) =~= escape_one(t[0]));
        assert(escape_one(t[0]) + Seq::<char>::empty() =~= escape_one(t[0]));
    } else {
        lemma_escape_front(t.drop_last());
        assert(t.drop_last().drop_first() =~= t.drop_first().drop_last());
        assert(t.drop_first().last() == t.last());
        assert(t.drop_last()[0] == t[0]);
        assert(escape_chars(t) =~= escape_one(t[0]) + escape_chars(t.drop_first()));
    }
}

pub proof fn lemma_escape_plain(t: Seq<char>)
    requires
        forall|k: int| 0 <= k < t.len() ==> #[trigger] t[k] != '"' && t[k] != '\\',
    ensures
        escape_chars(t) == t,
    decreases t.len(),
{
    if t.len() > 0 {
        lemma_escape_plain(t.drop_last());
        assert(t.drop_last().push(t.last()) =~= t);
    }
}

/// The escaped characters of `t` followed by a quote read back as `t`.
pub proof fn lemma_lex_quoted_escaped(s: Seq<char>, ix: int, t: Seq<char>, acc: Seq<char>)
    requires
        occurs_at(s, ix, escape_chars(t) + seq!['"']),
    ensures
        lex_quoted(s, ix, acc) == Ok::<(TokenView, int), Error>(
            (TokenView::Str(acc + t), ix + escape_chars(t).len() + 1),
        ),
    decreases t.len(),
{
    if t.len() == 0 {
        assert(escape_chars(t) =~= Seq::<char>::empty());
        assert(s[ix] == (escape_chars(t) + seq!['"'])[0]);
        assert(acc + t =~= acc);
    } else {
        lemma_escape_front(t);
        let c = t[0];
        let rest = escape_chars(t.drop_first());
        assert(escape_chars(t) + seq!['"'] =~= escape_one(c) + (rest + seq!['"']));
        lemma_occurs_concat(s, ix, escape_one(c), rest + seq!['"']);
        lemma_lex_quoted_escaped(s, ix + escape_one(c).len(), t.drop_first(), acc.push(c));
        assert(acc.push(c) + t.drop_first() =~= acc + t);
        if c == '"' || c == '\\' {
            assert(s[ix] == '\\' && s[ix + 1] == c);
        } else {
            assert(escape_one(c)[0] == c);
            assert(s[ix + 0] == escape_one(c)[0]);
        }
    }
}

/// A string written at `start` (after whitespace from `ix`) lexes back as a
/// token whose text is the string, and whose value as an atom is the string.
pub proof fn lemma_lex_string(s: Seq<char>, ix: int, start: int, t: Seq<char>)
    requires
        0 <= ix <= start,
        skip_ws_spec(s, ix) == start,
        occurs_at(s, start, escaped_text(t)),
        ends_token(s, start + escaped_text(t).len()),
    ensures
        lex_spec(s, ix) matches Ok((tok, j)) && j == start + escaped_text(t).len() && token_string(tok)
            == Ok::<Seq<char>, Error>(t) && match tok {
            TokenView::Atom(a) => atom_value(a) == PValue::Str(t),
            TokenView::Str(a) => true,
            _ => false,
        },
{
    let e = escaped_text(t);
    let bare = t.len() > 0 && forall|i: int| 0 <= i < t.len() ==> alnum_strict_char(#[trigger] t[i]);
    if bare && !float_literal(t) {
        lemma_lex_atom(s, ix, start, t);
        if int_from_text(t) is Some {
            lemma_int_text_is_float(t);
        }
    } else {
        let inner = if bare {
            lemma_escape_plain(t);
            t
        } else {
            escape_chars(t)
        };
        assert(e == quoted(escape_chars(t)));
        assert(e =~= seq!['"'] + (escape_chars(t) + seq!['"']));
        lemma_occurs_concat(s, start, seq!['"'], escape_chars(t) + seq!['"']);
        assert(s[start + 0] == seq!['"'][0]);
        lemma_lex_quoted_escaped(s, start + 1, t, Seq::empty());
        assert(Seq::<char>::empty() + t =~= t);
    }
}


/// What parsing produces: dictionaries with keys in order, and floats that
/// are atoms which the numeric-ambiguity rule reads as floats.
pub open spec fn wf_value(v: PValue) -> bool
    decreases v,
{
    match v {
        PValue::Dict(d) => keys_sorted(d) && forall|i: int| 0 <= i < d.len() ==> wf_value(#[trigger] d[i].1),
        PValue::Array(a) => forall|i: int| 0 <= i < a.len() ==> wf_value(#[trigger] a[i]),
        PValue::Float(t) => t.len() > 0 && (forall|k: int| 0 <= k < t.len() ==> alnum_char(#[trigger] t[k]))
            && atom_value(t) == PValue::Float(t),
        _ => true,
    }
}

/// A character that can begin the text of a value or of a key.
pub open spec fn starts_token(c: char) -> bool {
    !ws_char(c) && c != ')' && c != '}'
}

pub proof fn lemma_escaped_start(t: Seq<char>)
    ensures
        escaped_text(t).len() > 0,
        starts_token(escaped_text(t)[0]),
{
    let bare = t.len() > 0 && forall|i: int| 0 <= i < t.len() ==> alnum_strict_char(#[trigger] t[i]);
    if bare && !float_literal(t) {
        assert(alnum_strict_char(t[0]));
    }
}

pub proof fn lemma_value_start(v: PValue)
    requires
        wf_value(v),
    ensures
        value_text(v).len() > 0,
        starts_token(value_text(v)[0]),
{
    match v {
        PValue::Str(t) => lemma_escaped_start(t),
        PValue::Int(i) => {
            lemma_int_text(i);
            assert(alnum_char(int_to_text(i)[0]));
        },
        PValue::Float(t) => {
            assert(alnum_char(t[0]));
        },
        _ => {},
    }
}

pub open spec fn item_delim(k: int) -> Seq<char> {
    if k == 0 {
        seq!['\n']
    } else {
        seq![',', '\n']
    }
}

pub proof fn lemma_items_step(a: Seq<PValue>, k: int)
    requires
        0 <= k < a.len(),
    ensures
        items_text(a.subrange(0, k + 1)) == items_text(a.subrange(0, k)) + item_delim(k) + value_text(a[k]),
{
    let b = a.subrange(0, k + 1);
    assert(b.drop_last() =~= a.subrange(0, k));
    assert(b.last() == a[k]);
}

pub proof fn lemma_items_occurs(s: Seq<char>, i: int, a: Seq<PValue>, k: int)
    requires
        occurs_at(s, i, items_text(a)),
        0 <= k <= a.len(),
    ensures
        occurs_at(s, i, items_text(a.subrange(0, k))),
    decreases a.len() - k,
{
    if k == a.len() {
        assert(a.subrange(0, k) =~= a);
    } else {
        lemma_items_occurs(s, i, a, k + 1);
        lemma_items_step(a, k);
        assert(items_text(a.subrange(0, k)) + item_delim(k) + value_text(a[k]) =~= items_text(
            a.subrange(0, k),
        ) + (item_delim(k) + value_text(a[k])));
        lemma_occurs_concat(s, i, items_text(a.subrange(0, k)), item_delim(k) + value_text(a[k]));
    }
}

pub open spec fn entry_text(key: Seq<char>, v: PValue) -> Seq<char> {
    escaped_text(key) + seq![' ', '=', ' '] + value_text(v) + seq![';', '\n']
}

pub proof fn lemma_entries_step(d: Seq<(Seq<char>, PValue)>, k: int)
    requires
        0 <= k < d.len(),
    ensures
        entries_text(d.subrange(0, k + 1)) == entries_text(d.subrange(0, k)) + entry_text(d[k].0, d[k].1),
{
    let b = d.subrange(0, k + 1);
    assert(b.drop_last() =~= d.subrange(0, k));
    assert(b.last() == d[k]);
    assert(entries_text(b) =~= entries_text(d.subrange(0, k)) + entry_text(d[k].0, d[k].1));
}

pub proof fn lemma_entries_occurs(s: Seq<char>, i: int, d: Seq<(Seq<char>, PValue)>, k: int)
    requires
        occurs_at(s, i, entries_text(d)),
        0 <= k <= d.len(),
    ensures
        occurs_at(s, i, entries_text(d.subrange(0, k))),
    decreases d.len() - k,
{
    if k == d.len() {
        assert(d.subrange(0, k) =~= d);
    } else {
        lemma_entries_occurs(s, i, d, k + 1);
        lemma_entries_step(d, k);
        lemma_occurs_concat(s, i, entries_text(d.subrange(0, k)), entry_text(d[k].0, d[k].1));
    }
}

pub proof fn lemma_sorted_insert_last(d: Seq<(Seq<char>, PValue)>, k: int)
    requires
        keys_sorted(d),
        0 <= k < d.len(),
    ensures
        dict_insert(d.subrange(0, k), d[k].0, d[k].1) == d.subrange(0, k + 1),
{
    let p = d.subrange(0, k);
    assert forall|j: int| 0 <= j < k implies key_lt(#[trigger] p[j].0, d[k].0) by {
        assert(p[j] == d[j]);
    }
    lemma_dict_insert_skip(p, k, d[k].0, d[k].1);
    assert(p.subrange(0, k) =~= p);
    assert(p.subrange(k, k) =~= Seq::<(Seq<char>, PValue)>::empty());
    assert(p + seq![(d[k].0, d[k].1)] =~= d.subrange(0, k + 1));
}

pub proof fn lemma_write_order_identity(d: Seq<(Seq<char>, PValue)>, n: int)
    requires
        keys_sorted(d),
        0 <= n <= d.len(),
    ensures
        write_order(d, n) == Seq::new(n as nat, |i: int| i),
    decreases n,
{
    if n > 0 {
        lemma_write_order_identity(d, n - 1);
        let o = write_order(d, n - 1);
        assert forall|k: int| 0 <= k < o.len() implies key_lt(#[trigger] d[o[k]].0, d[n - 1].0) by {
            assert(o[k] == k);
        }
        lemma_order_insert_skip(d, o, o.len() as int, n - 1);
        assert(o.subrange(o.len() as int, o.len() as int) =~= Seq::<int>::empty());
        assert(o.subrange(0, o.len() as int) + seq![n - 1] =~= Seq::new(n as nat, |i: int| i));
    }
}

pub proof fn lemma_entries_text_identity(d: Seq<(Seq<char>, PValue)>, n: int)
    requires
        0 <= n <= d.len(),
    ensures
        entries_text_at(d, Seq::new(n as nat, |i: int| i)) == entries_text(d.subrange(0, n)),
    decreases n,
{
    if n > 0 {
        lemma_entries_text_identity(d, n - 1);
        assert(Seq::new(n as nat, |i: int| i).drop_last() =~= Seq::new((n - 1) as nat, |i: int| i));
        lemma_entries_step(d, n - 1);
    } else {
        assert(d.subrange(0, 0) =~= Seq::<(Seq<char>, PValue)>::empty());
    }
}

/// A dictionary with keys in order is written in the order held.
pub proof fn lemma_dict_text(d: Seq<(Seq<char>, PValue)>)
    requires
        keys_sorted(d),
    ensures
        value_text(PValue::Dict(d)) == seq!['{', '\n'] + entries_text(d) + seq!['}'],
{
    lemma_write_order_identity(d, d.len() as int);
    lemma_entries_text_identity(d, d.len() as int);
    assert(d.subrange(0, d.len() as int) =~= d);
}

pub proof fn lemma_skip_one_ws(s: Seq<char>, q: int)
    requires
        0 <= q,
        q + 1 < s.len(),
        ws_char(s[q]),
        !ws_char(s[q + 1]),
    ensures
        skip_ws_spec(s, q) == q + 1,
{
    assert(skip_ws_spec(s, q + 1) == q + 1);
}

pub proof fn lemma_skip_none(s: Seq<char>, q: int)
    requires
        0 <= q < s.len(),
        !ws_char(s[q]),
    ensures
        skip_ws_spec(s, q) == q,
{
}

/// The text of a value, written at `start` after whitespace from `ix`,
/// parses back to the value.
pub proof fn lemma_reparse(v: PValue, s: Seq<char>, ix: int, start: int)
    requires
        wf_value(v),
        0 <= ix <= start,
        skip_ws_spec(s, ix) == start,
        occurs_at(s, start, value_text(v)),
        ends_token(s, start + value_text(v).len()),
    ensures
        parse_value(s, ix) == Ok::<(PValue, int), Error>((v, start + value_text(v).len())),
    decreases v, 1nat, 0nat,
{
    let n = value_text(v).len();
    match v {
        PValue::Str(t) => {
            lemma_lex_string(s, ix, start, t);
        },
        PValue::Int(i) => {
            lemma_int_text(i);
            lemma_lex_atom(s, ix, start, int_to_text(i));
        },
        PValue::Float(t) => {
            lemma_lex_atom(s, ix, start, t);
        },
        PValue::Array(a) => {
            let it = items_text(a);
            assert(value_text(v) == seq!['('] + it + seq!['\n', ')']);
            assert(seq!['('] + it + seq!['\n', ')'] =~= seq!['('] + (it + seq!['\n', ')']));
            lemma_occurs_concat(s, start, seq!['('], it + seq!['\n', ')']);
            lemma_occurs_concat(s, start + 1, it, seq!['\n', ')']);
            assert(s[start + 0] == seq!['('][0]);
            assert(lex_spec(s, ix) == Ok::<(TokenView, int), Error>((TokenView::OpenParen, start + 1)));
            if a.len() == 0 {
                assert(it =~= Seq::<char>::empty());
                assert(s[start + 1 + 0] == seq!['\n', ')'][0]);
                assert(s[start + 1 + 1] == seq!['\n', ')'][1]);
                lemma_skip_one_ws(s, start + 1);
                assert(a =~= Seq::<PValue>::empty());
            } else {
                lemma_items_occurs(s, start + 1, a, 1);
                lemma_items_step(a, 0);
                assert(a.subrange(0, 0) =~= Seq::<PValue>::empty());
                let t1 = items_text(a.subrange(0, 1));
                assert(t1 =~= seq!['\n'] + value_text(a[0]));
                lemma_occurs_concat(s, start + 1, seq!['\n'], value_text(a[0]));
                lemma_value_start(a[0]);
                assert(s[start + 1 + 0] == seq!['\n'][0]);
                assert(s[start + 2 + 0] == value_text(a[0])[0]);
                lemma_skip_one_ws(s, start + 1);
                assert(expect_spec(s, start + 1, ')') is None);
                lemma_array_rest(v, s, start, 0, start + 1);
            }
        },
        PValue::Dict(d) => {
            let et = entries_text(d);
            lemma_dict_text(d);
            assert(seq!['{', '\n'] + et + seq!['}'] =~= seq!['{', '\n'] + (et + seq!['}']));
            lemma_occurs_concat(s, start, seq!['{', '\n'], et + seq!['}']);
            assert(s[start + 0] == seq!['{', '\n'][0]);
            assert(lex_spec(s, ix) == Ok::<(TokenView, int), Error>((TokenView::OpenBrace, start + 1)));
            assert(d.subrange(0, 0) =~= Seq::<(Seq<char>, PValue)>::empty());
            lemma_dict_rest(v, s, start, 0);
        },
    }
}

/// The elements of an array from the `k`-th on parse back, when the
/// elements before it have been read.
pub proof fn lemma_array_rest(v: PValue, s: Seq<char>, start: int, k: int, q: int)
    requires
        wf_value(v),
        v is Array,
        0 <= k < v->Array_0.len(),
        0 <= start,
        occurs_at(s, start, value_text(v)),
        q == start + 1 + items_text(v->Array_0.subrange(0, k)).len() + if k == 0 { 0int } else { 1int },
    ensures
        parse_array_rest(s, q, v->Array_0.subrange(0, k)) == Ok::<(PValue, int), Error>(
            (v, start + value_text(v).len()),
        ),
    decreases v, 0nat, v->Array_0.len() - k,
{
    let a = v->Array_0;
    let it = items_text(a);
    assert(value_text(v) =~= seq!['('] + (it + seq!['\n', ')']));
    lemma_occurs_concat(s, start, seq!['('], it + seq!['\n', ')']);
    lemma_occurs_concat(s, start + 1, it, seq!['\n', ')']);
    lemma_items_occurs(s, start + 1, a, k + 1);
    lemma_items_step(a, k);
    let tk = items_text(a.subrange(0, k));
    let dl = item_delim(k);
    let el = value_text(a[k]);
    assert(tk + dl + el =~= tk + (dl + el));
    lemma_occurs_concat(s, start + 1, tk, dl + el);
    lemma_occurs_concat(s, start + 1 + tk.len(), dl, el);
    let es = start + 1 + tk.len() + dl.len();
    let e = es + el.len();
    assert(q + 1 == es);
    if k == 0 {
        assert(s[start + 1 + tk.len() + 0] == dl[0]);
    } else {
        assert(s[start + 1 + tk.len() + 1] == dl[1]);
    }
    assert(ws_char(s[q]));
    lemma_value_start(a[k]);
    assert(s[es + 0] == el[0]);
    lemma_skip_one_ws(s, q);
    let tk1 = items_text(a.subrange(0, k + 1));
    assert(tk1.len() == tk.len() + dl.len() + el.len());
    assert(a.subrange(0, k).push(a[k]) =~= a.subrange(0, k + 1));
    if k + 1 == a.len() {
        assert(a.subrange(0, k + 1) =~= a);
        assert(s[start + 1 + it.len() + 0] == seq!['\n', ')'][0]);
        assert(s[start + 1 + it.len() + 1] == seq!['\n', ')'][1]);
        lemma_reparse(a[k], s, q, es);
        lemma_skip_one_ws(s, e);
    } else {
        lemma_items_occurs(s, start + 1, a, k + 2);
        lemma_items_step(a, k + 1);
        let d2 = item_delim(k + 1);
        assert(tk1 + d2 + value_text(a[k + 1]) =~= tk1 + (d2 + value_text(a[k + 1])));
        lemma_occurs_concat(s, start + 1, tk1, d2 + value_text(a[k + 1]));
        assert(s[start + 1 + tk1.len() + 0] == (d2 + value_text(a[k + 1]))[0]);
        assert(s[e] == ',');
        lemma_reparse(a[k], s, q, es);
        lemma_skip_none(s, e);
        lemma_array_rest(v, s, start, k + 1, e + 1);
    }
}

/// The entries of a dictionary from the `k`-th on parse back, when the
/// entries before it have been read.
#[verifier::rlimit(60)]
pub proof fn lemma_dict_rest(v: PValue, s: Seq<char>, start: int, k: int)
    requires
        wf_value(v),
        v is Dict,
        0 <= k <= v->Dict_0.len(),
        0 <= start,
        occurs_at(s, start, value_text(v)),
    ensures
        parse_dict_rest(s, start + 1 + entries_text(v->Dict_0.subrange(0, k)).len(), v->Dict_0.subrange(0, k))
            == Ok::<(PValue, int), Error>((v, start + value_text(v).len())),
    decreases v, 0nat, v->Dict_0.len() - k,
{
    let d = v->Dict_0;
    let et = entries_text(d);
    lemma_dict_text(d);
    assert(value_text(v) =~= seq!['{', '\n'] + (et + seq!['}']));
    lemma_occurs_concat(s, start, seq!['{', '\n'], et + seq!['}']);
    lemma_occurs_concat(s, start + 2, et, seq!['}']);
    lemma_entries_occurs(s, start + 2, d, k);
    let ek = entries_text(d.subrange(0, k));
    let q = start + 1 + ek.len();
    if k == 0 {
        assert(s[start + 1] == seq!['{', '\n'][1]);
    } else {
        lemma_entries_step(d, k - 1);
        let pe = entry_text(d[k - 1].0, d[k - 1].1);
        lemma_occurs_concat(s, start + 2, entries_text(d.subrange(0, k - 1)), pe);
        assert(pe[pe.len() - 1] == '\n');
        assert(s[start + 2 + entries_text(d.subrange(0, k - 1)).len() + (pe.len() - 1)] == pe[pe.len() - 1]);
    }
    assert(ws_char(s[q]));
    if k == d.len() {
        assert(d.subrange(0, k) =~= d);
        assert(s[start + 2 + et.len() + 0] == seq!['}'][0]);
        lemma_skip_one_ws(s, q);
    } else {
        lemma_entries_occurs(s, start + 2, d, k + 1);
        lemma_entries_step(d, k);
        let key = d[k].0;
        let val = d[k].1;
        let esc = escaped_text(key);
        let vt = value_text(val);
        lemma_occurs_concat(s, start + 2, ek, entry_text(key, val));
        assert(entry_text(key, val) =~= esc + (seq![' ', '=', ' '] + (vt + seq![';', '\n'])));
        lemma_occurs_concat(s, q + 1, esc, seq![' ', '=', ' '] + (vt + seq![';', '\n']));
        lemma_occurs_concat(s, q + 1 + esc.len(), seq![' ', '=', ' '], vt + seq![';', '\n']);
        lemma_occurs_concat(s, q + 1 + esc.len() + 3, vt, seq![';', '\n']);
        let n = q + 1 + esc.len();
        let m = n + 2;
        let p = m + 1 + vt.len();
        assert(s[n + 0] == seq![' ', '=', ' '][0]);
        assert(s[n + 1] == seq![' ', '=', ' '][1]);
        assert(s[n + 2] == seq![' ', '=', ' '][2]);
        assert(s[p + 0] == seq![';', '\n'][0]);
        lemma_escaped_start(key);
        assert(s[q + 1 + 0] == esc[0]);
        lemma_skip_one_ws(s, q);
        assert(expect_spec(s, q, '}') is None);
        lemma_lex_string(s, q, q + 1, key);
        lemma_skip_one_ws(s, n);
        assert(expect_spec(s, n, '=') == Some(m));
        assert(wf_value(val));
        lemma_value_start(val);
        assert(s[m + 1 + 0] == vt[0]);
        lemma_skip_one_ws(s, m);
        lemma_reparse(val, s, m, m + 1);
        lemma_skip_none(s, p);
        lemma_sorted_insert_last(d, k);
        assert(entries_text(d.subrange(0, k + 1)).len() == ek.len() + esc.len() + 3 + vt.len() + 2);
        lemma_dict_rest(v, s, start, k + 1);
    }
}


pub proof fn lemma_dict_insert_wf(d: Seq<(Seq<char>, PValue)>, key: Seq<char>, v: PValue)
    requires
        keys_sorted(d),
        forall|i: int| 0 <= i < d.len() ==> wf_value(#[trigger] d[i].1),
        wf_value(v),
    ensures
        keys_sorted(dict_insert(d, key, v)),
        forall|i: int| 0 <= i < dict_insert(d, key, v).len() ==> wf_value(#[trigger] dict_insert(d, key, v)[i].1),
        forall|i: int| 0 <= i < dict_insert(d, key, v).len() ==> #[trigger] dict_insert(d, key, v)[i].0 == key
            || exists|j: int| 0 <= j < d.len() && dict_insert(d, key, v)[i].0 == d[j].0,
    decreases d.len(),
{
    let r = dict_insert(d, key, v);
    if d.len() == 0 {
        assert(r =~= seq![(key, v)]);
    } else if d[0].0 == key {
        assert(r == d.update(0, (key, v)));
        assert forall|i: int, j: int| 0 <= i < j < r.len() implies key_lt(#[trigger] r[i].0, #[trigger] r[j].0) by {
            assert(r[i].0 == d[i].0 && r[j].0 == d[j].0);
        }
        assert forall|i: int| 0 <= i < r.len() implies #[trigger] r[i].0 == key || exists|j: int|
            0 <= j < d.len() && r[i].0 == d[j].0 by {
            assert(r[i].0 == d[i].0);
        }
    } else if key_lt(key, d[0].0) {
        assert(r == seq![(key, v)] + d);
        assert forall|i: int, j: int| 0 <= i < j < r.len() implies key_lt(#[trigger] r[i].0, #[trigger] r[j].0) by {
            assert(r[j] == d[j - 1]);
            if i == 0 {
                if j > 1 {
                    lemma_key_lt_transitive(key, d[0].0, d[j - 1].0);
                }
            } else {
                assert(r[i] == d[i - 1]);
            }
        }
        assert forall|i: int| 0 <= i < r.len() implies #[trigger] r[i].0 == key || exists|j: int|
            0 <= j < d.len() && r[i].0 == d[j].0 by {
            if i > 0 {
                assert(r[i] == d[i - 1]);
            }
        }
    } else {
        let t = d.drop_first();
        assert(keys_sorted(t)) by {
            assert forall|i: int, j: int| 0 <= i < j < t.len() implies key_lt(#[trigger] t[i].0, #[trigger] t[j].0) by {
                assert(t[i] == d[i + 1] && t[j] == d[j + 1]);
            }
        }
        assert forall|i: int| 0 <= i < t.len() implies wf_value(#[trigger] t[i].1) by {
            assert(t[i] == d[i + 1]);
        }
        lemma_dict_insert_wf(t, key, v);
        let r2 = dict_insert(t, key, v);
        assert(r == seq![d[0]] + r2);
        lemma_key_lt_total(d[0].0, key);
        assert forall|i: int| 0 <= i < r2.len() implies key_lt(d[0].0, #[trigger] r2[i].0) by {
            if r2[i].0 != key {
                let j = choose|j: int| 0 <= j < t.len() && r2[i].0 == t[j].0;
                assert(t[j] == d[j + 1]);
            }
        }
        assert forall|i: int, j: int| 0 <= i < j < r.len() implies key_lt(#[trigger] r[i].0, #[trigger] r[j].0) by {
            assert(r[j] == r2[j - 1]);
            if i > 0 {
                assert(r[i] == r2[i - 1]);
            }
        }
        assert forall|i: int| 0 <= i < r.len() implies wf_value(#[trigger] r[i].1) by {
            if i > 0 {
                assert(r[i] == r2[i - 1]);
            }
        }
        assert forall|i: int| 0 <= i < r.len() implies #[trigger] r[i].0 == key || exists|j: int|
            0 <= j < d.len() && r[i].0 == d[j].0 by {
            if i > 0 {
                assert(r[i] == r2[i - 1]);
                if r2[i - 1].0 != key {
                    let j = choose|j: int| 0 <= j < t.len() && r2[i - 1].0 == t[j].0;
                    assert(t[j] == d[j + 1]);
                }
            }
        }
    }
}

pub proof fn lemma_lex_atom_text(s: Seq<char>, ix: int)
    requires
        0 <= ix <= s.len(),
    ensures
        lex_spec(s, ix) matches Ok((TokenView::Atom(a), _)) ==> a.len() > 0 && forall|k: int|
            0 <= k < a.len() ==> alnum_char(#[trigger] a[k]),
{
    lemma_skip_ws_bounds(s, ix);
    let st = skip_ws_spec(s, ix);
    lemma_lex_quoted_bounds(s, st + 1, Seq::empty());
    if st < s.len() && alnum_char(s[st]) && s[st] != '{' && s[st] != '(' && s[st] != '"' {
        lemma_atom_end_bounds(s, st + 1);
        let a = s.subrange(st, atom_end(s, st + 1));
        assert forall|k: int| 0 <= k < a.len() implies alnum_char(#[trigger] a[k]) by {
            assert(a[k] == s[st + k]);
            if k > 0 {
                assert(st + 1 <= st + k < atom_end(s, st + 1));
            }
        }
        assert(lex_spec(s, ix) == Ok::<(TokenView, int), Error>((TokenView::Atom(a), atom_end(s, st + 1))));
    }
}

pub proof fn lemma_parse_value_wf(s: Seq<char>, ix: int)
    ensures
        parse_value(s, ix) matches Ok((v, _)) ==> wf_value(v),
    decreases s.len() - ix, 1nat,
{
    if 0 <= ix <= s.len() {
        lemma_lex_atom_text(s, ix);
        match lex_spec(s, ix) {
            Ok((TokenView::OpenBrace, j)) => {
                if ix < j <= s.len() {
                    lemma_dict_rest_wf(s, j, Seq::empty());
                }
            },
            Ok((TokenView::OpenParen, j)) => {
                if ix < j <= s.len() {
                    lemma_array_rest_wf(s, j, Seq::empty());
                }
            },
            _ => {},
        }
    }
}

pub proof fn lemma_dict_rest_wf(s: Seq<char>, ix: int, acc: Seq<(Seq<char>, PValue)>)
    requires
        keys_sorted(acc),
        forall|i: int| 0 <= i < acc.len() ==> wf_value(#[trigger] acc[i].1),
    ensures
        parse_dict_rest(s, ix, acc) matches Ok((v, _)) ==> wf_value(v),
    decreases s.len() - ix, 0nat,
{
    if 0 <= ix <= s.len() && expect_spec(s, ix, '}') is None {
        match lex_spec(s, ix) {
            Ok((kt, n)) => match token_string(kt) {
                Ok(key) => match expect_spec(s, n, '=') {
                    Some(m) => if ix < m <= s.len() {
                        lemma_parse_value_wf(s, m);
                        match parse_value(s, m) {
                            Ok((v, p)) => match expect_spec(s, p, ';') {
                                Some(q) => if ix < q <= s.len() {
                                    lemma_dict_insert_wf(acc, key, v);
                                    lemma_dict_rest_wf(s, q, dict_insert(acc, key, v));
                                },
                                None => {},
                            },
                            Err(_) => {},
                        }
                    },
                    None => {},
                },
                Err(_) => {},
            },
            Err(_) => {},
        }
    }
}

pub proof fn lemma_array_rest_wf(s: Seq<char>, ix: int, acc: Seq<PValue>)
    requires
        forall|i: int| 0 <= i < acc.len() ==> wf_value(#[trigger] acc[i]),
    ensures
        parse_array_rest(s, ix, acc) matches Ok((v, _)) ==> wf_value(v),
    decreases s.len() - ix, 2nat,
{
    if 0 <= ix <= s.len() {
        lemma_parse_value_wf(s, ix);
        match parse_value(s, ix) {
            Ok((v, p)) => {
                let acc2 = acc.push(v);
                assert forall|i: int| 0 <= i < acc2.len() implies wf_value(#[trigger] acc2[i]) by {
                    if i < acc.len() {
                        assert(acc2[i] == acc[i]);
                    }
                }
                match expect_spec(s, p, ')') {
                    Some(k) => {},
                    None => match expect_spec(s, p, ',') {
                        Some(q) => if ix < q <= s.len() {
                            lemma_array_rest_wf(s, q, acc2);
                        },
                        None => {},
                    },
                }
            },
            Err(_) => {},
        }
    }
}

/// Parsing the canonical text of a value that parsing gave yields that
/// value again: `parse(to_text(v)) == v`.
pub proof fn law_round_trip(s: Seq<char>, v: PValue)
    requires
        parse_spec(s) == Ok::<PValue, Error>(v),
    ensures
        parse_spec(value_text(v)) == Ok::<PValue, Error>(v),
{
    lemma_parse_value_wf(s, 0);
    let t = value_text(v);
    lemma_value_start(v);
    lemma_skip_none(t, 0);
    lemma_reparse(v, t, 0, 0);
}

} // verus!
