//! Parsing inverts printing: a printed JSON value, wherever it stands in a
//! text, parses back to the value it was printed from.  This is what makes
//! a stored payload readable again by the search path.

use vstd::prelude::*;
use crate::json::{
    digit_run, esc_char, esc_short, extends_number, hex_char, hex_val, is_digit, is_hex, is_ws,
    json_wf, json_wf_elems, json_wf_members, lemma_digit_run_bounds, number_token, ser_elems,
    ser_member, ser_members, ser_str_body, ser_string, ser_value, skip_ws, sp_elems, sp_json,
    sp_members, sp_number, sp_string, sp_value, JsonView,
};

verus! {

/// Whether the text holds exactly `t` starting at position `i`.
pub open spec fn text_at(s: Seq<char>, i: int, t: Seq<char>) -> bool {
    0 <= i && i + t.len() <= s.len() && s.subrange(i, i + t.len()) == t
}

/// A text that holds a concatenation holds each part in place.
pub proof fn lemma_text_at_concat(s: Seq<char>, i: int, a: Seq<char>, b: Seq<char>)
    requires
        text_at(s, i, a + b),
    ensures
        text_at(s, i, a),
        text_at(s, i + a.len(), b),
{
    let whole = s.subrange(i, i + (a + b).len() as int);
    assert forall|k: int| 0 <= k < a.len() implies s.subrange(i, i + a.len() as int)[k]
        == a[k] by {
        assert(whole[k] == s[i + k]);
        assert((a + b)[k] == a[k]);
    }
    assert(s.subrange(i, i + a.len() as int) =~= a);
    assert forall|k: int| 0 <= k < b.len() implies s.subrange(
        i + a.len(),
        i + a.len() + b.len() as int,
    )[k] == b[k] by {
        assert(whole[a.len() + k] == s[i + a.len() + k]);
        assert((a + b)[a.len() + k] == b[k]);
    }
    assert(s.subrange(i + a.len(), i + a.len() + b.len() as int) =~= b);
}

/// The characters a text holds where it holds `t`.
pub proof fn lemma_text_at_char(s: Seq<char>, i: int, t: Seq<char>, k: int)
    requires
        text_at(s, i, t),
        0 <= k < t.len(),
    ensures
        s[i + k] == t[k],
{
    assert(s.subrange(i, i + t.len() as int)[k] == s[i + k]);
}

/// What a complete number token must begin with.
proof fn lemma_number_token_head(t: Seq<char>)
    requires
        number_token(t),
    ensures
        t.len() > 0,
        t[0] == '-' || is_digit(t[0]),
{
    if t.len() == 0 {
        assert(sp_number(t, 0) is None);
    } else if !(t[0] == '-' || is_digit(t[0])) {
        assert(sp_number(t, 0) is None);
    }
}

/// Printed values are never empty, never begin with whitespace, and never
/// begin with a character that closes or separates an enclosing construct.
pub proof fn lemma_ser_first(j: JsonView)
    requires
        json_wf(j),
    ensures
        ser_value(j).len() > 0,
        !is_ws(ser_value(j)[0]),
        ser_value(j)[0] != ']',
        ser_value(j)[0] != '}',
        ser_value(j)[0] != ',',
        ser_value(j)[0] != ':',
{
    match j {
        JsonView::Null => {},
        JsonView::Bool(b) => {},
        JsonView::Num(t) => {
            lemma_number_token_head(t);
        },
        JsonView::Str(t) => {
            assert(ser_value(j)[0] == '"');
        },
        JsonView::Arr(es) => {
            assert(ser_value(j)[0] == '[');
        },
        JsonView::Obj(ms) => {
            assert(ser_value(j)[0] == '{');
        },
    }
}

/// A digit run inside an embedded text runs as it does in the text alone,
/// provided nothing beyond the text could lengthen its last run.
proof fn lemma_digit_run_embed(t: Seq<char>, s: Seq<char>, i: int, p: int)
    requires
        text_at(s, i, t),
        0 <= p <= t.len(),
        digit_run(t, p) == t.len() ==> (i + t.len() == s.len() || !is_digit(s[i + t.len()])),
    ensures
        digit_run(s, i + p) == i + digit_run(t, p),
    decreases t.len() - p,
{
    lemma_digit_run_bounds(t, p);
    if p < t.len() {
        lemma_text_at_char(s, i, t, p);
        if is_digit(t[p]) {
            lemma_digit_run_embed(t, s, i, p + 1);
        }
    }
}

/// A complete number token, wherever it stands in a text, parses back as
/// itself, provided the character after it (if any) could not lengthen it.
proof fn lemma_number_shift(t: Seq<char>, s: Seq<char>, i: int)
    requires
        number_token(t),
        text_at(s, i, t),
        i + t.len() == s.len() || !extends_number(s[i + t.len()]),
    ensures
        sp_number(s, i) == Some((t, i + t.len() as int)),
{
    let n = t.len() as int;
    lemma_number_token_head(t);
    assert forall|k: int| 0 <= k < n implies s[i + k] == t[k] by {
        lemma_text_at_char(s, i, t, k);
    }

    // the integer part
    let jt: int = if t[0] == '-' { 1int } else { 0int };
    if jt >= n || !is_digit(t[jt]) {
        assert(sp_number(t, 0) is None);
    }
    assert(jt < n && is_digit(t[jt]));
    let j2t: int = if t[jt] == '0' { jt + 1 } else { digit_run(t, jt) };
    lemma_digit_run_bounds(t, jt);
    lemma_digit_run_embed(t, s, i, jt);
    if !(t[jt] == '0') {
        assert(digit_run(t, jt) == digit_run(t, jt + 1));
        lemma_digit_run_bounds(t, jt + 1);
    }
    assert(jt < j2t <= n);

    // the fraction
    let j3t: int = if j2t < n && t[j2t] == '.' {
        digit_run(t, j2t + 1)
    } else {
        j2t
    };
    if j2t < n && t[j2t] == '.' {
        if !(j2t + 1 < n && is_digit(t[j2t + 1])) {
            assert(sp_number(t, 0) is None);
        }
        assert(j2t + 1 < n && is_digit(t[j2t + 1]));
        lemma_digit_run_bounds(t, j2t + 1);
        lemma_digit_run_embed(t, s, i, j2t + 1);
        assert(digit_run(t, j2t + 1) == digit_run(t, j2t + 2)) by {
            lemma_digit_run_bounds(t, j2t + 2);
        }
    }
    assert(j2t <= j3t <= n) by {
        if j2t < n && t[j2t] == '.' {
            lemma_digit_run_bounds(t, j2t + 1);
        }
    }

    // the exponent
    if j3t < n && (t[j3t] == 'e' || t[j3t] == 'E') {
        let j5t: int = if j3t + 1 < n && (t[j3t + 1] == '+' || t[j3t + 1] == '-') {
            j3t + 2
        } else {
            j3t + 1
        };
        if !(j5t < n && is_digit(t[j5t])) {
            assert(sp_number(t, 0) is None);
        }
        assert(j5t < n && is_digit(t[j5t]));
        lemma_digit_run_bounds(t, j5t);
        lemma_digit_run_embed(t, s, i, j5t);
    }

    assert(s.subrange(i, i + n) == t);
    assert(sp_number(s, i) == Some((t, i + n)));
}

/// For a value below sixteen, the printed hexadecimal digit reads back as
/// the value.
pub proof fn lemma_hex_char_val(d: int)
    requires
        0 <= d < 16,
    ensures
        is_hex(hex_char(d)),
        hex_val(hex_char(d)) == d,
{
}

/// A printed string body, followed by its closing quote, parses back to
/// the string.
pub proof fn lemma_string_round(t: Seq<char>, s: Seq<char>, i: int)
    requires
        text_at(s, i, ser_str_body(t) + seq!['"']),
    ensures
        sp_string(s, i) == Some((t, i + ser_str_body(t).len() + 1)),
    decreases t.len(),
{
    if t.len() == 0 {
        assert(ser_str_body(t) + seq!['"'] =~= seq!['"']);
        lemma_text_at_char(s, i, seq!['"'], 0);
        assert(s[i] == '"');
        assert(sp_string(s, i) == Some((Seq::<char>::empty(), i + 1)));
        assert(t =~= Seq::<char>::empty());
    } else {
        let c = t[0];
        let rest = t.drop_first();
        let e = esc_char(c);
        let tail = ser_str_body(rest) + seq!['"'];
        assert(ser_str_body(t) == esc_char(c) + ser_str_body(rest));
        assert(ser_str_body(t) + seq!['"'] =~= e + tail);
        lemma_text_at_concat(s, i, e, tail);
        lemma_string_round(rest, s, i + e.len());
        assert(seq![c] + rest =~= t);
        if c == '"' {
            assert(e =~= seq!['\\', '"']);
            lemma_text_at_char(s, i, e, 0);
            lemma_text_at_char(s, i, e, 1);
            assert(esc_short('"') == Some('"'));
        } else if c == '\\' {
            assert(e =~= seq!['\\', '\\']);
            lemma_text_at_char(s, i, e, 0);
            lemma_text_at_char(s, i, e, 1);
            assert(esc_short('\\') == Some('\\'));
        } else if (c as u32) < 0x20 {
            let c32 = c as u32 as int;
            assert(e =~= seq!['\\', 'u', '0', '0', hex_char(c32 / 16), hex_char(c32 % 16)]);
            lemma_text_at_char(s, i, e, 0);
            lemma_text_at_char(s, i, e, 1);
            lemma_text_at_char(s, i, e, 2);
            lemma_text_at_char(s, i, e, 3);
            lemma_text_at_char(s, i, e, 4);
            lemma_text_at_char(s, i, e, 5);
            lemma_hex_char_val(c32 / 16);
            lemma_hex_char_val(c32 % 16);
            assert(hex_val('0') == 0);
            let v = hex_val(s[i + 2]) * 4096 + hex_val(s[i + 3]) * 256 + hex_val(s[i + 4]) * 16
                + hex_val(s[i + 5]);
            assert(v == (c32 / 16) * 16 + c32 % 16);
            assert(v == c32);
            assert((v as u32) == c as u32);
            vstd::utf8::char_u32_cast(c, v as u32);
            assert((v as u32) as char == c);
        } else {
            assert(e =~= seq![c]);
            lemma_text_at_char(s, i, e, 0);
            assert(s[i] == c);
        }
    }
}

/// A printed value, standing anywhere in a text, parses back to the value
/// it was printed from, consuming exactly its printed form.
#[verifier::rlimit(50)]
pub proof fn lemma_value_round(j: JsonView, s: Seq<char>, i: int)
    requires
        json_wf(j),
        text_at(s, i, ser_value(j)),
        i + ser_value(j).len() == s.len() || !extends_number(s[i + ser_value(j).len()]),
    ensures
        sp_value(s, i) == Some((j, i + ser_value(j).len())),
    decreases j, 0int,
{
    let l = ser_value(j);
    lemma_ser_first(j);
    lemma_text_at_char(s, i, l, 0);
    assert(!is_ws(s[i]));
    assert(skip_ws(s, i) == i);
    match j {
        JsonView::Null => {
            lemma_text_at_char(s, i, l, 1);
            lemma_text_at_char(s, i, l, 2);
            lemma_text_at_char(s, i, l, 3);
        },
        JsonView::Bool(b) => {
            lemma_text_at_char(s, i, l, 1);
            lemma_text_at_char(s, i, l, 2);
            lemma_text_at_char(s, i, l, 3);
            if !b {
                lemma_text_at_char(s, i, l, 4);
            }
        },
        JsonView::Num(t) => {
            lemma_number_token_head(t);
            lemma_number_shift(t, s, i);
        },
        JsonView::Str(t) => {
            assert(l =~= seq!['"'] + (ser_str_body(t) + seq!['"']));
            lemma_text_at_concat(s, i, seq!['"'], ser_str_body(t) + seq!['"']);
            lemma_string_round(t, s, i + 1);
        },
        JsonView::Arr(es) => {
            assert(decreases_to!(j => es));
            if es.len() == 0 {
                assert(es =~= Seq::<JsonView>::empty());
                assert(l =~= seq!['[', ']']);
                lemma_text_at_char(s, i, l, 1);
                assert(s[i + 1] == ']');
                assert(skip_ws(s, i + 1) == i + 1);
            } else {
                assert(l =~= seq!['['] + (ser_elems(es) + seq![']']));
                lemma_text_at_concat(s, i, seq!['['], ser_elems(es) + seq![']']);
                assert(json_wf(es[0]));
                lemma_ser_first(es[0]);
                assert(ser_elems(es)[0] == ser_value(es[0])[0]);
                lemma_text_at_char(s, i + 1, ser_elems(es) + seq![']'], 0);
                assert(!is_ws(s[i + 1]));
                assert(skip_ws(s, i + 1) == i + 1);
                assert(s[i + 1] != ']');
                lemma_elems_round(es, s, i + 1);
            }
        },
        JsonView::Obj(ms) => {
            assert(decreases_to!(j => ms));
            if ms.len() == 0 {
                assert(ms =~= Seq::<(Seq<char>, JsonView)>::empty());
                assert(l =~= seq!['{', '}']);
                lemma_text_at_char(s, i, l, 1);
                assert(s[i + 1] == '}');
                assert(skip_ws(s, i + 1) == i + 1);
            } else {
                assert(l =~= seq!['{'] + (ser_members(ms) + seq!['}']));
                lemma_text_at_concat(s, i, seq!['{'], ser_members(ms) + seq!['}']);
                let sm = ser_member(ms[0]);
                assert(ser_string(ms[0].0).len() > 0);
                assert(ser_string(ms[0].0)[0] == '"');
                assert(sm.len() > 0);
                assert(sm[0] == '"');
                if ms.len() == 1 {
                    assert(ser_members(ms) == sm);
                } else {
                    assert(ser_members(ms) == sm + seq![','] + ser_members(ms.drop_first()));
                    assert(ser_members(ms)[0] == sm[0]);
                }
                assert(ser_members(ms).len() > 0);
                assert(ser_members(ms)[0] == '"');
                lemma_text_at_char(s, i + 1, ser_members(ms) + seq!['}'], 0);
                assert(s[i + 1] == '"');
                assert(skip_ws(s, i + 1) == i + 1);
                lemma_members_round(ms, s, i + 1);
            }
        },
    }
}

/// Printed array elements, followed by the closing bracket, parse back to
/// the elements.
pub proof fn lemma_elems_round(es: Seq<JsonView>, s: Seq<char>, i: int)
    requires
        es.len() > 0,
        json_wf_elems(es),
        text_at(s, i, ser_elems(es) + seq![']']),
    ensures
        sp_elems(s, i) == Some((es, i + ser_elems(es).len() + 1)),
    decreases es, 1int,
{
    let e0 = es[0];
    assert(decreases_to!(es => es[0]));
    assert(json_wf(e0));
    lemma_ser_first(e0);
    if es.len() == 1 {
        assert(ser_elems(es) + seq![']'] =~= ser_value(e0) + seq![']']);
        lemma_text_at_concat(s, i, ser_value(e0), seq![']']);
        let k = i + ser_value(e0).len();
        lemma_text_at_char(s, k, seq![']'], 0);
        assert(s[k] == ']');
        assert(!extends_number(']'));
        lemma_value_round(e0, s, i);
        assert(skip_ws(s, k) == k);
        assert(seq![e0] =~= es);
    } else {
        let rest = es.drop_first();
        assert(ser_elems(es) == ser_value(e0) + seq![','] + ser_elems(rest));
        assert(ser_elems(es) + seq![']'] =~= ser_value(e0) + (seq![','] + (ser_elems(rest)
            + seq![']'])));
        lemma_text_at_concat(s, i, ser_value(e0), seq![','] + (ser_elems(rest) + seq![']']));
        let k = i + ser_value(e0).len();
        lemma_text_at_concat(s, k, seq![','], ser_elems(rest) + seq![']']);
        lemma_text_at_char(s, k, seq![','], 0);
        assert(s[k] == ',');
        assert(!extends_number(','));
        lemma_value_round(e0, s, i);
        assert(skip_ws(s, k) == k);
        assert(forall|x: int| 0 <= x < rest.len() ==> json_wf(#[trigger] rest[x]));
        lemma_elems_round(rest, s, k + 1);
        assert(seq![e0] + rest =~= es);
    }
}

/// Printed object members, followed by the closing brace, parse back to
/// the members.
pub proof fn lemma_members_round(ms: Seq<(Seq<char>, JsonView)>, s: Seq<char>, i: int)
    requires
        ms.len() > 0,
        json_wf_members(ms),
        text_at(s, i, ser_members(ms) + seq!['}']),
    ensures
        sp_members(s, i) == Some((ms, i + ser_members(ms).len() + 1)),
    decreases ms, 1int,
{
    let m0 = ms[0];
    let key = m0.0;
    let v = m0.1;
    assert(decreases_to!(ms => ms[0]));
    assert(decreases_to!(ms[0] => ms[0].1));
    assert(json_wf(v));
    lemma_ser_first(v);
    assert(ser_member(m0) == ser_string(key) + seq![':'] + ser_value(v));
    let tail0 = if ms.len() == 1 {
        seq!['}']
    } else {
        seq![','] + (ser_members(ms.drop_first()) + seq!['}'])
    };
    if ms.len() == 1 {
        assert(ser_members(ms) + seq!['}'] =~= ser_string(key) + (seq![':'] + (ser_value(v)
            + tail0)));
    } else {
        assert(ser_members(ms) == ser_member(m0) + seq![','] + ser_members(ms.drop_first()));
        assert(ser_members(ms) + seq!['}'] =~= ser_string(key) + (seq![':'] + (ser_value(v)
            + tail0)));
    }
    lemma_text_at_concat(s, i, ser_string(key), seq![':'] + (ser_value(v) + tail0));
    assert(ser_string(key)[0] == '"');
    lemma_text_at_char(s, i, ser_string(key), 0);
    assert(s[i] == '"');
    assert(skip_ws(s, i) == i);
    assert(ser_string(key) =~= seq!['"'] + (ser_str_body(key) + seq!['"']));
    lemma_text_at_concat(s, i, seq!['"'], ser_str_body(key) + seq!['"']);
    lemma_string_round(key, s, i + 1);
    let k1 = i + ser_string(key).len();
    lemma_text_at_concat(s, k1, seq![':'], ser_value(v) + tail0);
    lemma_text_at_char(s, k1, seq![':'], 0);
    assert(s[k1] == ':');
    assert(skip_ws(s, k1) == k1);
    lemma_text_at_concat(s, k1 + 1, ser_value(v), tail0);
    let k2 = k1 + 1 + ser_value(v).len();
    assert(tail0.len() > 0);
    lemma_text_at_char(s, k2, tail0, 0);
    assert(s[k2] == '}' || s[k2] == ',');
    assert(!extends_number(s[k2]));
    lemma_value_round(v, s, k1 + 1);
    if ms.len() == 1 {
        assert(s[k2] == '}');
        assert(skip_ws(s, k2) == k2);
        assert((key, v) == m0);
        assert(seq![m0] =~= ms);
    } else {
        let rest = ms.drop_first();
        lemma_text_at_concat(s, k2, seq![','], ser_members(rest) + seq!['}']);
        assert(s[k2] == ',');
        assert(skip_ws(s, k2) == k2);
        assert(forall|x: int|
            0 <= x < rest.len() ==> json_wf((#[trigger] rest[x]).1));
        lemma_members_round(rest, s, k2 + 1);
        assert((key, v) == m0);
        assert(seq![m0] + rest =~= ms);
    }
}

/// A printed well-formed value, as a whole document, parses back to the
/// value.
pub proof fn lemma_json_round(j: JsonView)
    requires
        json_wf(j),
    ensures
        sp_json(ser_value(j)) == Some(j),
{
    let s = ser_value(j);
    assert(s.subrange(0, s.len() as int) =~= s);
    assert(text_at(s, 0, s));
    lemma_value_round(j, s, 0);
    assert(skip_ws(s, s.len() as int) == s.len());
}

} // verus!
