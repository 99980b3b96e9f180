//! The JSON document model: the value tree that manifest texts and stored
//! payloads are made of, together with the grammar of JSON text, written as
//! a specification-level parser and printer over character sequences.
//!
//! Numbers are kept as their raw token text: no field of the registry schema
//! is numeric, so the library never needs their arithmetic value.

use vstd::prelude::*;

verus! {

/// The mathematical value of a JSON document.
#[verifier::ext_equal]
pub enum JsonView {
    Null,
    Bool(bool),
    Num(Seq<char>),
    Str(Seq<char>),
    Arr(Seq<JsonView>),
    Obj(Seq<(Seq<char>, JsonView)>),
}

/// A JSON value.  Object members keep the order in which they were parsed.
#[derive(Debug)]
pub enum Json {
    Null,
    Bool(bool),
    Num(String),
    Str(String),
    Arr(Vec<Json>),
    Obj(Vec<(String, Json)>),
}

/// The value of a JSON tree.
pub open spec fn json_view(j: Json) -> JsonView
    decreases j, 0int,
    via json_view_decreases
{
    match j {
        Json::Null => JsonView::Null,
        Json::Bool(b) => JsonView::Bool(b),
        Json::Num(t) => JsonView::Num(t@),
        Json::Str(t) => JsonView::Str(t@),
        Json::Arr(v) => JsonView::Arr(json_views(v@)),
        Json::Obj(v) => JsonView::Obj(json_member_views(v@)),
    }
}

/// The values of a sequence of JSON trees.
pub open spec fn json_views(s: Seq<Json>) -> Seq<JsonView>
    decreases s, 1int,
{
    if s.len() == 0 {
        Seq::empty()
    } else {
        json_views(s.drop_last()).push(json_view(s.last()))
    }
}

/// The values of a sequence of object members.
pub open spec fn json_member_views(s: Seq<(String, Json)>) -> Seq<(Seq<char>, JsonView)>
    decreases s, 1int,
    via json_member_views_decreases
{
    if s.len() == 0 {
        Seq::empty()
    } else {
        json_member_views(s.drop_last()).push((s.last().0@, json_view(s.last().1)))
    }
}

#[via_fn]
proof fn json_view_decreases(j: Json) {
    match j {
        Json::Arr(v) => {
            assert(decreases_to!(j => v));
            assert(decreases_to!(v => v@));
        }
        Json::Obj(v) => {
            assert(decreases_to!(j => v));
            assert(decreases_to!(v => v@));
        }
        _ => {}
    }
}

#[via_fn]
proof fn json_member_views_decreases(s: Seq<(String, Json)>) {
    if s.len() > 0 {
        assert(decreases_to!(s => s.last()));
        assert(decreases_to!(s.last() => s.last().1));
    }
}

impl View for Json {
    type V = JsonView;

    open spec fn view(&self) -> JsonView {
        json_view(*self)
    }
}

pub proof fn lemma_json_views_push(s: Seq<Json>, x: Json)
    ensures
        json_views(s.push(x)) == json_views(s).push(json_view(x)),
{
    assert(s.push(x).drop_last() =~= s);
    assert(s.push(x).last() == x);
}

pub proof fn lemma_json_member_views_push(s: Seq<(String, Json)>, x: (String, Json))
    ensures
        json_member_views(s.push(x)) == json_member_views(s).push((x.0@, json_view(x.1))),
{
    assert(s.push(x).drop_last() =~= s);
    assert(s.push(x).last() == x);
}

pub proof fn lemma_json_views_index(s: Seq<Json>)
    ensures
        json_views(s).len() == s.len(),
        forall|i: int| 0 <= i < s.len() ==> json_views(s)[i] == json_view(#[trigger] s[i]),
    decreases s.len(),
{
    if s.len() > 0 {
        lemma_json_views_index(s.drop_last());
        assert forall|i: int| 0 <= i < s.len() implies json_views(s)[i] == json_view(
            #[trigger] s[i],
        ) by {
            if i < s.len() - 1 {
                assert(s.drop_last()[i] == s[i]);
                assert(json_views(s)[i] == json_views(s.drop_last())[i]);
            } else {
                assert(s.last() == s[i]);
            }
        }
    }
}

pub proof fn lemma_json_member_views_index(s: Seq<(String, Json)>)
    ensures
        json_member_views(s).len() == s.len(),
        forall|i: int| 0 <= i < s.len() ==> json_member_views(s)[i] == ((#[trigger] s[i]).0@,
            json_view(s[i].1)),
    decreases s.len(),
{
    if s.len() > 0 {
        lemma_json_member_views_index(s.drop_last());
        assert forall|i: int| 0 <= i < s.len() implies json_member_views(s)[i] == ((
        #[trigger] s[i]).0@, json_view(s[i].1)) by {
            if i < s.len() - 1 {
                assert(s.drop_last()[i] == s[i]);
                assert(json_member_views(s)[i] == json_member_views(s.drop_last())[i]);
            } else {
                assert(s.last() == s[i]);
            }
        }
    }
}

// ---------------------------------------------------------------------------
// Character classes.
// ---------------------------------------------------------------------------

/// JSON insignificant whitespace.
pub open spec fn is_ws(c: char) -> bool {
    c == ' ' || c == '\n' || c == '\r' || c == '\t'
}

/// A decimal digit.
pub open spec fn is_digit(c: char) -> bool {
    48 <= c as u32 && c as u32 <= 57
}

/// A hexadecimal digit, either case.
pub open spec fn is_hex(c: char) -> bool {
    is_digit(c) || (97 <= c as u32 && c as u32 <= 102) || (65 <= c as u32 && c as u32 <= 70)
}

/// The numeric value of a hexadecimal digit.
pub open spec fn hex_val(c: char) -> int {
    if is_digit(c) {
        c as u32 - 48
    } else if 97 <= c as u32 && c as u32 <= 102 {
        c as u32 - 87
    } else {
        c as u32 - 55
    }
}

/// The lower-case digit character of a hexadecimal value below sixteen.
pub open spec fn hex_char(d: int) -> char {
    if d == 0 { '0' } else if d == 1 { '1' } else if d == 2 { '2' } else if d == 3 { '3' }
    else if d == 4 { '4' } else if d == 5 { '5' } else if d == 6 { '6' } else if d == 7 { '7' }
    else if d == 8 { '8' } else if d == 9 { '9' } else if d == 10 { 'a' } else if d == 11 { 'b' }
    else if d == 12 { 'c' } else if d == 13 { 'd' } else if d == 14 { 'e' } else { 'f' }
}

/// The character named by a short escape (the character after the backslash).
pub open spec fn esc_short(e: char) -> Option<char> {
    if e == '"' { Some('"') }
    else if e == '\\' { Some('\\') }
    else if e == '/' { Some('/') }
    else if e == 'b' { Some('\u{0008}') }
    else if e == 'f' { Some('\u{000C}') }
    else if e == 'n' { Some('\n') }
    else if e == 'r' { Some('\r') }
    else if e == 't' { Some('\t') }
    else { None }
}

// ---------------------------------------------------------------------------
// Scanners.
// ---------------------------------------------------------------------------

/// The first position at or after `i` that holds no whitespace.
pub open spec fn skip_ws(s: Seq<char>, i: int) -> int
    decreases s.len() - i,
{
    if 0 <= i && i < s.len() && is_ws(s[i]) {
        skip_ws(s, i + 1)
    } else {
        i
    }
}

/// The first position at or after `i` that holds no digit.
pub open spec fn digit_run(s: Seq<char>, i: int) -> int
    decreases s.len() - i,
{
    if 0 <= i && i < s.len() && is_digit(s[i]) {
        digit_run(s, i + 1)
    } else {
        i
    }
}

pub proof fn lemma_digit_run_bounds(s: Seq<char>, i: int)
    requires
        0 <= i <= s.len(),
    ensures
        i <= digit_run(s, i) <= s.len(),
    decreases s.len() - i,
{
    if i < s.len() && is_digit(s[i]) {
        lemma_digit_run_bounds(s, i + 1);
    }
}

// ---------------------------------------------------------------------------
// The grammar of JSON text, as a parser over character sequences.
//
// Each function takes the whole text and a start position and yields the
// parsed value together with the position just past it, or `None` when no
// phrase of the grammar starts there.  The guards comparing a returned
// position against the start position never fail on the functions' own
// results (they advance through the text); they make termination evident.
// ---------------------------------------------------------------------------

/// A number token starting exactly at `i`: an optional minus, an integer
/// part without leading zeros, an optional fraction and an optional
/// exponent.  The token keeps its raw text.
pub open spec fn sp_number(s: Seq<char>, i: int) -> Option<(Seq<char>, int)> {
    if i < 0 || i >= s.len() {
        None
    } else {
        let j = if s[i] == '-' { i + 1 } else { i };
        if j >= s.len() || !is_digit(s[j]) {
            None
        } else {
            let j2 = if s[j] == '0' { j + 1 } else { digit_run(s, j) };
            let j3 = if j2 < s.len() && s[j2] == '.' {
                if j2 + 1 < s.len() && is_digit(s[j2 + 1]) { digit_run(s, j2 + 1) } else { -1 }
            } else {
                j2
            };
            if j3 < 0 {
                None
            } else {
                let j4 = if j3 < s.len() && (s[j3] == 'e' || s[j3] == 'E') {
                    let j5 = if j3 + 1 < s.len() && (s[j3 + 1] == '+' || s[j3 + 1] == '-') {
                        j3 + 2
                    } else {
                        j3 + 1
                    };
                    if j5 < s.len() && is_digit(s[j5]) { digit_run(s, j5) } else { -1 }
                } else {
                    j3
                };
                if j4 < 0 {
                    None
                } else {
                    Some((s.subrange(i, j4), j4))
                }
            }
        }
    }
}

/// The body of a string literal, starting just after the opening quote;
/// ends just past the closing quote.
pub open spec fn sp_string(s: Seq<char>, i: int) -> Option<(Seq<char>, int)>
    decreases s.len() - i,
{
    if i < 0 || i >= s.len() {
        None
    } else if s[i] == '"' {
        Some((Seq::empty(), i + 1))
    } else if s[i] == '\\' {
        if i + 2 <= s.len() {
            if s[i + 1] == 'u' {
                if i + 6 <= s.len() && is_hex(s[i + 2]) && is_hex(s[i + 3]) && is_hex(s[i + 4])
                    && is_hex(s[i + 5]) {
                    let v = hex_val(s[i + 2]) * 4096 + hex_val(s[i + 3]) * 256 + hex_val(
                        s[i + 4],
                    ) * 16 + hex_val(s[i + 5]);
                    if v < 0xD800 || 0xE000 <= v {
                        match sp_string(s, i + 6) {
                            Some((t, k)) => Some((seq![(v as u32) as char] + t, k)),
                            None => None,
                        }
                    } else {
                        None
                    }
                } else {
                    None
                }
            } else {
                match esc_short(s[i + 1]) {
                    Some(c) => match sp_string(s, i + 2) {
                        Some((t, k)) => Some((seq![c] + t, k)),
                        None => None,
                    },
                    None => None,
                }
            }
        } else {
            None
        }
    } else if (s[i] as u32) < 0x20 {
        None
    } else {
        match sp_string(s, i + 1) {
            Some((t, k)) => Some((seq![s[i]] + t, k)),
            None => None,
        }
    }
}

/// A JSON value, preceded by optional whitespace.
pub open spec fn sp_value(s: Seq<char>, i: int) -> Option<(JsonView, int)>
    decreases s.len() - i, 1int,
{
    let j = skip_ws(s, i);
    if j < i || j >= s.len() {
        None
    } else if s[j] == 'n' {
        if j + 4 <= s.len() && s[j + 1] == 'u' && s[j + 2] == 'l' && s[j + 3] == 'l' {
            Some((JsonView::Null, j + 4))
        } else {
            None
        }
    } else if s[j] == 't' {
        if j + 4 <= s.len() && s[j + 1] == 'r' && s[j + 2] == 'u' && s[j + 3] == 'e' {
            Some((JsonView::Bool(true), j + 4))
        } else {
            None
        }
    } else if s[j] == 'f' {
        if j + 5 <= s.len() && s[j + 1] == 'a' && s[j + 2] == 'l' && s[j + 3] == 's' && s[j + 4]
            == 'e' {
            Some((JsonView::Bool(false), j + 5))
        } else {
            None
        }
    } else if s[j] == '"' {
        match sp_string(s, j + 1) {
            Some((t, k)) => Some((JsonView::Str(t), k)),
            None => None,
        }
    } else if s[j] == '[' {
        let m = skip_ws(s, j + 1);
        if j + 1 <= m && m < s.len() && s[m] == ']' {
            Some((JsonView::Arr(Seq::empty()), m + 1))
        } else {
            match sp_elems(s, j + 1) {
                Some((es, k)) => Some((JsonView::Arr(es), k)),
                None => None,
            }
        }
    } else if s[j] == '{' {
        let m = skip_ws(s, j + 1);
        if j + 1 <= m && m < s.len() && s[m] == '}' {
            Some((JsonView::Obj(Seq::empty()), m + 1))
        } else {
            match sp_members(s, j + 1) {
                Some((ms, k)) => Some((JsonView::Obj(ms), k)),
                None => None,
            }
        }
    } else if s[j] == '-' || is_digit(s[j]) {
        match sp_number(s, j) {
            Some((t, k)) => Some((JsonView::Num(t), k)),
            None => None,
        }
    } else {
        None
    }
}

/// One or more comma-separated values, ending just past the closing
/// bracket.
pub open spec fn sp_elems(s: Seq<char>, i: int) -> Option<(Seq<JsonView>, int)>
    decreases s.len() - i, 2int,
{
    match sp_value(s, i) {
        None => None,
        Some((v, k)) => {
            let m = skip_ws(s, k);
            if m < s.len() && s[m] == ',' {
                if i < m + 1 {
                    match sp_elems(s, m + 1) {
                        Some((es, r)) => Some((seq![v] + es, r)),
                        None => None,
                    }
                } else {
                    None
                }
            } else if m < s.len() && s[m] == ']' {
                Some((seq![v], m + 1))
            } else {
                None
            }
        }
    }
}

/// One or more comma-separated `"key": value` members, ending just past
/// the closing brace.
pub open spec fn sp_members(s: Seq<char>, i: int) -> Option<(Seq<(Seq<char>, JsonView)>, int)>
    decreases s.len() - i, 2int,
{
    let j = skip_ws(s, i);
    if j < i || j >= s.len() || s[j] != '"' {
        None
    } else {
        match sp_string(s, j + 1) {
            None => None,
            Some((key, k)) => {
                let m = skip_ws(s, k);
                if m < s.len() && s[m] == ':' {
                    if i < m + 1 {
                        match sp_value(s, m + 1) {
                            None => None,
                            Some((v, k2)) => {
                                let m2 = skip_ws(s, k2);
                                if m2 < s.len() && s[m2] == ',' {
                                    if i < m2 + 1 {
                                        match sp_members(s, m2 + 1) {
                                            Some((ms, r)) => Some((seq![(key, v)] + ms, r)),
                                            None => None,
                                        }
                                    } else {
                                        None
                                    }
                                } else if m2 < s.len() && s[m2] == '}' {
                                    Some((seq![(key, v)], m2 + 1))
                                } else {
                                    None
                                }
                            },
                        }
                    } else {
                        None
                    }
                } else {
                    None
                }
            },
        }
    }
}

/// A whole JSON document: one value with nothing but whitespace around it.
pub open spec fn sp_json(s: Seq<char>) -> Option<JsonView> {
    match sp_value(s, 0) {
        Some((v, k)) => if 0 <= k <= s.len() && skip_ws(s, k) == s.len() {
            Some(v)
        } else {
            None
        },
        None => None,
    }
}

// ---------------------------------------------------------------------------
// The printer: the canonical text of a JSON value.  The printer emits no
// whitespace, escapes only what must be escaped, and writes control
// characters as lower-case `\u00..` escapes.
// ---------------------------------------------------------------------------

/// The printed form of one string character.
pub open spec fn esc_char(c: char) -> Seq<char> {
    if c == '"' {
        seq!['\\', '"']
    } else if c == '\\' {
        seq!['\\', '\\']
    } else if (c as u32) < 0x20 {
        seq!['\\', 'u', '0', '0', hex_char(c as u32 as int / 16), hex_char(c as u32 as int % 16)]
    } else {
        seq![c]
    }
}

/// The printed body of a string literal.
pub open spec fn ser_str_body(t: Seq<char>) -> Seq<char>
    decreases t.len(),
{
    if t.len() == 0 {
        Seq::empty()
    } else {
        esc_char(t[0]) + ser_str_body(t.drop_first())
    }
}

/// The printed form of a string literal, quotes included.
pub open spec fn ser_string(t: Seq<char>) -> Seq<char> {
    seq!['"'] + ser_str_body(t) + seq!['"']
}

/// The printed form of a JSON value.
pub open spec fn ser_value(j: JsonView) -> Seq<char>
    decreases j, 1int,
{
    match j {
        JsonView::Null => seq!['n', 'u', 'l', 'l'],
        JsonView::Bool(b) => if b {
            seq!['t', 'r', 'u', 'e']
        } else {
            seq!['f', 'a', 'l', 's', 'e']
        },
        JsonView::Num(t) => t,
        JsonView::Str(t) => ser_string(t),
        JsonView::Arr(es) => seq!['['] + ser_elems(es) + seq![']'],
        JsonView::Obj(ms) => seq!['{'] + ser_members(ms) + seq!['}'],
    }
}

/// The printed, comma-separated elements of an array.
pub open spec fn ser_elems(es: Seq<JsonView>) -> Seq<char>
    decreases es, 2int,
{
    if es.len() == 0 {
        Seq::empty()
    } else if es.len() == 1 {
        ser_value(es[0])
    } else {
        ser_value(es[0]) + seq![','] + ser_elems(es.drop_first())
    }
}

/// The printed form of one object member.
pub open spec fn ser_member(m: (Seq<char>, JsonView)) -> Seq<char>
    decreases m, 1int,
{
    ser_string(m.0) + seq![':'] + ser_value(m.1)
}

/// The printed, comma-separated members of an object.
pub open spec fn ser_members(ms: Seq<(Seq<char>, JsonView)>) -> Seq<char>
    decreases ms, 2int,
{
    if ms.len() == 0 {
        Seq::empty()
    } else if ms.len() == 1 {
        ser_member(ms[0])
    } else {
        ser_member(ms[0]) + seq![','] + ser_members(ms.drop_first())
    }
}

pub proof fn lemma_ser_str_body_snoc(u: Seq<char>, c: char)
    ensures
        ser_str_body(u.push(c)) == ser_str_body(u) + esc_char(c),
    decreases u.len(),
{
    if u.len() == 0 {
        assert(u.push(c)[0] == c);
        assert(u.push(c).drop_first() =~= Seq::<char>::empty());
        assert(ser_str_body(Seq::<char>::empty()) == Seq::<char>::empty());
        assert(ser_str_body(u) == Seq::<char>::empty());
        assert(esc_char(c) + Seq::<char>::empty() =~= esc_char(c));
        assert(Seq::<char>::empty() + esc_char(c) =~= esc_char(c));
    } else {
        assert(u.push(c)[0] == u[0]);
        assert(u.push(c).drop_first() =~= u.drop_first().push(c));
        lemma_ser_str_body_snoc(u.drop_first(), c);
        assert(esc_char(u[0]) + (ser_str_body(u.drop_first()) + esc_char(c)) =~= (esc_char(u[0])
            + ser_str_body(u.drop_first())) + esc_char(c));
    }
}

pub proof fn lemma_ser_elems_snoc(es: Seq<JsonView>, x: JsonView)
    ensures
        ser_elems(es.push(x)) == if es.len() == 0 {
            ser_value(x)
        } else {
            ser_elems(es) + seq![','] + ser_value(x)
        },
    decreases es.len(),
{
    let es2 = es.push(x);
    if es.len() == 0 {
        assert(es2[0] == x);
    } else if es.len() == 1 {
        assert(es2[0] == es[0]);
        assert(es2.drop_first() =~= seq![x]);
        assert(seq![x][0] == x);
        assert(ser_elems(seq![x]) == ser_value(x));
    } else {
        assert(es2[0] == es[0]);
        assert(es2.drop_first() =~= es.drop_first().push(x));
        lemma_ser_elems_snoc(es.drop_first(), x);
        assert(ser_value(es[0]) + seq![','] + (ser_elems(es.drop_first()) + seq![','] + ser_value(
            x,
        )) =~= (ser_value(es[0]) + seq![','] + ser_elems(es.drop_first())) + seq![','] + ser_value(
            x,
        ));
    }
}

pub proof fn lemma_ser_members_snoc(ms: Seq<(Seq<char>, JsonView)>, x: (Seq<char>, JsonView))
    ensures
        ser_members(ms.push(x)) == if ms.len() == 0 {
            ser_member(x)
        } else {
            ser_members(ms) + seq![','] + ser_member(x)
        },
    decreases ms.len(),
{
    let ms2 = ms.push(x);
    if ms.len() == 0 {
        assert(ms2[0] == x);
    } else if ms.len() == 1 {
        assert(ms2[0] == ms[0]);
        assert(ms2.drop_first() =~= seq![x]);
        assert(seq![x][0] == x);
        assert(ser_members(seq![x]) == ser_member(x));
    } else {
        assert(ms2[0] == ms[0]);
        assert(ms2.drop_first() =~= ms.drop_first().push(x));
        lemma_ser_members_snoc(ms.drop_first(), x);
        assert(ser_member(ms[0]) + seq![','] + (ser_members(ms.drop_first()) + seq![',']
            + ser_member(x)) =~= (ser_member(ms[0]) + seq![','] + ser_members(ms.drop_first()))
            + seq![','] + ser_member(x));
    }
}

/// A complete number token: a text the number grammar accepts whole.
pub open spec fn number_token(t: Seq<char>) -> bool {
    sp_number(t, 0) == Some((t, t.len() as int))
}

/// A character that could lengthen a number token it follows.
pub open spec fn extends_number(c: char) -> bool {
    is_digit(c) || c == '.' || c == 'e' || c == 'E'
}

/// Values the printed form of which parses back: every number text in the
/// value is a complete token of the number grammar.  Every value the
/// library itself builds satisfies this — the parser only stores complete
/// tokens, and the registry schema has no numeric field at all.
pub open spec fn json_wf(j: JsonView) -> bool
    decreases j, 1int,
{
    match j {
        JsonView::Null => true,
        JsonView::Bool(_) => true,
        JsonView::Num(t) => number_token(t),
        JsonView::Str(_) => true,
        JsonView::Arr(es) => json_wf_elems(es),
        JsonView::Obj(ms) => json_wf_members(ms),
    }
}

/// Every element printable and parseable back.
pub open spec fn json_wf_elems(es: Seq<JsonView>) -> bool
    decreases es, 2int,
{
    forall|i: int| 0 <= i < es.len() ==> json_wf(#[trigger] es[i])
}

/// Every member value printable and parseable back.
pub open spec fn json_wf_members(ms: Seq<(Seq<char>, JsonView)>) -> bool
    decreases ms, 2int,
{
    forall|i: int| 0 <= i < ms.len() ==> json_wf(#[trigger] ms[i].1)
}

} // verus!
