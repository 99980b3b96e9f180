//! Reading and writing JSON text: an executable parser and printer for the
//! value model, each proved to agree with the grammar specification.

use vstd::prelude::*;
use vstd::string::StrSliceExecFns;
use crate::json::{
    digit_run, hex_char, hex_val, is_hex, json_member_views, json_views, lemma_digit_run_bounds,
    lemma_json_member_views_index, lemma_json_member_views_push, lemma_json_views_index,
    lemma_json_views_push, lemma_ser_elems_snoc, lemma_ser_members_snoc, lemma_ser_str_body_snoc,
    ser_elems, ser_members, ser_str_body, ser_string, ser_value, skip_ws, sp_elems, sp_json,
    sp_members, sp_number, sp_string, sp_value, Json, JsonView,
};

verus! {

/// Relies on std's `FromIterator` for `String`: collecting characters
/// yields the string of exactly those characters, in order.
#[verifier::external_body]
fn chars_to_string(cs: &[char]) -> (r: String)
    ensures
        r@ == cs@,
{
    cs.iter().collect()
}

/// Relies on std's `char::from_u32`: `Some` exactly for Unicode scalar
/// values (below the surrogate range or above it, up to 0x10FFFF), and the
/// returned character has the given scalar value.
#[verifier::external_body]
fn char_from_u32(v: u32) -> (r: Option<char>)
    ensures
        r is Some <==> (v < 0xD800 || (0xE000 <= v && v < 0x110000)),
        r is Some ==> r.unwrap() as u32 == v,
{
    char::from_u32(v)
}

/// The characters of a text, in order.
pub fn str_to_chars(s: &str) -> (r: Vec<char>)
    ensures
        r@ == s@,
{
    let n = s.unicode_len();
    let mut r: Vec<char> = Vec::new();
    let mut i: usize = 0;
    while i < n
        invariant
            n == s@.len(),
            i <= n,
            r@ == s@.subrange(0, i as int),
        decreases n - i,
    {
        r.push(s.get_char(i));
        proof {
            assert(r@ =~= s@.subrange(0, i + 1));
        }
        i = i + 1;
    }
    proof {
        assert(s@.subrange(0, n as int) =~= s@);
    }
    r
}

fn skip_ws_at(s: &Vec<char>, i: usize) -> (r: usize)
    requires
        i <= s.len(),
    ensures
        r as int == skip_ws(s@, i as int),
        i <= r <= s.len(),
{
    let mut j: usize = i;
    while j < s.len() && (s[j] == ' ' || s[j] == '\n' || s[j] == '\r' || s[j] == '\t')
        invariant
            i <= j <= s.len(),
            skip_ws(s@, i as int) == skip_ws(s@, j as int),
        decreases s.len() - j,
    {
        j = j + 1;
    }
    j
}

fn digit_run_at(s: &Vec<char>, i: usize) -> (r: usize)
    requires
        i <= s.len(),
    ensures
        r as int == digit_run(s@, i as int),
        i <= r <= s.len(),
{
    let mut j: usize = i;
    while j < s.len() && (s[j] as u32) >= 48 && (s[j] as u32) <= 57
        invariant
            i <= j <= s.len(),
            digit_run(s@, i as int) == digit_run(s@, j as int),
        decreases s.len() - j,
    {
        j = j + 1;
    }
    j
}

/// A number token starting exactly at `i`.
#[verifier::loop_isolation(false)]
fn parse_number(s: &Vec<char>, i: usize) -> (r: Option<(String, usize)>)
    requires
        i <= s.len(),
    ensures
        match r {
            Some(p) => sp_number(s@, i as int) == Some((p.0@, p.1 as int)) && i < p.1 <= s.len(),
            None => sp_number(s@, i as int) is None,
        },
{
    if i >= s.len() {
        return None;
    }
    let j: usize = if s[i] == '-' {
        i + 1
    } else {
        i
    };
    if j >= s.len() {
        return None;
    }
    let cj = s[j];
    if !(48 <= cj as u32 && cj as u32 <= 57) {
        return None;
    }
    let j2: usize = if cj == '0' {
        j + 1
    } else {
        digit_run_at(s, j)
    };
    let mut end: usize = j2;
    if j2 < s.len() && s[j2] == '.' {
        if j2 + 1 < s.len() && 48 <= s[j2 + 1] as u32 && s[j2 + 1] as u32 <= 57 {
            end = digit_run_at(s, j2 + 1);
        } else {
            return None;
        }
    }
    let j3: usize = end;
    if j3 < s.len() && (s[j3] == 'e' || s[j3] == 'E') {
        let j5: usize = if j3 + 1 < s.len() && (s[j3 + 1] == '+' || s[j3 + 1] == '-') {
            j3 + 2
        } else {
            j3 + 1
        };
        if j5 < s.len() && 48 <= s[j5] as u32 && s[j5] as u32 <= 57 {
            end = digit_run_at(s, j5);
        } else {
            return None;
        }
    }
    proof {
        if !(cj == '0') {
            lemma_digit_run_bounds(s@, j as int + 1);
        }
    }
    let token = chars_to_string(vstd::slice::slice_subrange(s.as_slice(), i, end));
    Some((token, end))
}

/// The body of a string literal, from just after the opening quote to just
/// past the closing one.
#[verifier::loop_isolation(false)]
fn parse_string_body(s: &Vec<char>, i: usize) -> (r: Option<(String, usize)>)
    requires
        i <= s.len(),
    ensures
        match r {
            Some(p) => sp_string(s@, i as int) == Some((p.0@, p.1 as int)) && i < p.1 <= s.len(),
            None => sp_string(s@, i as int) is None,
        },
{
    let mut acc: Vec<char> = Vec::new();
    let mut j: usize = i;
    loop
        invariant
            i <= j <= s.len(),
            (match sp_string(s@, j as int) {
                Some((t, k)) => sp_string(s@, i as int) == Some((acc@ + t, k)),
                None => sp_string(s@, i as int) is None,
            }),
        decreases s.len() - j,
    {
        if j >= s.len() {
            return None;
        }
        let c = s[j];
        if c == '"' {
            proof {
                assert(acc@ + Seq::<char>::empty() =~= acc@);
            }
            return Some((chars_to_string(acc.as_slice()), j + 1));
        } else if c == '\\' {
            if j + 1 >= s.len() {
                return None;
            }
            let e = s[j + 1];
            if e == 'u' {
                if s.len() - j < 6 {
                    return None;
                }
                let h1 = hex_digit(s[j + 2]);
                let h2 = hex_digit(s[j + 3]);
                let h3 = hex_digit(s[j + 4]);
                let h4 = hex_digit(s[j + 5]);
                match (h1, h2, h3, h4) {
                    (Some(d1), Some(d2), Some(d3), Some(d4)) => {
                        let v: u32 = d1 * 4096 + d2 * 256 + d3 * 16 + d4;
                        if !(v < 0xD800 || 0xE000 <= v) {
                            return None;
                        }
                        match char_from_u32(v) {
                            Some(c2) => {
                                proof {
                                    vstd::utf8::char_u32_cast(c2, v);
                                    let tail = sp_string(s@, j + 6int);
                                    if tail is Some {
                                        assert(acc@ + (seq![c2] + tail.unwrap().0) =~= (acc@
                                            + seq![c2]) + tail.unwrap().0);
                                    }
                                }
                                acc.push(c2);
                                j = j + 6;
                            },
                            None => {
                                proof {
                                    assert(false);
                                }
                                return None;
                            },
                        }
                    },
                    _ => {
                        return None;
                    },
                }
            } else {
                let c2: char;
                if e == '"' {
                    c2 = '"';
                } else if e == '\\' {
                    c2 = '\\';
                } else if e == '/' {
                    c2 = '/';
                } else if e == 'b' {
                    c2 = '\u{0008}';
                } else if e == 'f' {
                    c2 = '\u{000C}';
                } else if e == 'n' {
                    c2 = '\n';
                } else if e == 'r' {
                    c2 = '\r';
                } else if e == 't' {
                    c2 = '\t';
                } else {
                    return None;
                }
                proof {
                    let tail = sp_string(s@, j + 2int);
                    if tail is Some {
                        assert(acc@ + (seq![c2] + tail.unwrap().0) =~= (acc@ + seq![c2])
                            + tail.unwrap().0);
                    }
                }
                acc.push(c2);
                j = j + 2;
            }
        } else if (c as u32) < 0x20 {
            return None;
        } else {
            proof {
                let tail = sp_string(s@, j + 1int);
                if tail is Some {
                    assert(acc@ + (seq![c] + tail.unwrap().0) =~= (acc@ + seq![c])
                        + tail.unwrap().0);
                }
            }
            acc.push(c);
            j = j + 1;
        }
    }
}

/// A JSON value, preceded by optional whitespace.
#[verifier::loop_isolation(false)]
pub fn parse_value(s: &Vec<char>, i: usize) -> (r: Option<(Json, usize)>)
    requires
        i <= s.len(),
    ensures
        match r {
            Some(p) => sp_value(s@, i as int) == Some((p.0@, p.1 as int)) && i < p.1 <= s.len(),
            None => sp_value(s@, i as int) is None,
        },
    decreases s.len() - i, 1int,
{
    let j = skip_ws_at(s, i);
    if j >= s.len() {
        return None;
    }
    let c = s[j];
    if c == 'n' {
        if s.len() - j >= 4 && s[j + 1] == 'u' && s[j + 2] == 'l' && s[j + 3] == 'l' {
            return Some((Json::Null, j + 4));
        }
        return None;
    }
    if c == 't' {
        if s.len() - j >= 4 && s[j + 1] == 'r' && s[j + 2] == 'u' && s[j + 3] == 'e' {
            return Some((Json::Bool(true), j + 4));
        }
        return None;
    }
    if c == 'f' {
        if s.len() - j >= 5 && s[j + 1] == 'a' && s[j + 2] == 'l' && s[j + 3] == 's' && s[j + 4]
            == 'e' {
            return Some((Json::Bool(false), j + 5));
        }
        return None;
    }
    if c == '"' {
        match parse_string_body(s, j + 1) {
            Some(p) => {
                return Some((Json::Str(p.0), p.1));
            },
            None => {
                return None;
            },
        }
    }
    if c == '[' {
        let m = skip_ws_at(s, j + 1);
        if m < s.len() && s[m] == ']' {
            return Some((Json::Arr(Vec::new()), m + 1));
        }
        let mut elems: Vec<Json> = Vec::new();
        let mut cur: usize = j + 1;
        proof {
            let r0 = sp_elems(s@, (j + 1) as int);
            if r0 is Some {
                assert(json_views(Seq::<Json>::empty()) + r0.unwrap().0 =~= r0.unwrap().0);
            }
        }
        loop
            invariant
                j < cur <= s.len(),
                (match sp_elems(s@, cur as int) {
                    Some(es) => sp_elems(s@, (j + 1) as int) == Some(
                        (json_views(elems@) + es.0, es.1),
                    ),
                    None => sp_elems(s@, (j + 1) as int) is None,
                }),
            decreases s.len() - cur,
        {
            match parse_value(s, cur) {
                None => {
                    return None;
                },
                Some(p) => {
                    let v = p.0;
                    let k = p.1;
                    let m2 = skip_ws_at(s, k);
                    if m2 < s.len() && s[m2] == ',' {
                        proof {
                            lemma_json_views_push(elems@, v);
                            let rest = sp_elems(s@, (m2 + 1) as int);
                            if rest is Some {
                                assert(json_views(elems@) + (seq![v@] + rest.unwrap().0)
                                    =~= json_views(elems@.push(v)) + rest.unwrap().0);
                            }
                        }
                        elems.push(v);
                        cur = m2 + 1;
                    } else if m2 < s.len() && s[m2] == ']' {
                        proof {
                            lemma_json_views_push(elems@, v);
                            assert(json_views(elems@) + seq![v@] =~= json_views(elems@.push(v)));
                        }
                        elems.push(v);
                        return Some((Json::Arr(elems), m2 + 1));
                    } else {
                        return None;
                    }
                },
            }
        }
    }
    if c == '{' {
        let m = skip_ws_at(s, j + 1);
        if m < s.len() && s[m] == '}' {
            return Some((Json::Obj(Vec::new()), m + 1));
        }
        let mut members: Vec<(String, Json)> = Vec::new();
        let mut cur: usize = j + 1;
        proof {
            let r0 = sp_members(s@, (j + 1) as int);
            if r0 is Some {
                assert(json_member_views(Seq::<(String, Json)>::empty()) + r0.unwrap().0
                    =~= r0.unwrap().0);
            }
        }
        loop
            invariant
                j < cur <= s.len(),
                (match sp_members(s@, cur as int) {
                    Some(ms) => sp_members(s@, (j + 1) as int) == Some(
                        (json_member_views(members@) + ms.0, ms.1),
                    ),
                    None => sp_members(s@, (j + 1) as int) is None,
                }),
            decreases s.len() - cur,
        {
            let jk = skip_ws_at(s, cur);
            if jk >= s.len() {
                return None;
            }
            if !(s[jk] == '"') {
                return None;
            }
            match parse_string_body(s, jk + 1) {
                None => {
                    return None;
                },
                Some(kp) => {
                    let key = kp.0;
                    let k = kp.1;
                    let m1 = skip_ws_at(s, k);
                    if !(m1 < s.len() && s[m1] == ':') {
                        return None;
                    }
                    match parse_value(s, m1 + 1) {
                        None => {
                            return None;
                        },
                        Some(p) => {
                            let v = p.0;
                            let k2 = p.1;
                            let m2 = skip_ws_at(s, k2);
                            if m2 < s.len() && s[m2] == ',' {
                                proof {
                                    lemma_json_member_views_push(members@, (key, v));
                                    let rest = sp_members(s@, (m2 + 1) as int);
                                    if rest is Some {
                                        assert(json_member_views(members@) + (seq![(key@, v@)]
                                            + rest.unwrap().0) =~= json_member_views(
                                            members@.push((key, v)),
                                        ) + rest.unwrap().0);
                                    }
                                }
                                members.push((key, v));
                                cur = m2 + 1;
                            } else if m2 < s.len() && s[m2] == '}' {
                                proof {
                                    lemma_json_member_views_push(members@, (key, v));
                                    assert(json_member_views(members@) + seq![(key@, v@)]
                                        =~= json_member_views(members@.push((key, v))));
                                }
                                members.push((key, v));
                                return Some((Json::Obj(members), m2 + 1));
                            } else {
                                return None;
                            }
                        },
                    }
                },
            }
        }
    }
    if c == '-' || (48 <= c as u32 && c as u32 <= 57) {
        match parse_number(s, j) {
            Some(p) => {
                return Some((Json::Num(p.0), p.1));
            },
            None => {
                return None;
            },
        }
    }
    None
}

/// A whole JSON document.
pub fn parse_json(text: &str) -> (r: Option<Json>)
    ensures
        match r {
            Some(j) => sp_json(text@) == Some(j@),
            None => sp_json(text@) is None,
        },
{
    let cs = str_to_chars(text);
    match parse_value(&cs, 0) {
        None => None,
        Some(p) => {
            let e = skip_ws_at(&cs, p.1);
            if e == cs.len() {
                Some(p.0)
            } else {
                None
            }
        },
    }
}

/// The character of one hexadecimal value below sixteen.
fn hex_char_of(d: u32) -> (r: char)
    requires
        d < 16,
    ensures
        r == hex_char(d as int),
{
    if d == 0 { '0' } else if d == 1 { '1' } else if d == 2 { '2' } else if d == 3 { '3' }
    else if d == 4 { '4' } else if d == 5 { '5' } else if d == 6 { '6' } else if d == 7 { '7' }
    else if d == 8 { '8' } else if d == 9 { '9' } else if d == 10 { 'a' } else if d == 11 { 'b' }
    else if d == 12 { 'c' } else if d == 13 { 'd' } else if d == 14 { 'e' } else { 'f' }
}

fn write_chars(cs: &Vec<char>, out: &mut Vec<char>)
    ensures
        final(out)@ == old(out)@ + cs@,
{
    proof {
        assert(out@ =~= old(out)@ + cs@.subrange(0, 0));
    }
    let mut i: usize = 0;
    while i < cs.len()
        invariant
            i <= cs.len(),
            out@ == old(out)@ + cs@.subrange(0, i as int),
        decreases cs.len() - i,
    {
        out.push(cs[i]);
        proof {
            assert(out@ =~= old(out)@ + cs@.subrange(0, i + 1));
        }
        i = i + 1;
    }
    proof {
        assert(cs@.subrange(0, cs@.len() as int) =~= cs@);
    }
}

/// One string literal, quotes and escapes included.
fn write_str_literal(t: &str, out: &mut Vec<char>)
    ensures
        final(out)@ == old(out)@ + ser_string(t@),
{
    out.push('"');
    proof {
        assert(out@ =~= old(out)@ + seq!['"'] + ser_str_body(t@.subrange(0, 0)));
    }
    let cs = str_to_chars(t);
    let mut i: usize = 0;
    while i < cs.len()
        invariant
            i <= cs.len(),
            cs@ == t@,
            out@ == old(out)@ + seq!['"'] + ser_str_body(t@.subrange(0, i as int)),
        decreases cs.len() - i,
    {
        let c = cs[i];
        proof {
            lemma_ser_str_body_snoc(t@.subrange(0, i as int), c);
            assert(t@.subrange(0, i + 1) =~= t@.subrange(0, i as int).push(c));
        }
        if c == '"' {
            out.push('\\');
            out.push('"');
        } else if c == '\\' {
            out.push('\\');
            out.push('\\');
        } else {
            let u = c as u32;
            if u < 0x20 {
                out.push('\\');
                out.push('u');
                out.push('0');
                out.push('0');
                out.push(hex_char_of(u / 16));
                out.push(hex_char_of(u % 16));
            } else {
                out.push(c);
            }
        }
        proof {
            assert(out@ =~= old(out)@ + seq!['"'] + ser_str_body(t@.subrange(0, i + 1)));
        }
        i = i + 1;
    }
    out.push('"');
    proof {
        assert(t@.subrange(0, t@.len() as int) =~= t@);
        assert(out@ =~= old(out)@ + ser_string(t@));
    }
}

/// The printed form of a JSON value, appended to `out`.
#[verifier::loop_isolation(false)]
fn write_value(j: &Json, out: &mut Vec<char>)
    ensures
        final(out)@ == old(out)@ + ser_value(j@),
    decreases *j,
{
    match j {
        Json::Null => {
            out.push('n');
            out.push('u');
            out.push('l');
            out.push('l');
            proof {
                assert(out@ =~= old(out)@ + ser_value(j@));
            }
        },
        Json::Bool(b) => {
            if *b {
                out.push('t');
                out.push('r');
                out.push('u');
                out.push('e');
            } else {
                out.push('f');
                out.push('a');
                out.push('l');
                out.push('s');
                out.push('e');
            }
            proof {
                assert(out@ =~= old(out)@ + ser_value(j@));
            }
        },
        Json::Num(t) => {
            let cs = str_to_chars(t.as_str());
            write_chars(&cs, out);
        },
        Json::Str(t) => {
            write_str_literal(t.as_str(), out);
        },
        Json::Arr(v) => {
            out.push('[');
            proof {
                assert(json_views(v@).subrange(0, 0) =~= Seq::<JsonView>::empty());
                assert(out@ =~= old(out)@ + seq!['['] + ser_elems(json_views(v@).subrange(0, 0)));
            }
            let mut idx: usize = 0;
            while idx < v.len()
                invariant
                    idx <= v.len(),
                    out@ == old(out)@ + seq!['['] + ser_elems(
                        json_views(v@).subrange(0, idx as int),
                    ),
                decreases v.len() - idx,
            {
                if idx > 0 {
                    out.push(',');
                }
                proof {
                    lemma_json_views_index(v@);
                    assert(decreases_to!(*j => *v));
                    assert(decreases_to!(*v => v@));
                    assert(decreases_to!(v@ => v@[idx as int]));
                }
                write_value(&v[idx], out);
                proof {
                    lemma_ser_elems_snoc(
                        json_views(v@).subrange(0, idx as int),
                        json_views(v@)[idx as int],
                    );
                    assert(json_views(v@).subrange(0, idx + 1) =~= json_views(v@).subrange(
                        0,
                        idx as int,
                    ).push(json_views(v@)[idx as int]));
                    assert(out@ =~= old(out)@ + seq!['['] + ser_elems(
                        json_views(v@).subrange(0, idx + 1),
                    ));
                }
                idx = idx + 1;
            }
            out.push(']');
            proof {
                lemma_json_views_index(v@);
                assert(json_views(v@).subrange(0, json_views(v@).len() as int) =~= json_views(v@));
                assert(out@ =~= old(out)@ + ser_value(j@));
            }
        },
        Json::Obj(v) => {
            out.push('{');
            proof {
                assert(json_member_views(v@).subrange(0, 0) =~= Seq::<(Seq<char>, JsonView)>::empty());
                assert(out@ =~= old(out)@ + seq!['{'] + ser_members(
                    json_member_views(v@).subrange(0, 0),
                ));
            }
            let mut idx: usize = 0;
            while idx < v.len()
                invariant
                    idx <= v.len(),
                    out@ == old(out)@ + seq!['{'] + ser_members(
                        json_member_views(v@).subrange(0, idx as int),
                    ),
                decreases v.len() - idx,
            {
                if idx > 0 {
                    out.push(',');
                }
                write_str_literal(v[idx].0.as_str(), out);
                out.push(':');
                proof {
                    lemma_json_member_views_index(v@);
                    assert(decreases_to!(*j => *v));
                    assert(decreases_to!(*v => v@));
                    assert(decreases_to!(v@ => v@[idx as int]));
                    assert(decreases_to!(v@[idx as int] => v@[idx as int].1));
                }
                write_value(&v[idx].1, out);
                proof {
                    lemma_ser_members_snoc(
                        json_member_views(v@).subrange(0, idx as int),
                        json_member_views(v@)[idx as int],
                    );
                    assert(json_member_views(v@).subrange(0, idx + 1) =~= json_member_views(
                        v@,
                    ).subrange(0, idx as int).push(json_member_views(v@)[idx as int]));
                    assert(out@ =~= old(out)@ + seq!['{'] + ser_members(
                        json_member_views(v@).subrange(0, idx + 1),
                    ));
                }
                idx = idx + 1;
            }
            out.push('}');
            proof {
                lemma_json_member_views_index(v@);
                assert(json_member_views(v@).subrange(0, json_member_views(v@).len() as int)
                    =~= json_member_views(v@));
                assert(out@ =~= old(out)@ + ser_value(j@));
            }
        },
    }
}

/// The canonical text of a JSON value.
pub fn json_to_text(j: &Json) -> (r: String)
    ensures
        r@ == ser_value(j@),
{
    let mut out: Vec<char> = Vec::new();
    write_value(j, &mut out);
    chars_to_string(out.as_slice())
}

/// The value of one hexadecimal digit character.
fn hex_digit(c: char) -> (r: Option<u32>)
    ensures
        r is Some <==> is_hex(c),
        r is Some ==> r.unwrap() as int == hex_val(c) && r.unwrap() < 16,
{
    let u = c as u32;
    if 48 <= u && u <= 57 {
        Some(u - 48)
    } else if 97 <= u && u <= 102 {
        Some(u - 87)
    } else if 65 <= u && u <= 70 {
        Some(u - 55)
    } else {
        None
    }
}

} // verus!
