//! The parser of the persisted task file: a JSON array of objects with a
//! `description` string and a `done` flag. The accepted grammar is stated
//! as a family of total specification functions over the text, and the
//! executable parser returns exactly what they denote. Whitespace between
//! tokens is free, the two members may come in either order, and string
//! literals may use the usual escapes: the short forms, `\u` forms of
//! scalar values, and surrogate pairs for scalars beyond `0xFFFF` (a lone
//! surrogate is malformed). The schema is deliberately exact: an object
//! must hold the two members and nothing else, so a member under any other
//! key is schema-mismatched content and fails the load.

use vstd::prelude::*;
use vstd::string::StrSliceExecFns;
use crate::task::{Task, TaskView, task_views};
use crate::text::{push_char, char_from_u32, spec_trim, trim_input};
use crate::command::str_eq;

verus! {

/// JSON whitespace between tokens.
pub open spec fn is_json_ws(c: char) -> bool {
    c == ' ' || c == '\t' || c == '\n' || c == '\r'
}

/// The first position at or after `i` that holds no whitespace.
pub open spec fn spec_skip_ws(s: Seq<char>, i: int) -> int
    decreases s.len() - i,
{
    if 0 <= i < s.len() && is_json_ws(s[i]) {
        spec_skip_ws(s, i + 1)
    } else {
        i
    }
}

pub proof fn lemma_skip_ws_bounds(s: Seq<char>, i: int)
    requires
        0 <= i <= s.len(),
    ensures
        i <= spec_skip_ws(s, i) <= s.len(),
        spec_skip_ws(s, i) < s.len() ==> !is_json_ws(s[spec_skip_ws(s, i)]),
    decreases s.len() - i,
{
    if i < s.len() && is_json_ws(s[i]) {
        lemma_skip_ws_bounds(s, i + 1);
    }
}

/// A hexadecimal digit of either case.
pub open spec fn is_hex_digit(c: char) -> bool {
    ('0' <= c && c <= '9') || ('a' <= c && c <= 'f') || ('A' <= c && c <= 'F')
}

/// The value of a hexadecimal digit.
pub open spec fn hex_val(c: char) -> int {
    if '0' <= c && c <= '9' {
        c as int - 48
    } else if 'a' <= c && c <= 'f' {
        c as int - 87
    } else {
        c as int - 55
    }
}

/// The character that a short escape stands for.
pub open spec fn unescape_simple(e: char) -> char {
    if e == 'b' {
        '\u{8}'
    } else if e == 'f' {
        '\u{c}'
    } else if e == 'n' {
        '\n'
    } else if e == 'r' {
        '\r'
    } else if e == 't' {
        '\t'
    } else {
        e
    }
}

/// Decodes a `\u` escape whose first hex digit stands at `i`: either one
/// scalar outside the surrogate range, or a high surrogate followed by
/// `\u` and a low surrogate, together one scalar beyond `0xFFFF`. Yields
/// the character and the position after the escape.
pub open spec fn spec_parse_u_escape(s: Seq<char>, i: int) -> Option<(char, int)> {
    if 0 <= i && i + 4 <= s.len() && is_hex_digit(s[i]) && is_hex_digit(s[i + 1])
        && is_hex_digit(s[i + 2]) && is_hex_digit(s[i + 3]) {
        let nv = hex_val(s[i]) * 4096 + hex_val(s[i + 1]) * 256 + hex_val(s[i + 2]) * 16
            + hex_val(s[i + 3]);
        if nv < 0xD800 || nv >= 0xE000 {
            Some((nv as char, i + 4))
        } else if nv < 0xDC00 {
            if i + 10 <= s.len() && s[i + 4] == '\\' && s[i + 5] == 'u' && is_hex_digit(
                s[i + 6],
            ) && is_hex_digit(s[i + 7]) && is_hex_digit(s[i + 8]) && is_hex_digit(s[i + 9]) {
                let nv2 = hex_val(s[i + 6]) * 4096 + hex_val(s[i + 7]) * 256 + hex_val(
                    s[i + 8],
                ) * 16 + hex_val(s[i + 9]);
                if 0xDC00 <= nv2 < 0xE000 {
                    Some(((0x10000 + (nv - 0xD800) * 0x400 + (nv2 - 0xDC00)) as char, i + 10))
                } else {
                    None
                }
            } else {
                None
            }
        } else {
            None
        }
    } else {
        None
    }
}

/// Parses the inside of a string literal, from just after the opening
/// quote to just after the closing one; yields the decoded characters and
/// the position after the literal.
pub open spec fn spec_parse_string_body(s: Seq<char>, i: int) -> Option<(Seq<char>, int)>
    decreases s.len() - i
        via spec_parse_string_body_decreases
{
    if !(0 <= i < s.len()) {
        None
    } else if s[i] == '"' {
        Some((Seq::empty(), i + 1))
    } else if s[i] == '\\' {
        if i + 1 < s.len() {
            let e = s[i + 1];
            if e == '"' || e == '\\' || e == '/' || e == 'b' || e == 'f' || e == 'n' || e == 'r'
                || e == 't' {
                match spec_parse_string_body(s, i + 2) {
                    Some((v, j)) => Some((seq![unescape_simple(e)] + v, j)),
                    None => None,
                }
            } else if e == 'u' {
                match spec_parse_u_escape(s, i + 2) {
                    Some((c2, j)) => match spec_parse_string_body(s, j) {
                        Some((v, k)) => Some((seq![c2] + v, k)),
                        None => None,
                    },
                    None => None,
                }
            } else {
                None
            }
        } else {
            None
        }
    } else if (s[i] as u32) < 0x20 {
        None
    } else {
        match spec_parse_string_body(s, i + 1) {
            Some((v, j)) => Some((seq![s[i]] + v, j)),
            None => None,
        }
    }
}

#[via_fn]
proof fn spec_parse_string_body_decreases(s: Seq<char>, i: int) {
    if 0 <= i < s.len() && s[i] == '\\' && i + 1 < s.len() && s[i + 1] == 'u' {
        match spec_parse_u_escape(s, i + 2) {
            Some((c2, j)) => {
                assert(j == i + 6 || j == i + 12);
            },
            None => {},
        }
    }
}

/// Parses a whole string literal at `i`.
pub open spec fn spec_parse_string(s: Seq<char>, i: int) -> Option<(Seq<char>, int)> {
    if 0 <= i < s.len() && s[i] == '"' {
        spec_parse_string_body(s, i + 1)
    } else {
        None
    }
}

/// Parses `true` or `false` at `i`.
pub open spec fn spec_parse_bool(s: Seq<char>, i: int) -> Option<(bool, int)> {
    if 0 <= i && i + 4 <= s.len() && s[i] == 't' && s[i + 1] == 'r' && s[i + 2] == 'u' && s[i
        + 3] == 'e' {
        Some((true, i + 4))
    } else if 0 <= i && i + 5 <= s.len() && s[i] == 'f' && s[i + 1] == 'a' && s[i + 2] == 'l'
        && s[i + 3] == 's' && s[i + 4] == 'e' {
        Some((false, i + 5))
    } else {
        None
    }
}

/// Parses a `"description": <string>` member at `i`.
pub open spec fn spec_parse_desc_member(s: Seq<char>, i: int) -> Option<(Seq<char>, int)> {
    match spec_parse_string(s, i) {
        Some((k, j)) => if k == "description"@ {
            let j2 = spec_skip_ws(s, j);
            if j2 < s.len() && s[j2] == ':' {
                spec_parse_string(s, spec_skip_ws(s, j2 + 1))
            } else {
                None
            }
        } else {
            None
        },
        None => None,
    }
}

/// Parses a `"done": <bool>` member at `i`.
pub open spec fn spec_parse_done_member(s: Seq<char>, i: int) -> Option<(bool, int)> {
    match spec_parse_string(s, i) {
        Some((k, j)) => if k == "done"@ {
            let j2 = spec_skip_ws(s, j);
            if j2 < s.len() && s[j2] == ':' {
                spec_parse_bool(s, spec_skip_ws(s, j2 + 1))
            } else {
                None
            }
        } else {
            None
        },
        None => None,
    }
}

/// Parses one task object at `i`: both members, in either order, exactly
/// once each; an object with any further member is rejected as a schema
/// mismatch.
pub open spec fn spec_parse_object(s: Seq<char>, i: int) -> Option<(TaskView, int)> {
    if 0 <= i < s.len() && s[i] == '{' {
        let j = spec_skip_ws(s, i + 1);
        match spec_parse_desc_member(s, j) {
            Some((d, j2)) => {
                let j3 = spec_skip_ws(s, j2);
                if j3 < s.len() && s[j3] == ',' {
                    match spec_parse_done_member(s, spec_skip_ws(s, j3 + 1)) {
                        Some((b, j4)) => {
                            let j5 = spec_skip_ws(s, j4);
                            if j5 < s.len() && s[j5] == '}' {
                                Some((TaskView { description: d, done: b }, j5 + 1))
                            } else {
                                None
                            }
                        },
                        None => None,
                    }
                } else {
                    None
                }
            },
            None => match spec_parse_done_member(s, j) {
                Some((b, j2)) => {
                    let j3 = spec_skip_ws(s, j2);
                    if j3 < s.len() && s[j3] == ',' {
                        match spec_parse_desc_member(s, spec_skip_ws(s, j3 + 1)) {
                            Some((d, j4)) => {
                                let j5 = spec_skip_ws(s, j4);
                                if j5 < s.len() && s[j5] == '}' {
                                    Some((TaskView { description: d, done: b }, j5 + 1))
                                } else {
                                    None
                                }
                            },
                            None => None,
                        }
                    } else {
                        None
                    }
                },
                None => None,
            },
        }
    } else {
        None
    }
}

pub proof fn lemma_parse_string_body_consumes(s: Seq<char>, i: int)
    requires
        spec_parse_string_body(s, i) is Some,
    ensures
        i < spec_parse_string_body(s, i)->Some_0.1 <= s.len(),
    decreases s.len() - i,
{
    if 0 <= i < s.len() && s[i] == '"' {
    } else if 0 <= i < s.len() && s[i] == '\\' {
        let e = s[i + 1];
        if e == '"' || e == '\\' || e == '/' || e == 'b' || e == 'f' || e == 'n' || e == 'r' || e
            == 't' {
            lemma_parse_string_body_consumes(s, i + 2);
        } else {
            match spec_parse_u_escape(s, i + 2) {
                Some((c2, j)) => {
                    assert(j == i + 6 || j == i + 12);
                    lemma_parse_string_body_consumes(s, j);
                },
                None => {},
            }
        }
    } else {
        lemma_parse_string_body_consumes(s, i + 1);
    }
}

pub proof fn lemma_parse_string_consumes(s: Seq<char>, i: int)
    requires
        spec_parse_string(s, i) is Some,
    ensures
        i < spec_parse_string(s, i)->Some_0.1 <= s.len(),
{
    lemma_parse_string_body_consumes(s, i + 1);
}

pub proof fn lemma_parse_desc_member_consumes(s: Seq<char>, i: int)
    requires
        spec_parse_desc_member(s, i) is Some,
    ensures
        i < spec_parse_desc_member(s, i)->Some_0.1 <= s.len(),
{
    lemma_parse_string_consumes(s, i);
    let (k, j) = spec_parse_string(s, i)->Some_0;
    lemma_skip_ws_bounds(s, j);
    let j2 = spec_skip_ws(s, j);
    lemma_skip_ws_bounds(s, j2 + 1);
    lemma_parse_string_consumes(s, spec_skip_ws(s, j2 + 1));
}

pub proof fn lemma_parse_done_member_consumes(s: Seq<char>, i: int)
    requires
        spec_parse_done_member(s, i) is Some,
    ensures
        i < spec_parse_done_member(s, i)->Some_0.1 <= s.len(),
{
    lemma_parse_string_consumes(s, i);
    let (k, j) = spec_parse_string(s, i)->Some_0;
    lemma_skip_ws_bounds(s, j);
    let j2 = spec_skip_ws(s, j);
    lemma_skip_ws_bounds(s, j2 + 1);
}

pub proof fn lemma_parse_object_consumes(s: Seq<char>, i: int)
    requires
        spec_parse_object(s, i) is Some,
    ensures
        i < spec_parse_object(s, i)->Some_0.1 <= s.len(),
{
    let j = spec_skip_ws(s, i + 1);
    lemma_skip_ws_bounds(s, i + 1);
    match spec_parse_desc_member(s, j) {
        Some((d, j2)) => {
            lemma_parse_desc_member_consumes(s, j);
            let j3 = spec_skip_ws(s, j2);
            lemma_skip_ws_bounds(s, j2);
            match spec_parse_done_member(s, spec_skip_ws(s, j3 + 1)) {
                Some((b, j4)) => {
                    lemma_skip_ws_bounds(s, j3 + 1);
                    lemma_parse_done_member_consumes(s, spec_skip_ws(s, j3 + 1));
                    lemma_skip_ws_bounds(s, j4);
                },
                None => {},
            }
        },
        None => {
            match spec_parse_done_member(s, j) {
                Some((b, j2)) => {
                    lemma_parse_done_member_consumes(s, j);
                    let j3 = spec_skip_ws(s, j2);
                    lemma_skip_ws_bounds(s, j2);
                    match spec_parse_desc_member(s, spec_skip_ws(s, j3 + 1)) {
                        Some((d, j4)) => {
                            lemma_skip_ws_bounds(s, j3 + 1);
                            lemma_parse_desc_member_consumes(s, spec_skip_ws(s, j3 + 1));
                            lemma_skip_ws_bounds(s, j4);
                        },
                        None => {},
                    }
                },
                None => {},
            }
        },
    }
}

/// Parses the items of a non-empty array, from just after the `[` or a
/// `,`, through the closing `]`.
pub open spec fn spec_parse_items(s: Seq<char>, i: int) -> Option<(Seq<TaskView>, int)>
    decreases s.len() - i
        when 0 <= i <= s.len()
        via spec_parse_items_decreases
{
    let j = spec_skip_ws(s, i);
    match spec_parse_object(s, j) {
        Some((tv, k)) => {
            let m = spec_skip_ws(s, k);
            if m < s.len() && s[m] == ',' {
                match spec_parse_items(s, m + 1) {
                    Some((vs, r)) => Some((seq![tv] + vs, r)),
                    None => None,
                }
            } else if m < s.len() && s[m] == ']' {
                Some((seq![tv], m + 1))
            } else {
                None
            }
        },
        None => None,
    }
}

#[via_fn]
proof fn spec_parse_items_decreases(s: Seq<char>, i: int) {
    lemma_skip_ws_bounds(s, i);
    let j = spec_skip_ws(s, i);
    if spec_parse_object(s, j) is Some {
        lemma_parse_object_consumes(s, j);
        let k = spec_parse_object(s, j)->Some_0.1;
        lemma_skip_ws_bounds(s, k);
    }
}

/// Parses a whole document: one array of task objects and nothing but
/// whitespace around it.
pub open spec fn spec_parse_tasks(s: Seq<char>) -> Option<Seq<TaskView>> {
    let i = spec_skip_ws(s, 0);
    if 0 <= i < s.len() && s[i] == '[' {
        let j = spec_skip_ws(s, i + 1);
        if j < s.len() && s[j] == ']' {
            if spec_skip_ws(s, j + 1) == s.len() {
                Some(Seq::empty())
            } else {
                None
            }
        } else {
            match spec_parse_items(s, i + 1) {
                Some((vs, k)) => if spec_skip_ws(s, k) == s.len() {
                    Some(vs)
                } else {
                    None
                },
                None => None,
            }
        }
    } else {
        None
    }
}

/// What loading the file's text yields: a file that is empty or holds
/// only Unicode whitespace stands for no tasks; anything else must parse
/// as the task array.
pub open spec fn spec_load_text(s: Seq<char>) -> Option<Seq<TaskView>> {
    if spec_trim(s).len() == 0 {
        Some(Seq::empty())
    } else {
        spec_parse_tasks(s)
    }
}

/// Tests whether a character is JSON whitespace.
fn is_json_ws_char(c: char) -> (r: bool)
    ensures
        r == is_json_ws(c),
{
    c == ' ' || c == '\t' || c == '\n' || c == '\r'
}

/// Advances over whitespace.
fn skip_ws_at(s: &str, i: usize) -> (j: usize)
    requires
        i <= s@.len(),
    ensures
        j as int == spec_skip_ws(s@, i as int),
        i <= j <= s@.len(),
{
    let n = s.unicode_len();
    let mut cur = i;
    while cur < n && is_json_ws_char(s.get_char(cur))
        invariant
            n == s@.len(),
            i <= cur <= n,
            spec_skip_ws(s@, i as int) == spec_skip_ws(s@, cur as int),
        decreases n - cur,
    {
        cur += 1;
    }
    cur
}

/// Tests whether a character is a hexadecimal digit.
fn is_hex_digit_char(c: char) -> (r: bool)
    ensures
        r == is_hex_digit(c),
{
    (c >= '0' && c <= '9') || (c >= 'a' && c <= 'f') || (c >= 'A' && c <= 'F')
}

/// The value of a hexadecimal digit.
fn hex_val_char(c: char) -> (v: u32)
    requires
        is_hex_digit(c),
    ensures
        v as int == hex_val(c),
        v < 16,
{
    if c >= '0' && c <= '9' {
        c as u32 - 48
    } else if c >= 'a' && c <= 'f' {
        c as u32 - 87
    } else {
        c as u32 - 55
    }
}

/// Parses a string literal at `i`, decoding its escapes.
fn parse_string_at(s: &str, i: usize) -> (r: Option<(String, usize)>)
    requires
        i <= s@.len(),
    ensures
        match r {
            Some(vj) => spec_parse_string(s@, i as int) == Some((vj.0@, vj.1 as int)) && i
                < vj.1 <= s@.len(),
            None => spec_parse_string(s@, i as int) is None,
        },
{
    let n = s.unicode_len();
    if i >= n || s.get_char(i) != '"' {
        return None;
    }
    let mut out = String::new();
    let mut cur: usize = i + 1;
    loop
        invariant
            n == s@.len(),
            i < n,
            s@[i as int] == '"',
            i + 1 <= cur <= n,
            (match spec_parse_string_body(s@, cur as int) {
                Some((v, j)) => spec_parse_string_body(s@, i + 1) == Some((out@ + v, j)),
                None => spec_parse_string_body(s@, i + 1) is None,
            }),
        decreases n - cur,
    {
        if cur >= n {
            return None;
        }
        let c = s.get_char(cur);
        if c == '"' {
            proof {
                assert(out@ + Seq::<char>::empty() =~= out@);
            }
            return Some((out, cur + 1));
        } else if c == '\\' {
            if cur + 1 >= n {
                return None;
            }
            let e = s.get_char(cur + 1);
            if e == '"' || e == '\\' || e == '/' || e == 'b' || e == 'f' || e == 'n' || e == 'r'
                || e == 't' {
                let d: char = if e == 'b' {
                    '\u{8}'
                } else if e == 'f' {
                    '\u{c}'
                } else if e == 'n' {
                    '\n'
                } else if e == 'r' {
                    '\r'
                } else if e == 't' {
                    '\t'
                } else {
                    e
                };
                assert(d == unescape_simple(e));
                let ghost out_pre = out@;
                push_char(&mut out, d);
                proof {
                    match spec_parse_string_body(s@, cur + 2) {
                        Some((v, j)) => {
                            assert(out_pre + (seq![d] + v) =~= out@ + v);
                        },
                        None => {},
                    }
                }
                cur = cur + 2;
            } else if e == 'u' {
                if n - cur < 6 {
                    proof {
                        assert(spec_parse_u_escape(s@, cur + 2) is None);
                    }
                    return None;
                }
                let c2 = s.get_char(cur + 2);
                let c3 = s.get_char(cur + 3);
                let c4 = s.get_char(cur + 4);
                let c5 = s.get_char(cur + 5);
                if !(is_hex_digit_char(c2) && is_hex_digit_char(c3) && is_hex_digit_char(c4)
                    && is_hex_digit_char(c5)) {
                    proof {
                        assert(spec_parse_u_escape(s@, cur + 2) is None);
                    }
                    return None;
                }
                let nv: u32 = hex_val_char(c2) * 4096 + hex_val_char(c3) * 256 + hex_val_char(
                    c4,
                ) * 16 + hex_val_char(c5);
                if nv < 0xD800 || nv >= 0xE000 {
                    let d = char_from_u32(nv);
                    proof {
                        let nvs = hex_val(s@[cur + 2]) * 4096 + hex_val(s@[cur + 3]) * 256
                            + hex_val(s@[cur + 4]) * 16 + hex_val(s@[cur + 5]);
                        assert(nv as int == nvs);
                        assert((nvs as char) as u32 == nv);
                        assert(d == (nvs as char));
                        assert(spec_parse_u_escape(s@, cur + 2) == Some((d, cur + 6)));
                    }
                    let ghost out_pre = out@;
                    push_char(&mut out, d);
                    proof {
                        match spec_parse_string_body(s@, cur + 6) {
                            Some((v, j)) => {
                                assert(out_pre + (seq![d] + v) =~= out@ + v);
                            },
                            None => {},
                        }
                    }
                    cur = cur + 6;
                } else if nv < 0xDC00 {
                    if n - cur < 12 {
                        proof {
                            assert(spec_parse_u_escape(s@, cur + 2) is None);
                        }
                        return None;
                    }
                    if !(s.get_char(cur + 6) == '\\' && s.get_char(cur + 7) == 'u') {
                        proof {
                            assert(spec_parse_u_escape(s@, cur + 2) is None);
                        }
                        return None;
                    }
                    let c8 = s.get_char(cur + 8);
                    let c9 = s.get_char(cur + 9);
                    let c10 = s.get_char(cur + 10);
                    let c11 = s.get_char(cur + 11);
                    if !(is_hex_digit_char(c8) && is_hex_digit_char(c9) && is_hex_digit_char(
                        c10,
                    ) && is_hex_digit_char(c11)) {
                        proof {
                            assert(spec_parse_u_escape(s@, cur + 2) is None);
                        }
                        return None;
                    }
                    let nv2: u32 = hex_val_char(c8) * 4096 + hex_val_char(c9) * 256
                        + hex_val_char(c10) * 16 + hex_val_char(c11);
                    if !(nv2 >= 0xDC00 && nv2 < 0xE000) {
                        proof {
                            assert(spec_parse_u_escape(s@, cur + 2) is None);
                        }
                        return None;
                    }
                    let scalar: u32 = 0x10000 + (nv - 0xD800) * 0x400 + (nv2 - 0xDC00);
                    let d = char_from_u32(scalar);
                    proof {
                        let nvs2 = hex_val(s@[cur + 8]) * 4096 + hex_val(s@[cur + 9]) * 256
                            + hex_val(s@[cur + 10]) * 16 + hex_val(s@[cur + 11]);
                        assert(nv2 as int == nvs2);
                        let scalars = 0x10000 + (nv as int - 0xD800) * 0x400 + (nvs2 - 0xDC00);
                        assert(scalar as int == scalars);
                        assert((scalars as char) as u32 == scalar);
                        assert(d == (scalars as char));
                        assert(spec_parse_u_escape(s@, cur + 2) == Some((d, cur + 12)));
                    }
                    let ghost out_pre = out@;
                    push_char(&mut out, d);
                    proof {
                        match spec_parse_string_body(s@, cur + 12) {
                            Some((v, j)) => {
                                assert(out_pre + (seq![d] + v) =~= out@ + v);
                            },
                            None => {},
                        }
                    }
                    cur = cur + 12;
                } else {
                    proof {
                        assert(spec_parse_u_escape(s@, cur + 2) is None);
                    }
                    return None;
                }
            } else {
                return None;
            }
        } else if (c as u32) < 0x20 {
            return None;
        } else {
            let ghost out_pre = out@;
            push_char(&mut out, c);
            proof {
                match spec_parse_string_body(s@, cur + 1) {
                    Some((v, j)) => {
                        assert(out_pre + (seq![c] + v) =~= out@ + v);
                    },
                    None => {},
                }
            }
            cur = cur + 1;
        }
    }
}

/// Parses `true` or `false` at `i`.
fn parse_bool_at(s: &str, i: usize) -> (r: Option<(bool, usize)>)
    requires
        i <= s@.len(),
    ensures
        match r {
            Some(bj) => spec_parse_bool(s@, i as int) == Some((bj.0, bj.1 as int)) && i < bj.1
                <= s@.len(),
            None => spec_parse_bool(s@, i as int) is None,
        },
{
    let n = s.unicode_len();
    if n - i >= 4 && s.get_char(i) == 't' && s.get_char(i + 1) == 'r' && s.get_char(i + 2)
        == 'u' && s.get_char(i + 3) == 'e' {
        Some((true, i + 4))
    } else if n - i >= 5 && s.get_char(i) == 'f' && s.get_char(i + 1) == 'a' && s.get_char(
        i + 2,
    ) == 'l' && s.get_char(i + 3) == 's' && s.get_char(i + 4) == 'e' {
        Some((false, i + 5))
    } else {
        None
    }
}

/// Parses one task object at `i`.
#[verifier::rlimit(60)]
fn parse_object_at(s: &str, i: usize) -> (r: Option<(Task, usize)>)
    requires
        i <= s@.len(),
    ensures
        match r {
            Some(tj) => spec_parse_object(s@, i as int) == Some((tj.0@, tj.1 as int)) && i
                < tj.1 <= s@.len(),
            None => spec_parse_object(s@, i as int) is None,
        },
{
    proof {
        reveal_strlit("description");
        reveal_strlit("done");
    }
    let n = s.unicode_len();
    if i >= n || s.get_char(i) != '{' {
        return None;
    }
    let j = skip_ws_at(s, i + 1);
    let key1 = match parse_string_at(s, j) {
        Some(kj) => kj,
        None => {
            proof {
                assert(spec_parse_desc_member(s@, j as int) is None);
                assert(spec_parse_done_member(s@, j as int) is None);
            }
            return None;
        },
    };
    let (k1, j2) = key1;
    if str_eq(k1.as_str(), "description") {
        proof {
            assert("description"@.len() == 11);
            assert("done"@.len() == 4);
            assert(k1@ != "done"@);
            assert(spec_parse_done_member(s@, j as int) is None);
        }
        let j3 = skip_ws_at(s, j2);
        if j3 >= n || s.get_char(j3) != ':' {
            return None;
        }
        let j4 = skip_ws_at(s, j3 + 1);
        let dv = match parse_string_at(s, j4) {
            Some(dj) => dj,
            None => {
                return None;
            },
        };
        let (d, j5) = dv;
        assert(spec_parse_desc_member(s@, j as int) == Some((d@, j5 as int)));
        let j6 = skip_ws_at(s, j5);
        if j6 >= n || s.get_char(j6) != ',' {
            return None;
        }
        let j7 = skip_ws_at(s, j6 + 1);
        let key2 = match parse_string_at(s, j7) {
            Some(kj) => kj,
            None => {
                return None;
            },
        };
        let (k2, j8) = key2;
        if !str_eq(k2.as_str(), "done") {
            return None;
        }
        let j9 = skip_ws_at(s, j8);
        if j9 >= n || s.get_char(j9) != ':' {
            return None;
        }
        let j10 = skip_ws_at(s, j9 + 1);
        let bv = match parse_bool_at(s, j10) {
            Some(bj) => bj,
            None => {
                return None;
            },
        };
        let (b, j11) = bv;
        assert(spec_parse_done_member(s@, j7 as int) == Some((b, j11 as int)));
        let j12 = skip_ws_at(s, j11);
        if j12 >= n || s.get_char(j12) != '}' {
            return None;
        }
        let t = Task { description: d, done: b };
        Some((t, j12 + 1))
    } else if str_eq(k1.as_str(), "done") {
        assert(spec_parse_desc_member(s@, j as int) is None);
        let j3 = skip_ws_at(s, j2);
        if j3 >= n || s.get_char(j3) != ':' {
            return None;
        }
        let j4 = skip_ws_at(s, j3 + 1);
        let bv = match parse_bool_at(s, j4) {
            Some(bj) => bj,
            None => {
                return None;
            },
        };
        let (b, j5) = bv;
        assert(spec_parse_done_member(s@, j as int) == Some((b, j5 as int)));
        let j6 = skip_ws_at(s, j5);
        if j6 >= n || s.get_char(j6) != ',' {
            return None;
        }
        let j7 = skip_ws_at(s, j6 + 1);
        let key2 = match parse_string_at(s, j7) {
            Some(kj) => kj,
            None => {
                return None;
            },
        };
        let (k2, j8) = key2;
        if !str_eq(k2.as_str(), "description") {
            return None;
        }
        let j9 = skip_ws_at(s, j8);
        if j9 >= n || s.get_char(j9) != ':' {
            return None;
        }
        let j10 = skip_ws_at(s, j9 + 1);
        let dv = match parse_string_at(s, j10) {
            Some(dj) => dj,
            None => {
                return None;
            },
        };
        let (d, j11) = dv;
        assert(spec_parse_desc_member(s@, j7 as int) == Some((d@, j11 as int)));
        let j12 = skip_ws_at(s, j11);
        if j12 >= n || s.get_char(j12) != '}' {
            return None;
        }
        let t = Task { description: d, done: b };
        Some((t, j12 + 1))
    } else {
        assert(spec_parse_desc_member(s@, j as int) is None);
        assert(spec_parse_done_member(s@, j as int) is None);
        None
    }
}

/// Parses the items of a non-empty array, from just after the `[`.
fn parse_items_at(s: &str, i: usize) -> (r: Option<(Vec<Task>, usize)>)
    requires
        i <= s@.len(),
    ensures
        match r {
            Some(tj) => spec_parse_items(s@, i as int) == Some((task_views(tj.0@), tj.1 as int))
                && i < tj.1 <= s@.len(),
            None => spec_parse_items(s@, i as int) is None,
        },
{
    let n = s.unicode_len();
    let mut acc: Vec<Task> = Vec::new();
    let mut cur: usize = i;
    loop
        invariant
            n == s@.len(),
            i <= cur <= n,
            (match spec_parse_items(s@, cur as int) {
                Some((vs, r2)) => spec_parse_items(s@, i as int) == Some(
                    (task_views(acc@) + vs, r2),
                ),
                None => spec_parse_items(s@, i as int) is None,
            }),
        decreases n - cur,
    {
        let j = skip_ws_at(s, cur);
        let tv = match parse_object_at(s, j) {
            Some(t) => t,
            None => {
                return None;
            },
        };
        let (t, k) = tv;
        let ghost acc_pre = acc@;
        acc.push(t);
        proof {
            assert(task_views(acc@) =~= task_views(acc_pre) + seq![t@]);
        }
        let m = skip_ws_at(s, k);
        if m < n && s.get_char(m) == ',' {
            proof {
                match spec_parse_items(s@, m + 1) {
                    Some((vs, r2)) => {
                        assert(task_views(acc_pre) + (seq![t@] + vs) =~= task_views(acc@) + vs);
                    },
                    None => {},
                }
            }
            cur = m + 1;
        } else if m < n && s.get_char(m) == ']' {
            proof {
                assert(spec_parse_items(s@, cur as int) == Some((seq![t@], m + 1)));
                assert(task_views(acc_pre) + seq![t@] =~= task_views(acc@));
            }
            return Some((acc, m + 1));
        } else {
            return None;
        }
    }
}

/// Why loading the persisted file's text failed: the text was not a
/// well-formed task array.
#[derive(Clone, Copy, Debug, PartialEq, Eq, Structural)]
pub enum LoadError {
    Malformed,
}

/// Reads a task list back from the persisted file's text. An empty or
/// whitespace-only text stands for no tasks; any other text must be a
/// well-formed task array, else the load fails.
pub fn load_from_text(s: &str) -> (r: Result<Vec<Task>, LoadError>)
    ensures
        r is Ok <==> spec_load_text(s@) is Some,
        r matches Ok(ts) ==> spec_load_text(s@) == Some(task_views(ts@)),
{
    let blank = trim_input(s);
    if blank.as_str().is_empty() {
        let empty: Vec<Task> = Vec::new();
        proof {
            assert(task_views(empty@) =~= Seq::<TaskView>::empty());
        }
        return Ok(empty);
    }
    let n = s.unicode_len();
    let i0 = skip_ws_at(s, 0);
    if i0 == n {
        return Err(LoadError::Malformed);
    }
    if s.get_char(i0) != '[' {
        return Err(LoadError::Malformed);
    }
    let j = skip_ws_at(s, i0 + 1);
    if j < n && s.get_char(j) == ']' {
        if skip_ws_at(s, j + 1) == n {
            let empty: Vec<Task> = Vec::new();
            proof {
                assert(task_views(empty@) =~= Seq::<TaskView>::empty());
            }
            Ok(empty)
        } else {
            Err(LoadError::Malformed)
        }
    } else {
        match parse_items_at(s, i0 + 1) {
            Some(tj) => {
                let (ts, k) = tj;
                if skip_ws_at(s, k) == n {
                    Ok(ts)
                } else {
                    Err(LoadError::Malformed)
                }
            },
            None => Err(LoadError::Malformed),
        }
    }
}

} // verus!
