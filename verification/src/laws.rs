//! The laws that tie the serializer and the parser together: the text that
//! `save_to_text` produces is accepted by the parser and yields the same
//! task list.

use vstd::prelude::*;
use crate::task::TaskView;
use crate::text::{is_space, spec_trim, trim_front, trim_back};
use crate::codec::{escape_char, escape_string, json_bool, json_task, json_items, json_tasks,
    hex_char};
use crate::parse::{is_json_ws, spec_skip_ws, is_hex_digit, hex_val,
    unescape_simple, spec_parse_string_body, spec_parse_string, spec_parse_bool,
    spec_parse_desc_member, spec_parse_done_member, spec_parse_object, spec_parse_items,
    spec_parse_tasks, spec_load_text};

verus! {

/// The text `t` stands at position `i` of `s`.
spec fn seq_at(s: Seq<char>, i: int, t: Seq<char>) -> bool {
    0 <= i && i + t.len() <= s.len() && s.subrange(i, i + t.len()) == t
}

proof fn lemma_seq_at_index(s: Seq<char>, i: int, t: Seq<char>, k: int)
    requires
        seq_at(s, i, t),
        0 <= k < t.len(),
    ensures
        s[i + k] == t[k],
{
    assert(s.subrange(i, i + t.len())[k] == t[k]);
}

proof fn lemma_seq_at_concat(s: Seq<char>, i: int, a: Seq<char>, b: Seq<char>)
    requires
        seq_at(s, i, a + b),
    ensures
        seq_at(s, i, a),
        seq_at(s, i + a.len(), b),
{
    assert(s.subrange(i, i + a.len()) =~= a) by {
        assert forall|k: int| 0 <= k < a.len() implies s.subrange(i, i + a.len())[k] == a[k] by {
            assert(s.subrange(i, i + (a + b).len())[k] == (a + b)[k]);
        }
    }
    assert(s.subrange(i + a.len(), i + a.len() + b.len()) =~= b) by {
        assert forall|k: int|
            0 <= k < b.len() implies s.subrange(i + a.len(), i + a.len() + b.len())[k] == b[k] by {
            assert(s.subrange(i, i + (a + b).len())[a.len() + k] == (a + b)[a.len() + k]);
        }
    }
}

/// Skipping whitespace runs to the end of a known whitespace stretch.
proof fn lemma_skip_ws_run(s: Seq<char>, i: int, k: int)
    requires
        0 <= i,
        0 <= k,
        i + k < s.len(),
        forall|m: int| i <= m < i + k ==> is_json_ws(#[trigger] s[m]),
        !is_json_ws(s[i + k]),
    ensures
        spec_skip_ws(s, i) == i + k,
    decreases k,
{
    if k > 0 {
        assert(is_json_ws(s[i]));
        lemma_skip_ws_run(s, i + 1, k - 1);
    }
}

/// A string of ordinary characters is its own escaped form.
proof fn lemma_escape_string_plain(d: Seq<char>)
    requires
        forall|k: int|
            0 <= k < d.len() ==> #[trigger] d[k] != '"' && d[k] != '\\' && (d[k] as u32) >= 0x20,
    ensures
        escape_string(d) == d,
    decreases d.len(),
{
    if d.len() > 0 {
        assert(escape_char(d[0]) == seq![d[0]]);
        lemma_escape_string_plain(d.skip(1));
        assert(seq![d[0]] + d.skip(1) =~= d);
    } else {
        assert(escape_string(d) =~= d);
    }
}

/// Parsing undoes escaping: at a position that carries the escaped form of
/// `d` followed by a closing quote, the string-body parser yields `d`.
proof fn lemma_parse_escape_string(s: Seq<char>, i: int, d: Seq<char>)
    requires
        seq_at(s, i, escape_string(d)),
        i + escape_string(d).len() + 1 <= s.len(),
        s[i + escape_string(d).len()] == '"',
    ensures
        spec_parse_string_body(s, i) == Some((d, i + escape_string(d).len() + 1)),
    decreases d.len(),
{
    if d.len() == 0 {
        assert(escape_string(d).len() == 0);
        assert(s[i] == '"');
        assert(Seq::<char>::empty() =~= d);
    } else {
        let c = d[0];
        let e = escape_char(c);
        let rest = escape_string(d.skip(1));
        assert(escape_string(d) == e + rest);
        lemma_seq_at_concat(s, i, e, rest);
        lemma_parse_escape_string(s, i + e.len(), d.skip(1));
        let tail_res = spec_parse_string_body(s, i + e.len());
        assert(tail_res == Some((d.skip(1), i + escape_string(d).len() + 1)));
        assert(seq![c] + d.skip(1) =~= d);
        if c == '"' || c == '\\' {
            assert(e == seq!['\\', c]);
            lemma_seq_at_index(s, i, e, 0);
            lemma_seq_at_index(s, i, e, 1);
            assert(s[i] == '\\' && s[i + 1] == c);
            assert(unescape_simple(c) == c);
        } else if c == '\u{8}' || c == '\t' || c == '\n' || c == '\u{c}' || c == '\r' {
            lemma_seq_at_index(s, i, e, 0);
            lemma_seq_at_index(s, i, e, 1);
            assert(s[i] == '\\');
            assert(s[i + 1] == e[1]);
            assert(unescape_simple(e[1]) == c);
        } else if (c as u32) < 0x20 {
            let hi = (c as u32 / 16) as int;
            let lo = (c as u32 % 16) as int;
            assert(e == seq!['\\', 'u', '0', '0', hex_char(hi), hex_char(lo)]);
            lemma_seq_at_index(s, i, e, 0);
            lemma_seq_at_index(s, i, e, 1);
            lemma_seq_at_index(s, i, e, 2);
            lemma_seq_at_index(s, i, e, 3);
            lemma_seq_at_index(s, i, e, 4);
            lemma_seq_at_index(s, i, e, 5);
            assert(s[i] == '\\' && s[i + 1] == 'u');
            assert(s[i + 2] == '0' && s[i + 3] == '0');
            assert(s[i + 4] == hex_char(hi) && s[i + 5] == hex_char(lo));
            assert(is_hex_digit('0') && hex_val('0') == 0);
            assert(0 <= hi < 2 && 0 <= lo < 16);
            assert(is_hex_digit(hex_char(hi)) && hex_val(hex_char(hi)) == hi);
            assert(is_hex_digit(hex_char(lo)) && hex_val(hex_char(lo)) == lo);
            let nv = hex_val(s[i + 2]) * 4096 + hex_val(s[i + 3]) * 256 + hex_val(s[i + 4]) * 16
                + hex_val(s[i + 5]);
            assert(nv == hi * 16 + lo);
            assert(nv == c as u32);
            vstd::utf8::char_u32_cast(c, c as u32);
            assert(((c as u32) as char) == c);
            assert((nv as char) == c);
            assert(crate::parse::spec_parse_u_escape(s, i + 2) == Some((c, i + 6)));
        } else {
            assert(e == seq![c]);
            lemma_seq_at_index(s, i, e, 0);
            assert(s[i] == c);
            assert(s[i] != '"' && s[i] != '\\' && (s[i] as u32) >= 0x20);
        }
    }
}

/// A plain quoted string, closing quote included, parses to its contents.
proof fn lemma_parse_plain_string(s: Seq<char>, i: int, d: Seq<char>)
    requires
        forall|k: int|
            0 <= k < d.len() ==> #[trigger] d[k] != '"' && d[k] != '\\' && (d[k] as u32) >= 0x20,
        seq_at(s, i, d),
        i + d.len() + 1 <= s.len(),
        s[i + d.len()] == '"',
    ensures
        spec_parse_string_body(s, i) == Some((d, i + d.len() + 1)),
{
    lemma_escape_string_plain(d);
    lemma_parse_escape_string(s, i, d);
}

/// The serialized boolean text parses back to the same boolean.
proof fn lemma_parse_json_bool(s: Seq<char>, i: int, b: bool)
    requires
        seq_at(s, i, json_bool(b)),
    ensures
        spec_parse_bool(s, i) == Some((b, i + json_bool(b).len())),
{
    reveal_strlit("true");
    reveal_strlit("false");
    lemma_seq_at_index(s, i, json_bool(b), 0);
    lemma_seq_at_index(s, i, json_bool(b), 1);
    lemma_seq_at_index(s, i, json_bool(b), 2);
    lemma_seq_at_index(s, i, json_bool(b), 3);
    if b {
        assert(s[i] == 't' && s[i + 1] == 'r' && s[i + 2] == 'u' && s[i + 3] == 'e');
    } else {
        lemma_seq_at_index(s, i, json_bool(b), 4);
        assert(s[i] == 'f' && s[i + 1] == 'a' && s[i + 2] == 'l' && s[i + 3] == 's' && s[i + 4]
            == 'e');
    }
}

/// The opening brace, the `description` member, and its value parse as
/// serialized.
#[verifier::rlimit(100)]
proof fn lemma_parse_json_task_prefix(s: Seq<char>, i: int, t: TaskView)
    requires
        seq_at(s, i, json_task(t)),
    ensures
        s[i] == '{',
        spec_skip_ws(s, i + 1) == i + 6,
        spec_parse_desc_member(s, i + 6) == Some(
            (t.description, i + 23 + escape_string(t.description).len()),
        ),
{
    reveal_strlit("{\n    \"description\": \"");
    reveal_strlit("\",\n    \"done\": ");
    reveal_strlit("\n  }");
    reveal_strlit("description");
    let a = "{\n    \"description\": \""@;
    let e = escape_string(t.description);
    let b = "\",\n    \"done\": "@;
    let jb = json_bool(t.done);
    let c = "\n  }"@;
    assert(a.len() == 22);
    assert(b.len() == 15);
    assert(json_task(t) == a + e + b + jb + c);
    lemma_seq_at_concat(s, i, a + e + b + jb, c);
    lemma_seq_at_concat(s, i, a + e + b, jb);
    lemma_seq_at_concat(s, i, a + e, b);
    lemma_seq_at_concat(s, i, a, e);
    let pb = i + 22 + e.len();  // position of b[0], the closing quote
    assert(seq_at(s, i, a));
    assert(seq_at(s, i + 22, e));
    assert(seq_at(s, pb, b));

    // the fixed prefix, character by character
    assert(s[i] == '{') by { lemma_seq_at_index(s, i, a, 0); }
    assert(s[i + 1] == '\n') by { lemma_seq_at_index(s, i, a, 1); }
    assert(s[i + 2] == ' ') by { lemma_seq_at_index(s, i, a, 2); }
    assert(s[i + 3] == ' ') by { lemma_seq_at_index(s, i, a, 3); }
    assert(s[i + 4] == ' ') by { lemma_seq_at_index(s, i, a, 4); }
    assert(s[i + 5] == ' ') by { lemma_seq_at_index(s, i, a, 5); }
    assert(s[i + 6] == '"') by { lemma_seq_at_index(s, i, a, 6); }
    assert(s[i + 18] == '"') by { lemma_seq_at_index(s, i, a, 18); }
    assert(s[i + 19] == ':') by { lemma_seq_at_index(s, i, a, 19); }
    assert(s[i + 20] == ' ') by { lemma_seq_at_index(s, i, a, 20); }
    assert(s[i + 21] == '"') by { lemma_seq_at_index(s, i, a, 21); }

    // the whitespace up to the first key
    assert(forall|m: int| i + 1 <= m < i + 6 ==> is_json_ws(#[trigger] s[m])) by {
        assert forall|m: int| i + 1 <= m < i + 6 implies is_json_ws(#[trigger] s[m]) by {
            lemma_seq_at_index(s, i, a, m - i);
        }
    }
    lemma_skip_ws_run(s, i + 1, 5);

    // the "description" key
    assert(seq_at(s, i + 7, "description"@)) by {
        assert(s.subrange(i + 7, i + 18) =~= "description"@) by {
            assert forall|m: int|
                0 <= m < 11 implies s.subrange(i + 7, i + 18)[m] == "description"@[m] by {
                lemma_seq_at_index(s, i, a, 7 + m);
                assert(a[7 + m] == "description"@[m]);
            }
        }
    }
    assert(forall|k: int|
        0 <= k < "description"@.len() ==> #[trigger] "description"@[k] != '"'
            && "description"@[k] != '\\' && ("description"@[k] as u32) >= 0x20);
    lemma_parse_plain_string(s, i + 7, "description"@);
    assert(spec_parse_string(s, i + 6) == Some(("description"@, i + 19)));

    // the colon and the value string
    lemma_skip_ws_run(s, i + 19, 0);
    assert(forall|m: int| i + 20 <= m < i + 21 ==> is_json_ws(#[trigger] s[m]));
    lemma_skip_ws_run(s, i + 20, 1);
    assert(spec_skip_ws(s, i + 20) == i + 21);
    assert(s[pb] == '"') by { lemma_seq_at_index(s, pb, b, 0); }
    lemma_parse_escape_string(s, i + 22, t.description);
    assert(spec_parse_string(s, i + 21) == Some((t.description, pb + 1)));
    assert(spec_parse_desc_member(s, i + 6) == Some((t.description, pb + 1)));
}

/// The comma, the `done` member, and the closing brace parse as
/// serialized.
#[verifier::rlimit(100)]
proof fn lemma_parse_json_task_suffix(s: Seq<char>, i: int, t: TaskView)
    requires
        seq_at(s, i, json_task(t)),
    ensures
        ({
            let pb = i + 22 + escape_string(t.description).len();
            let pc = pb + 15 + json_bool(t.done).len();
            spec_skip_ws(s, pb + 1) == pb + 1 && s[pb + 1] == ',' && spec_skip_ws(s, pb + 2)
                == pb + 7 && spec_parse_done_member(s, pb + 7) == Some((t.done, pc))
                && spec_skip_ws(s, pc) == pc + 3 && s[pc + 3] == '}' && pc + 4 == i
                + json_task(t).len() && i + json_task(t).len() <= s.len()
        }),
{
    reveal_strlit("{\n    \"description\": \"");
    reveal_strlit("\",\n    \"done\": ");
    reveal_strlit("\n  }");
    reveal_strlit("done");
    reveal_strlit("true");
    reveal_strlit("false");
    let a = "{\n    \"description\": \""@;
    let e = escape_string(t.description);
    let b = "\",\n    \"done\": "@;
    let jb = json_bool(t.done);
    let c = "\n  }"@;
    assert(a.len() == 22);
    assert(b.len() == 15);
    assert(c.len() == 4);
    assert(jb.len() == if t.done { 4int } else { 5int });
    assert(json_task(t) == a + e + b + jb + c);
    lemma_seq_at_concat(s, i, a + e + b + jb, c);
    lemma_seq_at_concat(s, i, a + e + b, jb);
    lemma_seq_at_concat(s, i, a + e, b);
    lemma_seq_at_concat(s, i, a, e);
    let pb = i + 22 + e.len();  // position of b[0], the closing quote
    let pj = pb + 15;  // position of the boolean text
    let pc = pj + jb.len();  // position of the closing lines
    assert(seq_at(s, pb, b));
    assert(seq_at(s, pj, jb));
    assert(seq_at(s, pc, c));
    assert(i + json_task(t).len() == pc + 4);
    assert(i + json_task(t).len() <= s.len());

    // the fixed middle, character by character
    assert(s[pb + 1] == ',') by { lemma_seq_at_index(s, pb, b, 1); }
    assert(s[pb + 2] == '\n') by { lemma_seq_at_index(s, pb, b, 2); }
    assert(s[pb + 3] == ' ') by { lemma_seq_at_index(s, pb, b, 3); }
    assert(s[pb + 4] == ' ') by { lemma_seq_at_index(s, pb, b, 4); }
    assert(s[pb + 5] == ' ') by { lemma_seq_at_index(s, pb, b, 5); }
    assert(s[pb + 6] == ' ') by { lemma_seq_at_index(s, pb, b, 6); }
    assert(s[pb + 7] == '"') by { lemma_seq_at_index(s, pb, b, 7); }
    assert(s[pb + 12] == '"') by { lemma_seq_at_index(s, pb, b, 12); }
    assert(s[pb + 13] == ':') by { lemma_seq_at_index(s, pb, b, 13); }
    assert(s[pb + 14] == ' ') by { lemma_seq_at_index(s, pb, b, 14); }

    // the comma and whitespace up to the second key
    lemma_skip_ws_run(s, pb + 1, 0);
    assert(forall|m: int| pb + 2 <= m < pb + 7 ==> is_json_ws(#[trigger] s[m])) by {
        assert forall|m: int| pb + 2 <= m < pb + 7 implies is_json_ws(#[trigger] s[m]) by {
            lemma_seq_at_index(s, pb, b, m - pb);
        }
    }
    lemma_skip_ws_run(s, pb + 2, 5);

    // the "done" key
    assert(seq_at(s, pb + 8, "done"@)) by {
        assert(s.subrange(pb + 8, pb + 12) =~= "done"@) by {
            assert forall|m: int|
                0 <= m < 4 implies s.subrange(pb + 8, pb + 12)[m] == "done"@[m] by {
                lemma_seq_at_index(s, pb, b, 8 + m);
                assert(b[8 + m] == "done"@[m]);
            }
        }
    }
    assert(forall|k: int|
        0 <= k < "done"@.len() ==> #[trigger] "done"@[k] != '"' && "done"@[k] != '\\' && (
        "done"@[k] as u32) >= 0x20);
    lemma_parse_plain_string(s, pb + 8, "done"@);
    assert(spec_parse_string(s, pb + 7) == Some(("done"@, pb + 13)));

    // the colon and the boolean
    lemma_skip_ws_run(s, pb + 13, 0);
    assert(s[pj] != ' ' && !is_json_ws(s[pj])) by {
        lemma_seq_at_index(s, pj, jb, 0);
    }
    assert(forall|m: int| pb + 14 <= m < pj ==> is_json_ws(#[trigger] s[m]));
    lemma_skip_ws_run(s, pb + 14, 1);
    lemma_parse_json_bool(s, pj, t.done);
    assert(spec_parse_done_member(s, pb + 7) == Some((t.done, pc)));

    // the closing lines and brace
    assert(s[pc] == '\n') by { lemma_seq_at_index(s, pc, c, 0); }
    assert(s[pc + 1] == ' ') by { lemma_seq_at_index(s, pc, c, 1); }
    assert(s[pc + 2] == ' ') by { lemma_seq_at_index(s, pc, c, 2); }
    assert(s[pc + 3] == '}') by { lemma_seq_at_index(s, pc, c, 3); }
    assert(forall|m: int| pc <= m < pc + 3 ==> is_json_ws(#[trigger] s[m]));
    lemma_skip_ws_run(s, pc, 3);
}

/// The serialized object of one task parses back to that task.
#[verifier::rlimit(100)]
proof fn lemma_parse_json_task(s: Seq<char>, i: int, t: TaskView)
    requires
        seq_at(s, i, json_task(t)),
    ensures
        spec_parse_object(s, i) == Some((t, i + json_task(t).len())),
{
    lemma_parse_json_task_prefix(s, i, t);
    lemma_parse_json_task_suffix(s, i, t);
    let pb = i + 22 + escape_string(t.description).len();
    let pc = pb + 15 + json_bool(t.done).len();
    assert(TaskView { description: t.description, done: t.done } == t);
    assert(spec_parse_object(s, i) == Some((t, pc + 4)));
}

proof fn lemma_json_task_first(t: TaskView)
    ensures
        json_task(t).len() >= 41,
        json_task(t)[0] == '{',
{
    reveal_strlit("{\n    \"description\": \"");
    reveal_strlit("\",\n    \"done\": ");
    reveal_strlit("\n  }");
    reveal_strlit("true");
    reveal_strlit("false");
    let a = "{\n    \"description\": \""@;
    assert(json_task(t)[0] == a[0]);
}

proof fn lemma_json_items_first(ts: Seq<TaskView>)
    requires
        ts.len() >= 1,
    ensures
        json_items(ts).len() >= 4,
        json_items(ts)[0] == '\n',
        json_items(ts)[1] == ' ',
        json_items(ts)[2] == ' ',
        json_items(ts)[3] == '{',
{
    reveal_strlit("\n  ");
    lemma_json_task_first(ts[0]);
    let sep = "\n  "@;
    assert(sep.len() == 3);
    if ts.len() == 1 {
        assert(json_items(ts) == sep + json_task(ts[0]));
        assert(json_items(ts)[3] == json_task(ts[0])[0]);
    } else {
        assert(json_items(ts) == sep + json_task(ts[0]) + ","@ + json_items(ts.skip(1)));
        assert(json_items(ts)[3] == json_task(ts[0])[0]);
    }
}

/// The serialized items of a non-empty list, followed by the closing
/// lines, parse back to that list.
#[verifier::rlimit(100)]
proof fn lemma_parse_json_items(s: Seq<char>, i: int, ts: Seq<TaskView>)
    requires
        ts.len() >= 1,
        seq_at(s, i, json_items(ts)),
        i + json_items(ts).len() + 2 <= s.len(),
        s[i + json_items(ts).len()] == '\n',
        s[i + json_items(ts).len() + 1] == ']',
    ensures
        spec_parse_items(s, i) == Some((ts, i + json_items(ts).len() + 2)),
    decreases ts.len(),
{
    reveal_strlit("\n  ");
    reveal_strlit(",");
    let sep = "\n  "@;
    let obj = json_task(ts[0]);
    lemma_json_task_first(ts[0]);
    let items = json_items(ts);
    let pobj = i + 3;
    if ts.len() == 1 {
        assert(items == sep + obj);
        lemma_seq_at_concat(s, i, sep, obj);
        assert(s[i] == '\n') by { lemma_seq_at_index(s, i, sep, 0); }
        assert(s[i + 1] == ' ') by { lemma_seq_at_index(s, i, sep, 1); }
        assert(s[i + 2] == ' ') by { lemma_seq_at_index(s, i, sep, 2); }
        assert(s[pobj] == '{') by { lemma_seq_at_index(s, pobj, obj, 0); }
        assert(forall|m: int| i <= m < i + 3 ==> is_json_ws(#[trigger] s[m]));
        lemma_skip_ws_run(s, i, 3);
        assert(spec_skip_ws(s, i) == pobj);
        lemma_parse_json_task(s, pobj, ts[0]);
        let m0 = pobj + obj.len();
        assert(m0 == i + items.len());
        assert(spec_parse_object(s, pobj) == Some((ts[0], m0)));
        assert(is_json_ws(s[m0]));
        assert(!is_json_ws(s[m0 + 1]));
        assert(forall|m: int| m0 <= m < m0 + 1 ==> is_json_ws(#[trigger] s[m]));
        lemma_skip_ws_run(s, m0, 1);
        assert(spec_skip_ws(s, m0) == m0 + 1);
        assert(s[m0 + 1] == ']');
        assert(seq![ts[0]] =~= ts);
        assert(spec_parse_items(s, i) == Some((ts, m0 + 2)));
    } else {
        let rest = json_items(ts.skip(1));
        assert(items == sep + obj + ","@ + rest);
        lemma_seq_at_concat(s, i, sep + obj + ","@, rest);
        lemma_seq_at_concat(s, i, sep + obj, ","@);
        lemma_seq_at_concat(s, i, sep, obj);
        let pcomma = pobj + obj.len();
        let prest = pcomma + 1;
        assert(s[i] == '\n') by { lemma_seq_at_index(s, i, sep, 0); }
        assert(s[i + 1] == ' ') by { lemma_seq_at_index(s, i, sep, 1); }
        assert(s[i + 2] == ' ') by { lemma_seq_at_index(s, i, sep, 2); }
        assert(s[pobj] == '{') by { lemma_seq_at_index(s, pobj, obj, 0); }
        assert(forall|m: int| i <= m < i + 3 ==> is_json_ws(#[trigger] s[m]));
        lemma_skip_ws_run(s, i, 3);
        assert(spec_skip_ws(s, i) == pobj);
        lemma_parse_json_task(s, pobj, ts[0]);
        assert(spec_parse_object(s, pobj) == Some((ts[0], pcomma)));
        assert(s[pcomma] == ',') by { lemma_seq_at_index(s, pcomma, ","@, 0); }
        lemma_skip_ws_run(s, pcomma, 0);
        assert(spec_skip_ws(s, pcomma) == pcomma);
        assert(prest + rest.len() == i + items.len());
        lemma_parse_json_items(s, prest, ts.skip(1));
        assert(spec_parse_items(s, prest) == Some((ts.skip(1), i + items.len() + 2)));
        assert(seq![ts[0]] + ts.skip(1) =~= ts);
        assert(spec_parse_items(s, i) == Some((ts, i + items.len() + 2)));
    }
}

proof fn lemma_trim_back_keeps_head(s: Seq<char>)
    requires
        s.len() > 0,
        !is_space(s[0]),
    ensures
        trim_back(s).len() > 0,
    decreases s.len(),
{
    if is_space(s.last()) {
        assert(s.len() > 1);
        assert(s.drop_last()[0] == s[0]);
        lemma_trim_back_keeps_head(s.drop_last());
    }
}

/// A text whose first character is no whitespace does not trim to nothing.
proof fn lemma_trim_keeps_nonspace_head(s: Seq<char>)
    requires
        s.len() > 0,
        !is_space(s[0]),
    ensures
        spec_trim(s).len() > 0,
{
    assert(trim_front(s) == s);
    lemma_trim_back_keeps_head(s);
}

/// Round trip of persistence: for every task list, the serialized text
/// loads back to exactly that list, in order and content. This holds for
/// the empty list and for descriptions of any characters.
pub proof fn lemma_save_load_round_trip(ts: Seq<TaskView>)
    ensures
        spec_load_text(json_tasks(ts)) == Some(ts),
{
    let s = json_tasks(ts);
    if ts.len() == 0 {
        reveal_strlit("[]");
        assert(s.len() == 2 && s[0] == '[' && s[1] == ']');
        assert(!is_json_ws('[') && !is_json_ws(']'));
        assert(!is_space('['));
        lemma_trim_keeps_nonspace_head(s);
        lemma_skip_ws_run(s, 0, 0);
        lemma_skip_ws_run(s, 1, 0);
        assert(spec_skip_ws(s, 2) == 2);
        assert(spec_parse_tasks(s) == Some(Seq::<TaskView>::empty()));
        assert(Seq::<TaskView>::empty() =~= ts);
    } else {
        reveal_strlit("[");
        reveal_strlit("\n]");
        let items = json_items(ts);
        assert(s == "["@ + items + "\n]"@);
        assert("["@.len() == 1 && "\n]"@.len() == 2);
        assert(s.subrange(0, s.len() as int) =~= s);
        assert(seq_at(s, 0, ("["@ + items) + "\n]"@));
        lemma_seq_at_concat(s, 0, "["@ + items, "\n]"@);
        lemma_seq_at_concat(s, 0, "["@, items);
        assert(s[0] == '[') by { lemma_seq_at_index(s, 0, "["@, 0); }
        assert(!is_json_ws('['));
        assert(!is_space('['));
        lemma_trim_keeps_nonspace_head(s);
        lemma_skip_ws_run(s, 0, 0);
        assert(spec_skip_ws(s, 0) == 0);
        lemma_json_items_first(ts);
        assert(s[1] == '\n') by { lemma_seq_at_index(s, 1, items, 0); }
        assert(s[2] == ' ') by { lemma_seq_at_index(s, 1, items, 1); }
        assert(s[3] == ' ') by { lemma_seq_at_index(s, 1, items, 2); }
        assert(s[4] == '{') by { lemma_seq_at_index(s, 1, items, 3); }
        assert(forall|m: int| 1 <= m < 4 ==> is_json_ws(#[trigger] s[m]));
        lemma_skip_ws_run(s, 1, 3);
        assert(spec_skip_ws(s, 1) == 4);
        assert(s[4] != ']');
        let pend: int = 1 + items.len() as int;
        assert(s[pend] == '\n') by { lemma_seq_at_index(s, pend, "\n]"@, 0); }
        assert(s[pend + 1] == ']') by { lemma_seq_at_index(s, pend, "\n]"@, 1); }
        lemma_parse_json_items(s, 1, ts);
        assert(spec_parse_items(s, 1) == Some((ts, s.len() as int)));
        assert(spec_skip_ws(s, s.len() as int) == s.len());
        assert(spec_parse_tasks(s) == Some(ts));
    }
}

} // verus!
