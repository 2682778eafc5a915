//! The JSON text format of the persisted task file: a pretty-printed array
//! of objects with a `description` string and a `done` flag. The serializer
//! produces exactly `json_tasks`; the parser accepts the format with free
//! whitespace between tokens, either member order, and the usual string
//! escapes, and is stated as a total function of the text.

use vstd::prelude::*;
use vstd::string::StrSliceExecFns;
use vstd::string::StringExecFns;
use crate::task::{Task, TaskView, task_views};
use crate::text::{push_char, char_from_u32};

verus! {

/// The lower-case hexadecimal digit of a value below 16.
pub open spec fn hex_char(d: int) -> char {
    if d < 10 {
        (d + 48) as char
    } else {
        (d + 87) as char
    }
}

/// The escaped form of one character inside a JSON string literal: quote,
/// backslash and the short control escapes get a two-character form, the
/// remaining control characters a `\u00..` form, everything else stands as
/// itself.
pub open spec fn escape_char(c: char) -> Seq<char> {
    if c == '"' {
        seq!['\\', '"']
    } else if c == '\\' {
        seq!['\\', '\\']
    } else if c == '\u{8}' {
        seq!['\\', 'b']
    } else if c == '\t' {
        seq!['\\', 't']
    } else if c == '\n' {
        seq!['\\', 'n']
    } else if c == '\u{c}' {
        seq!['\\', 'f']
    } else if c == '\r' {
        seq!['\\', 'r']
    } else if (c as u32) < 0x20 {
        seq!['\\', 'u', '0', '0', hex_char((c as u32 / 16) as int), hex_char((c as u32 % 16) as int)]
    } else {
        seq![c]
    }
}

/// The escaped form of a whole string.
pub open spec fn escape_string(s: Seq<char>) -> Seq<char>
    decreases s.len(),
{
    if s.len() == 0 {
        Seq::empty()
    } else {
        escape_char(s[0]) + escape_string(s.skip(1))
    }
}

/// The JSON text of a boolean.
pub open spec fn json_bool(b: bool) -> Seq<char> {
    if b {
        "true"@
    } else {
        "false"@
    }
}

/// The serialized text of one task object, indented one level deep.
pub open spec fn json_task(t: TaskView) -> Seq<char> {
    "{\n    \"description\": \""@ + escape_string(t.description) + "\",\n    \"done\": "@
        + json_bool(t.done) + "\n  }"@
}

/// The serialized items of a non-empty list: each introduced by a line
/// break and indentation, separated by commas.
pub open spec fn json_items(ts: Seq<TaskView>) -> Seq<char>
    decreases ts.len(),
{
    if ts.len() == 0 {
        Seq::empty()
    } else if ts.len() == 1 {
        "\n  "@ + json_task(ts[0])
    } else {
        "\n  "@ + json_task(ts[0]) + ","@ + json_items(ts.skip(1))
    }
}

/// The serialized text of a whole task list: the persisted file's content.
pub open spec fn json_tasks(ts: Seq<TaskView>) -> Seq<char> {
    if ts.len() == 0 {
        "[]"@
    } else {
        "["@ + json_items(ts) + "\n]"@
    }
}

proof fn lemma_escape_snoc(s: Seq<char>, k: int)
    requires
        0 <= k < s.len(),
    ensures
        escape_string(s.take(k + 1)) == escape_string(s.take(k)) + escape_char(s[k]),
    decreases k,
{
    if k == 0 {
        assert(s.take(1)[0] == s[0]);
        assert(s.take(1).skip(1) =~= Seq::<char>::empty());
        assert(s.take(0) =~= Seq::<char>::empty());
        assert(escape_string(s.take(1)) == escape_char(s[0]) + escape_string(
            Seq::<char>::empty(),
        ));
        assert(escape_char(s[0]) + Seq::<char>::empty() =~= escape_char(s[0]));
        assert(Seq::<char>::empty() + escape_char(s[0]) =~= escape_char(s[0]));
    } else {
        let t = s.skip(1);
        lemma_escape_snoc(t, k - 1);
        assert(s.take(k + 1)[0] == s[0]);
        assert(s.take(k + 1).skip(1) =~= t.take(k));
        assert(s.take(k)[0] == s[0]);
        assert(s.take(k).skip(1) =~= t.take(k - 1));
        assert(t[k - 1] == s[k]);
        assert(escape_string(s.take(k + 1)) == escape_char(s[0]) + (escape_string(t.take(k - 1))
            + escape_char(s[k])));
        assert(escape_char(s[0]) + (escape_string(t.take(k - 1)) + escape_char(s[k])) =~= (
        escape_char(s[0]) + escape_string(t.take(k - 1))) + escape_char(s[k]));
    }
}

proof fn lemma_json_items_snoc(ts: Seq<TaskView>, k: int)
    requires
        1 <= k < ts.len(),
    ensures
        json_items(ts.take(k + 1)) == json_items(ts.take(k)) + ","@ + "\n  "@ + json_task(
            ts[k],
        ),
    decreases k,
{
    if k == 1 {
        assert(ts.take(2)[0] == ts[0]);
        assert(ts.take(2).skip(1) =~= ts.skip(1).take(1));
        assert(ts.skip(1).take(1)[0] == ts[1]);
        assert(ts.take(1)[0] == ts[0]);
        assert(json_items(ts.skip(1).take(1)) == "\n  "@ + json_task(ts[1]));
        assert(json_items(ts.take(2)) == "\n  "@ + json_task(ts.take(2)[0]) + ","@ + json_items(
            ts.take(2).skip(1),
        ));
        assert(json_items(ts.take(2)) == "\n  "@ + json_task(ts[0]) + ","@ + ("\n  "@
            + json_task(ts[1])));
        assert("\n  "@ + json_task(ts[0]) + ","@ + ("\n  "@ + json_task(ts[1])) =~= "\n  "@
            + json_task(ts[0]) + ","@ + "\n  "@ + json_task(ts[1]));
    } else {
        let t = ts.skip(1);
        lemma_json_items_snoc(t, k - 1);
        assert(ts.take(k + 1)[0] == ts[0]);
        assert(ts.take(k + 1).skip(1) =~= t.take(k));
        assert(ts.take(k)[0] == ts[0]);
        assert(ts.take(k).skip(1) =~= t.take(k - 1));
        assert(t[k - 1] == ts[k]);
        assert(ts.take(k + 1).len() > 1);
        assert(ts.take(k).len() > 1);
        assert(json_items(ts.take(k + 1)) == "\n  "@ + json_task(ts[0]) + ","@ + (json_items(
            t.take(k - 1),
        ) + ","@ + "\n  "@ + json_task(ts[k])));
        assert("\n  "@ + json_task(ts[0]) + ","@ + (json_items(t.take(k - 1)) + ","@ + "\n  "@
            + json_task(ts[k])) =~= ("\n  "@ + json_task(ts[0]) + ","@ + json_items(
            t.take(k - 1),
        )) + ","@ + "\n  "@ + json_task(ts[k]));
    }
}

/// Appends the escaped form of one character.
fn push_escaped(out: &mut String, c: char)
    ensures
        final(out)@ == old(out)@ + escape_char(c),
{
    if c == '"' {
        push_char(out, '\\');
        push_char(out, '"');
    } else if c == '\\' {
        push_char(out, '\\');
        push_char(out, '\\');
    } else if c == '\u{8}' {
        push_char(out, '\\');
        push_char(out, 'b');
    } else if c == '\t' {
        push_char(out, '\\');
        push_char(out, 't');
    } else if c == '\n' {
        push_char(out, '\\');
        push_char(out, 'n');
    } else if c == '\u{c}' {
        push_char(out, '\\');
        push_char(out, 'f');
    } else if c == '\r' {
        push_char(out, '\\');
        push_char(out, 'r');
    } else if (c as u32) < 0x20 {
        push_char(out, '\\');
        push_char(out, 'u');
        push_char(out, '0');
        push_char(out, '0');
        let n = c as u32;
        let hi = n / 16;
        let lo = n % 16;
        let hc = if hi < 10 {
            char_from_u32(hi + 48)
        } else {
            char_from_u32(hi + 87)
        };
        push_char(out, hc);
        let lc = if lo < 10 {
            char_from_u32(lo + 48)
        } else {
            char_from_u32(lo + 87)
        };
        push_char(out, lc);
        assert(final(out)@ =~= old(out)@ + escape_char(c));
    } else {
        push_char(out, c);
        assert(final(out)@ =~= old(out)@ + escape_char(c));
    }
    assert(final(out)@ =~= old(out)@ + escape_char(c));
}

/// Appends the escaped form of a whole description string.
fn push_string_escaped(out: &mut String, s: &String)
    ensures
        final(out)@ == old(out)@ + escape_string(s@),
{
    let sl = s.as_str();
    let n = sl.unicode_len();
    let mut i: usize = 0;
    while i < n
        invariant
            n == sl@.len(),
            sl@ == s@,
            0 <= i <= n,
            out@ == old(out)@ + escape_string(s@.take(i as int)),
        decreases n - i,
    {
        let c = sl.get_char(i);
        push_escaped(out, c);
        proof {
            lemma_escape_snoc(s@, i as int);
            assert(old(out)@ + escape_string(s@.take(i as int)) + escape_char(s@[i as int]) =~= old(
                out,
            )@ + escape_string(s@.take(i + 1)));
        }
        i += 1;
    }
    proof {
        assert(s@.take(n as int) =~= s@);
    }
}

/// Appends the serialized object of one task.
fn push_task_json(out: &mut String, t: &Task)
    ensures
        final(out)@ == old(out)@ + json_task(t@),
{
    out.append("{\n    \"description\": \"");
    push_string_escaped(out, &t.description);
    out.append("\",\n    \"done\": ");
    if t.done {
        out.append("true");
    } else {
        out.append("false");
    }
    out.append("\n  }");
    assert(final(out)@ =~= old(out)@ + json_task(t@));
}

/// Serializes the whole task list to the persisted file's text: the
/// pretty-printed JSON array.
pub fn save_to_text(tasks: &Vec<Task>) -> (r: String)
    ensures
        r@ == json_tasks(task_views(tasks@)),
{
    let ghost vs = task_views(tasks@);
    if tasks.len() == 0 {
        let out = String::from_str("[]");
        return out;
    }
    let mut out = String::from_str("[");
    let mut i: usize = 0;
    while i < tasks.len()
        invariant
            tasks@.len() > 0,
            vs == task_views(tasks@),
            vs.len() == tasks@.len(),
            0 <= i <= tasks@.len(),
            out@ == "["@ + json_items(vs.take(i as int)),
        decreases tasks@.len() - i,
    {
        if i == 0 {
            out.append("\n  ");
        } else {
            out.append(",");
            out.append("\n  ");
        }
        push_task_json(&mut out, &tasks[i]);
        proof {
            assert(vs[i as int] == tasks@[i as int]@);
            if i == 0 {
                assert(vs.take(0) =~= Seq::<TaskView>::empty());
                assert(json_items(vs.take(0)) == Seq::<char>::empty());
                assert(vs.take(1)[0] == vs[0]);
                assert(json_items(vs.take(1)) == "\n  "@ + json_task(vs[0]));
                assert("["@ + Seq::<char>::empty() + "\n  "@ + json_task(vs[0]) =~= "["@ + (
                "\n  "@ + json_task(vs[0])));
            } else {
                lemma_json_items_snoc(vs, i as int);
                assert("["@ + json_items(vs.take(i as int)) + ","@ + "\n  "@ + json_task(
                    vs[i as int],
                ) =~= "["@ + (json_items(vs.take(i as int)) + ","@ + "\n  "@ + json_task(
                    vs[i as int],
                )));
            }
        }
        i += 1;
    }
    out.append("\n]");
    proof {
        assert(vs.take(vs.len() as int) =~= vs);
        assert("["@ + json_items(vs) + "\n]"@ =~= json_tasks(vs));
    }
    out
}

} // verus!
