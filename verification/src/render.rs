//! Rendering of the task listing: one line per task, as
//! `<1-based index> <status glyph> - <description>`.

use vstd::prelude::*;
use vstd::string::StringExecFns;
use crate::task::{Task, TaskView};
use crate::text::{push_char, char_from_u32};

verus! {

/// The character of one decimal digit value.
pub open spec fn digit_char(d: int) -> char {
    (d + 48) as char
}

/// The decimal digits of a number, most significant first.
pub open spec fn dec_digits(n: nat) -> Seq<char>
    decreases n,
{
    if n < 10 {
        seq![digit_char(n as int)]
    } else {
        dec_digits(n / 10).push(digit_char((n % 10) as int))
    }
}

/// The status glyph: a check mark for a done task, a cross otherwise.
pub open spec fn glyph(done: bool) -> char {
    if done {
        '\u{2713}'
    } else {
        '\u{2716}'
    }
}

/// One line of the listing, for the task at a given 1-based number.
pub open spec fn spec_task_line(n: nat, t: TaskView) -> Seq<char> {
    dec_digits(n) + seq![' ', '['] + seq![glyph(t.done)] + seq![']', ' ', '-', ' ']
        + t.description
}

/// Appends the decimal digits of `n` to a string.
pub fn push_dec(out: &mut String, n: usize)
    ensures
        final(out)@ == old(out)@ + dec_digits(n as nat),
    decreases n,
{
    if n >= 10 {
        push_dec(out, n / 10);
        push_char(out, char_from_u32((n % 10) as u32 + 48));
        proof {
            assert(old(out)@ + dec_digits((n / 10) as nat) + seq![
                digit_char((n % 10) as int),
            ] =~= old(out)@ + dec_digits(n as nat));
        }
    } else {
        push_char(out, char_from_u32(n as u32 + 48));
        proof {
            assert(old(out)@ + seq![digit_char(n as int)] =~= old(out)@.push(
                digit_char(n as int),
            ));
        }
    }
}

/// Renders the listing line of one task under its 1-based number.
pub fn render_task_line(number: usize, task: &Task) -> (r: String)
    ensures
        r@ == spec_task_line(number as nat, task@),
{
    let mut out = String::new();
    push_dec(&mut out, number);
    push_char(&mut out, ' ');
    push_char(&mut out, '[');
    if task.done {
        push_char(&mut out, '\u{2713}');
    } else {
        push_char(&mut out, '\u{2716}');
    }
    push_char(&mut out, ']');
    push_char(&mut out, ' ');
    push_char(&mut out, '-');
    push_char(&mut out, ' ');
    out.append(task.description.as_str());
    proof {
        assert(out@ =~= spec_task_line(number as nat, task@));
    }
    out
}

/// Renders the whole listing, one line per task, in list order. The list
/// is taken by shared reference: rendering can never change it.
pub fn render_list(tasks: &Vec<Task>) -> (r: Vec<String>)
    ensures
        r@.len() == tasks@.len(),
        forall|i: int|
            0 <= i < tasks@.len() ==> r@[i]@ == spec_task_line((i + 1) as nat, tasks@[i]@),
{
    let mut out: Vec<String> = Vec::new();
    let mut i: usize = 0;
    while i < tasks.len()
        invariant
            0 <= i <= tasks@.len(),
            out@.len() == i,
            forall|j: int|
                0 <= j < i ==> out@[j]@ == spec_task_line((j + 1) as nat, tasks@[j]@),
        decreases tasks@.len() - i,
    {
        let line = render_task_line(i + 1, &tasks[i]);
        out.push(line);
        i += 1;
    }
    out
}

} // verus!
