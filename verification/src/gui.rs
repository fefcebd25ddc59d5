//! Data sent to the editor front end: validation outcomes and cell rows.
use vstd::prelude::*;

use crate::csg_parser::{str_chars, string_of};
use crate::std_specs::char_is_whitespace;

verus! {

/// Outcome of validating an input text.
#[derive(Debug, Clone)]
pub struct ValidationResult {
    pub valid: bool,
    pub errors: Vec<String>,
}

/// A cell as shown in the editor.
#[derive(Debug, Clone)]
pub struct CellData {
    pub material_name: String,
    pub csg: String,
}

/// A line without the `\r` of a `\r\n` line ending.
pub open spec fn strip_cr(l: Seq<char>) -> Seq<char> {
    if l.len() > 0 && l.last() == '\r' {
        l.drop_last()
    } else {
        l
    }
}

/// Lines of `s` from the line starting at `start`, scanning from `i`: lines
/// end at `\n` (a `\r` before it belongs to the ending); the last line
/// needs no ending and an empty last line is no line.
pub open spec fn lines_from(s: Seq<char>, start: int, i: int) -> Seq<Seq<char>>
    decreases s.len() - i,
{
    if i >= s.len() {
        if 0 <= start < s.len() {
            seq![s.subrange(start, s.len() as int)]
        } else {
            Seq::empty()
        }
    } else if i < 0 {
        Seq::empty()
    } else if s[i] == '\n' {
        seq![strip_cr(s.subrange(start, i))] + lines_from(s, i + 1, i + 1)
    } else {
        lines_from(s, start, i + 1)
    }
}

/// The lines of a text, as `str::lines` splits it.
pub open spec fn text_lines(s: Seq<char>) -> Seq<Seq<char>> {
    lines_from(s, 0, 0)
}

/// A line made only of whitespace (or empty).
pub open spec fn is_blank(l: Seq<char>) -> bool {
    forall|k: int| 0 <= k < l.len() ==> char_is_whitespace(#[trigger] l[k])
}

/// The lines that are not blank, in order.
pub open spec fn non_blank(ls: Seq<Seq<char>>) -> Seq<Seq<char>>
    decreases ls.len(),
{
    if ls.len() == 0 {
        Seq::empty()
    } else if is_blank(ls.last()) {
        non_blank(ls.drop_last())
    } else {
        non_blank(ls.drop_last()).push(ls.last())
    }
}

/// The error list shown for an error text: its non-blank lines, or the
/// whole text when it has none.
pub open spec fn error_list(raw: Seq<char>) -> Seq<Seq<char>> {
    let ls = non_blank(text_lines(raw));
    if ls.len() > 0 {
        ls
    } else {
        seq![raw]
    }
}

fn blank(chars: &Vec<char>, from: usize, to: usize) -> (r: bool)
    requires
        from <= to <= chars@.len(),
    ensures
        r == is_blank(chars@.subrange(from as int, to as int)),
{
    let mut k: usize = from;
    while k < to
        invariant
            from <= k <= to <= chars@.len(),
            forall|j: int| from <= j < k ==> char_is_whitespace(#[trigger] chars@[j]),
        decreases to - k,
    {
        if !chars[k].is_whitespace() {
            assert(chars@.subrange(from as int, to as int)[k - from] == chars@[k as int]);
            return false;
        }
        k = k + 1;
    }
    assert forall|j: int| 0 <= j < (to - from) implies char_is_whitespace(
        #[trigger] chars@.subrange(from as int, to as int)[j],
    ) by {
        assert(chars@.subrange(from as int, to as int)[j] == chars@[from + j]);
    }
    true
}

/// The validation outcome for an input: valid when there is no error text;
/// otherwise the non-blank lines of the error text, one entry each, or the
/// whole text when all its lines are blank.
pub fn validation_result(error_text: Option<String>) -> (r: ValidationResult)
    ensures
        match error_text {
            None => r.valid && r.errors@.len() == 0,
            Some(raw) => !r.valid && r.errors@.map_values(|e: String| e@) == error_list(raw@),
        },
{
    match error_text {
        None => ValidationResult { valid: true, errors: Vec::new() },
        Some(raw) => {
            let chars = str_chars(raw.as_str());
            let ghost s = chars@;
            let n = chars.len();
            let mut errors: Vec<String> = Vec::new();
            let ghost mut done: Seq<Seq<char>> = Seq::empty();
            let mut start: usize = 0;
            let mut i: usize = 0;
            while i < n
                invariant
                    s == chars@,
                    s == raw@,
                    n == s.len(),
                    0 <= start <= i <= n,
                    text_lines(s) == done + lines_from(s, start as int, i as int),
                    errors@.map_values(|e: String| e@) == non_blank(done),
                decreases n - i,
            {
                if chars[i] == '\n' {
                    let end = if i > start && chars[i - 1] == '\r' {
                        i - 1
                    } else {
                        i
                    };
                    let ghost line = strip_cr(s.subrange(start as int, i as int));
                    assert(s.subrange(start as int, end as int) =~= line);
                    let ghost prev = errors@;
                    if !blank(&chars, start, end) {
                        let l = string_of(&chars, start, end);
                        errors.push(l);
                        assert(errors@.map_values(|e: String| e@) =~= prev.map_values(
                            |e: String| e@,
                        ).push(line));
                    }
                    proof {
                        assert(done.push(line).drop_last() =~= done);
                        assert(done + (seq![line] + lines_from(s, i + 1, i + 1)) =~= done.push(line)
                            + lines_from(s, i + 1, i + 1));
                        done = done.push(line);
                    }
                    start = i + 1;
                }
                i = i + 1;
            }
            if start < n {
                let ghost line = s.subrange(start as int, n as int);
                let ghost prev = errors@;
                if !blank(&chars, start, n) {
                    let l = string_of(&chars, start, n);
                    errors.push(l);
                    assert(errors@.map_values(|e: String| e@) =~= prev.map_values(|e: String| e@).push(
                        line,
                    ));
                }
                proof {
                    assert(done.push(line).drop_last() =~= done);
                    assert(done + seq![line] =~= done.push(line));
                    done = done.push(line);
                }
            } else {
                assert(done + Seq::<Seq<char>>::empty() =~= done);
            }
            if errors.len() == 0 {
                let ghost whole = raw@;
                let mut only: Vec<String> = Vec::new();
                only.push(raw);
                assert(only@.map_values(|e: String| e@) =~= seq![whole]);
                ValidationResult { valid: false, errors: only }
            } else {
                ValidationResult { valid: false, errors }
            }
        },
    }
}

} // verus!
