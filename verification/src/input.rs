//! Input-mode selection and line-based target enumeration.
//!
//! A sweep takes its targets from exactly one of three sources: an address
//! range, a file, or standard input. Selecting none of them, or more than
//! one, is an `InvalidInputCombination`. File and pipe contents are split
//! into lines; every non-empty line, in order, is one target. A line's one
//! trailing carriage return is stripped, and nothing else.

use vstd::prelude::*;
use vstd::string::*;

use crate::errors::SweepError;

verus! {

/// The one source of targets a run has chosen.
pub enum InputSource {
    /// An inclusive address range, as the two boundary texts.
    Range(String, String),
    /// The path of a file whose lines are the targets.
    File(String),
    /// The lines of standard input are the targets.
    Pipe,
}

/// Whether the arguments select range mode and nothing else.
pub open spec fn range_selected(
    from: Option<String>,
    to: Option<String>,
    file: Option<String>,
    pipe: bool,
) -> bool {
    from is Some && to is Some && file is None && !pipe
}

/// Whether the arguments select file mode and nothing else.
pub open spec fn file_selected(
    from: Option<String>,
    to: Option<String>,
    file: Option<String>,
    pipe: bool,
) -> bool {
    from is None && to is None && file is Some && !pipe
}

/// Whether the arguments select pipe mode and nothing else.
pub open spec fn pipe_selected(
    from: Option<String>,
    to: Option<String>,
    file: Option<String>,
    pipe: bool,
) -> bool {
    from is None && to is None && file is None && pipe
}

/// Chooses the target source from the arguments, or rejects them when zero
/// modes, more than one mode, or half of a range are supplied. No probing can
/// start before this check has passed.
pub fn select_source(
    from: Option<String>,
    to: Option<String>,
    file: Option<String>,
    pipe: bool,
) -> (r: Result<InputSource, SweepError>)
    ensures
        range_selected(from, to, file, pipe) ==> (r matches Ok(InputSource::Range(a, b)) && a
            == from.unwrap() && b == to.unwrap()),
        file_selected(from, to, file, pipe) ==> (r matches Ok(InputSource::File(p)) && p
            == file.unwrap()),
        pipe_selected(from, to, file, pipe) ==> r matches Ok(InputSource::Pipe),
        r is Err <==> !(range_selected(from, to, file, pipe) || file_selected(
            from,
            to,
            file,
            pipe,
        ) || pipe_selected(from, to, file, pipe)),
        r matches Err(e) ==> e == SweepError::InvalidInputCombination,
{
    match (from, to, file, pipe) {
        (Some(a), Some(b), None, false) => Ok(InputSource::Range(a, b)),
        (None, None, Some(p), false) => Ok(InputSource::File(p)),
        (None, None, None, true) => Ok(InputSource::Pipe),
        _ => Err(SweepError::InvalidInputCombination),
    }
}

/// A finished line: the collected characters with one trailing carriage
/// return stripped.
pub open spec fn finish_line(cur: Seq<char>) -> Seq<char> {
    if cur.len() > 0 && cur.last() == '\r' {
        cur.drop_last()
    } else {
        cur
    }
}

/// One step of the line scan: a newline closes the current line, which is
/// kept only when non-empty; any other character extends it.
pub open spec fn line_step(
    st: (Seq<Seq<char>>, Seq<char>),
    c: char,
) -> (Seq<Seq<char>>, Seq<char>) {
    if c == '\n' {
        (
            if finish_line(st.1).len() > 0 {
                st.0.push(finish_line(st.1))
            } else {
                st.0
            },
            Seq::empty(),
        )
    } else {
        (st.0, st.1.push(c))
    }
}

/// The line scan over a whole text: the closed non-empty lines and the
/// still-open last line.
pub open spec fn line_scan(s: Seq<char>) -> (Seq<Seq<char>>, Seq<char>)
    decreases s.len(),
{
    if s.len() == 0 {
        (Seq::empty(), Seq::empty())
    } else {
        line_step(line_scan(s.drop_last()), s.last())
    }
}

/// The targets a text enumerates: its non-empty lines, in order.
pub open spec fn target_lines(s: Seq<char>) -> Seq<Seq<char>> {
    let (ls, cur) = line_scan(s);
    if finish_line(cur).len() > 0 {
        ls.push(finish_line(cur))
    } else {
        ls
    }
}

proof fn lemma_line_scan_push(s: Seq<char>, c: char)
    ensures
        line_scan(s.push(c)) == line_step(line_scan(s), c),
{
    assert(s.push(c).drop_last() =~= s);
    assert(s.push(c).last() == c);
}

/// File- and pipe-mode target enumeration: every non-empty line of the text,
/// in order, is one target. An empty text yields no targets.
pub fn targets_from_text(text: &str) -> (r: Vec<String>)
    ensures
        r@.len() == target_lines(text@).len(),
        forall|i: int| 0 <= i < r@.len() ==> r@[i]@ == target_lines(text@)[i],
{
    let n = text.unicode_len();
    let mut out: Vec<String> = Vec::new();
    let mut j: usize = 0;
    let mut i: usize = 0;
    while i < n
        invariant
            j <= i <= n,
            n == text@.len(),
            out@.len() == line_scan(text@.subrange(0, i as int)).0.len(),
            forall|k: int|
                0 <= k < out@.len() ==> out@[k]@ == line_scan(text@.subrange(0, i as int)).0[k],
            line_scan(text@.subrange(0, i as int)).1 == text@.subrange(j as int, i as int),
        decreases n - i,
    {
        let ghost prefix = text@.subrange(0, i as int);
        let ghost cur = text@.subrange(j as int, i as int);
        let c = text.get_char(i);
        proof {
            assert(text@.subrange(0, i + 1) =~= prefix.push(c));
            lemma_line_scan_push(prefix, c);
        }
        if c == '\n' {
            let end = if i > j && text.get_char(i - 1) == '\r' {
                i - 1
            } else {
                i
            };
            proof {
                assert(finish_line(cur) =~= text@.subrange(j as int, end as int));
            }
            if end > j {
                let line = text.substring_char(j, end);
                out.push(line.to_owned());
            }
            j = i + 1;
            proof {
                assert(text@.subrange(j as int, i + 1) =~= Seq::<char>::empty());
            }
        } else {
            proof {
                assert(text@.subrange(j as int, i + 1) =~= cur.push(c));
            }
        }
        i += 1;
    }
    proof {
        assert(text@.subrange(0, n as int) =~= text@);
    }
    let ghost cur = text@.subrange(j as int, n as int);
    let end = if n > j && text.get_char(n - 1) == '\r' {
        n - 1
    } else {
        n
    };
    proof {
        assert(finish_line(cur) =~= text@.subrange(j as int, end as int));
    }
    if end > j {
        let line = text.substring_char(j, end);
        out.push(line.to_owned());
    }
    out
}

} // verus!
