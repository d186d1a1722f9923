//! The framing of JSON Lines text: which lines hold a value, and their
//! line numbers. Parsing each value is left to the JSON reader.
use vstd::prelude::*;
use crate::text::{trim, trim_str, string_of_range};

verus! {

/// `line` without one `'\r'` at its end.
pub open spec fn strip_cr(line: Seq<char>) -> Seq<char> {
    if line.len() > 0 && line.last() == '\r' { line.drop_last() } else { line }
}

/// The lines of `s[start..]`, scanning from `i`: split at `'\n'`, a `'\r'`
/// before the `'\n'` dropped, and no empty line after a final `'\n'`.
pub open spec fn lines_from(s: Seq<char>, start: int, i: int) -> Seq<Seq<char>>
    decreases s.len() - i,
{
    if i >= s.len() {
        if start < s.len() { seq![s.subrange(start, s.len() as int)] } else { Seq::empty() }
    } else if s[i] == '\n' {
        seq![strip_cr(s.subrange(start, i))] + lines_from(s, i + 1, i + 1)
    } else {
        lines_from(s, start, i + 1)
    }
}

/// The lines of `s`.
pub open spec fn text_lines(s: Seq<char>) -> Seq<Seq<char>> {
    lines_from(s, 0, 0)
}

/// The lines that hold something besides white space, each with its line
/// number (the first of `lines` being line `first`).
pub open spec fn numbered_nonblank(lines: Seq<Seq<char>>, first: nat) -> Seq<(nat, Seq<char>)>
    decreases lines.len(),
{
    if lines.len() == 0 {
        Seq::empty()
    } else {
        (if trim(lines[0]).len() == 0 { Seq::empty() } else { seq![(first, lines[0])] })
            + numbered_nonblank(lines.drop_first(), first + 1)
    }
}

/// The models of numbered lines.
pub open spec fn entries_view(v: Seq<(usize, String)>) -> Seq<(nat, Seq<char>)> {
    v.map_values(|e: (usize, String)| (e.0 as nat, e.1@))
}

/// Appends the line `line` (number `number`) to `out` unless it is blank.
fn push_entry(out: &mut Vec<(usize, String)>, number: usize, line: String)
    ensures
        entries_view(final(out)@) == entries_view(old(out)@) + if trim(line@).len() == 0 {
            Seq::empty()
        } else {
            seq![(number as nat, line@)]
        },
{
    let t = trim_str(line.as_str());
    if t.as_str().unicode_len() == 0 {
        assert(entries_view(out@) + Seq::<(nat, Seq<char>)>::empty() =~= entries_view(out@));
    } else {
        let ghost before = out@;
        out.push((number, line));
        assert(entries_view(out@) =~= entries_view(before) + seq![(number as nat, line@)]);
    }
}

/// The non-blank lines of JSON Lines text with their line numbers (from
/// one), in order (see `text_lines` and `numbered_nonblank`).
pub fn jsonl_lines(content: &str) -> (res: Vec<(usize, String)>)
    ensures
        entries_view(res@) == numbered_nonblank(text_lines(content@), 1),
{
    let cs = crate::text::chars_of(content);
    let n = cs.len();
    let ghost s = cs@;
    let mut out: Vec<(usize, String)> = Vec::new();
    let mut start: usize = 0;
    let mut number: usize = 1;
    let mut i: usize = 0;
    while i < n
        invariant
            s == cs@,
            s == content@,
            n == s.len(),
            start <= i <= n,
            1 <= number <= i + 1,
            entries_view(out@) + numbered_nonblank(lines_from(s, start as int, i as int), number as nat)
                == numbered_nonblank(text_lines(s), 1),
        decreases n - i,
    {
        if cs[i] == '\n' {
            let ghost rest = lines_from(s, i + 1, i + 1);
            let end = if i > start && cs[i - 1] == '\r' { i - 1 } else { i };
            let line = string_of_range(&cs, start, end);
            assert(line@ == strip_cr(s.subrange(start as int, i as int))) by {
                if i > start && s[i - 1] == '\r' {
                    assert(s.subrange(start as int, i as int).drop_last() =~= s.subrange(start as int, end as int));
                } else {
                    assert(s.subrange(start as int, i as int) =~= s.subrange(start as int, end as int));
                }
            }
            let ghost all = seq![line@] + rest;
            assert(lines_from(s, start as int, i as int) == all);
            assert(all[0] == line@);
            assert(all.drop_first() =~= rest);
            push_entry(&mut out, number, line);
            if i + 1 < n {
                number = number + 1;
            } else {
                assert(rest == Seq::<Seq<char>>::empty());
                assert(numbered_nonblank(rest, number as nat) == numbered_nonblank(rest, (number + 1) as nat));
            }
            start = i + 1;
        } else {
            assert(lines_from(s, start as int, i as int) == lines_from(s, start as int, i + 1));
        }
        i = i + 1;
    }
    if start < n {
        let line = string_of_range(&cs, start, n);
        let ghost all = seq![line@];
        assert(lines_from(s, start as int, n as int) == all);
        assert(all.drop_first() =~= Seq::<Seq<char>>::empty());
        assert(numbered_nonblank(Seq::<Seq<char>>::empty(), (number + 1) as nat) == Seq::<(nat, Seq<char>)>::empty());
        push_entry(&mut out, number, line);
        assert(entries_view(out@) =~= numbered_nonblank(text_lines(s), 1));
    } else {
        assert(lines_from(s, start as int, n as int) == Seq::<Seq<char>>::empty());
        assert(entries_view(out@) =~= numbered_nonblank(text_lines(s), 1));
    }
    out
}

} // verus!
