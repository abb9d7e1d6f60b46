//! Cutting the source snippet of a symbol out of its file's text.
use vstd::prelude::*;
use crate::model::{SourceRange, TextRange};
use crate::strings::{chars_of, decimal, extend_str, push_decimal, string_from_chars};

verus! {

/// A line without the carriage return that ended it, if any.
pub open spec fn strip_cr(l: Seq<char>) -> Seq<char> {
    if l.len() > 0 && l.last() == '\r' {
        l.drop_last()
    } else {
        l
    }
}

/// The finished lines of the first `n` characters, and the line still open.
pub open spec fn lines_scan(t: Seq<char>, n: nat) -> (Seq<Seq<char>>, Seq<char>)
    decreases n,
{
    if n == 0 {
        (Seq::empty(), Seq::empty())
    } else {
        let (ls, cur) = lines_scan(t, (n - 1) as nat);
        if t[n - 1] == '\n' {
            (ls.push(strip_cr(cur)), Seq::empty())
        } else {
            (ls, cur.push(t[n - 1]))
        }
    }
}

/// The lines of a text as `str::lines` gives them: split at `\n` or `\r\n`, the
/// line endings dropped, and the last line ending optional.
pub open spec fn lines_of(t: Seq<char>) -> Seq<Seq<char>> {
    let (ls, cur) = lines_scan(t, t.len());
    if cur.len() > 0 {
        ls.push(cur)
    } else {
        ls
    }
}

/// Lines `from..to` (0-based, `to` excluded), each followed by a line break.
pub open spec fn join_lines(lines: Seq<Seq<char>>, from: int, to: int) -> Seq<char>
    decreases to - from,
{
    if from >= to {
        Seq::empty()
    } else {
        join_lines(lines, from, to - 1) + lines[to - 1] + "\n"@
    }
}

proof fn lemma_join_push(ls: Seq<Seq<char>>, x: Seq<char>, to: int)
    requires
        0 <= to <= ls.len(),
    ensures
        join_lines(ls.push(x), 0, to) == join_lines(ls, 0, to),
    decreases to,
{
    if to > 0 {
        lemma_join_push(ls, x, to - 1);
        assert(ls.push(x)[to - 1] == ls[to - 1]);
    }
}

proof fn lemma_scan_rejoins(t: Seq<char>, n: nat)
    requires
        n <= t.len(),
        !t.contains('\r'),
    ensures
        join_lines(lines_scan(t, n).0, 0, lines_scan(t, n).0.len() as int) + lines_scan(t, n).1 == t.take(
            n as int,
        ),
        !lines_scan(t, n).1.contains('\r'),
    decreases n,
{
    if n == 0 {
        assert(t.take(0) =~= Seq::<char>::empty());
    } else {
        lemma_scan_rejoins(t, (n - 1) as nat);
        let (ls, cur) = lines_scan(t, (n - 1) as nat);
        let j = join_lines(ls, 0, ls.len() as int);
        assert(t.take(n as int) =~= t.take(n - 1).push(t[n - 1]));
        assert(t[n - 1] != '\r') by {
            if t[n - 1] == '\r' {
                assert(t.contains('\r'));
            }
        }
        if t[n - 1] == '\n' {
            assert(strip_cr(cur) == cur) by {
                if cur.len() > 0 && cur.last() == '\r' {
                    assert(cur.contains('\r'));
                }
            }
            lemma_join_push(ls, cur, ls.len() as int);
            assert(join_lines(ls.push(cur), 0, ls.len() + 1int) == j + cur + "\n"@);
            reveal_strlit("\n");
            assert(j + cur + "\n"@ =~= (j + cur).push('\n'));
        } else {
            assert(j + cur.push(t[n - 1]) =~= (j + cur).push(t[n - 1]));
            let c2 = cur.push(t[n - 1]);
            assert(!c2.contains('\r')) by {
                if c2.contains('\r') {
                    let i = choose|i: int| 0 <= i < c2.len() && #[trigger] c2[i] == '\r';
                    if i < cur.len() {
                        assert(cur[i] == '\r');
                        assert(cur.contains('\r'));
                    }
                }
            }
        }
    }
}

/// Splitting a text without carriage returns into lines and writing each back
/// with a line break gives the text again, when it is empty or ends with a line
/// break.
pub proof fn law_lines_rejoin(t: Seq<char>)
    requires
        !t.contains('\r'),
        t.len() == 0 || t.last() == '\n',
    ensures
        join_lines(lines_of(t), 0, lines_of(t).len() as int) == t,
{
    lemma_scan_rejoins(t, t.len());
    assert(t.take(t.len() as int) =~= t);
    if t.len() > 0 {
        let (ls, cur) = lines_scan(t, (t.len() - 1) as nat);
        assert(lines_scan(t, t.len()).1 == Seq::<char>::empty());
    }
    let (ls, cur) = lines_scan(t, t.len());
    assert(cur.len() == 0);
    assert(join_lines(ls, 0, ls.len() as int) + cur =~= join_lines(ls, 0, ls.len() as int));
}

/// `a - b`, or 0 when `b` is larger.
pub open spec fn sat_sub(a: int, b: int) -> int {
    if a > b {
        a - b
    } else {
        0
    }
}

pub open spec fn imax(a: int, b: int) -> int {
    if a > b {
        a
    } else {
        b
    }
}

pub open spec fn imin(a: int, b: int) -> int {
    if a < b {
        a
    } else {
        b
    }
}

/// 1-based lines `start..=end`, or nothing when the window is empty or past the end.
pub open spec fn line_window(lines: Seq<Seq<char>>, start: int, end: int) -> Seq<char> {
    if start > lines.len() || start > end {
        Seq::empty()
    } else {
        join_lines(lines, start - 1, end)
    }
}

/// The snippet of a symbol: its body (or its range, without a body) widened by
/// `ctx` lines on each side; a body longer than 160 lines (80 for a non-root) is
/// cut to its first and last 15 lines with a note of how many were left out.
pub open spec fn snippet_of(
    lines: Seq<Seq<char>>,
    range: SourceRange,
    body: Option<SourceRange>,
    is_root: bool,
    ctx: nat,
) -> Seq<char> {
    let n = lines.len() as int;
    if n == 0 {
        Seq::empty()
    } else {
        let limit: int = if is_root {
            160
        } else {
            80
        };
        match body {
            Some(br) => {
                let body_len = sat_sub(br.end_line as int, br.start_line as int) + 1;
                if body_len <= limit {
                    line_window(
                        lines,
                        imax(sat_sub(br.start_line as int, ctx as int), 1),
                        imin(br.end_line + ctx, n),
                    )
                } else {
                    let top_end = br.start_line + 15;
                    let bottom_start = sat_sub(br.end_line as int, 15);
                    let start = imax(sat_sub(range.start_line as int, ctx as int), 1);
                    let end_top = imin(top_end, n);
                    let omitted = sat_sub(bottom_start, end_top);
                    let start_bot = imax(bottom_start, end_top + 1);
                    let end_bot = imin(br.end_line + ctx, n);
                    join_lines(lines, start - 1, end_top) + (if omitted > 0 {
                        "// ... "@ + decimal(omitted as nat) + " lines omitted ...\n"@
                    } else {
                        Seq::empty()
                    }) + join_lines(lines, start_bot - 1, end_bot)
                }
            },
            None => line_window(
                lines,
                imax(sat_sub(range.start_line as int, ctx as int), 1),
                imin(range.end_line + ctx, n),
            ),
        }
    }
}

/// No arithmetic of `snippet_of` leaves `usize` for these inputs.
pub open spec fn snippet_fits(range: SourceRange, body: Option<SourceRange>, ctx: nat) -> bool {
    match body {
        Some(br) => {
            &&& br.end_line + ctx <= usize::MAX
            &&& br.start_line + 15 <= usize::MAX
            &&& sat_sub(br.end_line as int, br.start_line as int) + 1 <= usize::MAX
        },
        None => range.end_line + ctx <= usize::MAX,
    }
}

fn strip_cr_chars(v: &mut Vec<char>)
    ensures
        final(v)@ == strip_cr(old(v)@),
{
    let n = v.len();
    if n > 0 && v[n - 1] == '\r' {
        v.pop();
    }
}

/// Splits a text into lines (see `lines_of`).
pub fn split_lines(text: &str) -> (lines: Vec<String>)
    ensures
        lines@.map_values(|s: String| s@) == lines_of(text@),
{
    let chars = chars_of(text);
    let mut lines: Vec<String> = Vec::new();
    let mut cur: Vec<char> = Vec::new();
    let mut i: usize = 0;
    while i < chars.len()
        invariant
            i <= chars.len(),
            chars@ == text@,
            lines@.map_values(|s: String| s@) == lines_scan(text@, i as nat).0,
            cur@ == lines_scan(text@, i as nat).1,
        decreases chars.len() - i,
    {
        let c = chars[i];
        if c == '\n' {
            strip_cr_chars(&mut cur);
            let ghost l0 = lines@;
            lines.push(string_from_chars(&cur));
            assert(lines@.map_values(|s: String| s@) =~= l0.map_values(|s: String| s@).push(
                cur@,
            ));
            cur = Vec::new();
        } else {
            cur.push(c);
        }
        i = i + 1;
    }
    if cur.len() > 0 {
        let ghost l0 = lines@;
        lines.push(string_from_chars(&cur));
        assert(lines@.map_values(|s: String| s@) =~= l0.map_values(|s: String| s@).push(cur@));
    }
    lines
}

/// Appends lines `from..to`, each with a line break.
fn push_lines(v: &mut Vec<char>, lines: &Vec<String>, from: usize, to: usize)
    requires
        to <= lines.len(),
    ensures
        final(v)@ == old(v)@ + join_lines(lines@.map_values(|s: String| s@), from as int, to as int),
{
    let ghost lv = lines@.map_values(|s: String| s@);
    let ghost v0 = v@;
    if from >= to {
        return;
    }
    let mut i: usize = from;
    while i < to
        invariant
            from <= i <= to,
            to <= lines.len(),
            lv == lines@.map_values(|s: String| s@),
            v@ == v0 + join_lines(lv, from as int, i as int),
        decreases to - i,
    {
        let ghost before = v@;
        extend_str(v, lines[i].as_str());
        v.push('\n');
        proof {
            reveal_strlit("\n");
            assert(lv[i as int] == lines@[i as int]@);
            assert(v@ =~= before + lines@[i as int]@ + "\n"@);
        }
        i = i + 1;
    }
}

fn ssub(a: usize, b: usize) -> (r: usize)
    ensures
        r == sat_sub(a as int, b as int),
{
    if a > b {
        a - b
    } else {
        0
    }
}

fn umax(a: usize, b: usize) -> (r: usize)
    ensures
        r == imax(a as int, b as int),
{
    if a > b {
        a
    } else {
        b
    }
}

fn umin(a: usize, b: usize) -> (r: usize)
    ensures
        r == imin(a as int, b as int),
{
    if a < b {
        a
    } else {
        b
    }
}

fn window_text(lines: &Vec<String>, start: usize, end: usize) -> (s: Vec<char>)
    requires
        end <= lines.len(),
        start >= 1,
    ensures
        s@ == line_window(lines@.map_values(|s: String| s@), start as int, end as int),
{
    let mut v: Vec<char> = Vec::new();
    if start > lines.len() || start > end {
        return v;
    }
    push_lines(&mut v, lines, start - 1, end);
    v
}

/// The snippet of a symbol cut from the lines of its file (see `snippet_of`).
pub fn snippet_from_lines(
    lines: &Vec<String>,
    range: SourceRange,
    body_range: Option<SourceRange>,
    is_root: bool,
    context_lines: usize,
) -> (s: String)
    requires
        snippet_fits(range, body_range, context_lines as nat),
    ensures
        s@ == snippet_of(
            lines@.map_values(|s: String| s@),
            range,
            body_range,
            is_root,
            context_lines as nat,
        ),
{
    let n = lines.len();
    if n == 0 {
        return String::new();
    }
    let limit: usize = if is_root {
        160
    } else {
        80
    };
    let v = match body_range {
        Some(br) => {
            let body_len = ssub(br.end_line, br.start_line) + 1;
            if body_len <= limit {
                window_text(
                    lines,
                    umax(ssub(br.start_line, context_lines), 1),
                    umin(br.end_line + context_lines, n),
                )
            } else {
                let top_end = br.start_line + 15;
                let bottom_start = ssub(br.end_line, 15);
                let start = umax(ssub(range.start_line, context_lines), 1);
                let end_top = umin(top_end, n);
                let omitted = ssub(bottom_start, end_top);
                // lines from `max(bottom_start, end_top + 1)`, 1-based
                let from_bot = if bottom_start > end_top {
                    bottom_start - 1
                } else {
                    end_top
                };
                let end_bot = umin(br.end_line + context_lines, n);
                let mut v: Vec<char> = Vec::new();
                push_lines(&mut v, lines, start - 1, end_top);
                let ghost v1 = v@;
                if omitted > 0 {
                    extend_str(&mut v, "// ... ");
                    push_decimal(&mut v, omitted);
                    extend_str(&mut v, " lines omitted ...\n");
                }
                let ghost v2 = v@;
                push_lines(&mut v, lines, from_bot, end_bot);
                proof {
                    let lv = lines@.map_values(|s: String| s@);
                    let note: Seq<char> = if omitted > 0 {
                        "// ... "@ + decimal(omitted as nat) + " lines omitted ...\n"@
                    } else {
                        Seq::empty()
                    };
                    assert(v2 =~= v1 + note);
                    assert(from_bot == imax(bottom_start as int, end_top + 1) - 1);
                    assert(v@ =~= join_lines(lv, start - 1, end_top as int) + note + join_lines(
                        lv,
                        from_bot as int,
                        end_bot as int,
                    ));
                }
                v
            }
        },
        None => window_text(
            lines,
            umax(ssub(range.start_line, context_lines), 1),
            umin(range.end_line + context_lines, n),
        ),
    };
    string_from_chars(&v)
}

/// The snippet of a symbol cut from its file's text.
pub fn snippet_from_text(
    content: &str,
    range: SourceRange,
    body_range: Option<SourceRange>,
    is_root: bool,
    context_lines: usize,
) -> (s: String)
    requires
        snippet_fits(range, body_range, context_lines as nat),
    ensures
        s@ == snippet_of(lines_of(content@), range, body_range, is_root, context_lines as nat),
{
    let lines = split_lines(content);
    snippet_from_lines(&lines, range, body_range, is_root, context_lines)
}

/// The 1-based lines `range.start_line..=range.end_line` of a text, each with a line
/// break; nothing when the range starts at 0, past the end, or after its end.
pub open spec fn span_of(lines: Seq<Seq<char>>, range: TextRange) -> Seq<char> {
    let n = lines.len() as int;
    if range.start_line == 0 || range.start_line > n {
        Seq::empty()
    } else {
        let end = imin(range.end_line as int, n);
        if range.start_line > end {
            Seq::empty()
        } else {
            join_lines(lines, range.start_line - 1, end)
        }
    }
}

/// The lines of `range` in a file's text (see `span_of`).
pub fn span_from_text(content: &str, range: TextRange) -> (s: String)
    ensures
        s@ == span_of(lines_of(content@), range),
{
    let lines = split_lines(content);
    let n = lines.len();
    let mut v: Vec<char> = Vec::new();
    if range.start_line == 0 || range.start_line > n {
        return string_from_chars(&v);
    }
    let end = umin(range.end_line, n);
    if range.start_line > end {
        return string_from_chars(&v);
    }
    push_lines(&mut v, &lines, range.start_line - 1, end);
    string_from_chars(&v)
}

} // verus!
