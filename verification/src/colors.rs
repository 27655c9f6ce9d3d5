//! Coloured text ranges of the markdown editor.
use vstd::prelude::*;
use crate::editor::strings;
use crate::text::{chars_of, string_of};

verus! {

/// A coloured span `[start_col, end_col)` of one line, with its colour code.
pub struct ColorRange {
    pub line: usize,
    pub start_col: usize,
    pub end_col: usize,
    pub color: String,
}

/// The view of a colour range.
pub open spec fn range_view(c: ColorRange) -> (usize, usize, usize, Seq<char>) {
    (c.line, c.start_col, c.end_col, c.color@)
}

/// The views of a list of colour ranges.
pub open spec fn range_views(v: Seq<ColorRange>) -> Seq<(usize, usize, usize, Seq<char>)> {
    v.map_values(|c: ColorRange| range_view(c))
}

/// The ranges with any range of exactly this span replaced by one with the
/// new colour, added at the end.
pub open spec fn recolored(cs: Seq<(usize, usize, usize, Seq<char>)>, line: usize, sc: usize, ec: usize, color: Seq<char>) -> Seq<(usize, usize, usize, Seq<char>)> {
    cs.filter(other_span(line, sc, ec)).push((line, sc, ec, color))
}

/// Whether a range covers a span other than `[sc, ec)` of line `line`.
pub open spec fn other_span(line: usize, sc: usize, ec: usize) -> spec_fn((usize, usize, usize, Seq<char>)) -> bool {
    |c: (usize, usize, usize, Seq<char>)| !(c.0 == line && c.1 == sc && c.2 == ec)
}

/// The span of line `li` covered by a selection from `start` to `end`: from
/// the start column on the first line (else 0) to the end column on the last
/// line (else the line's length).
pub open spec fn line_span(lines: Seq<Seq<char>>, start: (usize, usize), end: (usize, usize), li: int) -> (int, int) {
    (if li == start.0 { start.1 as int } else { 0 }, if li == end.0 { end.1 as int } else { lines[li].len() as int })
}

/// The ranges after colouring the lines `start.0 ..= start.0 + n - 1`.
pub open spec fn colored_lines(cs: Seq<(usize, usize, usize, Seq<char>)>, lines: Seq<Seq<char>>, start: (usize, usize), end: (usize, usize), color: Seq<char>, n: nat) -> Seq<(usize, usize, usize, Seq<char>)>
    decreases n,
{
    if n == 0 {
        cs
    } else {
        let li = start.0 + n - 1;
        let (sc, ec) = line_span(lines, start, end, li);
        recolored(colored_lines(cs, lines, start, end, color, (n - 1) as nat), li as usize, sc as usize, ec as usize, color)
    }
}

/// The ranges after colouring the ordered selection `start..end`: a
/// selection within one line gets one range; a selection over several lines
/// gets one range per line (see `line_span`).
pub open spec fn colored(cs: Seq<(usize, usize, usize, Seq<char>)>, lines: Seq<Seq<char>>, start: (usize, usize), end: (usize, usize), color: Seq<char>) -> Seq<(usize, usize, usize, Seq<char>)> {
    if start.0 == end.0 {
        recolored(cs, start.0, start.1, end.1, color)
    } else if start.0 < end.0 {
        colored_lines(cs, lines, start, end, color, (end.0 - start.0 + 1) as nat)
    } else {
        cs
    }
}

/// Replaces any range of exactly this span by one with the new colour.
fn recolor(colors: &mut Vec<ColorRange>, line: usize, sc: usize, ec: usize, color: &Vec<char>)
    ensures
        range_views(final(colors)@) == recolored(range_views(old(colors)@), line, sc, ec, color@),
{
    let ghost pred = other_span(line, sc, ec);
    let ghost before = range_views(colors@);
    let mut kept: Vec<ColorRange> = Vec::new();
    let mut input: Vec<ColorRange> = Vec::new();
    std::mem::swap(colors, &mut input);
    let ghost src = input@;
    let n = input.len();
    let mut k: usize = 0;
    while k < n
        invariant
            n == src.len(),
            k <= src.len(),
            input@ == src.skip(k as int),
            before == range_views(src),
            pred == other_span(line, sc, ec),
            range_views(kept@) == range_views(src.take(k as int)).filter(pred),
        decreases input.len(),
    {
        let c = input.remove(0);
        proof {
            reveal_with_fuel(Seq::<_>::filter, 1);
            assert(src.skip(k as int)[0] == src[k as int]);
            assert(src.take(k + 1) == src.take(k as int).push(src[k as int]));
            assert(range_views(src.take(k + 1)) == range_views(src.take(k as int)).push(range_view(src[k as int])));
            assert(range_views(src.take(k + 1)).drop_last() == range_views(src.take(k as int)));
            assert(src.skip(k + 1) == src.skip(k as int).drop_first());
        }
        if !(c.line == line && c.start_col == sc && c.end_col == ec) {
            proof {
                assert(range_views(kept@.push(c)) == range_views(kept@).push(range_view(c)));
            }
            kept.push(c);
        }
        k = k + 1;
    }
    assert(src.take(k as int) == src);
    assert(range_views(kept@) == before.filter(pred));
    let new_range = ColorRange { line, start_col: sc, end_col: ec, color: string_of(color) };
    proof {
        assert(range_views(kept@.push(new_range)) == range_views(kept@).push(range_view(new_range)));
    }
    kept.push(new_range);
    *colors = kept;
}

/// Colours the ordered selection `start..end` of the editor's lines with
/// `color`: one range for a selection within a line, one per line for a
/// selection over several lines; any range with exactly the same span is
/// replaced. A reversed selection changes nothing.
pub fn apply_text_color(colors: &mut Vec<ColorRange>, lines: &Vec<String>, start: (usize, usize), end: (usize, usize), color: &str)
    requires
        start.0 < end.0 ==> end.0 <= lines.len(),
    ensures
        range_views(final(colors)@) == colored(range_views(old(colors)@), strings(lines@), start, end, color@),
{
    let code = chars_of(color);
    if start.0 == end.0 {
        recolor(colors, start.0, start.1, end.1, &code);
    } else if start.0 < end.0 {
        let ghost cs0 = range_views(colors@);
        let ghost ls = strings(lines@);
        let mut li = start.0;
        loop
            invariant_except_break
                range_views(colors@) == colored_lines(cs0, ls, start, end, color@, (li - start.0) as nat),
            invariant
                start.0 <= li <= end.0,
                end.0 <= lines.len(),
                ls == strings(lines@),
                code@ == color@,
            ensures
                range_views(colors@) == colored_lines(cs0, ls, start, end, color@, (end.0 - start.0 + 1) as nat),
            decreases end.0 - li,
        {
            let sc = if li == start.0 { start.1 } else { 0 };
            let ec = if li == end.0 {
                end.1
            } else {
                let v = chars_of(lines[li].as_str());
                assert(v@ == ls[li as int]);
                v.len()
            };
            recolor(colors, li, sc, ec, &code);
            assert(range_views(colors@) == colored_lines(cs0, ls, start, end, color@, (li - start.0 + 1) as nat));
            if li == end.0 {
                break;
            }
            li = li + 1;
        }
    }
}

} // verus!
