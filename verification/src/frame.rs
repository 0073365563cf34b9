use vstd::prelude::*;

use crate::feed::all_width_one;
use crate::style::{
    color_hex, color_hex_chars, default_style, spec_applied_style, applied_style, CellStyle, Color,
};
use crate::text::chars_to_string;
use crate::vt::{is_blank_cell, is_blank_row, Cell, VtLite};

verus! {

/// One run of equally styled characters in an emitted line. Colours are
/// `#rrggbb` strings; absent options and false flags are left out of the JSON.
pub struct Segment {
    pub text: String,
    pub fg: Option<String>,
    pub bg: Option<String>,
    pub bold: bool,
    pub italic: bool,
    pub underline: bool,
}

/// One emitted grid row: its segments in order.
pub struct Line {
    pub segments: Vec<Segment>,
}

/// A rendered screen: the grid dimensions, the styled lines, and the cursor.
pub struct Frame {
    pub cols: usize,
    pub rows: usize,
    pub lines: Vec<Line>,
    pub cursor_row: usize,
    pub cursor_col: usize,
    pub cursor_visible: bool,
}

/// The mathematical form of a segment: its characters and its emitted style.
pub struct SpecSegment {
    pub text: Seq<char>,
    pub fg: Option<Color>,
    pub bg: Option<Color>,
    pub bold: bool,
    pub italic: bool,
    pub underline: bool,
}

/// Whether an emitted segment renders a mathematical one: same characters,
/// the colours written as `#rrggbb`, the flags alike.
pub open spec fn seg_matches(seg: Segment, m: SpecSegment) -> bool {
    &&& seg.text@ == m.text
    &&& (match (seg.fg, m.fg) {
        (Option::None, Option::None) => true,
        (Option::Some(s), Option::Some(c)) => s@ == color_hex_chars(c),
        _ => false,
    })
    &&& (match (seg.bg, m.bg) {
        (Option::None, Option::None) => true,
        (Option::Some(s), Option::Some(c)) => s@ == color_hex_chars(c),
        _ => false,
    })
    &&& seg.bold == m.bold
    &&& seg.italic == m.italic
    &&& seg.underline == m.underline
}

/// The segment one cell opens: its text, under its emitted style.
pub open spec fn seg_of(c: Cell) -> SpecSegment {
    let st = spec_applied_style(c.style);
    SpecSegment {
        text: c.text@,
        fg: st.fg,
        bg: st.bg,
        bold: st.bold,
        italic: st.italic,
        underline: st.underline,
    }
}

pub open spec fn seg_style_is(m: SpecSegment, st: CellStyle) -> bool {
    m.fg == st.fg && m.bg == st.bg && m.bold == st.bold && m.italic == st.italic && m.underline
        == st.underline
}

/// The single empty segment of an all-blank row.
pub open spec fn empty_segment() -> SpecSegment {
    SpecSegment {
        text: Seq::<char>::empty(),
        fg: None,
        bg: None,
        bold: false,
        italic: false,
        underline: false,
    }
}

/// How many cells of a row stay when its trailing plain-space cells (text a
/// single space, whatever the style's colours say) are trimmed. The text alone
/// decides, as the emitter compares only the cell text.
pub open spec fn keep_len(cells: Seq<Cell>) -> int
    decreases cells.len(),
{
    if cells.len() == 0 {
        0
    } else if cells.last().text@ == seq![' '] {
        keep_len(cells.drop_last())
    } else {
        cells.len() as int
    }
}

/// Adjacent cells of one emitted style coalesced into segments, walking from
/// cell `i` with the open segment `cur`.
pub open spec fn coalesce_from(cells: Seq<Cell>, i: int, cur: SpecSegment) -> Seq<SpecSegment>
    decreases cells.len() - i
    when 0 <= i <= cells.len()
{
    if i >= cells.len() {
        seq![cur]
    } else {
        let st = spec_applied_style(cells[i].style);
        if seg_style_is(cur, st) {
            coalesce_from(cells, i + 1, SpecSegment { text: cur.text + cells[i].text@, ..cur })
        } else {
            seq![cur] + coalesce_from(cells, i + 1, seg_of(cells[i]))
        }
    }
}

/// What a grid row emits: its cells after the trailing blanks are trimmed,
/// coalesced into styled segments; an empty remainder emits one empty segment.
pub open spec fn row_segments(cells: Seq<Cell>) -> Seq<SpecSegment> {
    let kept = cells.subrange(0, keep_len(cells));
    if kept.len() == 0 {
        seq![empty_segment()]
    } else {
        let st = spec_applied_style(kept[0].style);
        coalesce_from(
            kept,
            0,
            SpecSegment {
                text: Seq::<char>::empty(),
                fg: st.fg,
                bg: st.bg,
                bold: st.bold,
                italic: st.italic,
                underline: st.underline,
            },
        )
    }
}

/// Whether an emitted line renders a sequence of mathematical segments.
pub open spec fn line_matches(l: Line, segs: Seq<SpecSegment>) -> bool {
    l.segments@.len() == segs.len() && forall|k: int|
        0 <= k < segs.len() ==> seg_matches(#[trigger] l.segments@[k], segs[k])
}

/// Every segment of the line holds text, except the single empty segment of a
/// blank row.
pub open spec fn line_segments_nonempty(l: Line) -> bool {
    forall|k: int|
        0 <= k < l.segments@.len() ==> (#[trigger] l.segments@[k]).text@.len() > 0 || (
        l.segments@.len() == 1 && l.segments@[0].text@.len() == 0)
    }

proof fn lemma_coalesce_nonempty(cells: Seq<Cell>, i: int, cur: SpecSegment)
    requires
        0 <= i <= cells.len(),
        forall|j: int| 0 <= j < cells.len() ==> (#[trigger] cells[j]).text@.len() >= 1,
        cur.text.len() >= 1 || (i < cells.len() && seg_style_is(
            cur,
            spec_applied_style(cells[i].style),
        )),
    ensures
        forall|k: int|
            0 <= k < coalesce_from(cells, i, cur).len() ==> (#[trigger] coalesce_from(
                cells,
                i,
                cur,
            )[k]).text.len() >= 1,
    decreases cells.len() - i,
{
    if i < cells.len() {
        let st = spec_applied_style(cells[i].style);
        if seg_style_is(cur, st) {
            lemma_coalesce_nonempty(
                cells,
                i + 1,
                SpecSegment { text: cur.text + cells[i].text@, ..cur },
            );
        } else {
            lemma_coalesce_nonempty(cells, i + 1, seg_of(cells[i]));
        }
    }
}

/// Every row of a well-formed grid emits segments with text, or the single
/// empty segment of a blank row.
pub proof fn lemma_row_segments_nonempty(cells: Seq<Cell>)
    requires
        forall|j: int| 0 <= j < cells.len() ==> (#[trigger] cells[j]).text@.len() >= 1,
    ensures
        forall|k: int|
            0 <= k < row_segments(cells).len() ==> (#[trigger] row_segments(cells)[k]).text.len()
                >= 1 || (row_segments(cells).len() == 1 && row_segments(cells)[0].text.len() == 0),
{
    let kl = keep_len(cells);
    lemma_keep_len_bounds(cells);
    let kept = cells.subrange(0, kl);
    if kept.len() > 0 {
        let st = spec_applied_style(kept[0].style);
        let cur = SpecSegment {
            text: Seq::<char>::empty(),
            fg: st.fg,
            bg: st.bg,
            bold: st.bold,
            italic: st.italic,
            underline: st.underline,
        };
        lemma_coalesce_nonempty(kept, 0, cur);
    }
}

pub proof fn lemma_keep_len_bounds(cells: Seq<Cell>)
    ensures
        0 <= keep_len(cells) <= cells.len(),
    decreases cells.len(),
{
    if cells.len() > 0 && cells.last().text@ == seq![' '] {
        lemma_keep_len_bounds(cells.drop_last());
    }
}

/// The open segment over the given characters in the given emitted style.
pub open spec fn seg_from(t: Seq<char>, st: CellStyle) -> SpecSegment {
    SpecSegment {
        text: t,
        fg: st.fg,
        bg: st.bg,
        bold: st.bold,
        italic: st.italic,
        underline: st.underline,
    }
}

fn cell_is_space(c: &Cell) -> (r: bool)
    ensures
        r == (c.text@ == seq![' ']),
{
    proof {
        assert(seq![' '].len() == 1);
        assert(c.text@ == seq![' '] ==> c.text@[0] == ' ');
    }
    if c.text.len() == 1 {
        let r = c.text[0] == ' ';
        proof {
            if r {
                assert(c.text@ =~= seq![' ']);
            }
        }
        r
    } else {
        false
    }
}

#[verifier::loop_isolation(false)]
fn push_all(dst: &mut Vec<char>, src: &Vec<char>)
    ensures
        final(dst)@ == old(dst)@ + src@,
{
    let mut k: usize = 0;
    while k < src.len()
        invariant
            k <= src@.len(),
            dst@ == old(dst)@ + src@.subrange(0, k as int),
        decreases src@.len() - k,
    {
        dst.push(src[k]);
        proof {
            assert(old(dst)@ + src@.subrange(0, k + 1) =~= (old(dst)@ + src@.subrange(
                0,
                k as int,
            )).push(src@[k as int]));
        }
        k = k + 1;
    }
    proof {
        assert(src@.subrange(0, src@.len() as int) =~= src@);
    }
}

/// Render one segment: the colours as `#rrggbb` strings, the flags as they are.
fn make_segment(text: &Vec<char>, style: CellStyle) -> (s: Segment)
    ensures
        seg_matches(s, seg_from(text@, style)),
{
    Segment {
        text: chars_to_string(text),
        fg: match style.fg {
            Some(c) => Some(color_hex(c)),
            None => None,
        },
        bg: match style.bg {
            Some(c) => Some(color_hex(c)),
            None => None,
        },
        bold: style.bold,
        italic: style.italic,
        underline: style.underline,
    }
}

impl VtLite {
    /// Emit the current screen: each row trimmed of its trailing blank cells
    /// and coalesced into styled segments, with the cursor clamped onto the
    /// grid. A blank row emits one empty segment.
    #[verifier::loop_isolation(false)]
    #[verifier::rlimit(100)]
    pub fn into_frame(self) -> (f: Frame)
        requires
            self.wf(),
        ensures
            f.cols == self.cols,
            f.rows == self.rows,
            f.lines@.len() == self.rows,
            forall|r: int|
                0 <= r < self.rows ==> line_matches(
                    #[trigger] f.lines@[r],
                    row_segments(self.lines@[r]@),
                ),
            forall|r: int| 0 <= r < self.rows ==> line_segments_nonempty(#[trigger] f.lines@[r]),
            f.cursor_row == self.cursor_row,
            f.cursor_col == self.cursor_col,
            f.cursor_row < f.rows,
            f.cursor_col < f.cols,
            f.cursor_visible == self.cursor_visible,
    {
        let mut lines: Vec<Line> = Vec::new();
        let mut r: usize = 0;
        while r < self.rows
            invariant
                r <= self.rows,
                lines@.len() == r,
                forall|t: int|
                    0 <= t < r ==> line_matches(
                        #[trigger] lines@[t],
                        row_segments(self.lines@[t]@),
                    ),
                forall|t: int| 0 <= t < r ==> line_segments_nonempty(#[trigger] lines@[t]),
            decreases self.rows - r,
        {
            let row = &self.lines[r];
            let mut end = row.len();
            proof {
                assert(row@.subrange(0, end as int) =~= row@);
            }
            while end > 0 && cell_is_space(&row[end - 1])
                invariant
                    0 <= end <= row@.len(),
                    keep_len(row@) == keep_len(row@.subrange(0, end as int)),
                decreases end,
            {
                proof {
                    let sub = row@.subrange(0, end as int);
                    assert(sub.last() == row@[end - 1]);
                    assert(sub.drop_last() =~= row@.subrange(0, end - 1));
                }
                end = end - 1;
            }
            proof {
                if end > 0 {
                    let sub = row@.subrange(0, end as int);
                    assert(sub.last() == row@[end - 1]);
                    assert(keep_len(sub) == end);
                }
            }
            let ghost kept = row@.subrange(0, end as int);
            proof {
                lemma_row_segments_nonempty(row@);
            }
            let mut segs: Vec<Segment> = Vec::new();
            if end == 0 {
                segs.push(
                    Segment {
                        text: String::new(),
                        fg: None,
                        bg: None,
                        bold: false,
                        italic: false,
                        underline: false,
                    },
                );
                proof {
                    assert(seg_matches(segs@[0], empty_segment()));
                    assert(row_segments(row@) =~= seq![empty_segment()]);
                    assert(line_matches(Line { segments: segs }, row_segments(row@)));
                }
                lines.push(Line { segments: segs });
            } else {
                let mut cur_text: Vec<char> = Vec::new();
                let mut cur_style = applied_style(&row[0].style);
                let ghost mut done: Seq<SpecSegment> = seq![];
                proof {
                    assert(kept[0] == row@[0]);
                    assert(row_segments(row@) == coalesce_from(
                        kept,
                        0,
                        seg_from(Seq::<char>::empty(), cur_style),
                    ));
                    assert(done + coalesce_from(kept, 0, seg_from(cur_text@, cur_style))
                        =~= coalesce_from(kept, 0, seg_from(cur_text@, cur_style)));
                }
                let mut c: usize = 0;
                while c < end
                    invariant
                        c <= end,
                        end == keep_len(row@),
                        end <= row@.len(),
                        kept == row@.subrange(0, end as int),
                        cur_style.inverse == false,
                        segs@.len() == done.len(),
                        forall|k: int| 0 <= k < done.len() ==> seg_matches(#[trigger] segs@[k], done[k]),
                        row_segments(row@) == done + coalesce_from(
                            kept,
                            c as int,
                            seg_from(cur_text@, cur_style),
                        ),
                    decreases end - c,
                {
                    let st = applied_style(&row[c].style);
                    proof {
                        assert(kept[c as int] == row@[c as int]);
                    }
                    if !(st == cur_style) {
                        let seg = make_segment(&cur_text, cur_style);
                        segs.push(seg);
                        proof {
                            let cur = seg_from(cur_text@, cur_style);
                            let next = seg_of(kept[c as int]);
                            assert(!seg_style_is(cur, st));
                            assert(coalesce_from(kept, c as int, cur) == seq![cur] + coalesce_from(
                                kept,
                                c + 1,
                                next,
                            ));
                            assert((done + seq![cur]) + coalesce_from(kept, c + 1, next)
                                =~= done + (seq![cur] + coalesce_from(kept, c + 1, next)));
                            done = done + seq![cur];
                        }
                        cur_text = Vec::new();
                        cur_style = st;
                        push_all(&mut cur_text, &row[c].text);
                        proof {
                            assert(cur_text@ =~= kept[c as int].text@);
                            assert(seg_from(cur_text@, cur_style) == seg_of(kept[c as int]));
                        }
                    } else {
                        let ghost cur = seg_from(cur_text@, cur_style);
                        proof {
                            assert(seg_style_is(cur, st));
                            assert(coalesce_from(kept, c as int, cur) == coalesce_from(
                                kept,
                                c + 1,
                                SpecSegment { text: cur.text + kept[c as int].text@, ..cur },
                            ));
                        }
                        push_all(&mut cur_text, &row[c].text);
                        proof {
                            assert(seg_from(cur_text@, cur_style) == (SpecSegment {
                                text: cur.text + kept[c as int].text@,
                                ..cur
                            }));
                        }
                    }
                    c = c + 1;
                }
                let seg = make_segment(&cur_text, cur_style);
                segs.push(seg);
                proof {
                    let cur = seg_from(cur_text@, cur_style);
                    assert(coalesce_from(kept, c as int, cur) == seq![cur]);
                    assert(row_segments(row@) =~= done.push(cur));
                    assert(line_matches(Line { segments: segs }, row_segments(row@)));
                }
                lines.push(Line { segments: segs });
            }
            proof {
                assert forall|k: int|
                    0 <= k < lines@[r as int].segments@.len() implies (#[trigger] lines@[
                r as int].segments@[k]).text@.len() > 0 || (lines@[r as int].segments@.len() == 1
                    && lines@[r as int].segments@[0].text@.len() == 0) by {
                    assert(seg_matches(lines@[r as int].segments@[k], row_segments(row@)[k]));
                }
            }
            r = r + 1;
        }
        let cursor_row = if self.cursor_row < self.rows - 1 {
            self.cursor_row
        } else {
            self.rows - 1
        };
        let cursor_col = if self.cursor_col < self.cols - 1 {
            self.cursor_col
        } else {
            self.cols - 1
        };
        Frame {
            cols: self.cols,
            rows: self.rows,
            lines,
            cursor_row,
            cursor_col,
            cursor_visible: self.cursor_visible,
        }
    }
}

/// The length of a character sequence after trailing spaces are removed.
pub open spec fn text_keep(s: Seq<char>) -> int
    decreases s.len(),
{
    if s.len() > 0 && s.last() == ' ' {
        text_keep(s.drop_last())
    } else {
        s.len() as int
    }
}

/// A character sequence with its trailing spaces removed.
pub open spec fn trim_spaces(s: Seq<char>) -> Seq<char> {
    s.subrange(0, text_keep(s))
}

pub proof fn lemma_text_keep_bounds(s: Seq<char>)
    ensures
        0 <= text_keep(s) <= s.len(),
    decreases s.len(),
{
    if s.len() > 0 && s.last() == ' ' {
        lemma_text_keep_bounds(s.drop_last());
    }
}

proof fn lemma_keep_len_all_space(cells: Seq<Cell>)
    requires
        forall|j: int| 0 <= j < cells.len() ==> (#[trigger] cells[j]).text@ == seq![' '],
    ensures
        keep_len(cells) == 0,
    decreases cells.len(),
{
    if cells.len() > 0 {
        assert(cells.last().text@ == seq![' ']);
        lemma_keep_len_all_space(cells.drop_last());
    }
}

proof fn lemma_typed_keep(cells: Seq<Cell>, s: Seq<char>)
    requires
        s.len() <= cells.len(),
        forall|j: int| 0 <= j < s.len() ==> (#[trigger] cells[j]).text@ == seq![s[j]],
        forall|j: int| s.len() <= j < cells.len() ==> (#[trigger] cells[j]).text@ == seq![' '],
    ensures
        keep_len(cells) == text_keep(s),
    decreases cells.len(),
{
    lemma_text_keep_bounds(s);
    if cells.len() == 0 {
    } else if cells.len() > s.len() {
        assert(cells.last().text@ == seq![' ']);
        lemma_typed_keep(cells.drop_last(), s);
    } else {
        assert(cells.last().text@ == seq![s.last()]);
        if s.last() == ' ' {
            assert(cells.last().text@ == seq![' ']);
            assert(forall|j: int|
                0 <= j < s.len() - 1 ==> (#[trigger] cells.drop_last()[j]).text@ == seq![
                    s.drop_last()[j],
                ]);
            lemma_typed_keep(cells.drop_last(), s.drop_last());
        } else {
            assert(cells.last().text@ != seq![' ']) by {
                if cells.last().text@ == seq![' '] {
                    assert(seq![s.last()][0] == seq![' '][0]);
                }
            }
        }
    }
}

/// The texts of the cells from `i` on, joined in order.
pub open spec fn texts_concat(cells: Seq<Cell>, i: int) -> Seq<char>
    decreases cells.len() - i
    when 0 <= i <= cells.len()
{
    if i >= cells.len() {
        Seq::<char>::empty()
    } else {
        cells[i].text@ + texts_concat(cells, i + 1)
    }
}

proof fn lemma_coalesce_uniform(cells: Seq<Cell>, i: int, cur: SpecSegment)
    requires
        0 <= i <= cells.len(),
        forall|j: int|
            0 <= j < cells.len() ==> spec_applied_style((#[trigger] cells[j]).style)
                == default_style(),
        seg_style_is(cur, default_style()),
    ensures
        coalesce_from(cells, i, cur) == seq![
            SpecSegment { text: cur.text + texts_concat(cells, i), ..cur },
        ],
    decreases cells.len() - i,
{
    if i >= cells.len() {
        assert(cur.text + texts_concat(cells, i) =~= cur.text);
        assert((SpecSegment { text: cur.text + texts_concat(cells, i), ..cur }) == cur);
    } else {
        let st = spec_applied_style(cells[i].style);
        assert(seg_style_is(cur, st));
        let cur2 = SpecSegment { text: cur.text + cells[i].text@, ..cur };
        lemma_coalesce_uniform(cells, i + 1, cur2);
        assert((cur.text + cells[i].text@) + texts_concat(cells, i + 1) =~= cur.text + (
        cells[i].text@ + texts_concat(cells, i + 1)));
    }
}

proof fn lemma_texts_concat_typed(cells: Seq<Cell>, s: Seq<char>, i: int)
    requires
        0 <= i <= cells.len(),
        cells.len() <= s.len(),
        forall|j: int| 0 <= j < cells.len() ==> (#[trigger] cells[j]).text@ == seq![s[j]],
    ensures
        texts_concat(cells, i) == s.subrange(i, cells.len() as int),
    decreases cells.len() - i,
{
    if i >= cells.len() {
        assert(s.subrange(i, cells.len() as int) =~= Seq::<char>::empty());
    } else {
        lemma_texts_concat_typed(cells, s, i + 1);
        assert(seq![s[i]] + s.subrange(i + 1, cells.len() as int) =~= s.subrange(
            i,
            cells.len() as int,
        ));
    }
}

/// A value clamped into an inclusive range.
pub open spec fn clamp_range(v: int, lo: int, hi: int) -> int {
    if v < lo {
        lo
    } else if v > hi {
        hi
    } else {
        v
    }
}

/// What a frame shows of plain single-line text that fits the grid: the text,
/// right-trimmed of spaces, as the only styled run of the first row; every
/// other row empty; the cursor resting after the text.
pub open spec fn plain_text_frame(f: Frame, s: Seq<char>) -> bool {
    &&& f.lines@.len() == f.rows
    &&& f.rows >= 1
    &&& f.lines@[0].segments@.len() == 1
    &&& f.lines@[0].segments@[0].text@ == trim_spaces(s)
    &&& (trim_spaces(s).len() > 0 ==> f.lines@[0].segments@[0].fg is None
        && f.lines@[0].segments@[0].bg is None && !f.lines@[0].segments@[0].bold
        && !f.lines@[0].segments@[0].italic && !f.lines@[0].segments@[0].underline)
    &&& forall|r: int|
        1 <= r < f.rows ==> (#[trigger] f.lines@[r]).segments@.len() == 1
            && f.lines@[r].segments@[0].text@.len() == 0
    &&& f.cursor_row == 0
    &&& f.cursor_col == (if s.len() < f.cols {
        s.len() as int
    } else {
        f.cols - 1
    })
}

fn clamp_u16(v: u16, lo: u16, hi: u16) -> (r: u16)
    requires
        lo <= hi,
    ensures
        r == clamp_range(v as int, lo as int, hi as int),
{
    if v < lo {
        lo
    } else if v > hi {
        hi
    } else {
        v
    }
}

/// Render a captured byte stream (decoded to text) as a styled frame: columns
/// clamped to [20, 300] and rows to [6, 200], the stream replayed onto a fresh
/// grid, and the grid emitted with its cursor. The frame always spans exactly
/// the clamped `rows` lines, the cursor lies inside the grid, and every
/// segment holds text except the single empty segment of a blank row. Plain
/// text that fits on one row appears right-trimmed as that row`s only run.
#[verifier::rlimit(100)]
pub fn build_styled_frame(buffer: &str, cols: u16, rows: u16) -> (f: Frame)
    ensures
        f.cols == clamp_range(cols as int, 20, 300),
        f.rows == clamp_range(rows as int, 6, 200),
        f.lines@.len() == f.rows,
        f.cursor_row < f.rows,
        f.cursor_col < f.cols,
        forall|r: int| 0 <= r < f.rows ==> line_segments_nonempty(#[trigger] f.lines@[r]),
        (all_width_one(buffer@) && buffer@.len() <= clamp_range(cols as int, 20, 300))
            ==> plain_text_frame(f, buffer@),
{
    let safe_cols = clamp_u16(cols, 20, 300) as usize;
    let safe_rows = clamp_u16(rows, 6, 200) as usize;
    let mut vt = VtLite::new(safe_cols, safe_rows);
    let ghost init = vt;
    vt.feed(buffer);
    let ghost fed = vt;
    let f = vt.into_frame();
    proof {
        assert forall|r: int| 0 <= r < f.rows implies line_segments_nonempty(
            #[trigger] f.lines@[r],
        ) by {
            assert(line_matches(f.lines@[r], row_segments(fed.lines@[r]@)));
            lemma_row_segments_nonempty(fed.lines@[r]@);
        }
        if all_width_one(buffer@) && buffer@.len() <= safe_cols {
            let s = buffer@;
            assert(crate::feed::pure_progress(fed, s, s.len() as int));
            assert(s.subrange(0, s.len() as int) =~= s);
            let row0 = fed.lines@[0]@;
            assert(crate::feed::typed_line(fed.lines@[0], s, safe_cols as int));
            assert forall|j: int| 0 <= j < s.len() implies (#[trigger] row0[j]).text@ == seq![
                s[j],
            ] by {}
            assert forall|j: int| s.len() <= j < row0.len() implies (#[trigger] row0[j]).text@
                == seq![' '] by {
                assert(is_blank_cell(row0[j]));
            }
            lemma_typed_keep(row0, s);
            lemma_text_keep_bounds(s);
            let keep = text_keep(s);
            let kept = row0.subrange(0, keep);
            if keep > 0 {
                assert forall|j: int| 0 <= j < kept.len() implies spec_applied_style(
                    (#[trigger] kept[j]).style,
                ) == default_style() by {
                    assert(kept[j] == row0[j]);
                    assert(row0[j].style == default_style());
                }
                let st = spec_applied_style(kept[0].style);
                let cur = SpecSegment {
                    text: Seq::<char>::empty(),
                    fg: st.fg,
                    bg: st.bg,
                    bold: st.bold,
                    italic: st.italic,
                    underline: st.underline,
                };
                lemma_coalesce_uniform(kept, 0, cur);
                assert forall|j: int| 0 <= j < kept.len() implies (#[trigger] kept[j]).text@
                    == seq![s[j]] by {
                    assert(kept[j] == row0[j]);
                }
                lemma_texts_concat_typed(kept, s, 0);
                assert(Seq::<char>::empty() + texts_concat(kept, 0) =~= trim_spaces(s));
                assert(row_segments(row0) == seq![
                    SpecSegment { text: trim_spaces(s), ..cur },
                ]);
                assert(f.lines@[0].segments@.len() == 1);
                assert(seg_matches(f.lines@[0].segments@[0], row_segments(row0)[0]));
            } else {
                assert(trim_spaces(s) =~= Seq::<char>::empty());
                assert(kept.len() == 0);
                assert(row_segments(row0) == seq![empty_segment()]);
                assert(seg_matches(f.lines@[0].segments@[0], empty_segment()));
            }
            assert forall|r: int| 1 <= r < f.rows implies (#[trigger] f.lines@[r]).segments@.len()
                == 1 && f.lines@[r].segments@[0].text@.len() == 0 by {
                let rowr = fed.lines@[r]@;
                assert(is_blank_row(fed.lines@[r], safe_cols as int));
                assert forall|j: int| 0 <= j < rowr.len() implies (#[trigger] rowr[j]).text@
                    == seq![' '] by {
                    assert(is_blank_cell(rowr[j]));
                }
                lemma_keep_len_all_space(rowr);
                assert(rowr.subrange(0, 0).len() == 0);
                assert(row_segments(rowr) == seq![empty_segment()]);
                assert(seg_matches(f.lines@[r].segments@[0], empty_segment()));
            }
        }
    }
    f
}

} // verus!
