use vstd::prelude::*;

use crate::style::default_style;
use crate::text::{parse_i32_chars, spec_char_width, spec_parse_i32};
use crate::vt::{
    clamp_to, entered_alt, erased_display_lines, erased_line_row, is_blank_cell, is_blank_row,
    left_alt, sgr_apply, VtLite,
};

verus! {

/// The position of the first `;` at or after `from`, or the length if none.
pub open spec fn find_semi(s: Seq<char>, from: int) -> int
    decreases s.len() - from
    when 0 <= from <= s.len()
{
    if from >= s.len() {
        s.len() as int
    } else if s[from] == ';' {
        from
    } else {
        find_semi(s, from + 1)
    }
}

proof fn lemma_find_semi_at(s: Seq<char>, from: int, idx: int)
    requires
        0 <= from <= idx <= s.len(),
        forall|m: int| from <= m < idx ==> s[m] != ';',
        idx == s.len() || s[idx] == ';',
    ensures
        find_semi(s, from) == idx,
    decreases idx - from,
{
    if from < idx {
        lemma_find_semi_at(s, from + 1, idx);
    }
}

/// A string split on `;`: the pieces between the separators, in order; an
/// empty string is one empty piece.
pub open spec fn split_semi(s: Seq<char>) -> Seq<Seq<char>>
    decreases s.len(),
{
    let i = find_semi(s, 0);
    if 0 <= i < s.len() {
        seq![s.subrange(0, i)] + split_semi(s.subrange(i + 1, s.len() as int))
    } else {
        seq![s]
    }
}

/// What a CSI parameter string parses to: split on `;`, each piece read as a
/// decimal number, an empty or malformed piece absent; the empty string is a
/// single absent parameter.
pub open spec fn spec_parse_params(s: Seq<char>) -> Seq<Option<i32>> {
    split_semi(s).map_values(|p: Seq<char>| spec_parse_i32(p))
}

/// Split a CSI parameter string (the given slice of `chars`) on `;` and parse
/// each piece as a decimal number; empty or malformed pieces are absent.
#[verifier::loop_isolation(false)]
#[verifier::rlimit(50)]
pub fn parse_params(chars: &Vec<char>, from: usize, to: usize) -> (r: Vec<Option<i32>>)
    requires
        from <= to <= chars@.len(),
    ensures
        r@ == spec_parse_params(chars@.subrange(from as int, to as int)),
{
    let ghost s = chars@.subrange(from as int, to as int);
    let mut result: Vec<Option<i32>> = Vec::new();
    let mut seg_start = from;
    let mut j = from;
    proof {
        assert(s.subrange(0, s.len() as int) =~= s);
        assert(result@ + spec_parse_params(s) =~= spec_parse_params(s));
    }
    while j < to
        invariant
            from <= seg_start <= j <= to,
            forall|m: int| seg_start <= m < j ==> chars@[m] != ';',
            spec_parse_params(s) == result@ + spec_parse_params(
                s.subrange(seg_start - from, s.len() as int),
            ),
        decreases to - j,
    {
        if chars[j] == ';' {
            let piece = parse_i32_chars(chars, seg_start, j);
            result.push(piece);
            proof {
                let rest = s.subrange(seg_start - from, s.len() as int);
                let idx = j - seg_start;
                assert forall|m: int| 0 <= m < idx implies rest[m] != ';' by {
                    assert(rest[m] == chars@[seg_start + m]);
                }
                assert(rest[idx] == chars@[j as int]);
                lemma_find_semi_at(rest, 0, idx);
                assert(rest.subrange(0, idx) =~= chars@.subrange(seg_start as int, j as int));
                assert(rest.subrange(idx + 1, rest.len() as int) =~= s.subrange(
                    j + 1 - from,
                    s.len() as int,
                ));
                assert(split_semi(rest) == seq![rest.subrange(0, idx)] + split_semi(
                    s.subrange(j + 1 - from, s.len() as int),
                ));
                assert(spec_parse_params(rest) =~= seq![
                    spec_parse_i32(chars@.subrange(seg_start as int, j as int)),
                ] + spec_parse_params(s.subrange(j + 1 - from, s.len() as int)));
                assert(spec_parse_params(s) =~= result@ + spec_parse_params(
                    s.subrange(j + 1 - from, s.len() as int),
                ));
            }
            seg_start = j + 1;
        }
        j = j + 1;
    }
    let piece = parse_i32_chars(chars, seg_start, to);
    result.push(piece);
    proof {
        let rest = s.subrange(seg_start - from, s.len() as int);
        let idx = to - seg_start;
        assert forall|m: int| 0 <= m < idx implies rest[m] != ';' by {
            assert(rest[m] == chars@[seg_start + m]);
        }
        lemma_find_semi_at(rest, 0, idx);
        if idx < rest.len() {
            assert(false);
        }
        assert(split_semi(rest) == seq![rest]);
        assert(rest =~= chars@.subrange(seg_start as int, to as int));
        assert(spec_parse_params(rest) =~= seq![
            spec_parse_i32(chars@.subrange(seg_start as int, to as int)),
        ]);
        assert(result@ =~= spec_parse_params(s));
    }
    result
}

/// The parameter at an index, or the default where it is absent or missing.
pub open spec fn spec_param_or(params: Seq<Option<i32>>, index: int, default: int) -> int {
    if 0 <= index < params.len() {
        match params[index] {
            Some(v) => v as int,
            None => default,
        }
    } else {
        default
    }
}

/// The parameter at an index, or the default where it is absent or missing.
pub fn param_or(params: &Vec<Option<i32>>, index: usize, default: i32) -> (r: i32)
    ensures
        r == spec_param_or(params@, index as int, default as int),
{
    if index < params.len() {
        match params[index] {
            Some(v) => v,
            None => default,
        }
    } else {
        default
    }
}

pub open spec fn sat_sub(a: int, b: int) -> int {
    if a >= b {
        a - b
    } else {
        0
    }
}

/// A numeric parameter as the movement commands take it: at least one.
pub open spec fn n_min1(v: int) -> int {
    if v > 1 {
        v
    } else {
        1
    }
}

/// Whether a CSI parameter string is private: it begins with `?`.
pub open spec fn csi_private(raw: Seq<char>) -> bool {
    raw.len() > 0 && raw[0] == '?'
}

/// The parameters of a CSI sequence, the private marker stripped.
pub open spec fn csi_params(raw: Seq<char>) -> Seq<Option<i32>> {
    spec_parse_params(
        if csi_private(raw) {
            raw.drop_first()
        } else {
            raw
        },
    )
}

/// A private-mode parameter list applied in order, from entry `k`: code 25
/// sets the cursor's visibility, code 1049 enters or leaves the alternate
/// screen, any other entry does nothing.
pub open spec fn modes_fold(
    pre: VtLite,
    post: VtLite,
    ps: Seq<Option<i32>>,
    set: bool,
    k: int,
) -> bool
    decreases ps.len() - k
    when 0 <= k <= ps.len()
{
    if k >= ps.len() {
        post == pre
    } else {
        match ps[k] {
            Some(code) => {
                if code == 25 {
                    modes_fold((VtLite { cursor_visible: set, ..pre }), post, ps, set, k + 1)
                } else if code == 1049 {
                    if set {
                        exists|mid: VtLite|
                            (#[trigger] entered_alt(pre, mid)) && modes_fold(mid, post, ps, set, k + 1)
                    } else {
                        exists|mid: VtLite|
                            (#[trigger] left_alt(pre, mid)) && modes_fold(mid, post, ps, set, k + 1)
                    }
                } else {
                    modes_fold(pre, post, ps, set, k + 1)
                }
            },
            None => modes_fold(pre, post, ps, set, k + 1),
        }
    }
}

/// What one CSI sequence with the given parameter string and final byte does
/// to the machine, case by case over the final byte. Unknown finals do
/// nothing; every recognised one clears the deferred wrap.
pub open spec fn csi_effect(pre: VtLite, post: VtLite, raw: Seq<char>, fc: char) -> bool {
    let private = csi_private(raw);
    let ps = csi_params(raw);
    if fc == 'A' {
        post == (VtLite {
            cursor_row: sat_sub(pre.cursor_row as int, n_min1(spec_param_or(ps, 0, 1))) as usize,
            wrap_pending: false,
            ..pre
        })
    } else if fc == 'B' {
        post == (VtLite {
            cursor_row: clamp_to(
                pre.cursor_row + n_min1(spec_param_or(ps, 0, 1)),
                pre.rows as int - 1,
            ) as usize,
            wrap_pending: false,
            ..pre
        })
    } else if fc == 'C' {
        post == (VtLite {
            cursor_col: clamp_to(
                pre.cursor_col + n_min1(spec_param_or(ps, 0, 1)),
                pre.cols as int - 1,
            ) as usize,
            wrap_pending: false,
            ..pre
        })
    } else if fc == 'D' {
        post == (VtLite {
            cursor_col: sat_sub(pre.cursor_col as int, n_min1(spec_param_or(ps, 0, 1))) as usize,
            wrap_pending: false,
            ..pre
        })
    } else if fc == 'G' {
        post == (VtLite {
            cursor_col: clamp_to(n_min1(spec_param_or(ps, 0, 1)) - 1, pre.cols as int - 1) as usize,
            wrap_pending: false,
            ..pre
        })
    } else if fc == 'd' {
        post == (VtLite {
            cursor_row: clamp_to(n_min1(spec_param_or(ps, 0, 1)) - 1, pre.rows as int - 1) as usize,
            wrap_pending: false,
            ..pre
        })
    } else if fc == 'H' || fc == 'f' {
        post == (VtLite {
            cursor_row: clamp_to(n_min1(spec_param_or(ps, 0, 1)) - 1, pre.rows as int - 1) as usize,
            cursor_col: clamp_to(n_min1(spec_param_or(ps, 1, 1)) - 1, pre.cols as int - 1) as usize,
            wrap_pending: false,
            ..pre
        })
    } else if fc == 'J' {
        &&& post == (VtLite { lines: post.lines, wrap_pending: false, ..pre })
        &&& post.lines@.len() == pre.lines@.len()
        &&& erased_display_lines(
            pre.lines@,
            post.lines@,
            pre.cursor_row as int,
            pre.cursor_col as int,
            pre.cols as int,
            spec_param_or(ps, 0, 0),
        )
    } else if fc == 'K' {
        &&& post == (VtLite { lines: post.lines, wrap_pending: false, ..pre })
        &&& post.lines@.len() == pre.lines@.len()
        &&& forall|r: int|
            0 <= r < pre.lines@.len() && r != pre.cursor_row ==> post.lines@[r] == pre.lines@[r]
        &&& erased_line_row(
            pre.lines@[pre.cursor_row as int],
            post.lines@[pre.cursor_row as int],
            pre.cursor_col as int,
            pre.cols as int,
            spec_param_or(ps, 0, 0),
        )
    } else if fc == 'm' {
        post == (VtLite { style: sgr_apply(pre.style, ps), wrap_pending: false, ..pre })
    } else if fc == 'r' {
        let top0 = clamp_to(n_min1(spec_param_or(ps, 0, 1)) - 1, pre.rows as int - 1);
        let bottom0 = clamp_to(n_min1(spec_param_or(ps, 1, pre.rows as int)) - 1, pre.rows as int - 1);
        if top0 < bottom0 {
            post == (VtLite {
                scroll_top: top0 as usize,
                scroll_bottom: bottom0 as usize,
                cursor_row: top0 as usize,
                cursor_col: 0,
                wrap_pending: false,
                ..pre
            })
        } else {
            post == (VtLite { wrap_pending: false, ..pre })
        }
    } else if fc == 's' {
        post == (VtLite {
            saved_row: pre.cursor_row,
            saved_col: pre.cursor_col,
            wrap_pending: false,
            ..pre
        })
    } else if fc == 'u' {
        post == (VtLite {
            cursor_row: clamp_to(pre.saved_row as int, pre.rows as int - 1) as usize,
            cursor_col: clamp_to(pre.saved_col as int, pre.cols as int - 1) as usize,
            wrap_pending: false,
            ..pre
        })
    } else if (fc == 'h' || fc == 'l') && private {
        let set = (fc == 'h');
        &&& post.same_dims(pre)
        &&& exists|mid: VtLite|
            (#[trigger] modes_fold(pre, mid, ps, set, 0)) && post == (VtLite {
                wrap_pending: false,
                ..mid
            })
    } else {
        post == pre
    }
}

impl VtLite {
    /// Dispatch one CSI sequence: the raw parameter characters are the given
    /// slice of `chars`, the final byte is `final_char`.
    #[verifier::loop_isolation(false)]
    pub fn handle_csi(&mut self, chars: &Vec<char>, from: usize, to: usize, final_char: char)
        requires
            old(self).wf(),
            from <= to <= chars@.len(),
        ensures
            final(self).wf(),
            final(self).same_dims(*old(self)),
            csi_effect(
                *old(self),
                *final(self),
                chars@.subrange(from as int, to as int),
                final_char,
            ),
    {
        let ghost raw = chars@.subrange(from as int, to as int);
        let private = to > from && chars[from] == '?';
        let pstart = if private {
            from + 1
        } else {
            from
        };
        let params = parse_params(chars, pstart, to);
        proof {
            assert(private == csi_private(raw));
            if private {
                assert(chars@.subrange(pstart as int, to as int) =~= raw.drop_first());
            } else {
                assert(chars@.subrange(pstart as int, to as int) =~= raw);
            }
            assert(params@ == csi_params(raw));
        }
        if final_char == 'A' {
            let n = amount(&params);
            self.wrap_pending = false;
            self.cursor_row = if self.cursor_row >= n {
                self.cursor_row - n
            } else {
                0
            };
        } else if final_char == 'B' {
            let n = amount(&params);
            self.wrap_pending = false;
            let room = self.rows - 1 - self.cursor_row;
            self.cursor_row = if n >= room {
                self.rows - 1
            } else {
                self.cursor_row + n
            };
        } else if final_char == 'C' {
            let n = amount(&params);
            self.wrap_pending = false;
            let room = self.cols - 1 - self.cursor_col;
            self.cursor_col = if n >= room {
                self.cols - 1
            } else {
                self.cursor_col + n
            };
        } else if final_char == 'D' {
            let n = amount(&params);
            self.wrap_pending = false;
            self.cursor_col = if self.cursor_col >= n {
                self.cursor_col - n
            } else {
                0
            };
        } else if final_char == 'G' {
            let col = amount(&params);
            self.wrap_pending = false;
            self.cursor_col = if col - 1 < self.cols - 1 {
                col - 1
            } else {
                self.cols - 1
            };
        } else if final_char == 'd' {
            let row = amount(&params);
            self.wrap_pending = false;
            self.cursor_row = if row - 1 < self.rows - 1 {
                row - 1
            } else {
                self.rows - 1
            };
        } else if final_char == 'H' || final_char == 'f' {
            let row = amount(&params);
            let col = amount_at(&params, 1, 1);
            self.wrap_pending = false;
            self.cursor_row = if row - 1 < self.rows - 1 {
                row - 1
            } else {
                self.rows - 1
            };
            self.cursor_col = if col - 1 < self.cols - 1 {
                col - 1
            } else {
                self.cols - 1
            };
        } else if final_char == 'J' {
            self.wrap_pending = false;
            let mode = param_or(&params, 0, 0);
            self.erase_display(mode);
        } else if final_char == 'K' {
            self.wrap_pending = false;
            let mode = param_or(&params, 0, 0);
            self.erase_line(mode);
        } else if final_char == 'm' {
            self.apply_sgr(&params);
            self.wrap_pending = false;
        } else if final_char == 'r' {
            let top = amount(&params);
            let bottom = amount_at(&params, 1, self.rows as i32);
            let top0 = if top - 1 < self.rows - 1 {
                top - 1
            } else {
                self.rows - 1
            };
            let bottom0 = if bottom - 1 < self.rows - 1 {
                bottom - 1
            } else {
                self.rows - 1
            };
            if top0 < bottom0 {
                self.scroll_top = top0;
                self.scroll_bottom = bottom0;
                self.cursor_row = top0;
                self.cursor_col = 0;
            }
            self.wrap_pending = false;
        } else if final_char == 's' {
            self.saved_row = self.cursor_row;
            self.saved_col = self.cursor_col;
            self.wrap_pending = false;
        } else if final_char == 'u' {
            self.cursor_row = if self.saved_row < self.rows - 1 {
                self.saved_row
            } else {
                self.rows - 1
            };
            self.cursor_col = if self.saved_col < self.cols - 1 {
                self.saved_col
            } else {
                self.cols - 1
            };
            self.wrap_pending = false;
        } else if (final_char == 'h' || final_char == 'l') && private {
            let set = final_char == 'h';
            let mut k: usize = 0;
            while k < params.len()
                invariant
                    self.wf(),
                    self.same_dims(*old(self)),
                    k <= params@.len(),
                    forall|p: VtLite|
                        #[trigger] modes_fold(*self, p, params@, set, k as int) ==> modes_fold(
                            *old(self),
                            p,
                            params@,
                            set,
                            0,
                        ),
                decreases params.len() - k,
            {
                let ghost prev = *self;
                match params[k] {
                    Some(code) => {
                        if code == 25 {
                            self.cursor_visible = set;
                            proof {
                                assert(*self == (VtLite { cursor_visible: set, ..prev }));
                            }
                        } else if code == 1049 {
                            if set {
                                self.enter_alt_screen();
                            } else {
                                self.leave_alt_screen();
                            }
                        }
                    },
                    None => {},
                }
                proof {
                    assert forall|p: VtLite| #[trigger] modes_fold(
                        *self,
                        p,
                        params@,
                        set,
                        k + 1,
                    ) implies modes_fold(*old(self), p, params@, set, 0) by {
                        assert(modes_fold(prev, p, params@, set, k as int));
                    }
                }
                k = k + 1;
            }
            proof {
                assert(modes_fold(*self, *self, params@, set, params@.len() as int));
                assert(modes_fold(*old(self), *self, params@, set, 0));
            }
            let ghost before_wrap = *self;
            self.wrap_pending = false;
            proof {
                assert(*self == (VtLite { wrap_pending: false, ..before_wrap }));
            }
        }
    }
}

/// Whether a character ends a CSI sequence.
pub open spec fn is_csi_final(c: char) -> bool {
    0x40 <= c as u32 <= 0x7e
}

/// The index of the first CSI final byte at or after `from`, or the length
/// when none follows.
pub open spec fn csi_end(s: Seq<char>, from: int) -> int
    decreases s.len() - from
    when 0 <= from <= s.len()
{
    if from >= s.len() {
        s.len() as int
    } else if is_csi_final(s[from]) {
        from
    } else {
        csi_end(s, from + 1)
    }
}

proof fn lemma_csi_end_at(s: Seq<char>, from: int, idx: int)
    requires
        0 <= from <= idx <= s.len(),
        forall|m: int| from <= m < idx ==> !is_csi_final(#[trigger] s[m]),
        idx == s.len() || is_csi_final(s[idx]),
    ensures
        csi_end(s, from) == idx,
    decreases idx - from,
{
    if from < idx {
        lemma_csi_end_at(s, from + 1, idx);
    }
}

/// Whether an OSC terminator (BEL, or ESC `\`) begins at position `m`.
pub open spec fn osc_term_at(s: Seq<char>, m: int) -> bool {
    s[m] == '\u{0007}' || (s[m] == '\x1b' && m + 1 < s.len() && s[m + 1] == '\\')
}

/// The position just past the first OSC terminator at or after `from`; one
/// past the length when the stream ends unterminated.
pub open spec fn osc_end(s: Seq<char>, from: int) -> int
    decreases s.len() - from
    when 0 <= from <= s.len()
{
    if from >= s.len() {
        s.len() as int + 1
    } else if s[from] == '\u{0007}' {
        from + 1
    } else if s[from] == '\x1b' && from + 1 < s.len() && s[from + 1] == '\\' {
        from + 2
    } else {
        osc_end(s, from + 1)
    }
}

proof fn lemma_osc_end_at(s: Seq<char>, from: int, idx: int)
    requires
        0 <= from <= idx <= s.len(),
        forall|m: int| from <= m < idx ==> !osc_term_at(s, m),
    ensures
        idx == s.len() ==> osc_end(s, from) == s.len() + 1,
        idx < s.len() && s[idx] == '\u{0007}' ==> osc_end(s, from) == idx + 1,
        idx < s.len() && s[idx] != '\u{0007}' && osc_term_at(s, idx) ==> osc_end(s, from) == idx
            + 2,
    decreases idx - from,
{
    if from < idx {
        assert(!osc_term_at(s, from));
        lemma_osc_end_at(s, from + 1, idx);
    }
}

/// What a line feed leaves: the row movement, with every untouched field
/// pinned.
pub open spec fn line_fed(pre: VtLite, post: VtLite) -> bool {
    &&& post.same_dims(pre)
    &&& post.same_saved(pre)
    &&& post.same_region(pre)
    &&& post.cursor_col == pre.cursor_col
    &&& post.style == pre.style
    &&& post.wrap_pending == pre.wrap_pending
    &&& post.cursor_visible == pre.cursor_visible
    &&& crate::vt::line_feed_moved(pre, post)
}

/// What a reverse index leaves: the row movement, with every untouched field
/// pinned.
pub open spec fn reverse_indexed(pre: VtLite, post: VtLite) -> bool {
    &&& post.same_dims(pre)
    &&& post.same_saved(pre)
    &&& post.same_region(pre)
    &&& post.cursor_col == pre.cursor_col
    &&& post.style == pre.style
    &&& post.wrap_pending == pre.wrap_pending
    &&& post.cursor_visible == pre.cursor_visible
    &&& crate::vt::reverse_index_moved(pre, post)
}

/// A run of `n` spaces written one by one at the cursor.
pub open spec fn wrote_spaces(pre: VtLite, post: VtLite, n: int) -> bool
    decreases n
    when n >= 0
{
    if n <= 0 {
        post == pre
    } else {
        exists|mid: VtLite|
            (#[trigger] crate::vt::write_char_rel(pre, mid, ' ')) && wrote_spaces(mid, post, n - 1)
    }
}

/// The machine's replay of a decoded stream from position `i`: each step is
/// one of the per-operation relations, dispatched exactly as the tokenizer
/// does; an unterminated escape stops the replay with the state as it stands,
/// and a terminated OSC is consumed with no effect.
pub open spec fn replay_from(pre: VtLite, post: VtLite, s: Seq<char>, i: int) -> bool
    decreases s.len() - i
    when 0 <= i <= s.len()
{
    if i >= s.len() {
        post == pre
    } else {
        let c = s[i];
        if c == '\x1b' {
            if i + 1 >= s.len() {
                post == pre
            } else if s[i + 1] == '[' {
                let j = csi_end(s, i + 2);
                if j >= s.len() || j <= i {
                    post == pre
                } else {
                    exists|mid: VtLite|
                        (#[trigger] csi_effect(pre, mid, s.subrange(i + 2, j), s[j]))
                            && replay_from(mid, post, s, j + 1)
                }
            } else if s[i + 1] == ']' {
                let j = osc_end(s, i + 2);
                if j > s.len() || j <= i {
                    post == pre
                } else {
                    replay_from(pre, post, s, j)
                }
            } else if s[i + 1] == '7' {
                replay_from(
                    (VtLite {
                        saved_row: pre.cursor_row,
                        saved_col: pre.cursor_col,
                        wrap_pending: false,
                        ..pre
                    }),
                    post,
                    s,
                    i + 2,
                )
            } else if s[i + 1] == '8' {
                replay_from(
                    (VtLite {
                        cursor_row: clamp_to(pre.saved_row as int, pre.rows as int - 1) as usize,
                        cursor_col: clamp_to(pre.saved_col as int, pre.cols as int - 1) as usize,
                        wrap_pending: false,
                        ..pre
                    }),
                    post,
                    s,
                    i + 2,
                )
            } else if s[i + 1] == 'D' {
                exists|mid: VtLite|
                    (#[trigger] line_fed((VtLite { wrap_pending: false, ..pre }), mid))
                        && replay_from(mid, post, s, i + 2)
            } else if s[i + 1] == 'E' {
                exists|mid: VtLite|
                    (#[trigger] line_fed(
                        (VtLite { cursor_col: 0, wrap_pending: false, ..pre }),
                        mid,
                    )) && replay_from(mid, post, s, i + 2)
            } else if s[i + 1] == 'M' {
                exists|mid: VtLite|
                    (#[trigger] reverse_indexed((VtLite { wrap_pending: false, ..pre }), mid))
                        && replay_from(mid, post, s, i + 2)
            } else if s[i + 1] == 'c' {
                exists|mid: VtLite|
                    (#[trigger] mid.is_initial(pre.cols as int, pre.rows as int)) && replay_from(
                        mid,
                        post,
                        s,
                        i + 2,
                    )
            } else {
                replay_from(pre, post, s, i + 2)
            }
        } else if c == '\r' {
            replay_from((VtLite { cursor_col: 0, wrap_pending: false, ..pre }), post, s, i + 1)
        } else if c == '\n' {
            exists|mid: VtLite|
                (#[trigger] line_fed((VtLite { wrap_pending: false, ..pre }), mid)) && replay_from(
                    mid,
                    post,
                    s,
                    i + 1,
                )
        } else if c == '\x08' {
            replay_from(
                (VtLite {
                    cursor_col: sat_sub(pre.cursor_col as int, 1) as usize,
                    wrap_pending: false,
                    ..pre
                }),
                post,
                s,
                i + 1,
            )
        } else if c == '\t' {
            exists|mid: VtLite|
                (#[trigger] wrote_spaces(pre, mid, 8 - (pre.cursor_col as int) % 8))
                    && replay_from(mid, post, s, i + 1)
        } else if (c as u32) < 0x20 || (c as u32) == 0x7f {
            replay_from(pre, post, s, i + 1)
        } else {
            exists|mid: VtLite|
                (#[trigger] crate::vt::write_char_rel(pre, mid, c)) && replay_from(
                    mid,
                    post,
                    s,
                    i + 1,
                )
        }
    }
}

/// Whether every character takes exactly one column: plain printable text,
/// with no controls, escapes or combining characters.
pub open spec fn all_width_one(s: Seq<char>) -> bool {
    forall|i: int| 0 <= i < s.len() ==> spec_char_width(#[trigger] s[i]) == 1
}

/// A row holding the characters of `s` from its left edge, in the default
/// style, blank beyond them.
pub open spec fn typed_line(row: Vec<crate::vt::Cell>, s: Seq<char>, cols: int) -> bool {
    &&& row@.len() == cols
    &&& forall|j: int|
        0 <= j < s.len() && j < cols ==> (#[trigger] row@[j]).text@ == seq![s[j]] && row@[j].style
            == default_style()
    &&& forall|j: int| s.len() <= j < cols ==> is_blank_cell(#[trigger] row@[j])
}

/// The state after typing `i` plain-text characters into a fresh machine: they
/// stand on the first row in order, every other row is blank, and the cursor
/// rests after them (held at the last column with the wrap deferred when the
/// row is full).
pub open spec fn pure_progress(post: VtLite, s: Seq<char>, i: int) -> bool {
    &&& post.lines@.len() == post.rows
    &&& typed_line(post.lines@[0], s.subrange(0, i), post.cols as int)
    &&& forall|r: int|
        1 <= r < post.rows ==> is_blank_row(#[trigger] post.lines@[r], post.cols as int)
    &&& post.cursor_row == 0
    &&& post.saved_row == 0
    &&& post.saved_col == 0
    &&& post.style == default_style()
    &&& post.scroll_top == 0
    &&& post.scroll_bottom == post.rows - 1
    &&& post.cursor_visible == true
    &&& post.saved_primary is None
    &&& post.wrap_pending == (i >= post.cols)
    &&& post.cursor_col == (if i < post.cols {
        i
    } else {
        post.cols - 1
    })
}

impl VtLite {
    /// Replay a byte stream (already decoded to characters) onto the grid:
    /// escape sequences drive the control functions, everything else is
    /// written at the cursor. An unterminated escape stops the replay. On a
    /// fresh machine, plain text that fits on one row is simply typed onto the
    /// first row.
    #[verifier::loop_isolation(false)]
    #[verifier::rlimit(100)]
    pub fn feed(&mut self, input: &str)
        requires
            old(self).wf(),
        ensures
            final(self).wf(),
            final(self).same_dims(*old(self)),
            (old(self).is_initial(old(self).cols as int, old(self).rows as int) && all_width_one(
                input@,
            ) && input@.len() <= old(self).cols) ==> pure_progress(
                *final(self),
                input@,
                input@.len() as int,
            ),
            replay_from(*old(self), *final(self), input@, 0),
    {
        let chars = crate::text::str_to_chars(input);
        let ghost hyp = old(self).is_initial(old(self).cols as int, old(self).rows as int)
            && all_width_one(input@) && input@.len() <= old(self).cols;
        let mut i: usize = 0;
        proof {
            if hyp {
                assert(chars@.subrange(0, 0) =~= Seq::<char>::empty());
            }
        }
        while i < chars.len()
            invariant
                self.wf(),
                self.same_dims(*old(self)),
                i <= chars@.len(),
                hyp ==> pure_progress(*self, chars@, i as int),
                forall|p: VtLite|
                    (#[trigger] replay_from(*self, p, chars@, i as int)) ==> replay_from(
                        *old(self),
                        p,
                        chars@,
                        0,
                    ),
            decreases chars@.len() - i,
        {
            let ghost prev = *self;
            let ghost i0 = i as int;
            let ch = chars[i];
            if ch == '\x1b' {
                proof {
                    if all_width_one(chars@) {
                        assert(spec_char_width(chars@[i as int]) == 1);
                    }
                }
                if i + 1 >= chars.len() {
                    i = chars.len();
                    proof {
                        assert forall|p: VtLite| (#[trigger] replay_from(
                            *self,
                            p,
                            chars@,
                            i as int,
                        )) implies replay_from(*old(self), p, chars@, 0) by {
                            assert(replay_from(prev, p, chars@, i0));
                        }
                    }
                } else {
                    let next = chars[i + 1];
                    if next == '[' {
                        let mut j = i + 2;
                        while j < chars.len() && !(chars[j] as u32 >= 0x40 && chars[j] as u32 <= 0x7e)
                            invariant
                                i + 2 <= j <= chars@.len(),
                                forall|m: int|
                                    i + 2 <= m < j ==> !is_csi_final(#[trigger] chars@[m]),
                            decreases chars@.len() - j,
                        {
                            j = j + 1;
                        }
                        if j >= chars.len() {
                            proof {
                                lemma_csi_end_at(chars@, i0 + 2, chars@.len() as int);
                            }
                            i = chars.len();
                            proof {
                                assert forall|p: VtLite| (#[trigger] replay_from(
                                    *self,
                                    p,
                                    chars@,
                                    i as int,
                                )) implies replay_from(*old(self), p, chars@, 0) by {
                                    assert(replay_from(prev, p, chars@, i0));
                                }
                            }
                        } else {
                            let fc = chars[j];
                            proof {
                                lemma_csi_end_at(chars@, i0 + 2, j as int);
                            }
                            self.handle_csi(&chars, i + 2, j, fc);
                            i = j + 1;
                            proof {
                                assert forall|p: VtLite| (#[trigger] replay_from(
                                    *self,
                                    p,
                                    chars@,
                                    i as int,
                                )) implies replay_from(*old(self), p, chars@, 0) by {
                                    assert(csi_effect(
                                        prev,
                                        *self,
                                        chars@.subrange(i0 + 2, i as int - 1),
                                        chars@[i as int - 1],
                                    ));
                                    assert(replay_from(prev, p, chars@, i0));
                                }
                            }
                        }
                    } else if next == ']' {
                        let mut j = i + 2;
                        let mut terminated = false;
                        while j < chars.len() && !terminated
                            invariant
                                i + 2 <= j <= chars@.len(),
                                !terminated ==> (forall|m: int|
                                    i + 2 <= m < j ==> !osc_term_at(chars@, m)),
                                terminated ==> osc_end(chars@, i as int + 2) == j,
                            decreases chars@.len() - j,
                        {
                            if chars[j] == '\u{0007}' {
                                proof {
                                    lemma_osc_end_at(chars@, i as int + 2, j as int);
                                }
                                j = j + 1;
                                terminated = true;
                                break ;
                            }
                            if chars[j] == '\x1b' {
                                if j + 1 < chars.len() {
                                    let is_st = chars[j + 1] == '\\';
                                    if is_st {
                                        proof {
                                            assert(osc_term_at(chars@, j as int));
                                            lemma_osc_end_at(chars@, i as int + 2, j as int);
                                        }
                                        j = j + 2;
                                        terminated = true;
                                        break ;
                                    }
                                }
                            }
                            proof {
                                assert(!osc_term_at(chars@, j as int));
                            }
                            j = j + 1;
                        }
                        if !terminated {
                            proof {
                                lemma_osc_end_at(chars@, i0 + 2, chars@.len() as int);
                            }
                            i = chars.len();
                            proof {
                                assert forall|p: VtLite| (#[trigger] replay_from(
                                    *self,
                                    p,
                                    chars@,
                                    i as int,
                                )) implies replay_from(*old(self), p, chars@, 0) by {
                                    assert(replay_from(prev, p, chars@, i0));
                                }
                            }
                        } else {
                            i = j;
                            proof {
                                assert forall|p: VtLite| (#[trigger] replay_from(
                                    *self,
                                    p,
                                    chars@,
                                    i as int,
                                )) implies replay_from(*old(self), p, chars@, 0) by {
                                    assert(replay_from(prev, p, chars@, i0));
                                }
                            }
                        }
                    } else if next == '7' {
                        self.saved_row = self.cursor_row;
                        self.saved_col = self.cursor_col;
                        self.wrap_pending = false;
                        i = i + 2;
                        proof {
                            assert forall|p: VtLite| (#[trigger] replay_from(
                                *self,
                                p,
                                chars@,
                                i as int,
                            )) implies replay_from(*old(self), p, chars@, 0) by {
                                assert(*self == (VtLite {
                                    saved_row: prev.cursor_row,
                                    saved_col: prev.cursor_col,
                                    wrap_pending: false,
                                    ..prev
                                }));
                                assert(replay_from(prev, p, chars@, i0));
                            }
                        }
                    } else if next == '8' {
                        self.cursor_row = if self.saved_row < self.rows - 1 {
                            self.saved_row
                        } else {
                            self.rows - 1
                        };
                        self.cursor_col = if self.saved_col < self.cols - 1 {
                            self.saved_col
                        } else {
                            self.cols - 1
                        };
                        self.wrap_pending = false;
                        i = i + 2;
                        proof {
                            assert forall|p: VtLite| (#[trigger] replay_from(
                                *self,
                                p,
                                chars@,
                                i as int,
                            )) implies replay_from(*old(self), p, chars@, 0) by {
                                assert(*self == (VtLite {
                                    cursor_row: clamp_to(
                                        prev.saved_row as int,
                                        prev.rows as int - 1,
                                    ) as usize,
                                    cursor_col: clamp_to(
                                        prev.saved_col as int,
                                        prev.cols as int - 1,
                                    ) as usize,
                                    wrap_pending: false,
                                    ..prev
                                }));
                                assert(replay_from(prev, p, chars@, i0));
                            }
                        }
                    } else if next == 'D' {
                        self.wrap_pending = false;
                        self.line_feed();
                        i = i + 2;
                        proof {
                            assert forall|p: VtLite| (#[trigger] replay_from(
                                *self,
                                p,
                                chars@,
                                i as int,
                            )) implies replay_from(*old(self), p, chars@, 0) by {
                                assert(line_fed((VtLite { wrap_pending: false, ..prev }), *self));
                                assert(replay_from(prev, p, chars@, i0));
                            }
                        }
                    } else if next == 'E' {
                        self.wrap_pending = false;
                        self.cursor_col = 0;
                        self.line_feed();
                        i = i + 2;
                        proof {
                            assert forall|p: VtLite| (#[trigger] replay_from(
                                *self,
                                p,
                                chars@,
                                i as int,
                            )) implies replay_from(*old(self), p, chars@, 0) by {
                                assert(line_fed(
                                    (VtLite { cursor_col: 0, wrap_pending: false, ..prev }),
                                    *self,
                                ));
                                assert(replay_from(prev, p, chars@, i0));
                            }
                        }
                    } else if next == 'M' {
                        self.wrap_pending = false;
                        self.reverse_index();
                        i = i + 2;
                        proof {
                            assert forall|p: VtLite| (#[trigger] replay_from(
                                *self,
                                p,
                                chars@,
                                i as int,
                            )) implies replay_from(*old(self), p, chars@, 0) by {
                                assert(reverse_indexed((VtLite { wrap_pending: false, ..prev }), *self));
                                assert(replay_from(prev, p, chars@, i0));
                            }
                        }
                    } else if next == 'c' {
                        self.reset();
                        i = i + 2;
                        proof {
                            assert forall|p: VtLite| (#[trigger] replay_from(
                                *self,
                                p,
                                chars@,
                                i as int,
                            )) implies replay_from(*old(self), p, chars@, 0) by {
                                assert(self.is_initial(prev.cols as int, prev.rows as int));
                                assert(replay_from(prev, p, chars@, i0));
                            }
                        }
                    } else {
                        i = i + 2;
                        proof {
                            assert forall|p: VtLite| (#[trigger] replay_from(
                                *self,
                                p,
                                chars@,
                                i as int,
                            )) implies replay_from(*old(self), p, chars@, 0) by {
                                assert(replay_from(prev, p, chars@, i0));
                            }
                        }
                    }
                }
            } else if ch == '\r' {
                proof {
                    if all_width_one(chars@) {
                        assert(spec_char_width(chars@[i as int]) == 1);
                    }
                }
                self.cursor_col = 0;
                self.wrap_pending = false;
                i = i + 1;
                proof {
                assert forall|p: VtLite| (#[trigger] replay_from(
                    *self,
                    p,
                    chars@,
                    i as int,
                )) implies replay_from(*old(self), p, chars@, 0) by {
                    assert(*self == (VtLite { cursor_col: 0, wrap_pending: false, ..prev }));
                    assert(replay_from(prev, p, chars@, i0));
                }
                }
            } else if ch == '\n' {
                proof {
                    if all_width_one(chars@) {
                        assert(spec_char_width(chars@[i as int]) == 1);
                    }
                }
                self.wrap_pending = false;
                self.line_feed();
                i = i + 1;
                proof {
                assert forall|p: VtLite| (#[trigger] replay_from(
                    *self,
                    p,
                    chars@,
                    i as int,
                )) implies replay_from(*old(self), p, chars@, 0) by {
                    assert(line_fed((VtLite { wrap_pending: false, ..prev }), *self));
                    assert(replay_from(prev, p, chars@, i0));
                }
                }
            } else if ch == '\x08' {
                proof {
                    if all_width_one(chars@) {
                        assert(spec_char_width(chars@[i as int]) == 1);
                    }
                }
                self.wrap_pending = false;
                self.cursor_col = if self.cursor_col > 0 {
                    self.cursor_col - 1
                } else {
                    0
                };
                i = i + 1;
                proof {
                assert forall|p: VtLite| (#[trigger] replay_from(
                    *self,
                    p,
                    chars@,
                    i as int,
                )) implies replay_from(*old(self), p, chars@, 0) by {
                    assert(*self == (VtLite {
                        cursor_col: sat_sub(prev.cursor_col as int, 1) as usize,
                        wrap_pending: false,
                        ..prev
                    }));
                    assert(replay_from(prev, p, chars@, i0));
                }
                }
            } else if ch == '\t' {
                proof {
                    if all_width_one(chars@) {
                        assert(spec_char_width(chars@[i as int]) == 1);
                    }
                }
                let spaces = 8 - (self.cursor_col % 8);
                let mut k: usize = 0;
                while k < spaces
                    invariant
                        self.wf(),
                        self.same_dims(*old(self)),
                        k <= spaces,
                        forall|p: VtLite|
                            (#[trigger] wrote_spaces(*self, p, spaces - k)) ==> wrote_spaces(
                                prev,
                                p,
                                spaces as int,
                            ),
                    decreases spaces - k,
                {
                    let ghost tprev = *self;
                    self.write_char(' ');
                    proof {
                        assert forall|p: VtLite| (#[trigger] wrote_spaces(
                            *self,
                            p,
                            spaces - (k + 1),
                        )) implies wrote_spaces(prev, p, spaces as int) by {
                            assert(crate::vt::write_char_rel(tprev, *self, ' '));
                            assert(wrote_spaces(tprev, p, spaces - k));
                        }
                    }
                    k = k + 1;
                }
                i = i + 1;
                proof {
                    assert(wrote_spaces(*self, *self, 0));
                    assert(wrote_spaces(prev, *self, spaces as int));
                    assert(spaces as int == 8 - (prev.cursor_col as int) % 8);
                    assert(wrote_spaces(prev, *self, 8 - (prev.cursor_col as int) % 8));
                    assert forall|p: VtLite| (#[trigger] replay_from(
                        *self,
                        p,
                        chars@,
                        i as int,
                    )) implies replay_from(*old(self), p, chars@, 0) by {
                        assert(replay_from(prev, p, chars@, i0));
                    }
                }
            } else {
                let code = ch as u32;
                if code < 0x20 || code == 0x7f {
                    proof {
                        if all_width_one(chars@) {
                            assert(spec_char_width(chars@[i as int]) == 1);
                        }
                    }
                    i = i + 1;
                    proof {
                assert forall|p: VtLite| (#[trigger] replay_from(
                        *self,
                        p,
                        chars@,
                        i as int,
                    )) implies replay_from(*old(self), p, chars@, 0) by {
                        assert(replay_from(prev, p, chars@, i0));
                    }
                    }
                } else {
                    let ghost pre = *self;
                    self.write_char(ch);
                    proof {
                        assert(crate::vt::write_char_rel(prev, *self, ch));
                        assert forall|p: VtLite| (#[trigger] replay_from(
                            *self,
                            p,
                            chars@,
                            i0 + 1,
                        )) implies replay_from(*old(self), p, chars@, 0) by {
                            assert(replay_from(prev, p, chars@, i0));
                        }
                        if hyp {
                            assert(spec_char_width(ch) == 1);
                            assert(!pre.wrap_pending);
                            assert(crate::vt::wrote_char_at(pre, *self, ch));
                            assert(chars@.subrange(0, i + 1).drop_last() =~= chars@.subrange(
                                0,
                                i as int,
                            ));
                            assert(chars@.subrange(0, i + 1)[i as int] == ch);
                            assert(typed_line(
                                self.lines@[0],
                                chars@.subrange(0, i + 1),
                                self.cols as int,
                            ));
                        }
                    }
                    i = i + 1;
                    proof {
                        assert(replay_from(*self, *self, chars@, i as int) ==> replay_from(
                            *old(self),
                            *self,
                            chars@,
                            0,
                        ));
                    }
                }
            }
        }
        proof {
            if hyp {
                assert(chars@.subrange(0, chars@.len() as int) =~= input@);
            }
            assert(replay_from(*self, *self, chars@, chars@.len() as int));
            assert(replay_from(*old(self), *self, chars@, 0));
        }
    }
}

/// The first parameter as an amount: defaulting to one, and at least one.
fn amount(params: &Vec<Option<i32>>) -> (n: usize)
    ensures
        n == n_min1(spec_param_or(params@, 0, 1)),
{
    amount_at(params, 0, 1)
}

/// The parameter at an index as an amount: defaulted, and at least one.
fn amount_at(params: &Vec<Option<i32>>, index: usize, default: i32) -> (n: usize)
    ensures
        n == n_min1(spec_param_or(params@, index as int, default as int)),
{
    let v = param_or(params, index, default);
    if v > 1 {
        v as usize
    } else {
        1
    }
}

} // verus!
