//! Layout geometry: named presets and the slot rectangles they tile a
//! display's work area with.

use crate::monitor::Rect;
use crate::text::{
    find_first, has_prefix, lower, parse_u32_spec, strip_prefix_all, trim_spec,
};
use crate::text::{
    bytes_eq, bytes_to_string, find_byte, parse_u32_bytes, push_all, push_dec, starts_with,
    str_bytes, strip_all, subvec, to_lower, trim,
};
use crate::text::{ascii_chars, dec_digits, lemma_ascii_chars_concat, lemma_ascii_literal,
    lemma_dec_digits_range};
use vstd::arithmetic::div_mod::{
    lemma_fundamental_div_mod, lemma_fundamental_div_mod_converse, lemma_mod_bound,
};
use vstd::prelude::*;
use vstd::string::StringSliceAdditionalSpecFns;

verus! {

/// Width (or height) of one cell when `span` pixels are divided evenly into
/// `n` cells separated by `n - 1` gaps; remainder pixels are absorbed by
/// truncation.
pub open spec fn axis_cell(span: int, gap: int, n: int) -> int
    recommends
        n >= 1,
{
    (span - gap * (n - 1)) / n
}

/// The starting offsets of `n` cells of size `cell` laid out from `start`
/// with `gap` pixels between neighbours: `start + i * (cell + gap)`.
///
/// Verified helper shared by every preset: returns the offsets together with
/// the cell size.
fn split_axis(start: i32, span: i32, gap: i32, n: u32) -> (r: (Vec<i32>, i32))
    requires
        1 <= n,
        0 <= gap,
        0 <= span,
        gap * (n - 1) <= span,
        start + span <= i32::MAX,
        span + gap <= i32::MAX,
    ensures
        r.1 == axis_cell(span as int, gap as int, n as int),
        0 <= r.1 <= span,
        r.0@.len() == n,
        forall|i: int| 0 <= i < n ==> r.0@[i] == start + i * (r.1 + gap),
        forall|i: int|
            0 <= i < n ==> start <= r.0@[i] && r.0@[i] + r.1 <= start + span,
{
    proof {
        assert(0 <= (gap as int) * (n as int - 1)) by (nonlinear_arith)
            requires
                0 <= gap,
                1 <= n,
        ;
    }
    let total_gap: i64 = (gap as i64) * ((n as i64) - 1);
    let usable: u32 = ((span as i64) - total_gap) as u32;
    proof {
        lemma_fundamental_div_mod(usable as int, n as int);
        lemma_mod_bound(usable as int, n as int);
        assert(0 <= usable as int / n as int) by (nonlinear_arith)
            requires
                0 <= usable,
                1 <= n,
        ;
        assert((usable as int / n as int) <= (n as int) * (usable as int / n as int))
            by (nonlinear_arith)
            requires
                1 <= n,
                0 <= usable as int / n as int,
        ;
    }
    let cell: i32 = (usable / n) as i32;
    let step: i32 = cell + gap;
    let mut xs: Vec<i32> = Vec::new();
    let mut i: u32 = 0;
    while i < n
        invariant
            i <= n,
            1 <= n,
            0 <= gap,
            xs@.len() == i,
            0 <= cell <= span - total_gap,
            total_gap == gap * (n as int - 1),
            0 <= total_gap <= span,
            (n as int) * (cell as int) <= span - total_gap,
            step == cell + gap,
            start + span <= i32::MAX,
            forall|j: int| 0 <= j < i ==> xs@[j] == start + j * (step as int),
        decreases n - i,
    {
        proof {
            assert(0 <= (i as int) * (step as int) && (i as int) * (step as int) + cell <= span)
                by (nonlinear_arith)
                requires
                    0 <= i, (i as int) <= (n as int) - 1,
                    step == cell + gap,
                    0 <= gap,
                    0 <= cell,
                    (n as int) * (cell as int) <= span - total_gap,
                    total_gap == gap * (n as int - 1),
            ;
        }
        let x64: i64 = (start as i64) + (i as i64) * (step as i64);
        let x: i32 = x64 as i32;
        xs.push(x);
        i = i + 1;
    }
    proof {
        assert forall|j: int| 0 <= j < n implies start <= xs@[j] && xs@[j] + cell <= start
            + span by {
            assert(xs@[j] == start + j * (step as int));
            assert(0 <= j * (step as int) && j * (step as int) + cell <= span)
                by (nonlinear_arith)
                requires
                    0 <= j < n as int,
                    step == cell + gap,
                    0 <= gap,
                    0 <= cell,
                    (n as int) * (cell as int) <= span - total_gap,
                    total_gap == gap * (n as int - 1),
            ;
        }
    }
    (xs, cell)
}

/// A placement target: an axis-aligned rectangle in screen coordinates.
#[derive(Debug, Clone, Copy, PartialEq, Eq, Structural)]
pub struct Slot {
    pub x: i32,
    pub y: i32,
    pub w: i32,
    pub h: i32,
}

/// Which family of grid dividers a drag adjusts.
#[derive(Debug, Clone, Copy, PartialEq, Eq, Structural)]
pub enum DividerAxis {
    Col,
    Row,
}

/// A named recipe for generating an ordered slot list.
#[derive(Debug, Clone, PartialEq, Eq, Structural)]
pub enum LayoutPreset {
    Grid { cols: u32, rows: u32 },
    Columns(u32),
    Rows(u32),
    LeftRight,
    TopBottom,
    MainSide { side_count: u32 },
    Focus { side_count: u32 },
}

impl LayoutPreset {
    /// Every preset carries at least one column, row or side slot.
    pub open spec fn wf(self) -> bool {
        match self {
            LayoutPreset::Grid { cols, rows } => cols >= 1 && rows >= 1,
            LayoutPreset::Columns(n) => n >= 1,
            LayoutPreset::Rows(n) => n >= 1,
            LayoutPreset::LeftRight => true,
            LayoutPreset::TopBottom => true,
            LayoutPreset::MainSide { side_count } => side_count >= 1,
            LayoutPreset::Focus { side_count } => side_count >= 1,
        }
    }

    /// How many slots the preset generates.
    pub open spec fn spec_slot_count(self) -> nat {
        match self {
            LayoutPreset::Grid { cols, rows } => cols as nat * rows as nat,
            LayoutPreset::Columns(n) => n as nat,
            LayoutPreset::Rows(n) => n as nat,
            LayoutPreset::LeftRight => 2,
            LayoutPreset::TopBottom => 2,
            LayoutPreset::MainSide { side_count } => 1 + side_count as nat,
            LayoutPreset::Focus { side_count } => 1 + side_count as nat,
        }
    }

    /// Conditions under which slot geometry is meaningful and free of
    /// arithmetic overflow: a non-negative gap that fits between the cells,
    /// and a work area whose corners are representable.
    pub open spec fn slots_input_ok(self, area: Rect, gap: i32) -> bool {
        let g = gap as int;
        &&& self.wf()
        &&& self.spec_slot_count() <= usize::MAX
        &&& 0 <= g
        &&& 0 <= area.w
        &&& 0 <= area.h
        &&& area.x + area.w <= i32::MAX
        &&& area.y + area.h <= i32::MAX
        &&& area.w + g <= i32::MAX
        &&& area.h + g <= i32::MAX
        &&& match self {
            LayoutPreset::Grid { cols, rows } => g * (cols - 1) <= area.w && g * (rows - 1)
                <= area.h,
            LayoutPreset::Columns(n) => g * (n - 1) <= area.w,
            LayoutPreset::Rows(n) => g * (n - 1) <= area.h,
            LayoutPreset::LeftRight => g <= area.w,
            LayoutPreset::TopBottom => g <= area.h,
            LayoutPreset::MainSide { side_count } => g <= area.w && g * (side_count - 1)
                <= area.h,
            LayoutPreset::Focus { side_count } => g <= area.w && g * (side_count - 1) <= area.h,
        }
    }

    /// The geometry of slot `k`, as mathematical integers `(x, y, w, h)`.
    ///
    /// Grid cells are emitted row-major; the one-dimensional presets run
    /// left-to-right or top-to-bottom; the main/focus presets emit the
    /// primary slot first and then the stacked side slots top-to-bottom.
    pub open spec fn slot_dims(self, area: Rect, gap: i32, k: int) -> (int, int, int, int)
        recommends
            self.wf(),
            0 <= k < self.spec_slot_count(),
    {
        let g = gap as int;
        match self {
            LayoutPreset::Grid { cols, rows } => {
                let cw = axis_cell(area.w as int, g, cols as int);
                let ch = axis_cell(area.h as int, g, rows as int);
                (
                    area.x + (k % (cols as int)) * (cw + g),
                    area.y + (k / (cols as int)) * (ch + g),
                    cw,
                    ch,
                )
            },
            LayoutPreset::Columns(n) => {
                let cw = axis_cell(area.w as int, g, n as int);
                (area.x + k * (cw + g), area.y as int, cw, area.h as int)
            },
            LayoutPreset::Rows(n) => {
                let ch = axis_cell(area.h as int, g, n as int);
                (area.x as int, area.y + k * (ch + g), area.w as int, ch)
            },
            LayoutPreset::LeftRight => {
                let hw = (area.w - g) / 2;
                if k == 0 {
                    (area.x as int, area.y as int, hw, area.h as int)
                } else {
                    (area.x + hw + g, area.y as int, hw, area.h as int)
                }
            },
            LayoutPreset::TopBottom => {
                let hh = (area.h - g) / 2;
                if k == 0 {
                    (area.x as int, area.y as int, area.w as int, hh)
                } else {
                    (area.x as int, area.y + hh + g, area.w as int, hh)
                }
            },
            LayoutPreset::MainSide { side_count } => {
                let mw = (area.w - g) * 2 / 3;
                let sw = area.w - mw - g;
                let sh = axis_cell(area.h as int, g, side_count as int);
                if k == 0 {
                    (area.x as int, area.y as int, mw, area.h as int)
                } else {
                    (area.x + mw + g, area.y + (k - 1) * (sh + g), sw, sh)
                }
            },
            LayoutPreset::Focus { side_count } => {
                let mw = (area.w - g) * 3 / 4;
                let sw = area.w - mw - g;
                let sh = axis_cell(area.h as int, g, side_count as int);
                if k == 0 {
                    (area.x as int, area.y as int, mw, area.h as int)
                } else {
                    (area.x + mw + g, area.y + (k - 1) * (sh + g), sw, sh)
                }
            },
        }
    }

    /// One slot agrees with the preset's geometry formula.
    pub open spec fn slot_matches(self, area: Rect, gap: i32, k: int, s: Slot) -> bool {
        s.x == self.slot_dims(area, gap, k).0 && s.y == self.slot_dims(area, gap, k).1 && s.w
            == self.slot_dims(area, gap, k).2 && s.h == self.slot_dims(area, gap, k).3
    }

    /// Read a layout specification: `<cols>x<rows>`, `columns[:n]`,
    /// `rows[:n]`, `left-right`/`split`, `top-bottom`, `main-side[:n]`
    /// (default 2) or `focus[:n]` (default 3), after trimming and
    /// lower-casing; anything else yields no preset.  Trimming and case
    /// folding are ASCII-only: the keyword forms themselves are ASCII, but a
    /// specification padded with non-ASCII whitespace is not trimmed and
    /// fails to parse.
    pub fn parse(s: &str) -> (r: Option<LayoutPreset>)
        ensures
            r == spec_parse(s.spec_bytes()),
            r matches Some(p) ==> p.wf(),
    {
        let bytes = str_bytes(s);
        let t = to_lower(&trim(&bytes));
        match find_byte(&t, 120) {
            Some(i) => {
                proof {
                    crate::text::lemma_find_first_props(t@, 120);
                }
                let c = trim(&subvec(&t, 0, i));
                let cols = match parse_u32_bytes(&c) {
                    Some(v) => v,
                    None => {
                        return None;
                    },
                };
                let tlen = t.len();
                let rpart = trim(&subvec(&t, i + 1, tlen));
                proof {
                    assert(t@.subrange(i as int + 1, t@.len() as int) =~= t@.skip(i as int + 1));
                }
                let rows = match parse_u32_bytes(&rpart) {
                    Some(v) => v,
                    None => {
                        return None;
                    },
                };
                if cols > 0 && rows > 0 {
                    return Some(LayoutPreset::Grid { cols, rows });
                }
                parse_columns_kw(&t)
            },
            None => parse_columns_kw(&t),
        }
    }


    /// The preset's human-readable name.
    pub open spec fn spec_display(self) -> Seq<char> {
        match self {
            LayoutPreset::Grid { cols, rows } => ascii_chars(dec_digits(cols as nat)) + "x"@
                + ascii_chars(dec_digits(rows as nat)) + " Grid"@,
            LayoutPreset::Columns(n) => ascii_chars(dec_digits(n as nat)) + " Columns"@,
            LayoutPreset::Rows(n) => ascii_chars(dec_digits(n as nat)) + " Rows"@,
            LayoutPreset::LeftRight => "Left / Right"@,
            LayoutPreset::TopBottom => "Top / Bottom"@,
            LayoutPreset::MainSide { side_count } => "Main + "@ + ascii_chars(
                dec_digits(side_count as nat),
            ) + " Side"@,
            LayoutPreset::Focus { side_count } => "Focus + "@ + ascii_chars(
                dec_digits(side_count as nat),
            ) + " Side"@,
        }
    }

    /// Human-readable name of the preset.
    pub fn display_name(&self) -> (r: String)
        ensures
            r@ == self.spec_display(),
    {
        match self {
            LayoutPreset::Grid { cols, rows } => {
                let mut out: Vec<u8> = Vec::new();
                push_dec(*cols, &mut out);
                push_all(&mut out, "x".as_bytes());
                push_dec(*rows, &mut out);
                push_all(&mut out, " Grid".as_bytes());
                proof {
                    reveal_strlit("x");
                    reveal_strlit(" Grid");
                    assert(vstd::utf8::is_ascii_chars("x"@));
                    assert(vstd::utf8::is_ascii_chars(" Grid"@));
                    lemma_ascii_literal("x");
                    lemma_ascii_literal(" Grid");
                    lemma_dec_digits_range(*cols as nat);
                    lemma_dec_digits_range(*rows as nat);
                    lemma_ascii_chars_concat(
                        dec_digits(*cols as nat),
                        "x".spec_bytes() + dec_digits(*rows as nat) + " Grid".spec_bytes(),
                    );
                    lemma_ascii_chars_concat(
                        "x".spec_bytes(),
                        dec_digits(*rows as nat) + " Grid".spec_bytes(),
                    );
                    lemma_ascii_chars_concat(
                        dec_digits(*rows as nat),
                        " Grid".spec_bytes(),
                    );
                    assert(out@ =~= dec_digits(*cols as nat) + ("x".spec_bytes() + dec_digits(
                        *rows as nat,
                    ) + " Grid".spec_bytes()));
                    assert("x".spec_bytes() + dec_digits(*rows as nat) + " Grid".spec_bytes()
                        =~= "x".spec_bytes() + (dec_digits(*rows as nat) + " Grid".spec_bytes()));
                    assert(ascii_chars(out@) =~= self.spec_display());
                }
                bytes_to_string(&out)
            },
            LayoutPreset::Columns(n) => {
                let mut out: Vec<u8> = Vec::new();
                push_dec(*n, &mut out);
                push_all(&mut out, " Columns".as_bytes());
                proof {
                    reveal_strlit(" Columns");
                    assert(vstd::utf8::is_ascii_chars(" Columns"@));
                    lemma_ascii_literal(" Columns");
                    lemma_dec_digits_range(*n as nat);
                    lemma_ascii_chars_concat(dec_digits(*n as nat), " Columns".spec_bytes());
                    assert(ascii_chars(out@) =~= self.spec_display());
                }
                bytes_to_string(&out)
            },
            LayoutPreset::Rows(n) => {
                let mut out: Vec<u8> = Vec::new();
                push_dec(*n, &mut out);
                push_all(&mut out, " Rows".as_bytes());
                proof {
                    reveal_strlit(" Rows");
                    assert(vstd::utf8::is_ascii_chars(" Rows"@));
                    lemma_ascii_literal(" Rows");
                    lemma_dec_digits_range(*n as nat);
                    lemma_ascii_chars_concat(dec_digits(*n as nat), " Rows".spec_bytes());
                    assert(ascii_chars(out@) =~= self.spec_display());
                }
                bytes_to_string(&out)
            },
            LayoutPreset::LeftRight => {
                let r = "Left / Right".to_owned();
                r
            },
            LayoutPreset::TopBottom => {
                let r = "Top / Bottom".to_owned();
                r
            },
            LayoutPreset::MainSide { side_count } => {
                let mut out: Vec<u8> = Vec::new();
                push_all(&mut out, "Main + ".as_bytes());
                push_dec(*side_count, &mut out);
                push_all(&mut out, " Side".as_bytes());
                proof {
                    reveal_strlit("Main + ");
                    reveal_strlit(" Side");
                    assert(vstd::utf8::is_ascii_chars("Main + "@));
                    assert(vstd::utf8::is_ascii_chars(" Side"@));
                    lemma_ascii_literal("Main + ");
                    lemma_ascii_literal(" Side");
                    lemma_dec_digits_range(*side_count as nat);
                    lemma_ascii_chars_concat(
                        "Main + ".spec_bytes(),
                        dec_digits(*side_count as nat) + " Side".spec_bytes(),
                    );
                    lemma_ascii_chars_concat(
                        dec_digits(*side_count as nat),
                        " Side".spec_bytes(),
                    );
                    assert(out@ =~= "Main + ".spec_bytes() + (dec_digits(*side_count as nat)
                        + " Side".spec_bytes()));
                    assert(ascii_chars(out@) =~= self.spec_display());
                }
                bytes_to_string(&out)
            },
            LayoutPreset::Focus { side_count } => {
                let mut out: Vec<u8> = Vec::new();
                push_all(&mut out, "Focus + ".as_bytes());
                push_dec(*side_count, &mut out);
                push_all(&mut out, " Side".as_bytes());
                proof {
                    reveal_strlit("Focus + ");
                    reveal_strlit(" Side");
                    assert(vstd::utf8::is_ascii_chars("Focus + "@));
                    assert(vstd::utf8::is_ascii_chars(" Side"@));
                    lemma_ascii_literal("Focus + ");
                    lemma_ascii_literal(" Side");
                    lemma_dec_digits_range(*side_count as nat);
                    lemma_ascii_chars_concat(
                        "Focus + ".spec_bytes(),
                        dec_digits(*side_count as nat) + " Side".spec_bytes(),
                    );
                    lemma_ascii_chars_concat(
                        dec_digits(*side_count as nat),
                        " Side".spec_bytes(),
                    );
                    assert(out@ =~= "Focus + ".spec_bytes() + (dec_digits(*side_count as nat)
                        + " Side".spec_bytes()));
                    assert(ascii_chars(out@) =~= self.spec_display());
                }
                bytes_to_string(&out)
            },
        }
    }

    /// Number of slots this preset generates.
    pub fn slot_count(&self) -> (r: usize)
        requires
            self.spec_slot_count() <= usize::MAX,
        ensures
            r == self.spec_slot_count(),
    {
        match self {
            LayoutPreset::Grid { cols, rows } => (*cols as usize) * (*rows as usize),
            LayoutPreset::Columns(n) => *n as usize,
            LayoutPreset::Rows(n) => *n as usize,
            LayoutPreset::LeftRight => 2,
            LayoutPreset::TopBottom => 2,
            LayoutPreset::MainSide { side_count } => 1 + *side_count as usize,
            LayoutPreset::Focus { side_count } => 1 + *side_count as usize,
        }
    }

    /// Compute the ordered list of slot rectangles that this preset tiles
    /// `area` with, leaving `gap` pixels between neighbouring slots.
    /// Remainder pixels of the integer divisions are absorbed by truncation.
    pub fn compute_slots(&self, area: &Rect, gap: i32) -> (r: Vec<Slot>)
        requires
            self.slots_input_ok(*area, gap),
        ensures
            r@.len() == self.spec_slot_count(),
            forall|k: int| 0 <= k < r@.len() ==> self.slot_matches(*area, gap, k, r@[k]),
    {
        match self {
            LayoutPreset::Grid { cols, rows } => {
                let nc: u32 = *cols;
                let nr: u32 = *rows;
                let (xs, cw) = split_axis(area.x, area.w, gap, nc);
                let (ys, ch) = split_axis(area.y, area.h, gap, nr);
                let mut slots: Vec<Slot> = Vec::new();
                let mut ri: usize = 0;
                while ri < (nr as usize)
                    invariant
                        ri <= nr as usize,
                        xs@.len() == nc,
                        ys@.len() == nr,
                        1 <= nc,
                        self == (LayoutPreset::Grid { cols: nc, rows: nr }),
                        slots@.len() == ri * (nc as int),
                        slots@.len() <= usize::MAX,
                        nc as nat * nr as nat <= usize::MAX,
                        forall|k: int|
                            0 <= k < slots@.len() ==> self.slot_matches(*area, gap, k, slots@[k]),
                        cw == axis_cell(area.w as int, gap as int, nc as int),
                        ch == axis_cell(area.h as int, gap as int, nr as int),
                        forall|i: int| 0 <= i < nc ==> xs@[i] == area.x + i * (cw + gap),
                        forall|i: int| 0 <= i < nr ==> ys@[i] == area.y + i * (ch + gap),
                    decreases nr as int - ri,
                {
                    let mut ci: usize = 0;
                    proof {
                        assert((ri as int) * (nc as int) + (nc as int) <= (nr as int) * (
                        nc as int)) by (nonlinear_arith)
                            requires
                                0 <= ri, (ri as int) < (nr as int),
                                1 <= nc as int,
                        ;
                        assert((nr as int) * (nc as int) == nc as nat * nr as nat)
                            by (nonlinear_arith);
                    }
                    while ci < (nc as usize)
                        invariant
                            ci <= nc as usize,
                            ri < nr as usize,
                            xs@.len() == nc,
                            ys@.len() == nr,
                            1 <= nc,
                            self == (LayoutPreset::Grid { cols: nc, rows: nr }),
                            slots@.len() == ri * (nc as int) + ci,
                            (ri as int) * (nc as int) + (nc as int) <= usize::MAX,
                            forall|k: int|
                                0 <= k < slots@.len() ==> self.slot_matches(
                                    *area,
                                    gap,
                                    k,
                                    slots@[k],
                                ),
                            cw == axis_cell(area.w as int, gap as int, nc as int),
                            ch == axis_cell(area.h as int, gap as int, nr as int),
                            forall|i: int| 0 <= i < nc ==> xs@[i] == area.x + i * (cw + gap),
                            forall|i: int| 0 <= i < nr ==> ys@[i] == area.y + i * (ch + gap),
                        decreases nc as int - ci,
                    {
                        let s = Slot { x: xs[ci], y: ys[ri], w: cw, h: ch };
                        proof {
                            lemma_fundamental_div_mod_converse(
                                slots@.len() as int,
                                nc as int,
                                ri as int,
                                ci as int,
                            );
                        }
                        slots.push(s);
                        ci = ci + 1;
                    }
                    proof {
                        assert((ri as int + 1) * (nc as int) == ri * (nc as int) + (nc as int))
                            by (nonlinear_arith);
                    }
                    ri = ri + 1;
                }
                proof {
                    assert(slots@.len() == (nr as int) * (nc as int));
                    assert((nr as int) * (nc as int) == (nc as int) * (nr as int))
                        by (nonlinear_arith);
                }
                slots
            },
            LayoutPreset::Columns(n) => {
                let nn: u32 = *n;
                let (xs, cw) = split_axis(area.x, area.w, gap, nn);
                let mut slots: Vec<Slot> = Vec::new();
                let mut i: usize = 0;
                while i < (nn as usize)
                    invariant
                        i <= nn as usize,
                        xs@.len() == nn,
                        slots@.len() == i,
                        self == LayoutPreset::Columns(nn),
                        forall|k: int|
                            0 <= k < slots@.len() ==> self.slot_matches(*area, gap, k, slots@[k]),
                        cw == axis_cell(area.w as int, gap as int, nn as int),
                        forall|j: int| 0 <= j < nn ==> xs@[j] == area.x + j * (cw + gap),
                    decreases nn as int - i,
                {
                    slots.push(Slot { x: xs[i], y: area.y, w: cw, h: area.h });
                    i = i + 1;
                }
                slots
            },
            LayoutPreset::Rows(n) => {
                let nn: u32 = *n;
                let (ys, ch) = split_axis(area.y, area.h, gap, nn);
                let mut slots: Vec<Slot> = Vec::new();
                let mut i: usize = 0;
                while i < (nn as usize)
                    invariant
                        i <= nn as usize,
                        ys@.len() == nn,
                        slots@.len() == i,
                        self == LayoutPreset::Rows(nn),
                        forall|k: int|
                            0 <= k < slots@.len() ==> self.slot_matches(*area, gap, k, slots@[k]),
                        ch == axis_cell(area.h as int, gap as int, nn as int),
                        forall|j: int| 0 <= j < nn ==> ys@[j] == area.y + j * (ch + gap),
                    decreases nn as int - i,
                {
                    slots.push(Slot { x: area.x, y: ys[i], w: area.w, h: ch });
                    i = i + 1;
                }
                slots
            },
            LayoutPreset::LeftRight => {
                let hw: i32 = (((area.w - gap) as u32) / 2) as i32;
                let mut slots: Vec<Slot> = Vec::new();
                slots.push(Slot { x: area.x, y: area.y, w: hw, h: area.h });
                slots.push(Slot { x: area.x + hw + gap, y: area.y, w: hw, h: area.h });
                slots
            },
            LayoutPreset::TopBottom => {
                let hh: i32 = (((area.h - gap) as u32) / 2) as i32;
                let mut slots: Vec<Slot> = Vec::new();
                slots.push(Slot { x: area.x, y: area.y, w: area.w, h: hh });
                slots.push(Slot { x: area.x, y: area.y + hh + gap, w: area.w, h: hh });
                slots
            },
            LayoutPreset::MainSide { side_count } => {
                let mw: i32 = main_span(area.w, gap, 2, 3);
                self.push_main_and_sides(area, gap, *side_count, mw)
            },
            LayoutPreset::Focus { side_count } => {
                let mw: i32 = main_span(area.w, gap, 3, 4);
                self.push_main_and_sides(area, gap, *side_count, mw)
            },
        }
    }

    /// Emit the primary slot of width `mw` followed by `side_count` stacked
    /// side slots filling the rest of the width.
    fn push_main_and_sides(&self, area: &Rect, gap: i32, side_count: u32, mw: i32) -> (r: Vec<
        Slot,
    >)
        requires
            self.slots_input_ok(*area, gap),
            (self matches LayoutPreset::MainSide { side_count: s } && s == side_count && mw
                == (area.w - gap) * 2 / 3) || (self matches LayoutPreset::Focus {
                side_count: s,
            } && s == side_count && mw == (area.w - gap) * 3 / 4),
            0 <= mw <= area.w - gap,
        ensures
            r@.len() == self.spec_slot_count(),
            forall|k: int| 0 <= k < r@.len() ==> self.slot_matches(*area, gap, k, r@[k]),
    {
        let (ys, sh) = split_axis(area.y, area.h, gap, side_count);
        let sw: i32 = area.w - mw - gap;
        let side_x: i32 = area.x + mw + gap;
        let mut slots: Vec<Slot> = Vec::new();
        slots.push(Slot { x: area.x, y: area.y, w: mw, h: area.h });
        let mut i: usize = 0;
        while i < (side_count as usize)
            invariant
                i <= side_count as usize,
                ys@.len() == side_count,
                slots@.len() == 1 + i,
                forall|k: int|
                    0 <= k < slots@.len() ==> self.slot_matches(*area, gap, k, slots@[k]),
                sh == axis_cell(area.h as int, gap as int, side_count as int),
                forall|j: int| 0 <= j < side_count ==> ys@[j] == area.y + j * (sh + gap),
                side_x == area.x + mw + gap,
                sw == area.w - mw - gap,
                self.slots_input_ok(*area, gap),
                (self matches LayoutPreset::MainSide { side_count: s } && s == side_count && mw
                    == (area.w - gap) * 2 / 3) || (self matches LayoutPreset::Focus {
                    side_count: s,
                } && s == side_count && mw == (area.w - gap) * 3 / 4),
            decreases side_count as int - i,
        {
            slots.push(Slot { x: side_x, y: ys[i], w: sw, h: sh });
            i = i + 1;
        }
        slots
    }
}

/// `(span - gap) * num / den` computed without overflow: the fraction of the
/// usable width devoted to the primary slot.
fn main_span(span: i32, gap: i32, num: u64, den: u64) -> (r: i32)
    requires
        0 <= gap <= span,
        1 <= num,
        num < den,
        den <= 8,
    ensures
        r == (span - gap) * (num as int) / (den as int),
        0 <= r <= span - gap,
{
    let rest: u64 = (span - gap) as u64;
    proof {
        assert((rest as int) * (num as int) <= 0x7fffffff * 8) by (nonlinear_arith)
            requires
                0 <= rest <= 0x7fffffff,
                0 <= num <= 8,
        ;
    }
    let m: u64 = rest * num / den;
    proof {
        let x = rest as int;
        assert(0 <= x * (num as int) / (den as int) && x * (num as int) / (den as int) <= x)
            by (nonlinear_arith)
            requires
                0 <= x,
                1 <= num,
                (num as int) < (den as int),
        ;
    }
    m as i32
}

/// Sum of a sequence of integers.
pub open spec fn isum(s: Seq<int>) -> int
    decreases s.len(),
{
    if s.len() == 0 {
        0
    } else {
        s[0] + isum(s.drop_first())
    }
}

/// The integer values of a sequence of pixel spans.
pub open spec fn ints_of(s: Seq<i32>) -> Seq<int> {
    s.map_values(|x: i32| x as int)
}

/// The spans with the last one replaced so that the whole sequence sums
/// exactly to `usable`: residual and rounding pixels are absorbed by the
/// final column or row.
pub open spec fn adjusted_spans(s: Seq<int>, usable: int) -> Seq<int>
    recommends
        s.len() >= 1,
{
    Seq::new(s.len(), |i: int| if i == s.len() - 1 { s[i] + usable - isum(s) } else { s[i] })
}

pub proof fn lemma_isum_push(s: Seq<int>, v: int)
    ensures
        isum(s.push(v)) == isum(s) + v,
    decreases s.len(),
{
    assert(s.push(v).len() == s.len() + 1);
    assert(isum(s.push(v)) == s.push(v)[0] + isum(s.push(v).drop_first()));
    if s.len() == 0 {
        assert(s.push(v)[0] == v);
        assert(s.push(v).drop_first() =~= Seq::<int>::empty());
        assert(isum(s.push(v).drop_first()) == 0);
        assert(isum(s) == 0);
    } else {
        assert(s.push(v)[0] == s[0]);
        assert(s.push(v).drop_first() =~= s.drop_first().push(v));
        lemma_isum_push(s.drop_first(), v);
        assert(isum(s) == s[0] + isum(s.drop_first()));
    }
}

pub proof fn lemma_isum_take_succ(s: Seq<int>, k: int)
    requires
        0 <= k < s.len(),
    ensures
        isum(s.take(k + 1)) == isum(s.take(k)) + s[k],
{
    assert(s.take(k + 1) =~= s.take(k).push(s[k]));
    lemma_isum_push(s.take(k), s[k]);
}

pub proof fn lemma_isum_nonneg(s: Seq<int>)
    requires
        forall|i: int| 0 <= i < s.len() ==> s[i] >= 0,
    ensures
        isum(s) >= 0,
    decreases s.len(),
{
    if s.len() > 0 {
        lemma_isum_nonneg(s.drop_first());
    }
}

pub proof fn lemma_isum_take_le(s: Seq<int>, k: int)
    requires
        forall|i: int| 0 <= i < s.len() ==> s[i] >= 0,
        0 <= k <= s.len(),
    ensures
        0 <= isum(s.take(k)) <= isum(s),
    decreases s.len() - k,
{
    assert(forall|i: int| 0 <= i < s.take(k).len() ==> s.take(k)[i] >= 0);
    lemma_isum_nonneg(s.take(k));
    if k == s.len() {
        assert(s.take(k) =~= s);
    } else {
        lemma_isum_take_succ(s, k);
        lemma_isum_take_le(s, k + 1);
    }
}

/// The absorbed-residual spans always sum exactly to the usable span,
/// whatever the weights produced.
pub proof fn lemma_adjusted_sum(s: Seq<int>, usable: int)
    requires
        s.len() >= 1,
    ensures
        isum(adjusted_spans(s, usable)) == usable,
{
    let n = s.len() as int;
    let last = s[n - 1] + usable - isum(s);
    assert(adjusted_spans(s, usable) =~= s.take(n - 1).push(last));
    lemma_isum_push(s.take(n - 1), last);
    lemma_isum_take_succ(s, n - 1);
    assert(s.take(n) =~= s);
}

/// Replace the last span so that the spans sum exactly to `usable`: when the
/// spans over-fill it (weights summing above one), the last span absorbs a
/// negative residual and can itself be negative.
fn absorb_residual(spans: &Vec<i32>, usable: i32) -> (r: Vec<i32>)
    requires
        spans@.len() >= 1,
        forall|i: int| 0 <= i < spans@.len() ==> 0 <= spans@[i],
        0 <= usable,
        isum(ints_of(spans@)) <= i32::MAX,
    ensures
        r@.len() == spans@.len(),
        ints_of(r@) == adjusted_spans(ints_of(spans@), usable as int),
        isum(ints_of(r@)) == usable,
        forall|i: int| 0 <= i < r@.len() - 1 ==> 0 <= #[trigger] r@[i],
        r@[r@.len() - 1] <= usable,
{
    let ghost sq = ints_of(spans@);
    proof {
        lemma_isum_nonneg(sq);
    }
    let n = spans.len();
    let mut r: Vec<i32> = Vec::new();
    let mut total: i64 = 0;
    let mut i: usize = 0;
    while i < n - 1
        invariant
            0 <= i < n,
            n == spans@.len(),
            sq == ints_of(spans@),
            r@ == spans@.take(i as int),
            total == isum(sq.take(i as int)),
            0 <= total <= isum(sq),
            isum(sq) <= i32::MAX,
            0 <= usable,
            forall|j: int| 0 <= j < spans@.len() ==> 0 <= spans@[j],
        decreases n - i,
    {
        proof {
            lemma_isum_take_succ(sq, i as int);
            lemma_isum_take_le(sq, i as int + 1);
            assert(r@.push(spans@[i as int]) =~= spans@.take(i as int + 1));
        }
        r.push(spans[i]);
        total = total + (spans[i] as i64);
        i = i + 1;
    }
    proof {
        lemma_isum_take_succ(sq, n - 1);
        lemma_isum_take_le(sq, n as int);
        assert(sq.take(n as int) =~= sq);
        lemma_isum_nonneg(sq.take(n - 1));
    }
    let last_adj: i32 = ((usable as i64) - total) as i32;
    r.push(last_adj);
    proof {
        assert(ints_of(r@) =~= adjusted_spans(sq, usable as int));
        lemma_adjusted_sum(sq, usable as int);
        assert forall|j: int| 0 <= j < r@.len() - 1 implies 0 <= #[trigger] r@[j] by {}
    }
    r
}

/// Usable span of an axis once the gaps between `n` cells are subtracted.
pub open spec fn usable_span(span: int, gap: int, n: int) -> int {
    span - gap * (n - 1)
}

/// Start offsets of cells laid out from `start` whose individual widths are
/// given: offset `k` is `start` plus the widths of the first `k` cells plus
/// `k` gaps.  The last width never enters an offset, so it alone may be
/// negative (an over-filled axis whose final cell absorbed the residual).
fn cumulative(start: i32, widths: &Vec<i32>, gap: i32) -> (r: Vec<i32>)
    requires
        widths@.len() >= 1,
        0 <= gap,
        forall|i: int| 0 <= i < widths@.len() - 1 ==> 0 <= #[trigger] widths@[i],
        start + isum(ints_of(widths@).take(widths@.len() - 1)) + gap * (widths@.len() - 1)
            <= i32::MAX,
    ensures
        r@.len() == widths@.len(),
        forall|k: int|
            0 <= k < r@.len() ==> r@[k] == start + isum(ints_of(widths@).take(k)) + gap * k,
{
    let ghost sq = ints_of(widths@);
    let ghost pre = sq.take(sq.len() - 1);
    let n = widths.len();
    let mut r: Vec<i32> = Vec::new();
    let mut pos: i64 = start as i64;
    let mut i: usize = 0;
    proof {
        assert(forall|j: int| 0 <= j < pre.len() ==> 0 <= #[trigger] pre[j]);
    }
    while i < n
        invariant
            0 <= i <= n,
            n == widths@.len(),
            n >= 1,
            sq == ints_of(widths@),
            pre == sq.take(sq.len() - 1),
            forall|j: int| 0 <= j < pre.len() ==> 0 <= #[trigger] pre[j],
            r@.len() == i,
            0 <= gap,
            start + isum(pre) + gap * (n - 1) <= i32::MAX,
            pos == start + isum(sq.take(i as int)) + gap * i,
            i < n ==> start <= pos <= i32::MAX,
            forall|k: int|
                0 <= k < i ==> r@[k] == start + isum(sq.take(k)) + gap * k,
        decreases n - i,
    {
        let x: i32 = pos as i32;
        r.push(x);
        proof {
            lemma_isum_take_succ(sq, i as int);
            assert(sq[i as int] == widths@[i as int] as int);
            assert((gap as int) * (i as int + 1) == (gap as int) * (i as int) + (gap as int))
                by (nonlinear_arith);
            if i + 1 < n {
                assert(sq.take(i as int + 1) =~= pre.take(i as int + 1));
                lemma_isum_take_le(pre, i as int + 1);
                lemma_isum_nonneg(sq.take(i as int + 1));
                assert((gap as int) * (i as int + 1) <= (gap as int) * (n as int - 1))
                    by (nonlinear_arith)
                    requires
                        0 <= gap,
                        0 <= i,
                        (i as int) + 1 <= (n as int) - 1,
                ;
                assert(0 <= (gap as int) * (i as int + 1)) by (nonlinear_arith)
                    requires
                        0 <= gap,
                        0 <= i,
                ;
            }
        }
        pos = pos + (widths[i] as i64) + (gap as i64);
        i = i + 1;
    }
    r
}

/// Conditions under which a weighted grid is meaningful and free of
/// arithmetic overflow.  The per-column and per-row pixel spans are the
/// caller's weight fractions already scaled to the usable span: they are
/// non-negative, and bounded so that their sums and the running offsets stay
/// representable.  The spans need not sum to the usable span: the final
/// column and row absorb the residual, which is negative when the weights
/// sum above one.
pub open spec fn weighted_input_ok(
    cols: u32,
    rows: u32,
    area: Rect,
    gap: i32,
    cs: Seq<i32>,
    rs: Seq<i32>,
) -> bool {
    let g = gap as int;
    &&& 1 <= cols
    &&& 1 <= rows
    &&& cs.len() == cols
    &&& rs.len() == rows
    &&& cols as nat * rows as nat <= usize::MAX
    &&& 0 <= g
    &&& g * (cols - 1) <= area.w
    &&& g * (rows - 1) <= area.h
    &&& 0 <= area.w
    &&& 0 <= area.h
    &&& area.x + area.w <= i32::MAX
    &&& area.y + area.h <= i32::MAX
    &&& (forall|i: int| 0 <= i < cs.len() ==> 0 <= #[trigger] cs[i])
    &&& (forall|i: int| 0 <= i < rs.len() ==> 0 <= #[trigger] rs[i])
    &&& isum(ints_of(cs)) <= i32::MAX
    &&& isum(ints_of(rs)) <= i32::MAX
    &&& area.x + isum(ints_of(cs).take(cs.len() - 1)) + g * (cols - 1) <= i32::MAX
    &&& area.y + isum(ints_of(rs).take(rs.len() - 1)) + g * (rows - 1) <= i32::MAX
}

/// The geometry of weighted-grid slot `k`: its column width and row height
/// are the absorbed-residual spans, and its offsets are running sums with a
/// gap inserted between (not after) entries.
pub open spec fn weighted_slot_matches(
    cols: u32,
    rows: u32,
    area: Rect,
    gap: i32,
    cs: Seq<i32>,
    rs: Seq<i32>,
    k: int,
    s: Slot,
) -> bool {
    let g = gap as int;
    let aw = adjusted_spans(ints_of(cs), usable_span(area.w as int, g, cols as int));
    let ah = adjusted_spans(ints_of(rs), usable_span(area.h as int, g, rows as int));
    let c = k % (cols as int);
    let r = k / (cols as int);
    &&& s.x == area.x + isum(aw.take(c)) + g * c
    &&& s.y == area.y + isum(ah.take(r)) + g * r
    &&& s.w == aw[c]
    &&& s.h == ah[r]
}

/// Compute grid slots whose column widths and row heights follow the given
/// pixel spans (weight fractions scaled by the caller to the usable spans).
/// The final column and row absorb all residual pixels — negative when the
/// weights sum above one — so the spans of one row or column always sum
/// exactly to the usable span.
pub fn compute_weighted_grid(
    cols: u32,
    rows: u32,
    area: &Rect,
    gap: i32,
    col_spans: &Vec<i32>,
    row_spans: &Vec<i32>,
) -> (r: Vec<Slot>)
    requires
        weighted_input_ok(cols, rows, *area, gap, col_spans@, row_spans@),
    ensures
        r@.len() == cols as nat * rows as nat,
        forall|k: int|
            0 <= k < r@.len() ==> weighted_slot_matches(
                cols,
                rows,
                *area,
                gap,
                col_spans@,
                row_spans@,
                k,
                r@[k],
            ),
{
    proof {
        assert(0 <= (gap as int) * (cols as int - 1)) by (nonlinear_arith)
            requires
                0 <= gap,
                1 <= cols,
        ;
        assert(0 <= (gap as int) * (rows as int - 1)) by (nonlinear_arith)
            requires
                0 <= gap,
                1 <= rows,
        ;
    }
    let usable_w: i32 = ((area.w as i64) - (gap as i64) * ((cols as i64) - 1)) as i32;
    let usable_h: i32 = ((area.h as i64) - (gap as i64) * ((rows as i64) - 1)) as i32;
    let col_w = absorb_residual(col_spans, usable_w);
    let row_h = absorb_residual(row_spans, usable_h);
    proof {
        assert(ints_of(col_w@).take(col_w@.len() - 1) =~= ints_of(col_spans@).take(
            col_spans@.len() - 1,
        ));
        assert(ints_of(row_h@).take(row_h@.len() - 1) =~= ints_of(row_spans@).take(
            row_spans@.len() - 1,
        ));
    }
    let col_x = cumulative(area.x, &col_w, gap);
    let row_y = cumulative(area.y, &row_h, gap);
    let ghost aw = adjusted_spans(
        ints_of(col_spans@),
        usable_span(area.w as int, gap as int, cols as int),
    );
    let ghost ah = adjusted_spans(
        ints_of(row_spans@),
        usable_span(area.h as int, gap as int, rows as int),
    );
    let mut slots: Vec<Slot> = Vec::new();
    let mut ri: usize = 0;
    while ri < (rows as usize)
        invariant
            ri <= rows as usize,
            1 <= cols,
            col_w@.len() == cols,
            row_h@.len() == rows,
            col_x@.len() == cols,
            row_y@.len() == rows,
            ints_of(col_w@) == aw,
            ints_of(row_h@) == ah,
            aw == adjusted_spans(
                ints_of(col_spans@),
                usable_span(area.w as int, gap as int, cols as int),
            ),
            ah == adjusted_spans(
                ints_of(row_spans@),
                usable_span(area.h as int, gap as int, rows as int),
            ),
            forall|k: int|
                0 <= k < cols ==> col_x@[k] == area.x + isum(aw.take(k)) + (gap as int) * k,
            forall|k: int|
                0 <= k < rows ==> row_y@[k] == area.y + isum(ah.take(k)) + (gap as int) * k,
            slots@.len() == ri * (cols as int),
            slots@.len() <= usize::MAX,
            cols as nat * rows as nat <= usize::MAX,
            forall|k: int|
                0 <= k < slots@.len() ==> weighted_slot_matches(
                    cols,
                    rows,
                    *area,
                    gap,
                    col_spans@,
                    row_spans@,
                    k,
                    slots@[k],
                ),
        decreases rows as int - ri,
    {
        let mut ci: usize = 0;
        proof {
            assert((ri as int) * (cols as int) + (cols as int) <= (rows as int) * (cols as int))
                by (nonlinear_arith)
                requires
                    0 <= ri,
                    (ri as int) < (rows as int),
                    1 <= cols as int,
            ;
            assert((rows as int) * (cols as int) == cols as nat * rows as nat)
                by (nonlinear_arith);
        }
        while ci < (cols as usize)
            invariant
                ci <= cols as usize,
                ri < rows as usize,
                1 <= cols,
                col_w@.len() == cols,
                row_h@.len() == rows,
                col_x@.len() == cols,
                row_y@.len() == rows,
                ints_of(col_w@) == aw,
                ints_of(row_h@) == ah,
                aw == adjusted_spans(
                    ints_of(col_spans@),
                    usable_span(area.w as int, gap as int, cols as int),
                ),
                ah == adjusted_spans(
                    ints_of(row_spans@),
                    usable_span(area.h as int, gap as int, rows as int),
                ),
                forall|k: int|
                    0 <= k < cols ==> col_x@[k] == area.x + isum(aw.take(k)) + (gap as int) * k,
                forall|k: int|
                    0 <= k < rows ==> row_y@[k] == area.y + isum(ah.take(k)) + (gap as int) * k,
                slots@.len() == ri * (cols as int) + ci,
                (ri as int) * (cols as int) + (cols as int) <= usize::MAX,
                forall|k: int|
                    0 <= k < slots@.len() ==> weighted_slot_matches(
                        cols,
                        rows,
                        *area,
                        gap,
                        col_spans@,
                        row_spans@,
                        k,
                        slots@[k],
                    ),
            decreases cols as int - ci,
        {
            let s = Slot { x: col_x[ci], y: row_y[ri], w: col_w[ci], h: row_h[ri] };
            proof {
                lemma_fundamental_div_mod_converse(
                    slots@.len() as int,
                    cols as int,
                    ri as int,
                    ci as int,
                );
                assert(ints_of(col_w@)[ci as int] == col_w@[ci as int] as int);
                assert(ints_of(row_h@)[ri as int] == row_h@[ri as int] as int);
                assert(weighted_slot_matches(
                    cols,
                    rows,
                    *area,
                    gap,
                    col_spans@,
                    row_spans@,
                    slots@.len() as int,
                    s,
                ));
            }
            slots.push(s);
            ci = ci + 1;
        }
        proof {
            assert((ri as int + 1) * (cols as int) == ri * (cols as int) + (cols as int))
                by (nonlinear_arith);
        }
        ri = ri + 1;
    }
    proof {
        assert(slots@.len() == (rows as int) * (cols as int));
        assert((rows as int) * (cols as int) == cols as nat * rows as nat) by (nonlinear_arith);
    }
    slots
}

/// The slot list of one arrangement pass: a weighted grid when per-axis
/// pixel spans accompany a grid preset, else the preset's plain slots.
pub fn compute_arrangement_slots(
    preset: &LayoutPreset,
    area: &Rect,
    gap: i32,
    spans: Option<(&Vec<i32>, &Vec<i32>)>,
) -> (r: Vec<Slot>)
    requires
        match (spans, *preset) {
            (Option::Some((cs, rs)), LayoutPreset::Grid { cols, rows }) => weighted_input_ok(
                cols,
                rows,
                *area,
                gap,
                cs@,
                rs@,
            ),
            _ => preset.slots_input_ok(*area, gap),
        },
    ensures
        match (spans, *preset) {
            (Option::Some((cs, rs)), LayoutPreset::Grid { cols, rows }) => r@.len() == cols
                as nat * rows as nat && (forall|k: int|
                0 <= k < r@.len() ==> weighted_slot_matches(
                    cols,
                    rows,
                    *area,
                    gap,
                    cs@,
                    rs@,
                    k,
                    r@[k],
                )),
            _ => r@.len() == preset.spec_slot_count() && (forall|k: int|
                0 <= k < r@.len() ==> preset.slot_matches(*area, gap, k, r@[k])),
        },
{
    match (spans, preset) {
        (Some((cs, rs)), LayoutPreset::Grid { cols, rows }) => {
            compute_weighted_grid(*cols, *rows, area, gap, cs, rs)
        },
        _ => preset.compute_slots(area, gap),
    }
}

/// The slot widths of one grid row, as integers.
pub open spec fn row_widths(slots: Seq<Slot>, cols: int, row: int) -> Seq<int> {
    Seq::new(cols as nat, |c: int| slots[row * cols + c].w as int)
}

/// The slot heights of one grid column, as integers.
pub open spec fn col_heights(slots: Seq<Slot>, cols: int, rows: int, col: int) -> Seq<int> {
    Seq::new(rows as nat, |r: int| slots[r * cols + col].h as int)
}

/// For any grid preset and positive gap whose usable spans divide evenly by
/// the cell counts, the returned slots tile the work area exactly: the slot
/// widths of any row plus the `cols - 1` gaps sum to the area width, and the
/// slot heights of any column plus the `rows - 1` gaps sum to the area
/// height.  (With a non-zero division remainder, truncation absorbs the
/// leftover pixels and the tiling falls short by exactly that remainder.)
pub proof fn lemma_grid_tiles_exactly(
    cols: u32,
    rows: u32,
    area: Rect,
    gap: i32,
    slots: Seq<Slot>,
    row: int,
    col: int,
)
    requires
        (LayoutPreset::Grid { cols, rows }).slots_input_ok(area, gap),
        usable_span(area.w as int, gap as int, cols as int) % (cols as int) == 0,
        usable_span(area.h as int, gap as int, rows as int) % (rows as int) == 0,
        slots.len() == cols as nat * rows as nat,
        forall|k: int|
            0 <= k < slots.len() ==> (LayoutPreset::Grid { cols, rows }).slot_matches(
                area,
                gap,
                k,
                slots[k],
            ),
        0 <= row < rows,
        0 <= col < cols,
    ensures
        isum(row_widths(slots, cols as int, row)) + (gap as int) * (cols as int - 1) == area.w,
        isum(col_heights(slots, cols as int, rows as int, col)) + (gap as int) * (rows as int
            - 1) == area.h,
{
    let g = gap as int;
    let uw = usable_span(area.w as int, g, cols as int);
    let uh = usable_span(area.h as int, g, rows as int);
    let cw = axis_cell(area.w as int, g, cols as int);
    let ch = axis_cell(area.h as int, g, rows as int);
    lemma_fundamental_div_mod(uw, cols as int);
    lemma_fundamental_div_mod(uh, rows as int);
    assert(uw == (cols as int) * cw);
    assert(uh == (rows as int) * ch);
    let rw = row_widths(slots, cols as int, row);
    assert forall|c: int| 0 <= c < rw.len() implies rw[c] == cw by {
        let k = row * (cols as int) + c;
        assert(0 <= k && k + 1 <= (rows as int) * (cols as int)) by (nonlinear_arith)
            requires
                k == row * (cols as int) + c,
                0 <= row,
                row < rows as int,
                0 <= c,
                c < cols as int,
        ;
        assert((rows as int) * (cols as int) == cols as nat * rows as nat) by (nonlinear_arith);
        lemma_fundamental_div_mod_converse(k, cols as int, row, c);
        assert((LayoutPreset::Grid { cols, rows }).slot_matches(area, gap, k, slots[k]));
    }
    lemma_isum_constant_take(rw, cw, cols as int);
    assert(rw.take(cols as int) =~= rw);
    let chs = col_heights(slots, cols as int, rows as int, col);
    assert forall|r: int| 0 <= r < chs.len() implies chs[r] == ch by {
        let k = r * (cols as int) + col;
        assert(0 <= k && k + 1 <= (rows as int) * (cols as int)) by (nonlinear_arith)
            requires
                k == r * (cols as int) + col,
                0 <= r,
                r < rows as int,
                0 <= col,
                col < cols as int,
        ;
        assert((rows as int) * (cols as int) == cols as nat * rows as nat) by (nonlinear_arith);
        lemma_fundamental_div_mod_converse(k, cols as int, r, col);
        assert((LayoutPreset::Grid { cols, rows }).slot_matches(area, gap, k, slots[k]));
    }
    lemma_isum_constant_take(chs, ch, rows as int);
    assert(chs.take(rows as int) =~= chs);
}

/// In any single row of a weighted grid, the slot widths sum exactly to the
/// usable width, whatever the weight values were; the final column absorbs
/// all residual pixels.  The same holds of the heights in any column, by the
/// symmetric argument on `rs`.
pub proof fn lemma_weighted_row_widths_sum(
    cols: u32,
    rows: u32,
    area: Rect,
    gap: i32,
    cs: Seq<i32>,
    rs: Seq<i32>,
    slots: Seq<Slot>,
    row: int,
)
    requires
        weighted_input_ok(cols, rows, area, gap, cs, rs),
        slots.len() == cols as nat * rows as nat,
        forall|k: int|
            0 <= k < slots.len() ==> weighted_slot_matches(
                cols,
                rows,
                area,
                gap,
                cs,
                rs,
                k,
                slots[k],
            ),
        0 <= row < rows,
    ensures
        isum(row_widths(slots, cols as int, row)) == usable_span(
            area.w as int,
            gap as int,
            cols as int,
        ),
{
    let g = gap as int;
    let u = usable_span(area.w as int, g, cols as int);
    let aw = adjusted_spans(ints_of(cs), u);
    assert forall|c: int| 0 <= c < cols implies row_widths(slots, cols as int, row)[c] == aw[c] by {
        let k = row * (cols as int) + c;
        assert(0 <= k && k + 1 <= (rows as int) * (cols as int)) by (nonlinear_arith)
            requires
                k == row * (cols as int) + c,
                0 <= row,
                row < rows as int,
                0 <= c,
                c < cols as int,
        ;
        assert((rows as int) * (cols as int) == cols as nat * rows as nat) by (nonlinear_arith);
        lemma_fundamental_div_mod_converse(k, cols as int, row, c);
        assert(weighted_slot_matches(cols, rows, area, gap, cs, rs, k, slots[k]));
    }
    assert(row_widths(slots, cols as int, row) =~= aw);
    lemma_adjusted_sum(ints_of(cs), u);
}

pub proof fn lemma_isum_constant_take(s: Seq<int>, v: int, k: int)
    requires
        forall|i: int| 0 <= i < s.len() ==> s[i] == v,
        0 <= k <= s.len(),
    ensures
        isum(s.take(k)) == k * v,
    decreases k,
{
    if k == 0 {
        assert(s.take(0) =~= Seq::<int>::empty());
    } else {
        lemma_isum_constant_take(s, v, k - 1);
        lemma_isum_take_succ(s, k - 1);
        assert(k * v == (k - 1) * v + v) by (nonlinear_arith);
    }
}

/// With uniform spans — every column span equal to the even grid cell width,
/// every row span equal to the even cell height — and usable spans that
/// divide evenly, each weighted-grid slot coincides exactly with the
/// corresponding unweighted grid slot.
pub proof fn lemma_uniform_weighted_matches_grid(
    cols: u32,
    rows: u32,
    area: Rect,
    gap: i32,
    cs: Seq<i32>,
    rs: Seq<i32>,
    k: int,
    s: Slot,
)
    requires
        weighted_input_ok(cols, rows, area, gap, cs, rs),
        (LayoutPreset::Grid { cols, rows }).slots_input_ok(area, gap),
        forall|i: int|
            0 <= i < cs.len() ==> #[trigger] cs[i] == axis_cell(
                area.w as int,
                gap as int,
                cols as int,
            ),
        forall|i: int|
            0 <= i < rs.len() ==> #[trigger] rs[i] == axis_cell(
                area.h as int,
                gap as int,
                rows as int,
            ),
        usable_span(area.w as int, gap as int, cols as int) % (cols as int) == 0,
        usable_span(area.h as int, gap as int, rows as int) % (rows as int) == 0,
        0 <= k < cols as nat * rows as nat,
        weighted_slot_matches(cols, rows, area, gap, cs, rs, k, s),
    ensures
        (LayoutPreset::Grid { cols, rows }).slot_matches(area, gap, k, s),
{
    let g = gap as int;
    let uw = usable_span(area.w as int, g, cols as int);
    let uh = usable_span(area.h as int, g, rows as int);
    let cw = axis_cell(area.w as int, g, cols as int);
    let ch = axis_cell(area.h as int, g, rows as int);
    lemma_fundamental_div_mod(uw, cols as int);
    lemma_fundamental_div_mod(uh, rows as int);
    assert(uw == (cols as int) * cw);
    assert(uh == (rows as int) * ch);
    let ci = ints_of(cs);
    let ri = ints_of(rs);
    assert(forall|i: int| 0 <= i < ci.len() ==> ci[i] == cw);
    assert(forall|i: int| 0 <= i < ri.len() ==> ri[i] == ch);
    lemma_isum_constant_take(ci, cw, cols as int);
    assert(ci.take(cols as int) =~= ci);
    lemma_isum_constant_take(ri, ch, rows as int);
    assert(ri.take(rows as int) =~= ri);
    assert(isum(ci) == (cols as int) * cw);
    assert(isum(ri) == (rows as int) * ch);
    let aw = adjusted_spans(ci, uw);
    let ah = adjusted_spans(ri, uh);
    assert(forall|i: int| 0 <= i < aw.len() ==> aw[i] == cw);
    assert(forall|i: int| 0 <= i < ah.len() ==> ah[i] == ch);
    let c = k % (cols as int);
    let r = k / (cols as int);
    lemma_mod_bound(k, cols as int);
    assert(0 <= c < cols as int);
    assert(0 <= r < rows as int) by {
        lemma_fundamental_div_mod(k, cols as int);
        assert((cols as int) * (rows as int) == cols as nat * rows as nat) by (nonlinear_arith);
        assert(r < rows as int) by (nonlinear_arith)
            requires
                k == (cols as int) * r + c,
                0 <= c,
                k < (cols as int) * (rows as int),
                1 <= cols as int,
        ;
        assert(0 <= r) by (nonlinear_arith)
            requires
                k == (cols as int) * r + c,
                c < cols as int,
                0 <= k,
                1 <= cols as int,
        ;
    }
    lemma_isum_constant_take(aw, cw, c);
    lemma_isum_constant_take(ah, ch, r);
    assert(s.x == area.x + c * cw + g * c);
    assert(s.y == area.y + r * ch + g * r);
    assert(c * cw + g * c == c * (cw + g)) by (nonlinear_arith);
    assert(r * ch + g * r == r * (ch + g)) by (nonlinear_arith);
}

/// How the side-stack presets read their count: a missing or unreadable
/// number falls back to `default`, and the count is at least one.
pub open spec fn side_count_of(rest: Seq<u8>, default: u32) -> u32 {
    let n = match parse_u32_spec(rest) {
        Option::Some(v) => v,
        Option::None => default,
    };
    if n >= 1 {
        n
    } else {
        1u32
    }
}

/// The focus branch of the parser: `focus[:n]`, default three side slots.
pub open spec fn spec_parse_focus(t: Seq<u8>) -> Option<LayoutPreset> {
    if has_prefix(t, "focus".spec_bytes()) {
        let rest = trim_spec(
            strip_prefix_all(strip_prefix_all(t, "focus".spec_bytes()), ":".spec_bytes()),
        );
        Option::Some(LayoutPreset::Focus { side_count: side_count_of(rest, 3) })
    } else {
        Option::None
    }
}

/// The main-side branch: `main-side[:n]` or `mainside[:n]`, default two.
pub open spec fn spec_parse_mainside(t: Seq<u8>) -> Option<LayoutPreset> {
    if has_prefix(t, "main-side".spec_bytes()) || has_prefix(t, "mainside".spec_bytes()) {
        let rest = trim_spec(
            strip_prefix_all(
                strip_prefix_all(
                    strip_prefix_all(t, "main-side".spec_bytes()),
                    "mainside".spec_bytes(),
                ),
                ":".spec_bytes(),
            ),
        );
        Option::Some(LayoutPreset::MainSide { side_count: side_count_of(rest, 2) })
    } else {
        spec_parse_focus(t)
    }
}

/// The fixed two-slot presets.
pub open spec fn spec_parse_fixed(t: Seq<u8>) -> Option<LayoutPreset> {
    if t == "left-right".spec_bytes() || t == "leftright".spec_bytes() || t
        == "split".spec_bytes() {
        Option::Some(LayoutPreset::LeftRight)
    } else if t == "top-bottom".spec_bytes() || t == "topbottom".spec_bytes() {
        Option::Some(LayoutPreset::TopBottom)
    } else {
        spec_parse_mainside(t)
    }
}

/// The rows branch: `rows:n` or `rows n`; an unreadable count fails the
/// whole parse.
pub open spec fn spec_parse_rows_on(t: Seq<u8>) -> Option<LayoutPreset> {
    if has_prefix(t, "rows".spec_bytes()) {
        let rest = trim_spec(
            strip_prefix_all(t.skip("rows".spec_bytes().len() as int), ":".spec_bytes()),
        );
        match parse_u32_spec(rest) {
            Option::None => Option::None,
            Option::Some(n) => if n > 0 {
                Option::Some(LayoutPreset::Rows(n))
            } else {
                spec_parse_fixed(t)
            },
        }
    } else {
        spec_parse_fixed(t)
    }
}

/// The columns branch: `columns:n` or `columns n`.
pub open spec fn spec_parse_keywords(t: Seq<u8>) -> Option<LayoutPreset> {
    if has_prefix(t, "columns".spec_bytes()) {
        let rest = trim_spec(
            strip_prefix_all(t.skip("columns".spec_bytes().len() as int), ":".spec_bytes()),
        );
        match parse_u32_spec(rest) {
            Option::None => Option::None,
            Option::Some(n) => if n > 0 {
                Option::Some(LayoutPreset::Columns(n))
            } else {
                spec_parse_rows_on(t)
            },
        }
    } else {
        spec_parse_rows_on(t)
    }
}

/// What `parse` accepts, applied to the trimmed, lower-cased bytes: a
/// `<cols>x<rows>` grid if the text contains an `x` (an unreadable number on
/// either side fails the parse), else the keyword forms.
pub open spec fn spec_parse_trimmed(t: Seq<u8>) -> Option<LayoutPreset> {
    match find_first(t, 120) {
        Option::Some(i) => if 0 <= i < t.len() {
            match parse_u32_spec(trim_spec(t.take(i))) {
                Option::None => Option::None,
                Option::Some(cols) => match parse_u32_spec(trim_spec(t.skip(i + 1))) {
                    Option::None => Option::None,
                    Option::Some(rows) => if cols > 0 && rows > 0 {
                        Option::Some(LayoutPreset::Grid { cols, rows })
                    } else {
                        spec_parse_keywords(t)
                    },
                },
            }
        } else {
            Option::None
        },
        Option::None => spec_parse_keywords(t),
    }
}

/// What `LayoutPreset::parse` accepts, as a function of the input bytes.
pub open spec fn spec_parse(s: Seq<u8>) -> Option<LayoutPreset> {
    spec_parse_trimmed(lower(trim_spec(s)))
}

fn parse_focus_kw(t: &Vec<u8>) -> (r: Option<LayoutPreset>)
    ensures
        r == spec_parse_focus(t@),
        r matches Some(p) ==> p.wf(),
{
    if starts_with(t, "focus".as_bytes()) {
        let rest = trim(&strip_all(&strip_all(t, "focus".as_bytes()), ":".as_bytes()));
        let n = match parse_u32_bytes(&rest) {
            Some(v) => v,
            None => 3,
        };
        let side_count = if n >= 1 {
            n
        } else {
            1
        };
        Some(LayoutPreset::Focus { side_count })
    } else {
        None
    }
}

fn parse_mainside_kw(t: &Vec<u8>) -> (r: Option<LayoutPreset>)
    ensures
        r == spec_parse_mainside(t@),
        r matches Some(p) ==> p.wf(),
{
    if starts_with(t, "main-side".as_bytes()) || starts_with(t, "mainside".as_bytes()) {
        let rest = trim(
            &strip_all(
                &strip_all(&strip_all(t, "main-side".as_bytes()), "mainside".as_bytes()),
                ":".as_bytes(),
            ),
        );
        let n = match parse_u32_bytes(&rest) {
            Some(v) => v,
            None => 2,
        };
        let side_count = if n >= 1 {
            n
        } else {
            1
        };
        Some(LayoutPreset::MainSide { side_count })
    } else {
        parse_focus_kw(t)
    }
}

fn parse_fixed_kw(t: &Vec<u8>) -> (r: Option<LayoutPreset>)
    ensures
        r == spec_parse_fixed(t@),
        r matches Some(p) ==> p.wf(),
{
    if bytes_eq(t.as_slice(), "left-right".as_bytes()) || bytes_eq(
        t.as_slice(),
        "leftright".as_bytes(),
    ) || bytes_eq(t.as_slice(), "split".as_bytes()) {
        Some(LayoutPreset::LeftRight)
    } else if bytes_eq(t.as_slice(), "top-bottom".as_bytes()) || bytes_eq(
        t.as_slice(),
        "topbottom".as_bytes(),
    ) {
        Some(LayoutPreset::TopBottom)
    } else {
        parse_mainside_kw(t)
    }
}

fn parse_rows_kw(t: &Vec<u8>) -> (r: Option<LayoutPreset>)
    ensures
        r == spec_parse_rows_on(t@),
        r matches Some(p) ==> p.wf(),
{
    let kw = "rows".as_bytes();
    if starts_with(t, kw) {
        let tlen = t.len();
        let tail = subvec(t, kw.len(), tlen);
        proof {
            assert(tail@ =~= t@.skip(kw@.len() as int));
        }
        let rest = trim(&strip_all(&tail, ":".as_bytes()));
        match parse_u32_bytes(&rest) {
            None => None,
            Some(n) => {
                if n > 0 {
                    Some(LayoutPreset::Rows(n))
                } else {
                    parse_fixed_kw(t)
                }
            },
        }
    } else {
        parse_fixed_kw(t)
    }
}

fn parse_columns_kw(t: &Vec<u8>) -> (r: Option<LayoutPreset>)
    ensures
        r == spec_parse_keywords(t@),
        r matches Some(p) ==> p.wf(),
{
    let kw = "columns".as_bytes();
    if starts_with(t, kw) {
        let tlen = t.len();
        let tail = subvec(t, kw.len(), tlen);
        proof {
            assert(tail@ =~= t@.skip(kw@.len() as int));
        }
        let rest = trim(&strip_all(&tail, ":".as_bytes()));
        match parse_u32_bytes(&rest) {
            None => None,
            Some(n) => {
                if n > 0 {
                    Some(LayoutPreset::Columns(n))
                } else {
                    parse_rows_kw(t)
                }
            },
        }
    } else {
        parse_rows_kw(t)
    }
}

/// The built-in presets, with their display names, in menu order.
pub fn builtin_presets() -> (r: Vec<(String, LayoutPreset)>)
    ensures
        r@.len() == 21,
        r@[0].0@ == "1x2 Grid"@ && r@[0].1 == (LayoutPreset::Grid { cols: 1, rows: 2 }),
        r@[1].0@ == "2x1 Grid"@ && r@[1].1 == (LayoutPreset::Grid { cols: 2, rows: 1 }),
        r@[2].0@ == "2x2 Grid"@ && r@[2].1 == (LayoutPreset::Grid { cols: 2, rows: 2 }),
        r@[3].0@ == "2x3 Grid"@ && r@[3].1 == (LayoutPreset::Grid { cols: 2, rows: 3 }),
        r@[4].0@ == "3x2 Grid"@ && r@[4].1 == (LayoutPreset::Grid { cols: 3, rows: 2 }),
        r@[5].0@ == "3x3 Grid"@ && r@[5].1 == (LayoutPreset::Grid { cols: 3, rows: 3 }),
        r@[6].0@ == "4x2 Grid"@ && r@[6].1 == (LayoutPreset::Grid { cols: 4, rows: 2 }),
        r@[7].0@ == "4x3 Grid"@ && r@[7].1 == (LayoutPreset::Grid { cols: 4, rows: 3 }),
        r@[8].0@ == "4x4 Grid"@ && r@[8].1 == (LayoutPreset::Grid { cols: 4, rows: 4 }),
        r@[9].0@ == "Left / Right"@ && r@[9].1 == (LayoutPreset::LeftRight),
        r@[10].0@ == "Top / Bottom"@ && r@[10].1 == (LayoutPreset::TopBottom),
        r@[11].0@ == "Main + 2 Side"@ && r@[11].1 == (LayoutPreset::MainSide { side_count: 2 }),
        r@[12].0@ == "Main + 3 Side"@ && r@[12].1 == (LayoutPreset::MainSide { side_count: 3 }),
        r@[13].0@ == "Main + 4 Side"@ && r@[13].1 == (LayoutPreset::MainSide { side_count: 4 }),
        r@[14].0@ == "Focus + 3 Side"@ && r@[14].1 == (LayoutPreset::Focus { side_count: 3 }),
        r@[15].0@ == "Focus + 4 Side"@ && r@[15].1 == (LayoutPreset::Focus { side_count: 4 }),
        r@[16].0@ == "2 Columns"@ && r@[16].1 == (LayoutPreset::Columns(2)),
        r@[17].0@ == "3 Columns"@ && r@[17].1 == (LayoutPreset::Columns(3)),
        r@[18].0@ == "4 Columns"@ && r@[18].1 == (LayoutPreset::Columns(4)),
        r@[19].0@ == "2 Rows"@ && r@[19].1 == (LayoutPreset::Rows(2)),
        r@[20].0@ == "3 Rows"@ && r@[20].1 == (LayoutPreset::Rows(3)),
{
    let mut v: Vec<(String, LayoutPreset)> = Vec::new();
    v.push(("1x2 Grid".to_owned(), LayoutPreset::Grid { cols: 1, rows: 2 }));
    v.push(("2x1 Grid".to_owned(), LayoutPreset::Grid { cols: 2, rows: 1 }));
    v.push(("2x2 Grid".to_owned(), LayoutPreset::Grid { cols: 2, rows: 2 }));
    v.push(("2x3 Grid".to_owned(), LayoutPreset::Grid { cols: 2, rows: 3 }));
    v.push(("3x2 Grid".to_owned(), LayoutPreset::Grid { cols: 3, rows: 2 }));
    v.push(("3x3 Grid".to_owned(), LayoutPreset::Grid { cols: 3, rows: 3 }));
    v.push(("4x2 Grid".to_owned(), LayoutPreset::Grid { cols: 4, rows: 2 }));
    v.push(("4x3 Grid".to_owned(), LayoutPreset::Grid { cols: 4, rows: 3 }));
    v.push(("4x4 Grid".to_owned(), LayoutPreset::Grid { cols: 4, rows: 4 }));
    v.push(("Left / Right".to_owned(), LayoutPreset::LeftRight));
    v.push(("Top / Bottom".to_owned(), LayoutPreset::TopBottom));
    v.push(("Main + 2 Side".to_owned(), LayoutPreset::MainSide { side_count: 2 }));
    v.push(("Main + 3 Side".to_owned(), LayoutPreset::MainSide { side_count: 3 }));
    v.push(("Main + 4 Side".to_owned(), LayoutPreset::MainSide { side_count: 4 }));
    v.push(("Focus + 3 Side".to_owned(), LayoutPreset::Focus { side_count: 3 }));
    v.push(("Focus + 4 Side".to_owned(), LayoutPreset::Focus { side_count: 4 }));
    v.push(("2 Columns".to_owned(), LayoutPreset::Columns(2)));
    v.push(("3 Columns".to_owned(), LayoutPreset::Columns(3)));
    v.push(("4 Columns".to_owned(), LayoutPreset::Columns(4)));
    v.push(("2 Rows".to_owned(), LayoutPreset::Rows(2)));
    v.push(("3 Rows".to_owned(), LayoutPreset::Rows(3)));
    v
}

} // verus!
