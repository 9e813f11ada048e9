//! Displays and their usable work areas, and resolution of a textual
//! monitor specification to one display.

use crate::text::{bytes_eq, parse_usize_bytes, parse_usize_spec, str_bytes};
use vstd::prelude::*;
use vstd::string::StringSliceAdditionalSpecFns;

verus! {

/// An axis-aligned rectangle in screen coordinates.
#[derive(Debug, Clone, Copy, PartialEq, Eq, Structural)]
pub struct Rect {
    pub x: i32,
    pub y: i32,
    pub w: i32,
    pub h: i32,
}

/// One display: its position in the enumeration order, whether the
/// operating system marks it as the primary display, and its usable
/// work area (the display rectangle minus reserved chrome).
#[derive(Debug, Clone, Copy, PartialEq, Eq, Structural)]
pub struct MonitorInfo {
    pub index: usize,
    pub is_primary: bool,
    pub work_area: Rect,
}

/// Index of the first display the operating system marks primary, if any.
pub open spec fn first_primary(ms: Seq<MonitorInfo>) -> Option<int>
    decreases ms.len(),
{
    if ms.len() == 0 {
        Option::None
    } else if ms[0].is_primary {
        Option::Some(0int)
    } else {
        match first_primary(ms.drop_first()) {
            Option::None => Option::None,
            Option::Some(i) => Option::Some(i + 1),
        }
    }
}

/// The primary display's index, or the first display when none is primary.
pub open spec fn primary_or_first(ms: Seq<MonitorInfo>) -> int {
    match first_primary(ms) {
        Option::Some(i) => i,
        Option::None => 0,
    }
}

/// Which display a textual specification selects: `"primary"` or an empty
/// string picks the primary display (first as fallback); a decimal number
/// picks that index, clamped to the first display when out of range; any
/// other text falls back to the primary display.
pub open spec fn spec_resolve_index(ms: Seq<MonitorInfo>, sp: Seq<u8>) -> int {
    if sp == "primary".spec_bytes() || sp.len() == 0 {
        primary_or_first(ms)
    } else {
        match parse_usize_spec(sp) {
            Option::Some(idx) => if idx < ms.len() {
                idx as int
            } else {
                0
            },
            Option::None => primary_or_first(ms),
        }
    }
}

proof fn lemma_first_primary_props(ms: Seq<MonitorInfo>)
    ensures
        match first_primary(ms) {
            Option::Some(i) => 0 <= i < ms.len() && ms[i].is_primary && (forall|j: int|
                0 <= j < i ==> !ms[j].is_primary),
            Option::None => forall|j: int| 0 <= j < ms.len() ==> !ms[j].is_primary,
        },
    decreases ms.len(),
{
    if ms.len() > 0 && !ms[0].is_primary {
        let t = ms.drop_first();
        lemma_first_primary_props(t);
        match first_primary(t) {
            Option::Some(i) => {
                assert(ms[i + 1] == t[i]);
                assert forall|j: int| 0 <= j < i + 1 implies !ms[j].is_primary by {
                    if j > 0 {
                        assert(!t[j - 1].is_primary);
                    }
                }
            },
            Option::None => {
                assert forall|j: int| 0 <= j < ms.len() implies !ms[j].is_primary by {
                    if j > 0 {
                        assert(!t[j - 1].is_primary);
                    }
                }
            },
        }
    }
}

/// The primary display, or the first when none is marked primary.
fn primary_monitor<'a>(monitors: &'a Vec<MonitorInfo>) -> (r: &'a MonitorInfo)
    requires
        monitors@.len() > 0,
    ensures
        0 <= primary_or_first(monitors@) < monitors@.len(),
        *r == monitors@[primary_or_first(monitors@)],
{
    proof {
        lemma_first_primary_props(monitors@);
    }
    let mut i: usize = 0;
    while i < monitors.len()
        invariant
            i <= monitors@.len(),
            forall|j: int| 0 <= j < i ==> !monitors@[j].is_primary,
            match first_primary(monitors@) {
                Option::Some(k) => 0 <= k < monitors@.len() && monitors@[k].is_primary && (
                forall|j: int| 0 <= j < k ==> !monitors@[j].is_primary),
                Option::None => forall|j: int| 0 <= j < monitors@.len() ==> !monitors@[
                    j
                ].is_primary,
            },
        decreases monitors@.len() - i,
    {
        if monitors[i].is_primary {
            return &monitors[i];
        }
        i = i + 1;
    }
    &monitors[0]
}

/// Resolve a monitor specification to one display of a non-empty list:
/// `"primary"` or an empty string picks the primary display (first as
/// fallback); a decimal index picks that display, falling back to the first
/// when out of range; anything else behaves like `"primary"`.
pub fn resolve_monitor<'a>(monitors: &'a Vec<MonitorInfo>, spec: &str) -> (r: &'a MonitorInfo)
    requires
        monitors@.len() > 0,
    ensures
        0 <= spec_resolve_index(monitors@, spec.spec_bytes()) < monitors@.len(),
        *r == monitors@[spec_resolve_index(monitors@, spec.spec_bytes())],
{
    let sb = str_bytes(spec);
    if bytes_eq(sb.as_slice(), "primary".as_bytes()) || sb.len() == 0 {
        return primary_monitor(monitors);
    }
    match parse_usize_bytes(&sb) {
        Some(idx) => {
            if idx < monitors.len() {
                &monitors[idx]
            } else {
                &monitors[0]
            }
        },
        None => primary_monitor(monitors),
    }
}

} // verus!
