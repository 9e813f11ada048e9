//! Configuration rule types the engine consumes: pin rules, named layout
//! definitions, and category overrides.  Loading and saving the
//! configuration document is the surrounding application's concern.

use crate::layout::{spec_parse, LayoutPreset};
use crate::text::{bytes_eq, contains_bytes, contains_seq, lower, str_bytes, to_lower};
use crate::windows::{custom_names_of, string_bytes};
use vstd::prelude::*;
use vstd::string::StringSliceAdditionalSpecFns;

verus! {

/// A user rule forcing a matching window into one specific slot: an optional
/// process-name match and/or an optional title-substring match, both
/// case-insensitive, plus the target slot index.
#[derive(Debug, Clone)]
pub struct PinRule {
    pub process: Option<String>,
    pub title_contains: Option<String>,
    pub slot: usize,
}

impl PinRule {
    /// The rule matches a window whose process name equals `process`
    /// (case-insensitive) or whose title contains `title_contains`
    /// (case-insensitive).
    pub open spec fn spec_matches(self, name: Seq<u8>, title: Seq<u8>) -> bool {
        ||| (self.process matches Option::Some(p) && lower(name) == lower(string_bytes(p)))
        ||| (self.title_contains matches Option::Some(sub) && contains_seq(
            lower(title),
            lower(string_bytes(sub)),
        ))
    }

    /// Whether a window with this process name and title matches the rule.
    pub fn matches(&self, process_name: &str, title: &str) -> (r: bool)
        ensures
            r == self.spec_matches(process_name.spec_bytes(), title.spec_bytes()),
    {
        let name_low = to_lower(&str_bytes(process_name));
        if let Some(p) = &self.process {
            let p_low = to_lower(&str_bytes(p.as_str()));
            if bytes_eq(name_low.as_slice(), p_low.as_slice()) {
                return true;
            }
        }
        if let Some(sub) = &self.title_contains {
            let title_low = to_lower(&str_bytes(title));
            let sub_low = to_lower(&str_bytes(sub.as_str()));
            if contains_bytes(&title_low, &sub_low) {
                return true;
            }
        }
        false
    }
}

/// A named custom layout from the configuration: either a grid
/// specification string, or an explicit style keyword with a slot count.
#[derive(Debug, Clone)]
pub struct LayoutDef {
    pub name: String,
    pub grid: Option<String>,
    pub style: Option<String>,
    pub count: Option<u32>,
}

/// The preset a style keyword and count resolve to; the style keywords are
/// matched exactly.
pub open spec fn spec_style_preset(style: Seq<u8>, count: u32) -> Option<LayoutPreset> {
    if style == "columns".spec_bytes() {
        Option::Some(LayoutPreset::Columns(count))
    } else if style == "rows".spec_bytes() {
        Option::Some(LayoutPreset::Rows(count))
    } else if style == "left-right".spec_bytes() {
        Option::Some(LayoutPreset::LeftRight)
    } else if style == "top-bottom".spec_bytes() {
        Option::Some(LayoutPreset::TopBottom)
    } else if style == "main-side".spec_bytes() {
        Option::Some(LayoutPreset::MainSide { side_count: count })
    } else if style == "focus".spec_bytes() {
        Option::Some(LayoutPreset::Focus { side_count: count })
    } else {
        Option::None
    }
}

impl LayoutDef {
    /// The preset this definition resolves to: the grid string is parsed
    /// when present (its failure fails the definition), else the style
    /// keyword with the count (default two) decides.
    pub open spec fn spec_to_preset(self) -> Option<LayoutPreset> {
        match self.grid {
            Option::Some(g) => spec_parse(string_bytes(g)),
            Option::None => match self.style {
                Option::Some(st) => spec_style_preset(
                    string_bytes(st),
                    match self.count {
                        Option::Some(c) => c,
                        Option::None => 2,
                    },
                ),
                Option::None => Option::None,
            },
        }
    }

    /// Resolve the definition to a layout preset, if it denotes one.
    pub fn to_preset(&self) -> (r: Option<LayoutPreset>)
        ensures
            r == self.spec_to_preset(),
    {
        if let Some(g) = &self.grid {
            return LayoutPreset::parse(g.as_str());
        }
        if let Some(st) = &self.style {
            let count = match self.count {
                Some(c) => c,
                None => 2,
            };
            let sb = str_bytes(st.as_str());
            if bytes_eq(sb.as_slice(), "columns".as_bytes()) {
                return Some(LayoutPreset::Columns(count));
            }
            if bytes_eq(sb.as_slice(), "rows".as_bytes()) {
                return Some(LayoutPreset::Rows(count));
            }
            if bytes_eq(sb.as_slice(), "left-right".as_bytes()) {
                return Some(LayoutPreset::LeftRight);
            }
            if bytes_eq(sb.as_slice(), "top-bottom".as_bytes()) {
                return Some(LayoutPreset::TopBottom);
            }
            if bytes_eq(sb.as_slice(), "main-side".as_bytes()) {
                return Some(LayoutPreset::MainSide { side_count: count });
            }
            if bytes_eq(sb.as_slice(), "focus".as_bytes()) {
                return Some(LayoutPreset::Focus { side_count: count });
            }
            return None;
        }
        None
    }
}

/// Per-category process-name overrides from the configuration, and the
/// processes excluded from window management.
#[derive(Debug, Clone)]
pub struct CategoryOverrides {
    pub terminals: Vec<String>,
    pub editors: Vec<String>,
    pub browsers: Vec<String>,
    pub chat: Vec<String>,
    pub media: Vec<String>,
    pub games: Vec<String>,
    pub devtools: Vec<String>,
    pub exclude: Vec<String>,
}

impl CategoryOverrides {
    /// The excluded process names, lower-cased, ready for discovery.
    pub fn excluded_lower(&self) -> (r: Vec<Vec<u8>>)
        ensures
            custom_names_of(r@) == self.exclude@.map_values(
                |s: String| lower(string_bytes(s)),
            ),
    {
        let mut r: Vec<Vec<u8>> = Vec::new();
        let mut i: usize = 0;
        while i < self.exclude.len()
            invariant
                i <= self.exclude@.len(),
                r@.len() == i,
                forall|j: int| 0 <= j < i ==> #[trigger] r@[j]@ == lower(
                    string_bytes(self.exclude@[j]),
                ),
            decreases self.exclude@.len() - i,
        {
            let low = to_lower(&str_bytes(self.exclude[i].as_str()));
            r.push(low);
            i = i + 1;
        }
        proof {
            assert(custom_names_of(r@) =~= self.exclude@.map_values(
                |s: String| lower(string_bytes(s)),
            ));
        }
        r
    }
}

/// The default target filter specification.
pub fn default_target() -> (r: String)
    ensures
        r@ == "all"@,
{
    "all".to_owned()
}

/// The default monitor specification.
pub fn default_monitor() -> (r: String)
    ensures
        r@ == "primary"@,
{
    "primary".to_owned()
}

/// The default gap between slots, in pixels.
pub fn default_gap() -> (r: i32)
    ensures
        r == 4,
{
    4
}

/// The default for boolean settings that start enabled.
pub fn default_true() -> (r: bool)
    ensures
        r,
{
    true
}

/// The default column and row count of the custom grid.
pub fn default_2() -> (r: u32)
    ensures
        r == 2,
{
    2
}

} // verus!
