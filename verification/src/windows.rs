//! Window classification and discovery filtering.
//!
//! The operating system's enumeration hands the application a finite list of
//! window candidates with their raw attributes; everything the engine decides
//! about them — which to manage, how to classify them, which filter they
//! satisfy — is pure logic and lives here.

use crate::monitor::Rect;
use crate::text::{bytes_eq, lower, str_bytes, to_lower};
use vstd::prelude::*;
use vstd::string::StringSliceAdditionalSpecFns;

verus! {

/// Coarse application category, derived from the process name alone.
#[derive(Debug, Clone, Copy, PartialEq, Eq, Hash, Structural)]
pub enum AppCategory {
    Terminal,
    Browser,
    Editor,
    Chat,
    Media,
    Game,
    DevTool,
    System,
    Other,
}

impl AppCategory {
    /// The one-character label of the category.
    pub open spec fn spec_short_label(self) -> Seq<char> {
        match self {
            AppCategory::Terminal => "T"@,
            AppCategory::Browser => "B"@,
            AppCategory::Editor => "E"@,
            AppCategory::Chat => "C"@,
            AppCategory::Media => "M"@,
            AppCategory::Game => "G"@,
            AppCategory::DevTool => "D"@,
            AppCategory::System => "S"@,
            AppCategory::Other => "?"@,
        }
    }

    /// One-character label, for dense displays.
    pub fn short_label(&self) -> (r: &'static str)
        ensures
            r@ == self.spec_short_label(),
    {
        match self {
            AppCategory::Terminal => "T",
            AppCategory::Browser => "B",
            AppCategory::Editor => "E",
            AppCategory::Chat => "C",
            AppCategory::Media => "M",
            AppCategory::Game => "G",
            AppCategory::DevTool => "D",
            AppCategory::System => "S",
            AppCategory::Other => "?",
        }
    }

    /// The category's name.
    pub open spec fn spec_display_name(self) -> Seq<char> {
        match self {
            AppCategory::Terminal => "Terminal"@,
            AppCategory::Browser => "Browser"@,
            AppCategory::Editor => "Editor"@,
            AppCategory::Chat => "Chat"@,
            AppCategory::Media => "Media"@,
            AppCategory::Game => "Game"@,
            AppCategory::DevTool => "DevTool"@,
            AppCategory::System => "System"@,
            AppCategory::Other => "Other"@,
        }
    }

    /// Human-readable category name.
    pub fn display_name(&self) -> (r: &'static str)
        ensures
            r@ == self.spec_display_name(),
    {
        match self {
            AppCategory::Terminal => "Terminal",
            AppCategory::Browser => "Browser",
            AppCategory::Editor => "Editor",
            AppCategory::Chat => "Chat",
            AppCategory::Media => "Media",
            AppCategory::Game => "Game",
            AppCategory::DevTool => "DevTool",
            AppCategory::System => "System",
            AppCategory::Other => "Other",
        }
    }
}

/// The fixed terminal-emulator process names (lower case).
pub open spec fn is_terminal_process(n: Seq<u8>) -> bool {
    ||| n == "powershell.exe".spec_bytes()
    ||| n == "pwsh.exe".spec_bytes()
    ||| n == "cmd.exe".spec_bytes()
    ||| n == "windowsterminal.exe".spec_bytes()
    ||| n == "alacritty.exe".spec_bytes()
    ||| n == "wezterm-gui.exe".spec_bytes()
    ||| n == "hyper.exe".spec_bytes()
    ||| n == "mintty.exe".spec_bytes()
    ||| n == "conhost.exe".spec_bytes()
    ||| n == "conemu64.exe".spec_bytes()
    ||| n == "conemu.exe".spec_bytes()
    ||| n == "tabby.exe".spec_bytes()
    ||| n == "terminus.exe".spec_bytes()
    ||| n == "kitty.exe".spec_bytes()
    ||| n == "rio.exe".spec_bytes()
    ||| n == "warp.exe".spec_bytes()
}

pub open spec fn is_browser_process(n: Seq<u8>) -> bool {
    ||| n == "chrome.exe".spec_bytes()
    ||| n == "firefox.exe".spec_bytes()
    ||| n == "msedge.exe".spec_bytes()
    ||| n == "brave.exe".spec_bytes()
    ||| n == "vivaldi.exe".spec_bytes()
    ||| n == "opera.exe".spec_bytes()
    ||| n == "arc.exe".spec_bytes()
    ||| n == "waterfox.exe".spec_bytes()
    ||| n == "librewolf.exe".spec_bytes()
}

pub open spec fn is_editor_process(n: Seq<u8>) -> bool {
    ||| n == "code.exe".spec_bytes()
    ||| n == "devenv.exe".spec_bytes()
    ||| n == "rider64.exe".spec_bytes()
    ||| n == "idea64.exe".spec_bytes()
    ||| n == "sublime_text.exe".spec_bytes()
    ||| n == "notepad++.exe".spec_bytes()
    ||| n == "notepad.exe".spec_bytes()
    ||| n == "zed.exe".spec_bytes()
    ||| n == "cursor.exe".spec_bytes()
    ||| n == "windsurf.exe".spec_bytes()
}

pub open spec fn is_chat_process(n: Seq<u8>) -> bool {
    ||| n == "discord.exe".spec_bytes()
    ||| n == "slack.exe".spec_bytes()
    ||| n == "teams.exe".spec_bytes()
    ||| n == "telegram.exe".spec_bytes()
    ||| n == "signal.exe".spec_bytes()
    ||| n == "element.exe".spec_bytes()
    ||| n == "zoom.exe".spec_bytes()
}

pub open spec fn is_media_process(n: Seq<u8>) -> bool {
    ||| n == "spotify.exe".spec_bytes()
    ||| n == "vlc.exe".spec_bytes()
    ||| n == "obs64.exe".spec_bytes()
    ||| n == "obs.exe".spec_bytes()
    ||| n == "audacity.exe".spec_bytes()
    ||| n == "foobar2000.exe".spec_bytes()
    ||| n == "mpv.exe".spec_bytes()
}

pub open spec fn is_game_process(n: Seq<u8>) -> bool {
    ||| n == "steam.exe".spec_bytes()
    ||| n == "epicgameslauncher.exe".spec_bytes()
    ||| n == "gogalaxy.exe".spec_bytes()
}

pub open spec fn is_devtool_process(n: Seq<u8>) -> bool {
    ||| n == "unity.exe".spec_bytes()
    ||| n == "unrealengine.exe".spec_bytes()
    ||| n == "blender.exe".spec_bytes()
    ||| n == "gimp-2.10.exe".spec_bytes()
    ||| n == "gimp.exe".spec_bytes()
    ||| n == "figma.exe".spec_bytes()
    ||| n == "postman.exe".spec_bytes()
    ||| n == "gitextensions.exe".spec_bytes()
    ||| n == "sourcetree.exe".spec_bytes()
    ||| n == "fork.exe".spec_bytes()
    ||| n == "filezilla.exe".spec_bytes()
    ||| n == "docker.exe".spec_bytes()
    ||| n == "winscp.exe".spec_bytes()
    ||| n == "putty.exe".spec_bytes()
}

pub open spec fn is_system_process(n: Seq<u8>) -> bool {
    ||| n == "explorer.exe".spec_bytes()
    ||| n == "taskmgr.exe".spec_bytes()
    ||| n == "mmc.exe".spec_bytes()
    ||| n == "regedit.exe".spec_bytes()
    ||| n == "control.exe".spec_bytes()
    ||| n == "perfmon.exe".spec_bytes()
    ||| n == "resmon.exe".spec_bytes()
}

/// The category a lower-cased process name belongs to: case-insensitive exact
/// lookup against the fixed tables, `Other` when unmatched.
pub open spec fn spec_categorize(n: Seq<u8>) -> AppCategory {
    if is_terminal_process(n) {
        AppCategory::Terminal
    } else if is_browser_process(n) {
        AppCategory::Browser
    } else if is_editor_process(n) {
        AppCategory::Editor
    } else if is_chat_process(n) {
        AppCategory::Chat
    } else if is_media_process(n) {
        AppCategory::Media
    } else if is_game_process(n) {
        AppCategory::Game
    } else if is_devtool_process(n) {
        AppCategory::DevTool
    } else if is_system_process(n) {
        AppCategory::System
    } else {
        AppCategory::Other
    }
}

fn terminal_process_b(low: &Vec<u8>) -> (r: bool)
    ensures
        r == is_terminal_process(low@),
{
    bytes_eq(low.as_slice(), "powershell.exe".as_bytes()) || bytes_eq(
        low.as_slice(),
        "pwsh.exe".as_bytes(),
    ) || bytes_eq(low.as_slice(), "cmd.exe".as_bytes()) || bytes_eq(
        low.as_slice(),
        "windowsterminal.exe".as_bytes(),
    ) || bytes_eq(low.as_slice(), "alacritty.exe".as_bytes()) || bytes_eq(
        low.as_slice(),
        "wezterm-gui.exe".as_bytes(),
    ) || bytes_eq(low.as_slice(), "hyper.exe".as_bytes()) || bytes_eq(
        low.as_slice(),
        "mintty.exe".as_bytes(),
    ) || bytes_eq(low.as_slice(), "conhost.exe".as_bytes()) || bytes_eq(
        low.as_slice(),
        "conemu64.exe".as_bytes(),
    ) || bytes_eq(low.as_slice(), "conemu.exe".as_bytes()) || bytes_eq(
        low.as_slice(),
        "tabby.exe".as_bytes(),
    ) || bytes_eq(low.as_slice(), "terminus.exe".as_bytes()) || bytes_eq(
        low.as_slice(),
        "kitty.exe".as_bytes(),
    ) || bytes_eq(low.as_slice(), "rio.exe".as_bytes()) || bytes_eq(
        low.as_slice(),
        "warp.exe".as_bytes(),
    )
}

fn browser_process_b(low: &Vec<u8>) -> (r: bool)
    ensures
        r == is_browser_process(low@),
{
    bytes_eq(low.as_slice(), "chrome.exe".as_bytes()) || bytes_eq(
        low.as_slice(),
        "firefox.exe".as_bytes(),
    ) || bytes_eq(low.as_slice(), "msedge.exe".as_bytes()) || bytes_eq(
        low.as_slice(),
        "brave.exe".as_bytes(),
    ) || bytes_eq(low.as_slice(), "vivaldi.exe".as_bytes()) || bytes_eq(
        low.as_slice(),
        "opera.exe".as_bytes(),
    ) || bytes_eq(low.as_slice(), "arc.exe".as_bytes()) || bytes_eq(
        low.as_slice(),
        "waterfox.exe".as_bytes(),
    ) || bytes_eq(low.as_slice(), "librewolf.exe".as_bytes())
}

fn editor_process_b(low: &Vec<u8>) -> (r: bool)
    ensures
        r == is_editor_process(low@),
{
    bytes_eq(low.as_slice(), "code.exe".as_bytes()) || bytes_eq(
        low.as_slice(),
        "devenv.exe".as_bytes(),
    ) || bytes_eq(low.as_slice(), "rider64.exe".as_bytes()) || bytes_eq(
        low.as_slice(),
        "idea64.exe".as_bytes(),
    ) || bytes_eq(low.as_slice(), "sublime_text.exe".as_bytes()) || bytes_eq(
        low.as_slice(),
        "notepad++.exe".as_bytes(),
    ) || bytes_eq(low.as_slice(), "notepad.exe".as_bytes()) || bytes_eq(
        low.as_slice(),
        "zed.exe".as_bytes(),
    ) || bytes_eq(low.as_slice(), "cursor.exe".as_bytes()) || bytes_eq(
        low.as_slice(),
        "windsurf.exe".as_bytes(),
    )
}

fn chat_process_b(low: &Vec<u8>) -> (r: bool)
    ensures
        r == is_chat_process(low@),
{
    bytes_eq(low.as_slice(), "discord.exe".as_bytes()) || bytes_eq(
        low.as_slice(),
        "slack.exe".as_bytes(),
    ) || bytes_eq(low.as_slice(), "teams.exe".as_bytes()) || bytes_eq(
        low.as_slice(),
        "telegram.exe".as_bytes(),
    ) || bytes_eq(low.as_slice(), "signal.exe".as_bytes()) || bytes_eq(
        low.as_slice(),
        "element.exe".as_bytes(),
    ) || bytes_eq(low.as_slice(), "zoom.exe".as_bytes())
}

fn media_process_b(low: &Vec<u8>) -> (r: bool)
    ensures
        r == is_media_process(low@),
{
    bytes_eq(low.as_slice(), "spotify.exe".as_bytes()) || bytes_eq(
        low.as_slice(),
        "vlc.exe".as_bytes(),
    ) || bytes_eq(low.as_slice(), "obs64.exe".as_bytes()) || bytes_eq(
        low.as_slice(),
        "obs.exe".as_bytes(),
    ) || bytes_eq(low.as_slice(), "audacity.exe".as_bytes()) || bytes_eq(
        low.as_slice(),
        "foobar2000.exe".as_bytes(),
    ) || bytes_eq(low.as_slice(), "mpv.exe".as_bytes())
}

fn game_process_b(low: &Vec<u8>) -> (r: bool)
    ensures
        r == is_game_process(low@),
{
    bytes_eq(low.as_slice(), "steam.exe".as_bytes()) || bytes_eq(
        low.as_slice(),
        "epicgameslauncher.exe".as_bytes(),
    ) || bytes_eq(low.as_slice(), "gogalaxy.exe".as_bytes())
}

fn devtool_process_b(low: &Vec<u8>) -> (r: bool)
    ensures
        r == is_devtool_process(low@),
{
    bytes_eq(low.as_slice(), "unity.exe".as_bytes()) || bytes_eq(
        low.as_slice(),
        "unrealengine.exe".as_bytes(),
    ) || bytes_eq(low.as_slice(), "blender.exe".as_bytes()) || bytes_eq(
        low.as_slice(),
        "gimp-2.10.exe".as_bytes(),
    ) || bytes_eq(low.as_slice(), "gimp.exe".as_bytes()) || bytes_eq(
        low.as_slice(),
        "figma.exe".as_bytes(),
    ) || bytes_eq(low.as_slice(), "postman.exe".as_bytes()) || bytes_eq(
        low.as_slice(),
        "gitextensions.exe".as_bytes(),
    ) || bytes_eq(low.as_slice(), "sourcetree.exe".as_bytes()) || bytes_eq(
        low.as_slice(),
        "fork.exe".as_bytes(),
    ) || bytes_eq(low.as_slice(), "filezilla.exe".as_bytes()) || bytes_eq(
        low.as_slice(),
        "docker.exe".as_bytes(),
    ) || bytes_eq(low.as_slice(), "winscp.exe".as_bytes()) || bytes_eq(
        low.as_slice(),
        "putty.exe".as_bytes(),
    )
}

fn system_process_b(low: &Vec<u8>) -> (r: bool)
    ensures
        r == is_system_process(low@),
{
    bytes_eq(low.as_slice(), "explorer.exe".as_bytes()) || bytes_eq(
        low.as_slice(),
        "taskmgr.exe".as_bytes(),
    ) || bytes_eq(low.as_slice(), "mmc.exe".as_bytes()) || bytes_eq(
        low.as_slice(),
        "regedit.exe".as_bytes(),
    ) || bytes_eq(low.as_slice(), "control.exe".as_bytes()) || bytes_eq(
        low.as_slice(),
        "perfmon.exe".as_bytes(),
    ) || bytes_eq(low.as_slice(), "resmon.exe".as_bytes())
}

/// Classify a process by name: case-insensitive exact lookup against the
/// fixed tables; unmatched processes are `Other`.
pub fn categorize_process(name: &str) -> (r: AppCategory)
    ensures
        r == spec_categorize(lower(name.spec_bytes())),
{
    let bytes = str_bytes(name);
    let low = to_lower(&bytes);
    if terminal_process_b(&low) {
        AppCategory::Terminal
    } else if browser_process_b(&low) {
        AppCategory::Browser
    } else if editor_process_b(&low) {
        AppCategory::Editor
    } else if chat_process_b(&low) {
        AppCategory::Chat
    } else if media_process_b(&low) {
        AppCategory::Media
    } else if game_process_b(&low) {
        AppCategory::Game
    } else if devtool_process_b(&low) {
        AppCategory::DevTool
    } else if system_process_b(&low) {
        AppCategory::System
    } else {
        AppCategory::Other
    }
}

/// Which windows an arrangement pass targets.
#[derive(Debug, Clone, PartialEq)]
pub enum TargetFilter {
    /// The fixed list of terminal-emulator process names.
    Terminals,
    /// Every window, less the system-shell exclusions.
    Universal,
    /// An explicit list of process names (the bytes of each comma-separated
    /// piece of the configuration string, trimmed, original case; matching
    /// lower-cases both sides).
    Custom(Vec<Vec<u8>>),
}

/// The trimmed, non-empty comma-separated pieces of `s`: the process names
/// of a custom filter specification.
pub open spec fn custom_pieces(s: Seq<u8>) -> Seq<Seq<u8>>
    decreases s.len(),
{
    match crate::text::find_first(s, 44) {
        Option::None => if crate::text::trim_spec(s).len() > 0 {
            seq![crate::text::trim_spec(s)]
        } else {
            Seq::empty()
        },
        Option::Some(i) => {
            if 0 <= i < s.len() {
                let head = crate::text::trim_spec(s.take(i));
                let tail = custom_pieces(s.skip(i + 1));
                if head.len() > 0 {
                    seq![head] + tail
                } else {
                    tail
                }
            } else {
                Seq::empty()
            }
        },
    }
}

/// The keywords that select the terminal filter.
pub open spec fn is_terminals_keyword(low: Seq<u8>) -> bool {
    ||| low == "powershell".spec_bytes()
    ||| low == "ps".spec_bytes()
    ||| low == "terminal".spec_bytes()
    ||| low == "wt".spec_bytes()
    ||| low == "terminals".spec_bytes()
}

/// The keywords that select the universal filter.
pub open spec fn is_universal_keyword(low: Seq<u8>) -> bool {
    low == "all".spec_bytes() || low == "universal".spec_bytes()
}

/// Some stored name matches `name`, comparing both lower-cased.
pub open spec fn matches_custom(names: Seq<Vec<u8>>, name: Seq<u8>) -> bool {
    exists|i: int| 0 <= i < names.len() && lower(name) == lower(#[trigger] names[i]@)
}

/// The names held by a custom filter, as byte sequences.
pub open spec fn custom_names_of(names: Seq<Vec<u8>>) -> Seq<Seq<u8>> {
    names.map_values(|n: Vec<u8>| n@)
}

impl TargetFilter {
    /// Build a filter from its configuration string: a terminal or universal
    /// keyword, or else a comma-separated list of process names; an empty
    /// list falls back to the universal filter.
    pub fn from_str(s: &str) -> (r: TargetFilter)
        ensures
            ({
                let low = lower(s.spec_bytes());
                match r {
                    TargetFilter::Terminals => is_terminals_keyword(low),
                    TargetFilter::Universal => !is_terminals_keyword(low) && (
                    is_universal_keyword(low) || custom_pieces(s.spec_bytes()).len() == 0),
                    TargetFilter::Custom(names) => !is_terminals_keyword(low)
                        && !is_universal_keyword(low) && custom_names_of(names@) == custom_pieces(
                        s.spec_bytes(),
                    ) && names@.len() > 0,
                }
            }),
    {
        let bytes = str_bytes(s);
        let low = to_lower(&bytes);
        if bytes_eq(low.as_slice(), "powershell".as_bytes()) || bytes_eq(
            low.as_slice(),
            "ps".as_bytes(),
        ) || bytes_eq(low.as_slice(), "terminal".as_bytes()) || bytes_eq(
            low.as_slice(),
            "wt".as_bytes(),
        ) || bytes_eq(low.as_slice(), "terminals".as_bytes()) {
            return TargetFilter::Terminals;
        }
        if bytes_eq(low.as_slice(), "all".as_bytes()) || bytes_eq(
            low.as_slice(),
            "universal".as_bytes(),
        ) {
            return TargetFilter::Universal;
        }
        let names = split_and_trim(&bytes);
        if names.len() == 0 {
            proof {
                assert(custom_names_of(names@).len() == 0);
            }
            TargetFilter::Universal
        } else {
            TargetFilter::Custom(names)
        }
    }

    /// The filter's name.
    pub fn display_name(&self) -> (r: &'static str)
        ensures
            r@ == match self {
                TargetFilter::Terminals => "Terminals"@,
                TargetFilter::Universal => "Universal"@,
                TargetFilter::Custom(_) => "Custom"@,
            },
    {
        match self {
            TargetFilter::Terminals => "Terminals",
            TargetFilter::Universal => "Universal",
            TargetFilter::Custom(_) => "Custom",
        }
    }

    /// Whether a process name satisfies the filter.  The universal filter
    /// accepts every name here; its shell exclusions are applied during
    /// discovery.
    pub open spec fn spec_matches(self, name: Seq<u8>) -> bool {
        match self {
            TargetFilter::Terminals => is_terminal_process(lower(name)),
            TargetFilter::Universal => true,
            TargetFilter::Custom(names) => matches_custom(names@, name),
        }
    }

    /// Whether the window of process `process_name` satisfies the filter.
    pub fn matches(&self, process_name: &str) -> (r: bool)
        ensures
            r == self.spec_matches(process_name.spec_bytes()),
    {
        let bytes = str_bytes(process_name);
        let low = to_lower(&bytes);
        match self {
            TargetFilter::Terminals => terminal_process_b(&low),
            TargetFilter::Universal => true,
            TargetFilter::Custom(names) => {
                let mut i: usize = 0;
                while i < names.len()
                    invariant
                        i <= names@.len(),
                        self == TargetFilter::Custom(*names),
                        low@ == lower(process_name.spec_bytes()),
                        forall|j: int|
                            0 <= j < i ==> lower(process_name.spec_bytes()) != lower(
                                #[trigger] names@[j]@,
                            ),
                    decreases names@.len() - i,
                {
                    let cand = to_lower(&names[i]);
                    if bytes_eq(low.as_slice(), cand.as_slice()) {
                        proof {
                            assert(lower(process_name.spec_bytes()) == lower(names@[i as int]@));
                            assert(matches_custom(names@, process_name.spec_bytes()));
                        }
                        return true;
                    }
                    i = i + 1;
                }
                false
            },
        }
    }
}

/// Split `s` at commas, trim each piece, drop empty pieces.
fn split_and_trim(s: &Vec<u8>) -> (r: Vec<Vec<u8>>)
    ensures
        custom_names_of(r@) == custom_pieces(s@),
{
    let mut rest = crate::text::subvec(s, 0, s.len());
    proof {
        assert(rest@ =~= s@);
    }
    let mut r: Vec<Vec<u8>> = Vec::new();
    loop
        invariant
            custom_pieces(s@) =~= custom_names_of(r@) + custom_pieces(rest@),
        decreases rest@.len(),
    {
        let ghost old_r = r@;
        let ghost old_rest = rest@;
        match crate::text::find_byte(&rest, 44) {
            Some(i) => {
                proof {
                    crate::text::lemma_find_first_props(old_rest, 44);
                }
                let piece = crate::text::subvec(&rest, 0, i);
                let trimmed = crate::text::trim(&piece);
                if trimmed.len() > 0 {
                    r.push(trimmed);
                }
                let rlen = rest.len();
                let next = crate::text::subvec(&rest, i + 1, rlen);
                proof {
                    assert(piece@ =~= old_rest.take(i as int));
                    assert(next@ =~= old_rest.skip(i as int + 1));
                    assert(custom_names_of(r@) + custom_pieces(next@) =~= custom_names_of(
                        old_r,
                    ) + custom_pieces(old_rest));
                }
                rest = next;
            },
            None => {
                let trimmed = crate::text::trim(&rest);
                if trimmed.len() > 0 {
                    r.push(trimmed);
                }
                proof {
                    assert(custom_names_of(r@) =~= custom_names_of(old_r) + custom_pieces(
                        old_rest,
                    ));
                }
                return r;
            },
        }
    }
}

/// The UTF-8 bytes of a string value.
pub open spec fn string_bytes(s: String) -> Seq<u8> {
    vstd::utf8::encode_utf8(s@)
}

/// A top-level window under management.
#[derive(Debug, Clone)]
pub struct ManagedWindow {
    pub hwnd: isize,
    pub title: String,
    pub process_name: String,
    pub category: AppCategory,
    pub rect: Rect,
    pub is_minimized: bool,
}

/// Raw attributes of one enumerated top-level window, as the operating
/// system reports them: the handle, visibility, the tool-window style bit,
/// the bounding rectangle, the owning process's image name (`None` when the
/// process could not be resolved), the window class (`None` when the class
/// query failed), the title and the minimized state.
#[derive(Debug, Clone)]
pub struct WindowCandidate {
    pub hwnd: isize,
    pub is_visible: bool,
    pub is_tool_window: bool,
    pub rect: Rect,
    pub process_name: Option<String>,
    pub class_name: Option<String>,
    pub title: String,
    pub is_minimized: bool,
}

/// System-shell processes excluded outright in universal mode (lower case).
pub open spec fn is_excluded_shell_process(n: Seq<u8>) -> bool {
    ||| n == "searchhost.exe".spec_bytes()
    ||| n == "startmenuexperiencehost.exe".spec_bytes()
    ||| n == "shellexperiencehost.exe".spec_bytes()
    ||| n == "textinputhost.exe".spec_bytes()
    ||| n == "applicationframehost.exe".spec_bytes()
    ||| n == "systemsettings.exe".spec_bytes()
    ||| n == "lockapp.exe".spec_bytes()
    ||| n == "screenclippinghost.exe".spec_bytes()
    ||| n == "widgets.exe".spec_bytes()
    ||| n == "gamebar.exe".spec_bytes()
    ||| n == "gamebarpresencewriter.exe".spec_bytes()
    ||| n == "runtimebroker.exe".spec_bytes()
    ||| n == "dwm.exe".spec_bytes()
    ||| n == "csrss.exe".spec_bytes()
    ||| n == "lsass.exe".spec_bytes()
    ||| n == "services.exe".spec_bytes()
    ||| n == "svchost.exe".spec_bytes()
    ||| n == "winlogon.exe".spec_bytes()
    ||| n == "sihost.exe".spec_bytes()
    ||| n == "ctfmon.exe".spec_bytes()
    ||| n == "fontdrvhost.exe".spec_bytes()
    ||| n == "dllhost.exe".spec_bytes()
    ||| n == "conhost.exe".spec_bytes()
    ||| n == "securityhealthsystray.exe".spec_bytes()
    ||| n == "crashpad_handler.exe".spec_bytes()
    ||| n == "ceftestprocess.exe".spec_bytes()
    ||| n == "msedgewebview2.exe".spec_bytes()
    ||| n == "windowsinternal.composableshell.experiences.textinput.inputapp.exe".spec_bytes()
}

/// System window classes excluded in universal mode (exact match).
pub open spec fn is_excluded_class(c: Seq<u8>) -> bool {
    ||| c == "Shell_TrayWnd".spec_bytes()
    ||| c == "Shell_SecondaryTrayWnd".spec_bytes()
    ||| c == "Progman".spec_bytes()
    ||| c == "WorkerW".spec_bytes()
    ||| c == "Button".spec_bytes()
    ||| c == "Windows.UI.Core.CoreWindow".spec_bytes()
}

fn excluded_shell_process_b(low: &Vec<u8>) -> (r: bool)
    ensures
        r == is_excluded_shell_process(low@),
{
    bytes_eq(low.as_slice(), "searchhost.exe".as_bytes()) || bytes_eq(
        low.as_slice(),
        "startmenuexperiencehost.exe".as_bytes(),
    ) || bytes_eq(low.as_slice(), "shellexperiencehost.exe".as_bytes()) || bytes_eq(
        low.as_slice(),
        "textinputhost.exe".as_bytes(),
    ) || bytes_eq(low.as_slice(), "applicationframehost.exe".as_bytes()) || bytes_eq(
        low.as_slice(),
        "systemsettings.exe".as_bytes(),
    ) || bytes_eq(low.as_slice(), "lockapp.exe".as_bytes()) || bytes_eq(
        low.as_slice(),
        "screenclippinghost.exe".as_bytes(),
    ) || bytes_eq(low.as_slice(), "widgets.exe".as_bytes()) || bytes_eq(
        low.as_slice(),
        "gamebar.exe".as_bytes(),
    ) || bytes_eq(low.as_slice(), "gamebarpresencewriter.exe".as_bytes()) || bytes_eq(
        low.as_slice(),
        "runtimebroker.exe".as_bytes(),
    ) || bytes_eq(low.as_slice(), "dwm.exe".as_bytes()) || bytes_eq(
        low.as_slice(),
        "csrss.exe".as_bytes(),
    ) || bytes_eq(low.as_slice(), "lsass.exe".as_bytes()) || bytes_eq(
        low.as_slice(),
        "services.exe".as_bytes(),
    ) || bytes_eq(low.as_slice(), "svchost.exe".as_bytes()) || bytes_eq(
        low.as_slice(),
        "winlogon.exe".as_bytes(),
    ) || bytes_eq(low.as_slice(), "sihost.exe".as_bytes()) || bytes_eq(
        low.as_slice(),
        "ctfmon.exe".as_bytes(),
    ) || bytes_eq(low.as_slice(), "fontdrvhost.exe".as_bytes()) || bytes_eq(
        low.as_slice(),
        "dllhost.exe".as_bytes(),
    ) || bytes_eq(low.as_slice(), "conhost.exe".as_bytes()) || bytes_eq(
        low.as_slice(),
        "securityhealthsystray.exe".as_bytes(),
    ) || bytes_eq(low.as_slice(), "crashpad_handler.exe".as_bytes()) || bytes_eq(
        low.as_slice(),
        "ceftestprocess.exe".as_bytes(),
    ) || bytes_eq(low.as_slice(), "msedgewebview2.exe".as_bytes()) || bytes_eq(
        low.as_slice(),
        "windowsinternal.composableshell.experiences.textinput.inputapp.exe".as_bytes(),
    )
}

fn excluded_class_b(c: &Vec<u8>) -> (r: bool)
    ensures
        r == is_excluded_class(c@),
{
    bytes_eq(c.as_slice(), "Shell_TrayWnd".as_bytes()) || bytes_eq(
        c.as_slice(),
        "Shell_SecondaryTrayWnd".as_bytes(),
    ) || bytes_eq(c.as_slice(), "Progman".as_bytes()) || bytes_eq(
        c.as_slice(),
        "WorkerW".as_bytes(),
    ) || bytes_eq(c.as_slice(), "Button".as_bytes()) || bytes_eq(
        c.as_slice(),
        "Windows.UI.Core.CoreWindow".as_bytes(),
    )
}

/// In universal mode, the window must not belong to the system shell: its
/// process and class are not on the exclusion lists, and an `explorer.exe`
/// window is admitted only when its class identifies a file-manager window.
pub open spec fn universal_shell_ok(low: Seq<u8>, class: Option<String>) -> bool {
    &&& !is_excluded_shell_process(low)
    &&& match class {
        Option::Some(cn) => !is_excluded_class(string_bytes(cn)),
        Option::None => true,
    }
    &&& (low == "explorer.exe".spec_bytes() ==> match class {
        Option::Some(cn) => string_bytes(cn) == "CabinetWClass".spec_bytes(),
        Option::None => false,
    })
}

/// Whether discovery admits the candidate: not the caller's own window,
/// visible, not a tool window, a positive rectangle, a resolvable non-empty
/// process name that is neither excluded by the caller nor (in universal
/// mode) part of the system shell, and a name the filter matches.
pub open spec fn spec_admit(
    c: WindowCandidate,
    filter: TargetFilter,
    app_hwnd: isize,
    excl: Seq<Seq<u8>>,
) -> bool {
    &&& c.hwnd != app_hwnd
    &&& c.is_visible
    &&& !c.is_tool_window
    &&& c.rect.w > 0
    &&& c.rect.h > 0
    &&& match c.process_name {
        Option::None => false,
        Option::Some(n) => {
            let nb = string_bytes(n);
            let low = lower(nb);
            &&& nb.len() > 0
            &&& !excl.contains(low)
            &&& (filter is Universal ==> universal_shell_ok(low, c.class_name))
            &&& filter.spec_matches(nb)
        },
    }
}

/// The managed window `w` carries the candidate's attributes: same handle,
/// title, process name, rectangle and minimized state, and the category the
/// process name classifies to.
pub open spec fn window_from(w: ManagedWindow, c: WindowCandidate) -> bool {
    &&& w.hwnd == c.hwnd
    &&& w.title@ == c.title@
    &&& c.process_name matches Option::Some(n) && w.process_name@ == n@ && w.category
        == spec_categorize(lower(string_bytes(n)))
    &&& w.rect == c.rect
    &&& w.is_minimized == c.is_minimized
}

/// Decide one candidate, and build its managed window when it is admitted.
pub fn admit_window(
    c: &WindowCandidate,
    filter: &TargetFilter,
    app_hwnd: isize,
    extra_exclude: &Vec<Vec<u8>>,
) -> (r: Option<ManagedWindow>)
    ensures
        match r {
            Option::Some(w) => spec_admit(*c, *filter, app_hwnd, custom_names_of(extra_exclude@))
                && window_from(w, *c),
            Option::None => !spec_admit(*c, *filter, app_hwnd, custom_names_of(extra_exclude@)),
        },
{
    let ghost excl = custom_names_of(extra_exclude@);
    if c.hwnd == app_hwnd {
        return None;
    }
    if !c.is_visible {
        return None;
    }
    if c.is_tool_window {
        return None;
    }
    if c.rect.w <= 0 || c.rect.h <= 0 {
        return None;
    }
    let name = match &c.process_name {
        Some(n) => n,
        None => {
            return None;
        },
    };
    let nb = str_bytes(name.as_str());
    if nb.len() == 0 {
        return None;
    }
    let low = to_lower(&nb);
    let mut i: usize = 0;
    while i < extra_exclude.len()
        invariant
            i <= extra_exclude@.len(),
            excl == custom_names_of(extra_exclude@),
            c.process_name == Option::Some(*name),
            string_bytes(*name).len() > 0,
            low@ == lower(string_bytes(*name)),
            forall|j: int| 0 <= j < i ==> excl[j] != low@,
        decreases extra_exclude@.len() - i,
    {
        if bytes_eq(low.as_slice(), extra_exclude[i].as_slice()) {
            proof {
                assert(excl[i as int] == low@);
                assert(excl.contains(low@));
            }
            return None;
        }
        i = i + 1;
    }
    proof {
        assert(!excl.contains(low@)) by {
            if excl.contains(low@) {
                let j = choose|j: int| 0 <= j < excl.len() && excl[j] == low@;
                assert(excl[j] != low@);
            }
        }
    }
    let is_universal = match filter {
        TargetFilter::Universal => true,
        _ => false,
    };
    if is_universal {
        if excluded_shell_process_b(&low) {
            return None;
        }
        match &c.class_name {
            Some(cn) => {
                let cb = str_bytes(cn.as_str());
                if excluded_class_b(&cb) {
                    return None;
                }
            },
            None => {},
        }
        if bytes_eq(low.as_slice(), "explorer.exe".as_bytes()) {
            match &c.class_name {
                Some(cn) => {
                    let cb = str_bytes(cn.as_str());
                    if !bytes_eq(cb.as_slice(), "CabinetWClass".as_bytes()) {
                        return None;
                    }
                },
                None => {
                    return None;
                },
            }
        }
    }
    if !filter.matches(name.as_str()) {
        return None;
    }
    Some(
        ManagedWindow {
            hwnd: c.hwnd,
            title: c.title.clone(),
            process_name: name.clone(),
            category: categorize_process(name.as_str()),
            rect: c.rect,
            is_minimized: c.is_minimized,
        },
    )
}

/// The indices, in order, of the candidates among the first `n` that
/// discovery admits.
pub open spec fn admitted_prefix(
    cs: Seq<WindowCandidate>,
    filter: TargetFilter,
    app_hwnd: isize,
    excl: Seq<Seq<u8>>,
    n: int,
) -> Seq<int>
    decreases n,
{
    if n <= 0 {
        Seq::empty()
    } else {
        let rest = admitted_prefix(cs, filter, app_hwnd, excl, n - 1);
        if spec_admit(cs[n - 1], filter, app_hwnd, excl) {
            rest.push(n - 1)
        } else {
            rest
        }
    }
}

/// Filter the enumerated candidates in order: one managed window for each
/// admitted candidate, carrying its attributes and classification.
pub fn filter_windows(
    candidates: &Vec<WindowCandidate>,
    filter: &TargetFilter,
    app_hwnd: isize,
    extra_exclude: &Vec<Vec<u8>>,
) -> (r: Vec<ManagedWindow>)
    ensures
        ({
            let idx = admitted_prefix(
                candidates@,
                *filter,
                app_hwnd,
                custom_names_of(extra_exclude@),
                candidates@.len() as int,
            );
            &&& r@.len() == idx.len()
            &&& forall|k: int|
                0 <= k < idx.len() ==> 0 <= #[trigger] idx[k] < candidates@.len() && window_from(
                    r@[k],
                    candidates@[idx[k]],
                )
        }),
{
    proof {
        lemma_admitted_prefix_bounds(
            candidates@,
            *filter,
            app_hwnd,
            custom_names_of(extra_exclude@),
            candidates@.len() as int,
        );
    }
    let mut r: Vec<ManagedWindow> = Vec::new();
    let mut i: usize = 0;
    while i < candidates.len()
        invariant
            i <= candidates@.len(),
            ({
                let idx = admitted_prefix(
                    candidates@,
                    *filter,
                    app_hwnd,
                    custom_names_of(extra_exclude@),
                    i as int,
                );
                &&& r@.len() == idx.len()
                &&& forall|k: int|
                    0 <= k < idx.len() ==> 0 <= #[trigger] idx[k] < candidates@.len()
                        && window_from(r@[k], candidates@[idx[k]])
            }),
        decreases candidates@.len() - i,
    {
        proof {
            lemma_admitted_prefix_bounds(
                candidates@,
                *filter,
                app_hwnd,
                custom_names_of(extra_exclude@),
                i as int + 1,
            );
        }
        match admit_window(&candidates[i], filter, app_hwnd, extra_exclude) {
            Some(w) => {
                r.push(w);
            },
            None => {},
        }
        i = i + 1;
    }
    r
}

proof fn lemma_admitted_prefix_bounds(
    cs: Seq<WindowCandidate>,
    filter: TargetFilter,
    app_hwnd: isize,
    excl: Seq<Seq<u8>>,
    n: int,
)
    requires
        n <= cs.len(),
    ensures
        forall|k: int|
            0 <= k < admitted_prefix(cs, filter, app_hwnd, excl, n).len()
                ==> 0 <= #[trigger] admitted_prefix(cs, filter, app_hwnd, excl, n)[k] < n,
    decreases n,
{
    if n > 0 {
        lemma_admitted_prefix_bounds(cs, filter, app_hwnd, excl, n - 1);
        let rest = admitted_prefix(cs, filter, app_hwnd, excl, n - 1);
        let cur = admitted_prefix(cs, filter, app_hwnd, excl, n);
        if spec_admit(cs[n - 1], filter, app_hwnd, excl) {
            assert(cur == rest.push(n - 1));
            assert forall|k: int| 0 <= k < cur.len() implies 0 <= #[trigger] cur[k] < n by {
                if k < rest.len() {
                    assert(cur[k] == rest[k]);
                } else {
                    assert(cur[k] == n - 1);
                }
            }
        } else {
            assert(cur == rest);
        }
    }
}

} // verus!
