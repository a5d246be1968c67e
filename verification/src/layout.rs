//! The keyboard layout of this machine.
//!
//! Advisory: how a key is replayed is never decided from this, but from the text that the
//! sender produced.
use crate::text;
use vstd::prelude::*;
use vstd::string::*;

verus! {

/// What kind of system this is.
#[derive(Clone, Copy, PartialEq, Eq, Structural, Debug)]
pub enum Platform {
    MacOs,
    Windows,
    Other,
}

/// The active keyboard layout, as the system names it.
#[derive(Clone, PartialEq, Eq, Debug)]
pub enum Layout {
    /// The system's identifier, and the last part of it.
    Known { id: String, display: String },
    /// Not detectable, with the reason.
    Unknown { why: String },
}

impl Layout {
    /// What to show for it.
    pub open spec fn shown(self) -> Seq<char> {
        match self {
            Layout::Known { display, .. } => display@,
            Layout::Unknown { why } => why@,
        }
    }

    #[must_use]
    pub fn display(&self) -> (s: &str)
        ensures
            s@ == self.shown(),
    {
        match self {
            Layout::Known { display, .. } => display.as_str(),
            Layout::Unknown { why } => why.as_str(),
        }
    }

    /// Whether layouts of this system compose characters with Option, and not with AltGr.
    #[must_use]
    pub fn composes_with_option(platform: Platform) -> (b: bool)
        ensures
            b == (platform is MacOs),
    {
        platform == Platform::MacOs
    }
}

/// What the preferences reported, if they reported anything. `output` is nothing where
/// they could not be asked.
pub fn read_default(output: Option<&str>) -> (r: Option<String>)
    ensures
        match output {
            Some(s) => if text::trimmed(s@).len() > 0 {
                r is Some && r->0@ == text::trimmed(s@)
            } else {
                r is None
            },
            None => r is None,
        },
{
    match output {
        Some(s) => {
            let chars = text::chars_of(s);
            let line = text::trim(chars.as_slice());
            if line.len() > 0 {
                Some(text::string_of(line.as_slice()))
            } else {
                None
            }
        },
        None => None,
    }
}

/// What is known of the layout from what the preferences reported.
pub fn detect_macos(id: Option<String>) -> (l: Layout)
    ensures
        match id {
            Some(id) => l matches Layout::Known { id: kept, display } && kept@ == id@ && display@
                == text::pieces(id@, '.').last(),
            None => l matches Layout::Unknown { why } && why@
                == "macOS did not report a selected keyboard layout"@,
        },
{
    match id {
        Some(id) => {
            let chars = text::chars_of(id.as_str());
            let parts = text::split(chars.as_slice(), '.');
            let last: usize = parts.len() - 1;
            proof {
                let p = text::pieces(id@, '.');
                assert(text::views(parts@) == p);
                assert(p.last() == parts@[last as int]@);
            }
            let display = text::string_of(parts[last].as_slice());
            Layout::Known { id, display }
        },
        None => Layout::Unknown {
            why: String::from_str("macOS did not report a selected keyboard layout"),
        },
    }
}

/// Detect the current layout. `output` is what the preferences of a Mac reported.
///
/// Elsewhere it is reported as unknown and not guessed: a wrong layout name is worse than
/// none.
#[must_use]
pub fn detect(platform: Platform, output: Option<&str>) -> (l: Layout)
    ensures
        match platform {
            Platform::MacOs => {
                let id = match output {
                    Some(s) => text::trimmed(s@),
                    None => Seq::empty(),
                };
                if id.len() > 0 {
                    l matches Layout::Known { id: kept, display } && kept@ == id && display@
                        == text::pieces(id, '.').last()
                } else {
                    l matches Layout::Unknown { why } && why@
                        == "macOS did not report a selected keyboard layout"@
                }
            },
            Platform::Windows => l matches Layout::Unknown { why } && why@
                == "not detected yet — the Windows backend is not built (GetKeyboardLayout)"@,
            Platform::Other => l matches Layout::Unknown { why } && why@
                == "not detected yet — the Linux backend is not built (xkb / localectl)"@,
        },
{
    match platform {
        Platform::MacOs => detect_macos(read_default(output)),
        Platform::Windows => Layout::Unknown {
            why: String::from_str(
                "not detected yet — the Windows backend is not built (GetKeyboardLayout)",
            ),
        },
        Platform::Other => Layout::Unknown {
            why: String::from_str(
                "not detected yet — the Linux backend is not built (xkb / localectl)",
            ),
        },
    }
}

} // verus!
