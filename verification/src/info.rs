//! Contextual info strip: what it says about the current selection.
use vstd::prelude::*;

verus! {

/// Shortcuts shown when nothing is selected.
pub const GENERAL_SHORTCUTS: [&'static str; 7] = [
    "+ Effect / right-click: add node",
    "Select a node, Delete: remove",
    "\u{2191}/\u{2193}: adjust focused knob",
    "\u{2190}/\u{2192}: move between knobs",
    "Space: play",
    "Ctrl+Z: undo",
    "Ctrl+Scroll: zoom",
];

/// Shortcuts shown when an effect node is selected.
pub const EFFECT_SHORTCUTS: [&'static str; 4] = [
    "Delete: remove node",
    "\u{2191}/\u{2193}: adjust focused knob",
    "Click a meter: reset peak",
    "Space: play",
];

/// Everything that the info strip shows for one target.
#[derive(Clone, Debug, PartialEq)]
pub struct InfoPayload {
    /// Title line: the effect's name, or a placeholder.
    pub title: String,
    /// Description of the target, if any.
    pub description: Option<String>,
    /// Live `(name, formatted value)` pairs for the target's parameters.
    pub params: Vec<(String, String)>,
    /// Context-relevant keyboard shortcuts.
    pub shortcuts: &'static [&'static str],
}

impl InfoPayload {
    /// The empty state: a prompt and the general shortcuts.
    pub fn empty_state() -> (p: Self)
        ensures
            p.title@ == "NO SELECTION"@,
            p.description matches Some(d) && d@
                == "Select a node to see what it does, or + Effect to add one."@,
            p.params@.len() == 0,
            p.shortcuts@ == GENERAL_SHORTCUTS@,
    {
        InfoPayload {
            title: "NO SELECTION".to_owned(),
            description: Some(
                "Select a node to see what it does, or + Effect to add one.".to_owned(),
            ),
            params: Vec::new(),
            shortcuts: &GENERAL_SHORTCUTS,
        }
    }

    /// What to show for a selected effect: its name, its prose and its live
    /// parameters.
    pub fn for_effect(name: String, description: String, params: Vec<(String, String)>) -> (p: Self)
        ensures
            p.title == name,
            p.description == Some(description),
            p.params == params,
            p.shortcuts@ == EFFECT_SHORTCUTS@,
    {
        InfoPayload {
            title: name,
            description: Some(description),
            params,
            shortcuts: &EFFECT_SHORTCUTS,
        }
    }
}

} // verus!
