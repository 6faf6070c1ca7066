//! Effect panels, and what a user does in the macro and morph panels.
//!
//! Every effect is edited through one generic panel that shows all of its
//! parameters. The looper is the exception: it is a transport, with a panel of
//! its own.
use crate::bits::{bits_unit_clamp, unit_clamped};
use crate::macros::MacroAction;
use crate::patch::{Bits, NUM_MACROS};
use crate::text::{chars_of, decimal, decimal_string, push_decimal, same_text, text_between};
use vstd::prelude::*;
use vstd::string::StringExecFns;

verus! {

/// What a character becomes in upper case.
pub uninterp spec fn char_uppercase(c: char) -> Seq<char>;

/// `char::to_uppercase`: the characters of the upper-case form, by the tables of
/// Unicode alone.
#[verifier::external_body]
fn uppercase(c: char) -> (s: String)
    ensures
        s@ == char_uppercase(c),
{
    c.to_uppercase().collect()
}

/// Characters in upper case, one after the other.
pub open spec fn uppercased(cs: Seq<char>) -> Seq<char>
    decreases cs.len(),
{
    if cs.len() == 0 {
        Seq::empty()
    } else {
        uppercased(cs.drop_last()) + char_uppercase(cs.last())
    }
}

/// The first four characters, or all there are.
pub open spec fn first_four(id: Seq<char>) -> Seq<char> {
    if id.len() < 4 {
        id
    } else {
        id.take(4)
    }
}

/// The panel of any effect but the looper.
#[derive(Debug)]
pub struct GenericPanel {
    effect_id: String,
    name: String,
    short_name: String,
}

/// The mathematical value of a [`GenericPanel`].
#[verifier::ext_equal]
pub struct PanelModel {
    pub effect_id: Seq<char>,
    pub name: Seq<char>,
    pub short_name: Seq<char>,
}

impl View for GenericPanel {
    type V = PanelModel;

    closed spec fn view(&self) -> PanelModel {
        PanelModel {
            effect_id: self.effect_id@,
            name: self.name@,
            short_name: self.short_name@,
        }
    }
}

/// The generic panel of an effect.
pub open spec fn panel_of(id: Seq<char>) -> PanelModel {
    PanelModel {
        effect_id: id,
        name: char_uppercase(id[0]) + id.skip(1),
        short_name: uppercased(first_four(id)),
    }
}

/// The display name of an effect: its id behind the upper-case form of the first
/// character.
pub fn display_name(upper: &str, effect_id: &str) -> (name: String)
    requires
        effect_id@.len() > 0,
    ensures
        name@ == upper@ + effect_id@.skip(1),
{
    let chars = chars_of(effect_id);
    let mut name = String::new();
    name.append(upper);
    let rest = text_between(&chars, 1, chars.len());
    name.append(rest.as_str());
    assert(name@ =~= upper@ + effect_id@.skip(1));
    name
}

/// Texts one after the other.
pub open spec fn joined(parts: Seq<String>) -> Seq<char>
    decreases parts.len(),
{
    if parts.len() == 0 {
        Seq::empty()
    } else {
        joined(parts.drop_last()) + parts.last()@
    }
}

/// The short name of an effect: the upper-case forms of its first characters, one
/// after the other.
pub fn joined_name(uppers: &Vec<String>) -> (name: String)
    ensures
        name@ == joined(uppers@),
{
    let mut name = String::new();
    let mut i: usize = 0;
    assert(name@ =~= joined(uppers@.take(0)));
    while i < uppers.len()
        invariant
            i <= uppers@.len(),
            name@ == joined(uppers@.take(i as int)),
        decreases uppers@.len() - i,
    {
        assert(uppers@.take(i as int + 1).drop_last() =~= uppers@.take(i as int));
        name.append(uppers[i].as_str());
        i = i + 1;
    }
    assert(uppers@.take(i as int) =~= uppers@);
    name
}

impl GenericPanel {
    /// A panel for an effect; none for an empty id.
    ///
    /// The display name is the id with its first character in upper case, the
    /// short name its first four characters in upper case.
    pub fn try_new(effect_id: &str) -> (r: Option<Self>)
        ensures
            r is Some <==> effect_id@.len() > 0,
            r matches Some(panel) ==> panel@ == panel_of(effect_id@),
    {
        let chars = chars_of(effect_id);
        if chars.len() == 0 {
            return None;
        }
        let first = uppercase(chars[0]);
        let name = display_name(first.as_str(), effect_id);
        let n: usize = if chars.len() < 4 {
            chars.len()
        } else {
            4
        };
        let ghost four = first_four(effect_id@);
        let mut uppers: Vec<String> = Vec::new();
        let mut i: usize = 0;
        while i < n
            invariant
                i <= n,
                n == four.len(),
                n <= chars@.len(),
                forall|j: int| 0 <= j < n ==> four[j] == chars@[j],
                joined(uppers@) == uppercased(four.take(i as int)),
            decreases n - i,
        {
            let ghost before = uppers@;
            uppers.push(uppercase(chars[i]));
            assert(uppers@.drop_last() =~= before);
            assert(four.take(i as int + 1).drop_last() =~= four.take(i as int));
            i = i + 1;
        }
        assert(four.take(n as int) =~= four);
        let short_name = joined_name(&uppers);
        let mut id = String::new();
        id.append(effect_id);
        assert(id@ =~= effect_id@);
        Some(GenericPanel { effect_id: id, name, short_name })
    }

    /// Registry id of the effect.
    pub fn effect_id(&self) -> (id: &str)
        ensures
            id@ == self@.effect_id,
    {
        self.effect_id.as_str()
    }

    /// Display name.
    pub fn name(&self) -> (name: &str)
        ensures
            name@ == self@.name,
    {
        self.name.as_str()
    }

    /// Name in the chain view.
    pub fn short_name(&self) -> (name: &str)
        ensures
            name@ == self@.short_name,
    {
        self.short_name.as_str()
    }

    /// What tells the combo box of one parameter from the others: the effect's id
    /// and the parameter's index.
    pub fn combo_id(&self, param: usize) -> (s: String)
        ensures
            s@ == self@.effect_id + "_"@ + decimal(param as nat),
    {
        let mut s = String::new();
        s.append(self.effect_id.as_str());
        s.append("_");
        push_decimal(&mut s, param as u128);
        assert(s@ =~= self@.effect_id + "_"@ + decimal(param as nat));
        s
    }
}

/// The labels of a stepped parameter that brings none: its steps, counted from 0.
pub fn step_labels(count: usize) -> (labels: Vec<String>)
    ensures
        labels@.len() == count,
        forall|i: int| 0 <= i < count ==> (#[trigger] labels@[i])@ == decimal(i as nat),
{
    let mut labels: Vec<String> = Vec::new();
    let mut n: usize = 0;
    while n < count
        invariant
            n <= count,
            labels@.len() == n,
            forall|i: int| 0 <= i < n ==> (#[trigger] labels@[i])@ == decimal(i as nat),
        decreases count - n,
    {
        labels.push(decimal_string(n as u128));
        n = n + 1;
    }
    labels
}

/// An effect panel.
#[derive(Debug)]
pub enum Panel {
    /// The looper's transport panel.
    Looper,
    /// Any other effect's panel.
    Generic(GenericPanel),
}

impl Panel {
    /// Display name of the effect.
    pub fn name(&self) -> (name: &str)
        ensures
            name@ == (match self {
                Panel::Looper => "Looper"@,
                Panel::Generic(p) => p@.name,
            }),
    {
        match self {
            Panel::Looper => "Looper",
            Panel::Generic(p) => p.name(),
        }
    }

    /// Name in the chain view.
    pub fn short_name(&self) -> (name: &str)
        ensures
            name@ == (match self {
                Panel::Looper => "Loop"@,
                Panel::Generic(p) => p@.short_name,
            }),
    {
        match self {
            Panel::Looper => "Loop",
            Panel::Generic(p) => p.short_name(),
        }
    }
}

/// The panel for an effect; none for an empty id.
pub fn create_panel(effect_id: &str) -> (r: Option<Panel>)
    ensures
        effect_id@ == "looper"@ ==> r == Some(Panel::Looper),
        effect_id@ != "looper"@ ==> (r is None <==> effect_id@.len() == 0),
        effect_id@ != "looper"@ ==> (r matches Some(panel) ==> panel matches Panel::Generic(p)
            && p@ == panel_of(effect_id@)),
{
    if same_text(effect_id, "looper") {
        return Some(Panel::Looper);
    }
    match GenericPanel::try_new(effect_id) {
        Some(panel) => Some(Panel::Generic(panel)),
        None => None,
    }
}

/// What the user did in the macro panel in a frame.
#[derive(Clone, Copy, Debug, PartialEq, Eq, Structural)]
pub struct MacroPanelResponse {
    /// Macro whose knob moved, if any.
    pub changed: Option<usize>,
    /// Macro whose label was clicked, to open its mapping editor.
    pub edit_requested: Option<usize>,
}

impl Default for MacroPanelResponse {
    fn default() -> (r: Self)
        ensures
            r.changed is None,
            r.edit_requested is None,
    {
        MacroPanelResponse { changed: None, edit_requested: None }
    }
}

impl MacroPanelResponse {
    /// Take in what happened to macro `i`. Of several macros in one frame, the last
    /// one counts.
    pub fn note(&mut self, i: usize, moved: bool, label_clicked: bool)
        ensures
            final(self).changed == (if moved {
                Some(i)
            } else {
                old(self).changed
            }),
            final(self).edit_requested == (if label_clicked {
                Some(i)
            } else {
                old(self).edit_requested
            }),
    {
        if moved {
            self.changed = Some(i);
        }
        if label_clicked {
            self.edit_requested = Some(i);
        }
    }
}

/// The label of a hardware knob: `K1` for the first.
pub fn knob_label(i: usize) -> (s: String)
    ensures
        s@ == "K"@ + decimal(i as nat + 1),
{
    let mut s = "K".to_owned();
    push_decimal(&mut s, i as u128 + 1);
    s
}

/// The name shown for macro `i`: its own, or its number where it has none.
pub fn macro_label(i: usize, name: &str) -> (s: String)
    ensures
        s@ == (if name@.len() == 0 {
            "macro "@ + decimal(i as nat + 1)
        } else {
            name@
        }),
{
    let chars = chars_of(name);
    if chars.len() == 0 {
        let mut s = "macro ".to_owned();
        push_decimal(&mut s, i as u128 + 1);
        s
    } else {
        let mut s = String::new();
        s.append(name);
        assert(s@ =~= name@);
        s
    }
}

/// How many targets a macro drives, as shown under its name; nothing for none.
pub fn mapping_label(mapping_count: usize) -> (s: Option<String>)
    ensures
        s is Some <==> mapping_count > 0,
        s matches Some(text) ==> text@ == "→"@ + decimal(mapping_count as nat),
{
    if mapping_count > 0 {
        let mut s = "→".to_owned();
        push_decimal(&mut s, mapping_count as u128);
        Some(s)
    } else {
        None
    }
}

/// What the user did in the morph bar in a frame.
#[derive(Clone, Copy, Debug, PartialEq, Eq, Structural)]
pub struct MorphBarResponse {
    /// The crossfade position changed.
    pub t_changed: bool,
    /// The A dot was left-clicked: focus pose A for editing.
    pub focus_a: bool,
    /// The B dot was left-clicked: focus pose B for editing.
    pub focus_b: bool,
    /// The A dot was right-clicked or double-clicked: grab the current sound into A.
    pub grab_a: bool,
    /// The B dot was right-clicked or double-clicked: grab the current sound into B.
    pub grab_b: bool,
}

impl Default for MorphBarResponse {
    fn default() -> (r: Self)
        ensures
            r == (MorphBarResponse {
                t_changed: false,
                focus_a: false,
                focus_b: false,
                grab_a: false,
                grab_b: false,
            }),
    {
        MorphBarResponse {
            t_changed: false,
            focus_a: false,
            focus_b: false,
            grab_a: false,
            grab_b: false,
        }
    }
}

/// How a pose dot was clicked in a frame.
#[derive(Clone, Copy, Debug, PartialEq, Eq, Structural)]
pub struct DotClicks {
    /// Left-clicked.
    pub clicked: bool,
    /// Double-clicked.
    pub double_clicked: bool,
    /// Right-clicked.
    pub secondary_clicked: bool,
}

/// Whether clicks grab the sound.
pub open spec fn grabs(c: DotClicks) -> bool {
    c.double_clicked || c.secondary_clicked
}

/// Whether clicks focus the pose.
pub open spec fn focuses(c: DotClicks) -> bool {
    !grabs(c) && c.clicked
}

impl MorphBarResponse {
    /// Take in the clicks on the dot of pose A. A grab is no focus.
    pub fn click_a(&mut self, c: DotClicks)
        ensures
            *final(self) == (MorphBarResponse {
                grab_a: old(self).grab_a || grabs(c),
                focus_a: old(self).focus_a || focuses(c),
                ..*old(self)
            }),
    {
        if c.double_clicked || c.secondary_clicked {
            self.grab_a = true;
        } else if c.clicked {
            self.focus_a = true;
        }
    }

    /// Take in the clicks on the dot of pose B. A grab is no focus.
    pub fn click_b(&mut self, c: DotClicks)
        ensures
            *final(self) == (MorphBarResponse {
                grab_b: old(self).grab_b || grabs(c),
                focus_b: old(self).focus_b || focuses(c),
                ..*old(self)
            }),
    {
        if c.double_clicked || c.secondary_clicked {
            self.grab_b = true;
        } else if c.clicked {
            self.focus_b = true;
        }
    }

    /// Take in what the pointer does on the crossfade bar, which only an enabled
    /// bar heeds: where it stands along the bar, if it is dragged or clicked. The
    /// new position is returned, held to the bar.
    pub fn drag(&mut self, enabled: bool, along: Option<Bits>) -> (t: Option<Bits>)
        ensures
            t == (match along {
                Some(x) => if enabled {
                    Some(unit_clamped(x))
                } else {
                    None
                },
                None => None,
            }),
            *final(self) == (MorphBarResponse {
                t_changed: old(self).t_changed || t is Some,
                ..*old(self)
            }),
    {
        match along {
            Some(x) => {
                if enabled {
                    self.t_changed = true;
                    Some(bits_unit_clamp(x))
                } else {
                    None
                }
            },
            None => None,
        }
    }
}

/// Number of segments in the crossfade bar.
pub const MORPH_SEGMENTS: usize = 20;

/// Whether a segment of the crossfade bar is lit, with the slider over segment
/// `slider`.
pub fn segment_lit(i: usize, slider: usize, enabled: bool) -> (lit: bool)
    ensures
        lit == (enabled && i <= slider),
{
    enabled && i <= slider
}

/// The per-widget memory of `egui`.
#[verifier::external_type_specification]
#[verifier::external_body]
pub struct ExIdTypeMap(egui::util::IdTypeMap);

/// The macro actions that a memory holds, by key.
pub uninterp spec fn held_actions(memory: egui::util::IdTypeMap) -> Map<Seq<char>, MacroAction>;

/// Key of the pending action.
pub const PENDING_ACTION: &'static str = "sonido.pending_macro_action";

/// `IdTypeMap::insert_temp`: puts an action under a key.
#[verifier::external_body]
fn insert_action(memory: &mut egui::util::IdTypeMap, key: &str, action: MacroAction)
    ensures
        held_actions(*final(memory)).contains_pair(key@, action),
{
    memory.insert_temp(egui::Id::new(key), action);
}

/// `IdTypeMap::get_temp`: the action under a key, if there is one.
#[verifier::external_body]
fn get_action(memory: &egui::util::IdTypeMap, key: &str) -> (r: Option<MacroAction>)
    ensures
        r == (if held_actions(*memory).contains_key(key@) {
            Some(held_actions(*memory)[key@])
        } else {
            None
        }),
{
    memory.get_temp(egui::Id::new(key))
}

/// `IdTypeMap::remove`: leaves no action under a key.
#[verifier::external_body]
fn remove_action(memory: &mut egui::util::IdTypeMap, key: &str)
    ensures
        !held_actions(*final(memory)).contains_key(key@),
{
    memory.remove::<MacroAction>(egui::Id::new(key));
}

/// The action that waits to be drained.
pub open spec fn pending(memory: egui::util::IdTypeMap) -> Option<MacroAction> {
    if held_actions(memory).contains_key(PENDING_ACTION@) {
        Some(held_actions(memory)[PENDING_ACTION@])
    } else {
        None
    }
}

/// Leave an action to be drained, in place of one that waits already.
pub fn stash(memory: &mut egui::util::IdTypeMap, action: MacroAction)
    ensures
        pending(*final(memory)) == Some(action),
{
    insert_action(memory, PENDING_ACTION, action);
}

/// Drain the pending action, if any: it is then gone, so it fires once.
pub fn take_macro_action(memory: &mut egui::util::IdTypeMap) -> (r: Option<MacroAction>)
    ensures
        r == pending(*old(memory)),
        pending(*final(memory)) is None,
        r is None ==> *final(memory) == *old(memory),
{
    let action = get_action(memory, PENDING_ACTION);
    if action.is_some() {
        remove_action(memory, PENDING_ACTION);
    }
    action
}

/// The label of the menu entry that binds to macro `i`.
pub fn bind_label(i: usize) -> (s: String)
    ensures
        s@ == "Map to Macro "@ + decimal(i as nat + 1),
{
    let mut s = "Map to Macro ".to_owned();
    push_decimal(&mut s, i as u128 + 1);
    s
}

/// What an entry of a parameter's menu asks for: the first six bind to a macro,
/// the one after them clears.
pub fn menu_action(slot: usize, param: usize, entry: usize) -> (r: Option<MacroAction>)
    ensures
        r == (if entry < NUM_MACROS {
            Some(MacroAction::Bind { slot, param, macro_index: entry })
        } else if entry == NUM_MACROS {
            Some(MacroAction::Clear { slot, param })
        } else {
            None
        }),
{
    if entry < NUM_MACROS {
        Some(MacroAction::Bind { slot, param, macro_index: entry })
    } else if entry == NUM_MACROS {
        Some(MacroAction::Clear { slot, param })
    } else {
        None
    }
}

/// A double click or a right click grabs, any other click focuses, and no click does
/// both.
pub proof fn what_a_click_does(c: DotClicks)
    ensures
        grabs(c) <==> c.double_clicked || c.secondary_clicked,
        focuses(c) <==> c.clicked && !c.double_clicked && !c.secondary_clicked,
{
}

/// An effect is shown under its id with the first character in upper case, and in
/// short under its first four characters in upper case.
pub proof fn what_an_effect_is_called(id: Seq<char>)
    requires
        id.len() > 0,
    ensures
        panel_of(id).effect_id == id,
        panel_of(id).name == char_uppercase(id[0]) + id.subrange(1, id.len() as int),
        id.len() == 1 ==> panel_of(id).short_name == char_uppercase(id[0]),
        id.len() == 2 ==> panel_of(id).short_name == char_uppercase(id[0]) + char_uppercase(id[1]),
        id.len() == 3 ==> panel_of(id).short_name == char_uppercase(id[0]) + char_uppercase(id[1])
            + char_uppercase(id[2]),
        id.len() >= 4 ==> panel_of(id).short_name == char_uppercase(id[0]) + char_uppercase(id[1])
            + char_uppercase(id[2]) + char_uppercase(id[3]),
{
    assert(id.skip(1) =~= id.subrange(1, id.len() as int));
    let four = first_four(id);
    uppercased_grows(four, 0);
    if four.len() > 1 {
        uppercased_grows(four, 1);
    }
    if four.len() > 2 {
        uppercased_grows(four, 2);
    }
    if four.len() > 3 {
        uppercased_grows(four, 3);
    }
    assert(four.take(four.len() as int) =~= four);
    assert(uppercased(four.take(0)) =~= Seq::empty());
    assert(uppercased(four.take(1)) =~= char_uppercase(id[0]));
}

proof fn uppercased_grows(cs: Seq<char>, n: int)
    requires
        0 <= n < cs.len(),
    ensures
        uppercased(cs.take(n + 1)) == uppercased(cs.take(n)) + char_uppercase(cs[n]),
{
    assert(cs.take(n + 1).drop_last() =~= cs.take(n));
}

} // verus!
