//! The studio window: what each frame decides, and what its bars and menus say.
use crate::binary::{PatchError, patch_message};
use crate::bits::{bits_lt, lt};
use crate::compile::{CompileError, compile_message};
use crate::export::{
    can_export_to_pedal, encode_patch_sector, export_findings, fits_pedal, validate_patch_for_pedal,
};
use crate::layout::{padding, patch_fault, sector_of};
use crate::morph::MorphEnd;
use crate::panels::{MorphBarResponse, Panel, create_panel, panel_of};
use crate::patch::{BITS_ONE, Bits, Patch, PatchModel, SECTOR_SIZE};
use crate::seqs::push_contains_iff;
use crate::spectrum::LevelColor;
use crate::text::{decimal, push_decimal, same_text};
use crate::validate::{CpuShare, Finding, FindingModel, Severity, any_error, findings_view};
use crate::waveform::last_of;
use vstd::prelude::*;
use vstd::string::StringExecFns;

verus! {

/// Peak above which the output counts as sounding: 0.001.
pub const OUTPUT_SOUNDING: Bits = 0x3A83_126F;

/// Load above which it is shown red: 100 percent.
pub const CPU_RED: Bits = 0x42C8_0000;

/// Load above which it is shown yellow: 80 percent.
pub const CPU_YELLOW: Bits = 0x42A0_0000;

/// How many readings of the load are kept.
pub const CPU_HISTORY: usize = 60;

/// How many frames a successful compile is flashed for.
pub const COMPILE_FLASH: u32 = 90;

/// How many effects the pedal takes.
pub const DAISY_EFFECTS: usize = 3;

/// Frame from which a screenshot is asked for.
pub const SETTLED_FRAME: u32 = 12;

/// What a frame starts with.
#[derive(Clone, Copy, Debug, PartialEq, Eq, Structural)]
pub struct FrameInput {
    /// The audio streams run.
    pub running: bool,
    /// A file or the generator plays.
    pub playing: bool,
    /// Output peak.
    pub output_peak: Bits,
    /// A browser shows the window.
    pub web: bool,
    /// A widget has the keyboard.
    pub widget_focused: bool,
    /// Space was pressed.
    pub space: bool,
    /// The generator is the source, not a file.
    pub generator: bool,
    /// A file is loaded.
    pub has_file: bool,
    /// The command key is held.
    pub command: bool,
    /// Shift is held.
    pub shift: bool,
    /// Z was pressed.
    pub key_z: bool,
    /// Y was pressed.
    pub key_y: bool,
    /// A pointer button went down.
    pub pointer_pressed: bool,
}

/// A step through the edit history.
#[derive(Clone, Copy, Debug, PartialEq, Eq, Structural)]
pub enum HistoryStep {
    /// None.
    Stay,
    /// Back.
    Undo,
    /// Forward.
    Redo,
}

/// What a frame sets out to do.
#[derive(Clone, Copy, Debug, PartialEq, Eq, Structural)]
pub struct FramePlan {
    /// Milliseconds until the next frame.
    pub repaint_ms: u64,
    /// Start or stop playback.
    pub toggle_playback: bool,
    /// Step through the edit history.
    pub history: HistoryStep,
    /// Stage a snapshot of the editor as an undo point.
    pub stage: bool,
}

/// Whether something on screen moves.
pub open spec fn animating(f: FrameInput) -> bool {
    f.running || f.playing || lt(OUTPUT_SOUNDING, f.output_peak)
}

/// Whether there is something to play.
pub open spec fn can_play(f: FrameInput) -> bool {
    f.generator || f.has_file
}

/// Command and Z go back; command with shift and Z, or with Y, go forward.
pub open spec fn shortcut(f: FrameInput) -> HistoryStep {
    if f.widget_focused || !f.command {
        HistoryStep::Stay
    } else if f.key_z && !f.shift {
        HistoryStep::Undo
    } else if (f.key_z && f.shift) || f.key_y {
        HistoryStep::Redo
    } else {
        HistoryStep::Stay
    }
}

/// What a frame sets out to do: draw again soon while something moves, heed the
/// keyboard while no widget has it, and stage an undo point at a press.
pub fn plan_frame(f: FrameInput) -> (p: FramePlan)
    ensures
        p == (FramePlan {
            repaint_ms: if !animating(f) {
                250
            } else if f.web {
                33
            } else {
                16
            },
            toggle_playback: !f.widget_focused && f.space && can_play(f),
            history: shortcut(f),
            stage: f.pointer_pressed,
        }),
{
    let animating = f.running || f.playing || bits_lt(OUTPUT_SOUNDING, f.output_peak);
    let repaint_ms: u64 = if !animating {
        250
    } else if f.web {
        33
    } else {
        16
    };
    let undo = f.command && f.key_z && !f.shift;
    let redo = f.command && ((f.key_z && f.shift) || f.key_y);
    let history = if f.widget_focused {
        HistoryStep::Stay
    } else if undo {
        HistoryStep::Undo
    } else if redo {
        HistoryStep::Redo
    } else {
        HistoryStep::Stay
    };
    FramePlan {
        repaint_ms,
        toggle_playback: !f.widget_focused && f.space && (f.generator || f.has_file),
        history,
        stage: f.pointer_pressed,
    }
}

/// What is shown below the graph.
#[derive(Clone, Copy, Debug, PartialEq, Eq, Structural)]
pub enum PanelArea {
    /// The panel of the effect in a slot.
    Effect(usize),
    /// The hint on how to use the editor.
    QuickReference,
    /// Nothing.
    Empty,
}

/// What is shown below the graph: the panel of the selected effect, if the rig has
/// its slot, and the hint where none is selected. With a single effect there is no
/// graph, and its panel is shown.
pub fn panel_area(single_effect: bool, selected_slot: Option<usize>, slot_count: usize) -> (a:
    PanelArea)
    ensures
        a == (if single_effect {
            PanelArea::Effect(0)
        } else {
            match selected_slot {
                Some(slot) => if slot < slot_count {
                    PanelArea::Effect(slot)
                } else {
                    PanelArea::Empty
                },
                None => PanelArea::QuickReference,
            }
        }),
{
    if single_effect {
        return PanelArea::Effect(0);
    }
    match selected_slot {
        Some(slot) => {
            if slot < slot_count {
                PanelArea::Effect(slot)
            } else {
                PanelArea::Empty
            }
        },
        None => PanelArea::QuickReference,
    }
}

/// The last readings of the load, oldest first.
#[derive(Debug)]
pub struct CpuHistory {
    readings: Vec<Bits>,
}

impl View for CpuHistory {
    type V = Seq<Bits>;

    closed spec fn view(&self) -> Seq<Bits> {
        self.readings@
    }
}

impl CpuHistory {
    /// No more readings than are kept.
    pub open spec fn wf(&self) -> bool {
        self@.len() <= CPU_HISTORY
    }

    /// No readings.
    pub fn new() -> (h: Self)
        ensures
            h.wf(),
            h@ == Seq::<Bits>::empty(),
    {
        CpuHistory { readings: Vec::new() }
    }

    /// Take in a reading; beyond the last sixty the oldest drops out.
    pub fn push(&mut self, reading: Bits)
        requires
            old(self).wf(),
        ensures
            final(self).wf(),
            final(self)@ == last_of(old(self)@.push(reading), CPU_HISTORY as nat),
    {
        self.readings.push(reading);
        if self.readings.len() > CPU_HISTORY {
            self.readings.remove(0);
        }
        assert(self@ =~= last_of(old(self)@.push(reading), CPU_HISTORY as nat));
    }

    /// The readings.
    pub fn readings(&self) -> (r: &[Bits])
        ensures
            r@ == self@,
    {
        self.readings.as_slice()
    }
}

/// The colour of the load.
pub fn cpu_color(usage: Bits) -> (c: LevelColor)
    ensures
        c == (if lt(CPU_RED, usage) {
            LevelColor::Red
        } else if lt(CPU_YELLOW, usage) {
            LevelColor::Yellow
        } else {
            LevelColor::Green
        }),
        0x42C8_0000 < usage <= 0x7F80_0000 ==> c == LevelColor::Red,
        0x42A0_0000 < usage <= 0x42C8_0000 ==> c == LevelColor::Yellow,
        usage <= 0x42A0_0000 ==> c == LevelColor::Green,
{
    if bits_lt(CPU_RED, usage) {
        LevelColor::Red
    } else if bits_lt(CPU_YELLOW, usage) {
        LevelColor::Yellow
    } else {
        LevelColor::Green
    }
}

/// Whether a rig of some effects fits the pedal, and the badge that says so.
pub fn daisy_badge(effect_count: usize) -> (r: (bool, String))
    ensures
        r.0 == (effect_count <= DAISY_EFFECTS),
        r.0 == (effect_count <= 3),
        r.1@ == "Daisy: "@ + decimal(effect_count as nat) + "/3"@,
{
    let mut text = "Daisy: ".to_owned();
    push_decimal(&mut text, effect_count as u128);
    text.append("/3");
    (effect_count <= DAISY_EFFECTS, text)
}

/// The label that counts stream errors; none without any.
pub fn error_label(count: u32) -> (s: Option<String>)
    ensures
        s is Some <==> count > 0,
        s matches Some(text) ==> text@ == "errors: "@ + decimal(count as nat),
{
    if count > 0 {
        let mut s = "errors: ".to_owned();
        push_decimal(&mut s, count as u128);
        Some(s)
    } else {
        None
    }
}

/// A clip light after a frame: a peak over full scale lights it, a click puts it
/// out again. The second result says whether it is drawn lit in this frame.
pub fn clip_light(latched: bool, peak: Bits, clicked: bool) -> (r: (bool, bool))
    ensures
        r.1 == (latched || lt(BITS_ONE, peak)),
        r.0 == (r.1 && !clicked),
        0x3F80_0000 < peak <= 0x7F80_0000 ==> r.1,
        peak <= 0x3F80_0000 ==> r.1 == latched,
{
    let lit = latched || bits_lt(BITS_ONE, peak);
    (lit && !clicked, lit)
}

/// How the last compile went.
#[derive(Debug)]
pub struct CompileStatus {
    /// What was wrong with the graph.
    pub error: Option<String>,
    /// Frames for which success is still flashed.
    pub flash_frames: u32,
}

impl CompileStatus {
    /// Nothing compiled yet.
    pub fn new() -> (s: Self)
        ensures
            s.error is None,
            s.flash_frames == 0,
    {
        CompileStatus { error: None, flash_frames: 0 }
    }

    /// Record how a compile went: success clears the error and is flashed, failure
    /// is kept to be shown.
    pub fn record(&mut self, outcome: Result<(), CompileError>)
        ensures
            match outcome {
                Ok(_) => final(self).error is None && final(self).flash_frames == COMPILE_FLASH,
                Err(e) => final(self).error matches Some(m) && m@ == compile_message(e@)
                    && final(self).flash_frames == 0,
            },
    {
        match outcome {
            Ok(_) => {
                self.error = None;
                self.flash_frames = COMPILE_FLASH;
            },
            Err(e) => {
                self.error = Some(e.message());
                self.flash_frames = 0;
            },
        }
    }
}

/// The buffer sizes that audio hardware takes.
pub open spec fn buffer_sizes() -> Seq<usize> {
    seq![64usize, 128, 256, 512, 1024, 2048, 4096]
}

/// How far apart two sizes are.
pub open spec fn distance(a: int, b: int) -> int {
    if a < b {
        b - a
    } else {
        a - b
    }
}

/// Whether a size is the one closest to `size` among those that hardware takes,
/// the smaller where two are as close.
pub open spec fn nearest_size(size: int, r: usize) -> bool {
    exists|i: int|
        0 <= i < buffer_sizes().len() && #[trigger] buffer_sizes()[i] == r && (forall|j: int|
            0 <= j < buffer_sizes().len() ==> distance(r as int, size) <= distance(
                #[trigger] buffer_sizes()[j] as int,
                size,
            )) && (forall|j: int|
            0 <= j < i ==> distance(r as int, size) < distance(
                #[trigger] buffer_sizes()[j] as int,
                size,
            ))
}

/// The buffer size to use where `size` is asked for: the closest that hardware
/// takes.
pub fn nearest_buffer_size(size: usize) -> (r: usize)
    ensures
        nearest_size(size as int, r),
        buffer_sizes().contains(size) ==> r == size,
{
    let sizes: [usize; 7] = [64, 128, 256, 512, 1024, 2048, 4096];
    assert(sizes@ =~= buffer_sizes());
    let mut best: usize = 0;
    let mut i: usize = 1;
    while i < 7
        invariant
            1 <= i <= 7,
            best < i,
            sizes@ == buffer_sizes(),
            forall|j: int|
                0 <= j < i ==> distance(sizes@[best as int] as int, size as int) <= distance(
                    #[trigger] sizes@[j] as int,
                    size as int,
                ),
            forall|j: int|
                0 <= j < best ==> distance(sizes@[best as int] as int, size as int) < distance(
                    #[trigger] sizes@[j] as int,
                    size as int,
                ),
        decreases 7 - i,
    {
        if apart(sizes[i], size) < apart(sizes[best], size) {
            best = i;
        }
        i = i + 1;
    }
    let r: usize = sizes[best];
    assert(buffer_sizes()[best as int] == r);
    proof {
        if buffer_sizes().contains(size) {
            let k = buffer_sizes().index_of(size);
            assert(distance(sizes@[k] as int, size as int) == 0);
        }
    }
    r
}

fn apart(a: usize, b: usize) -> (d: usize)
    ensures
        d == distance(a as int, b as int),
{
    if a < b {
        b - a
    } else {
        a - b
    }
}

/// The buffer size presets, smallest first, each with its name.
pub const BUFFER_PRESETS: [(usize, &'static str); 5] = [
    (256, "Low Latency"),
    (512, "Very Low"),
    (1024, "Balanced"),
    (2048, "Stable"),
    (4096, "Maximum"),
];

/// The label of a buffer preset, whose latency in milliseconds is `ms`.
pub fn preset_label(i: usize, ms: &str) -> (s: String)
    requires
        i < BUFFER_PRESETS@.len(),
    ensures
        s@ == BUFFER_PRESETS@[i as int].1@ + " ("@ + decimal(BUFFER_PRESETS@[i as int].0 as nat)
            + " samples, "@ + ms@ + "ms)"@,
{
    let presets = BUFFER_PRESETS;
    let (size, name) = presets[i];
    let mut s = String::new();
    s.append(name);
    s.append(" (");
    push_decimal(&mut s, size as u128);
    s.append(" samples, ");
    s.append(ms);
    s.append("ms)");
    assert(s@ =~= BUFFER_PRESETS@[i as int].1@ + " ("@ + decimal(
        BUFFER_PRESETS@[i as int].0 as nat,
    ) + " samples, "@ + ms@ + "ms)"@);
    s
}

/// Every preset is a size that hardware takes.
pub proof fn presets_are_valid(i: int)
    requires
        0 <= i < BUFFER_PRESETS@.len(),
    ensures
        buffer_sizes().contains(BUFFER_PRESETS@[i].0),
{
    assert(buffer_sizes()[i + 2] == BUFFER_PRESETS@[i].0);
}

/// How many rows of five knobs a panel has, at least one.
pub fn panel_rows(param_count: Option<usize>) -> (rows: usize)
    ensures
        rows >= 1,
        ({
            let n = match param_count {
                Some(n) => n as int,
                None => 6,
            };
            5 * rows >= n && (rows > 1 ==> 5 * (rows - 1) < n)
        }),
{
    let n: usize = match param_count {
        Some(n) => n,
        None => 6,
    };
    let rows: usize = if n % 5 == 0 {
        n / 5
    } else {
        n / 5 + 1
    };
    if rows == 0 {
        1
    } else {
        rows
    }
}

/// Which effect's panel is kept from frame to frame.
#[derive(Debug)]
pub struct CachedPanel {
    /// Slot it was made for.
    pub slot: usize,
    /// Effect it was made for.
    pub effect_id: String,
    /// The panel.
    pub panel: Panel,
}

/// Whether a kept panel still is the one to show.
pub open spec fn still_valid(c: Option<CachedPanel>, slot: usize, effect_id: Seq<char>) -> bool {
    c matches Some(p) && p.slot == slot && p.effect_id@ == effect_id
}

/// The panel to keep for a slot: the one at hand, where it was made for that slot
/// and effect, otherwise a new one, if the effect has any.
pub fn refresh_panel(cached: Option<CachedPanel>, slot: usize, effect_id: &str) -> (r: Option<
    CachedPanel,
>)
    ensures
        r matches Some(p) ==> p.slot == slot && p.effect_id@ == effect_id@,
        still_valid(cached, slot, effect_id@) ==> r == cached,
        !still_valid(cached, slot, effect_id@) ==> {
            &&& r is Some <==> effect_id@.len() > 0
            &&& r matches Some(p) ==> p.slot == slot && p.effect_id@ == effect_id@ && (
            if effect_id@ == "looper"@ {
                p.panel is Looper
            } else {
                p.panel matches Panel::Generic(g) && g@ == panel_of(effect_id@)
            })
        },
{
    let hit = match &cached {
        Some(p) => p.slot == slot && same_text(p.effect_id.as_str(), effect_id),
        None => false,
    };
    if hit {
        return cached;
    }
    proof {
        reveal_strlit("looper");
    }
    match create_panel(effect_id) {
        Some(panel) => {
            let mut id = String::new();
            id.append(effect_id);
            assert(id@ =~= effect_id@);
            Some(CachedPanel { slot, effect_id: id, panel })
        },
        None => None,
    }
}

/// What the bypass switch of an effect says.
pub fn bypass_label(bypassed: bool) -> (s: &'static str)
    ensures
        s@ == (if bypassed {
            "BYPASSED"@
        } else {
            "ACTIVE"@
        }),
{
    if bypassed {
        "BYPASSED"
    } else {
        "ACTIVE"
    }
}

/// What the morph lock of an effect says.
pub fn lock_label(locked: bool) -> (s: &'static str)
    ensures
        s@ == (if locked {
            "LOCKED"@
        } else {
            "LOCK"@
        }),
{
    if locked {
        "LOCKED"
    } else {
        "LOCK"
    }
}

/// Where a rig is exported to.
#[derive(Clone, Copy, Debug, PartialEq, Eq, Structural)]
pub enum ExportKind {
    /// A patch in the plugin's folder.
    Clap,
    /// A patch as JSON.
    Json,
    /// A sector for the pedal, as a file.
    Binary,
    /// The pedal itself.
    Flash,
}

/// What is said of a successful export to a path.
pub open spec fn export_done(kind: ExportKind, path: Seq<char>) -> Seq<char> {
    match kind {
        ExportKind::Clap => "Exported CLAP patch → "@ + path,
        ExportKind::Json => "Saved patch JSON → "@ + path,
        ExportKind::Binary => "Saved pedal binary → "@ + path,
        ExportKind::Flash => "Flashed patch to pedal slot 0"@,
    }
}

/// What is said of a failed export.
pub open spec fn export_failed(kind: ExportKind, error: Seq<char>) -> Seq<char> {
    match kind {
        ExportKind::Clap => "CLAP export failed: "@ + error,
        ExportKind::Json => "JSON export failed: "@ + error,
        ExportKind::Binary => "Binary export failed: "@ + error,
        ExportKind::Flash => "Flash failed: "@ + error,
    }
}

/// The message for an export, by whether it succeeded.
pub fn export_message(kind: ExportKind, outcome: Result<&str, &str>) -> (m: Result<String, String>)
    ensures
        match (outcome, m) {
            (Ok(path), Ok(text)) => text@ == export_done(kind, path@),
            (Err(error), Err(text)) => text@ == export_failed(kind, error@),
            _ => false,
        },
{
    match outcome {
        Ok(path) => {
            let mut text = match kind {
                ExportKind::Clap => "Exported CLAP patch → ".to_owned(),
                ExportKind::Json => "Saved patch JSON → ".to_owned(),
                ExportKind::Binary => "Saved pedal binary → ".to_owned(),
                ExportKind::Flash => "Flashed patch to pedal slot 0".to_owned(),
            };
            match kind {
                ExportKind::Flash => {},
                _ => {
                    text.append(path);
                },
            }
            Ok(text)
        },
        Err(error) => {
            let mut text = match kind {
                ExportKind::Clap => "CLAP export failed: ".to_owned(),
                ExportKind::Json => "JSON export failed: ".to_owned(),
                ExportKind::Binary => "Binary export failed: ".to_owned(),
                ExportKind::Flash => "Flash failed: ".to_owned(),
            };
            text.append(error);
            Err(text)
        },
    }
}

/// What the export menu offers and says.
#[derive(Debug)]
pub struct ExportMenu {
    /// Whether the pedal takes the rig, so that its entries are enabled.
    pub pedal_ok: bool,
    /// What is said of that.
    pub headline: &'static str,
    /// The findings, a line each.
    pub lines: Vec<Finding>,
}

/// Findings as the menu lists them.
pub open spec fn listed(fs: Seq<FindingModel>) -> Seq<FindingModel> {
    fs.map_values(
        |f: FindingModel| FindingModel { severity: f.severity, message: "· "@ + f.message },
    )
}

/// The export menu for a patch. `share` says how its estimated cycles compare with
/// the pedal's budget.
pub fn export_menu(patch: &Patch, share: CpuShare) -> (menu: ExportMenu)
    ensures
        menu.pedal_ok == fits_pedal(patch@),
        menu.headline@ == (if menu.pedal_ok {
            "✓ fits pedal budget"@
        } else {
            "✗ exceeds pedal limits"@
        }),
        findings_view(menu.lines@) == listed(export_findings(patch@, share)),
{
    let findings = validate_patch_for_pedal(patch, share);
    let pedal_ok = can_export_to_pedal(patch);
    let ghost all = listed(export_findings(patch@, share));
    let mut lines: Vec<Finding> = Vec::new();
    let mut i: usize = 0;
    assert(findings_view(lines@) =~= all.take(0));
    while i < findings.len()
        invariant
            i <= findings@.len(),
            all == listed(findings_view(findings@)),
            findings_view(lines@) == all.take(i as int),
        decreases findings@.len() - i,
    {
        let ghost before = findings_view(lines@);
        let mut message = "· ".to_owned();
        message.append(findings[i].message.as_str());
        let line = Finding { severity: findings[i].severity, message };
        let ghost model = line@;
        lines.push(line);
        assert(findings_view(lines@) =~= before.push(model));
        i = i + 1;
        assert(findings_view(lines@) =~= all.take(i as int));
    }
    assert(all.take(i as int) =~= all);
    let headline = if pedal_ok {
        "✓ fits pedal budget"
    } else {
        "✗ exceeds pedal limits"
    };
    ExportMenu { pedal_ok, headline, lines }
}

/// The pedal's entries are disabled exactly where a finding is an error.
pub proof fn menu_shows_why(p: PatchModel, share: CpuShare)
    ensures
        any_error(listed(export_findings(p, share))) == any_error(export_findings(p, share)),
{
    let fs = export_findings(p, share);
    let ls = listed(fs);
    if any_error(fs) {
        let i = choose|i: int| 0 <= i < fs.len() && (#[trigger] fs[i]).severity == Severity::Error;
        assert(ls[i].severity == Severity::Error);
    }
    if any_error(ls) {
        let i = choose|i: int| 0 <= i < ls.len() && (#[trigger] ls[i]).severity == Severity::Error;
        assert(fs[i].severity == Severity::Error);
    }
}

/// Why a patch has no sector.
pub open spec fn refusal(p: PatchModel) -> PatchError {
    match patch_fault(p) {
        Some(fault) => fault,
        None => PatchError::BufferTooSmall,
    }
}

/// The sector to save or to flash, or what to say where there is none.
pub fn pedal_binary(patch: &Patch) -> (r: Result<[u8; SECTOR_SIZE], String>)
    ensures
        match r {
            Ok(sector) => {
                &&& patch_fault(patch@) is None
                &&& sector_of(patch@).len() <= SECTOR_SIZE
                &&& sector@ == sector_of(patch@) + padding(
                    (SECTOR_SIZE - sector_of(patch@).len()) as nat,
                )
            },
            Err(text) => text@ == patch_message(refusal(patch@)) && (patch_fault(patch@) is Some
                || sector_of(patch@).len() > SECTOR_SIZE),
        },
{
    match encode_patch_sector(patch) {
        Ok(sector) => Ok(sector),
        Err(e) => Err(e.message()),
    }
}

/// The bytes of a picture, pixel by pixel: red, green, blue and opacity.
pub open spec fn picture_bytes(pixels: Seq<[u8; 4]>) -> Seq<u8> {
    Seq::new(4 * pixels.len(), |i: int| pixels[i / 4]@[i % 4])
}

/// The bytes of a picture, pixel by pixel.
pub fn rgba_bytes(pixels: &[[u8; 4]]) -> (bytes: Vec<u8>)
    ensures
        bytes@ == picture_bytes(pixels@),
{
    let mut bytes: Vec<u8> = Vec::new();
    let mut i: usize = 0;
    while i < pixels.len()
        invariant
            i <= pixels@.len(),
            bytes@ == picture_bytes(pixels@).take(4 * i as int),
        decreases pixels@.len() - i,
    {
        let px = pixels[i];
        bytes.push(px[0]);
        bytes.push(px[1]);
        bytes.push(px[2]);
        bytes.push(px[3]);
        i = i + 1;
        assert(bytes@ =~= picture_bytes(pixels@).take(4 * i as int));
    }
    assert(picture_bytes(pixels@).take(4 * i as int) =~= picture_bytes(pixels@));
    bytes
}

/// What a restart of the audio leaves to show, and whether the transport is to be
/// synchronised again: success clears the error.
pub fn after_restart(outcome: Result<(), String>) -> (r: (Option<String>, bool))
    ensures
        r == (match outcome {
            Ok(_) => (None, true),
            Err(e) => (Some(e), false),
        }),
{
    match outcome {
        Ok(_) => (None, true),
        Err(e) => (Some(e), false),
    }
}

/// What a screenshot run does after a frame.
#[derive(Clone, Copy, Debug, PartialEq, Eq, Structural)]
pub enum ShotStep {
    /// Save the picture that arrived, and quit.
    SaveAndQuit,
    /// Ask for a picture.
    Request,
    /// Draw on.
    Wait,
}

/// How far a screenshot run is.
#[derive(Clone, Copy, Debug, PartialEq, Eq, Structural)]
pub struct ShotState {
    /// Frames drawn.
    pub frame: u32,
    /// Whether the picture was asked for.
    pub requested: bool,
}

impl ShotState {
    /// Before the first frame.
    pub fn new() -> (s: Self)
        ensures
            s == (ShotState { frame: 0, requested: false }),
    {
        ShotState { frame: 0, requested: false }
    }

    /// Count a frame. A picture that arrived ends the run; one is asked for, once,
    /// when the layout has had twelve frames to settle.
    pub fn step(&mut self, arrived: bool) -> (s: ShotStep)
        requires
            old(self).frame < u32::MAX,
        ensures
            final(self).frame == old(self).frame + 1,
            s == (if arrived {
                ShotStep::SaveAndQuit
            } else if final(self).frame >= SETTLED_FRAME && !old(self).requested {
                ShotStep::Request
            } else {
                ShotStep::Wait
            }),
            final(self).requested == (old(self).requested || s == ShotStep::Request),
    {
        self.frame = self.frame + 1;
        if arrived {
            return ShotStep::SaveAndQuit;
        }
        if self.frame >= SETTLED_FRAME && !self.requested {
            self.requested = true;
            return ShotStep::Request;
        }
        ShotStep::Wait
    }
}

/// What the morph bar asks of the morph.
#[derive(Clone, Copy, Debug, PartialEq, Eq, Structural)]
pub enum MorphCommand {
    /// Park at a pose and edit it.
    Park(MorphEnd),
    /// Grab the current sound into a pose.
    Grab(MorphEnd),
    /// Perform at the bar's position.
    Perform,
}

/// What the morph bar asks of the morph, in order: poses first, then the
/// performance.
pub open spec fn morph_commands_of(r: MorphBarResponse) -> Seq<MorphCommand> {
    let a = if r.focus_a {
        seq![MorphCommand::Park(MorphEnd::A)]
    } else {
        Seq::empty()
    };
    let b = if r.focus_b {
        a.push(MorphCommand::Park(MorphEnd::B))
    } else {
        a
    };
    let c = if r.grab_a {
        b.push(MorphCommand::Grab(MorphEnd::A))
    } else {
        b
    };
    let d = if r.grab_b {
        c.push(MorphCommand::Grab(MorphEnd::B))
    } else {
        c
    };
    if r.t_changed {
        d.push(MorphCommand::Perform)
    } else {
        d
    }
}

/// What the morph bar asks of the morph, in order.
pub fn morph_commands(r: MorphBarResponse) -> (cs: Vec<MorphCommand>)
    ensures
        cs@ == morph_commands_of(r),
{
    let mut cs: Vec<MorphCommand> = Vec::new();
    if r.focus_a {
        cs.push(MorphCommand::Park(MorphEnd::A));
    }
    assert(cs@ =~= if r.focus_a {
        seq![MorphCommand::Park(MorphEnd::A)]
    } else {
        Seq::empty()
    });
    if r.focus_b {
        cs.push(MorphCommand::Park(MorphEnd::B));
    }
    if r.grab_a {
        cs.push(MorphCommand::Grab(MorphEnd::A));
    }
    if r.grab_b {
        cs.push(MorphCommand::Grab(MorphEnd::B));
    }
    if r.t_changed {
        cs.push(MorphCommand::Perform);
    }
    cs
}

/// What the keyboard does: command and Z go back, with shift too, or command and Y,
/// go forward, and nothing while a widget has the keyboard. Space plays only what
/// can be played. Something moves while audio runs, plays or sounds.
pub proof fn what_the_keyboard_does(f: FrameInput)
    ensures
        shortcut(f) == HistoryStep::Undo <==> !f.widget_focused && f.command && f.key_z && !f.shift,
        shortcut(f) == HistoryStep::Redo <==> !f.widget_focused && f.command && ((f.key_z
            && f.shift) || (f.key_y && !f.key_z)),
        can_play(f) <==> f.generator || f.has_file,
        f.running || f.playing ==> animating(f),
        0x3A83_126F < f.output_peak <= 0x7F80_0000 ==> animating(f),
        !f.running && !f.playing && f.output_peak <= 0x3A83_126F ==> !animating(f),
{
}

/// Readings of the load are kept in order, the latest last; up to sixty of them,
/// beyond which the oldest drops out.
pub proof fn the_last_sixty_are_kept(was: Seq<Bits>, reading: Bits)
    requires
        was.len() <= 60,
    ensures
        ({
            let after = last_of(was.push(reading), CPU_HISTORY as nat);
            &&& after.len() > 0 && after.last() == reading
            &&& was.len() < 60 ==> after.drop_last() == was
            &&& was.len() == 60 ==> after.drop_last() == was.drop_first()
        }),
{
    let after = last_of(was.push(reading), CPU_HISTORY as nat);
    if was.len() < 60 {
        assert(after.drop_last() =~= was);
    } else {
        assert(after.drop_last() =~= was.drop_first());
    }
}

/// The closest size is one that hardware takes, a power of two from 64 to 4096, and
/// no other of them is closer.
pub proof fn no_size_is_closer(size: int, r: usize, other: usize)
    requires
        nearest_size(size, r),
        other == 64 || other == 128 || other == 256 || other == 512 || other == 1024 || other
            == 2048 || other == 4096,
    ensures
        r == 64 || r == 128 || r == 256 || r == 512 || r == 1024 || r == 2048 || r == 4096,
        r >= size && other >= size ==> r <= other,
        r <= size && other <= size ==> other <= r,
        r >= size && other <= size ==> r - size <= size - other,
        r <= size && other >= size ==> size - r <= other - size,
{
    let sizes = buffer_sizes();
    let i = choose|i: int|
        0 <= i < sizes.len() && #[trigger] sizes[i] == r && (forall|j: int|
            0 <= j < sizes.len() ==> distance(r as int, size) <= distance(
                #[trigger] sizes[j] as int,
                size,
            )) && (forall|j: int|
            0 <= j < i ==> distance(r as int, size) < distance(#[trigger] sizes[j] as int, size));
    assert(sizes[0] == 64 && sizes[1] == 128 && sizes[2] == 256 && sizes[3] == 512 && sizes[4]
        == 1024 && sizes[5] == 2048 && sizes[6] == 4096);
    assert(exists|j: int| 0 <= j < sizes.len() && #[trigger] sizes[j] == other);
}

/// A picture's bytes are those of its pixels, four for each, in order.
pub proof fn pixels_stand_one_behind_the_other(pixels: Seq<[u8; 4]>, i: int, j: int)
    requires
        0 <= i < pixels.len(),
        0 <= j < 4,
    ensures
        picture_bytes(pixels).len() == 4 * pixels.len(),
        picture_bytes(pixels)[4 * i + j] == pixels[i]@[j],
{
    assert((4 * i + j) / 4 == i && (4 * i + j) % 4 == j);
}

/// The menu lists every finding, in order and with its severity, behind a dot.
pub proof fn the_menu_lists_every_finding(lines: Seq<Finding>, findings: Seq<Finding>, i: int)
    requires
        findings_view(lines) == listed(findings_view(findings)),
        0 <= i < findings.len(),
    ensures
        lines.len() == findings.len(),
        lines[i].severity == findings[i].severity,
        lines[i].message@ == "· "@ + findings[i].message@,
{
    assert(findings_view(lines).len() == lines.len());
    assert(findings_view(lines)[i] == lines[i]@);
    assert(findings_view(findings)[i] == findings[i]@);
}

/// The morph bar's commands are what was done to it, each once: a click on a dot
/// parks at its pose, a grab takes the sound into its pose, and a move of the bar
/// performs, last of all.
pub proof fn the_bar_commands_what_was_done(r: MorphBarResponse, c: MorphCommand)
    ensures
        morph_commands_of(r).contains(c) <==> match c {
            MorphCommand::Park(MorphEnd::A) => r.focus_a,
            MorphCommand::Park(MorphEnd::B) => r.focus_b,
            MorphCommand::Grab(MorphEnd::A) => r.grab_a,
            MorphCommand::Grab(MorphEnd::B) => r.grab_b,
            MorphCommand::Perform => r.t_changed,
        },
        morph_commands_of(r).no_duplicates(),
        r.t_changed ==> morph_commands_of(r).last() == MorphCommand::Perform,
{
    let a = if r.focus_a {
        seq![MorphCommand::Park(MorphEnd::A)]
    } else {
        Seq::empty()
    };
    let b = if r.focus_b {
        a.push(MorphCommand::Park(MorphEnd::B))
    } else {
        a
    };
    let d = if r.grab_a {
        b.push(MorphCommand::Grab(MorphEnd::A))
    } else {
        b
    };
    let e = if r.grab_b {
        d.push(MorphCommand::Grab(MorphEnd::B))
    } else {
        d
    };
    if r.focus_a {
        assert(a[0] == MorphCommand::Park(MorphEnd::A));
    }
    assert(a.contains(c) <==> r.focus_a && c == MorphCommand::Park(MorphEnd::A));
    push_contains_iff(a, MorphCommand::Park(MorphEnd::B), c);
    push_contains_iff(b, MorphCommand::Grab(MorphEnd::A), c);
    push_contains_iff(d, MorphCommand::Grab(MorphEnd::B), c);
    push_contains_iff(e, MorphCommand::Perform, c);
}

/// What is said of an export holds where it went, or why it failed.
pub proof fn exports_are_told(path: Seq<char>)
    ensures
        export_done(ExportKind::Clap, path) == "Exported CLAP patch → "@ + path,
        export_done(ExportKind::Json, path) == "Saved patch JSON → "@ + path,
        export_done(ExportKind::Binary, path) == "Saved pedal binary → "@ + path,
        export_failed(ExportKind::Clap, path) == "CLAP export failed: "@ + path,
        export_failed(ExportKind::Json, path) == "JSON export failed: "@ + path,
        export_failed(ExportKind::Binary, path) == "Binary export failed: "@ + path,
        export_failed(ExportKind::Flash, path) == "Flash failed: "@ + path,
{
}

} // verus!
