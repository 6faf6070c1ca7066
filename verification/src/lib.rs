//! Sonido: a guitar rig, from its patch format to its editor.
//!
//! A [`patch::Patch`] holds a complete rig. It is kept in one flash sector
//! ([`binary`]), checked before it goes to the pedal ([`validate`], [`export`],
//! [`dfu`]), and played by an engine that is built from it ([`engine`],
//! [`runtime`], [`plugin`]). In the editor a rig is a graph of nodes
//! ([`graph`], [`viewer`], [`menu`]) that compiles to an engine ([`compile`]) and
//! is saved as a session ([`session`], [`capture`], [`performance`]). Six macros
//! ([`macros`], [`desk`]) and an A/B morph ([`morph`]) play it.
//!
//! What holds of all this is stated as laws: most stand behind the functions that
//! they are about, those on the bytes of a sector in [`roundtrip`] and [`sector`],
//! those on signals in [`wiring`], and those on saving in [`saving`].
//!
//! Floats are carried as their bit patterns and compared by [`bits`]. What has to
//! be computed in floating point is computed by the caller and handed in.

pub mod arrange;
pub mod autoassign;
pub mod binary;
pub mod bits;
pub mod capture;
pub mod compile;
pub mod cycle_table;
pub mod desk;
pub mod dfu;
pub mod engine;
pub mod export;
pub mod fields;
pub mod fm;
pub mod graph;
pub mod history;
pub mod info;
pub mod knob;
pub mod layout;
pub mod macros;
pub mod menu;
pub mod meter;
pub mod morph;
pub mod panels;
pub mod params;
pub mod patch;
pub mod performance;
pub mod plugin;
pub mod roundtrip;
pub mod runtime;
pub mod saving;
pub mod seqs;
pub mod sector;
pub mod session;
pub mod snarl;
pub mod spectrum;
pub mod studio;
pub mod text;
pub mod undo;
pub mod validate;
pub mod viewer;
pub mod waveform;
pub mod wavetable;
pub mod wiring;
