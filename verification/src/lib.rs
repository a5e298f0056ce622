//! Pure MML language semantics for ctrmml tooling: cursor classifiers,
//! key signatures, chords, arpeggios, track selectors, time signatures,
//! beat filling, octave context, instrument blocks and PSG envelopes.
//!
//! Every function here is verified with Verus against a contract written
//! over the byte (or character) content of its text arguments.

pub mod strings;
pub mod text_scan;
pub mod track_selector;
pub mod string_model;
pub mod timesig;
pub mod beat_fill;
pub mod key_sig;
pub mod chord;
pub mod brace_state;
pub mod octave_scan;
pub mod block_finder;
pub mod psg_parser;
pub mod docs;
pub mod completion;
pub mod instrument_preview;
pub mod arpeggio;
pub mod code_lens;
pub mod hover;
pub mod hover_params;
pub mod preview_note;
pub mod transpose;
