//! Verified core of the FieldAssist audio editor: frame-range bookkeeping and
//! hop-binned analysis buffers, the stepping of analysis passes, the edit
//! decision list, portable locations and prefixed ids, feature flags, the
//! player's keyboard decisions, named registries, and the text rules used by
//! the scripting host.
use vstd::prelude::*;

pub mod analysis_steps;
pub mod analysis_streams;
pub mod composition;
pub mod edl;
pub mod features;
pub mod frame_ranges;
pub mod hop_store;
pub mod ids;
pub mod location;
pub mod open_report;
pub mod play_session;
pub mod play_ui;
pub mod registry;
pub mod scripting;
pub mod text;

verus! {

} // verus!
