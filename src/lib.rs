//! Playback engine core of a local music player: the playback queue, the
//! coordinator's preload state machine, and the bookkeeping of the real-time
//! processing stage that fills interleaved output buffers.

mod fill;
mod queue;
mod server;
mod track;
mod types;

pub use fill::{
    ceil_div, input_frames_for, lemma_fill_frontier, lemma_interleave_layout, output_frames, write_silence,
    FillState, ProcessError, MAX_CHANNELS,
};
pub use queue::{
    cursor_after, cursor_after_removal, cycle_reaches, fisher_yates, kept_positions, lemma_next_cycle,
    lemma_queue_cycle, lemma_queue_shuffle, lemma_shuffle_injective, next_cursor, positions_of, valid_draws, Queue, ViewOrder,
};
pub use server::{
    lemma_completion_needs_match, ControllerMsg, Event, MainPreloaderMsg, MainStreamMsg,
    OutputSlot, Preloader,
    PreloaderMainMsg, State, StateError, StreamCommand, StreamMainMsg, TrackMsg,
    TrackPreloaderState, UserMainMsg,
};
pub use track::{FxIndexMap, Track, TrackId};
pub use types::{FFITag, FileIdentity, FileNodeType, FsFileType};
