//! Frequency-domain analysis of a finite signal: window shapes, frame layout
//! for single transforms and short-time transforms, ranking of spectral peaks,
//! and the analysis session that holds a signal and its latest spectrum.

pub mod layout;
pub mod peaks;
pub mod session;
pub mod stft;
pub mod window;

pub use layout::{centre_in_frame, centre_offset, windowed_len};
pub use peaks::{half_len, peak_bins};
pub use session::{Session, SessionView};
pub use stft::{frame_count, hop, interleave, split_frames};
pub use window::WindowFunction;
