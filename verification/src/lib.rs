//! Access-unit payloads and H.264 NAL-unit framing.
//!
//! The crate holds one encoded access unit (audio or video frame) together
//! with its timing and codec metadata, and converts between the two common
//! NAL-unit framing conventions: length-prefixed (4-byte big-endian length
//! before each unit, as in AVCC/MP4 sample storage) and Annex-B start codes
//! (`00 00 01` / `00 00 00 01` before each unit).

pub mod bufext;
pub mod annex_b;
pub mod lp;
pub mod payload;

pub use annex_b::annex_b_split;
pub use payload::{AuKind, AuPayload, Fmp4};
