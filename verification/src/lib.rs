//! A perpetually-running simulated "live" radio station.
//!
//! A station is a fixed catalog of tracks, each optionally bracketed by
//! narration clips.  The broadcast is a pure function of wall-clock time:
//! the timeline resolver replays the whole broadcast from a fixed epoch and
//! reports what is airing right now, so every listener computes the same
//! position without any shared play-head.  A bounded ring buffer bridges a
//! bursty producer to a fixed-cadence sample consumer.

pub mod ringbuffer_sound;
pub mod rng;
pub mod state_resumer;
pub mod station_data;
pub mod wav;
