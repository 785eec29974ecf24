//! The station catalog: tracks, narration clips and the fixed PCM format.
//!
//! Durations are never stored: every sound file is raw PCM behind a fixed
//! 44-byte header, so a duration is derived from the file size alone.

use vstd::prelude::*;
use vstd::string::StringExecFns;

verus! {

/// Bits per PCM sample.
pub const BIT_DEPTH: u32 = 16;

/// Samples per second.
pub const SAMPLE_RATE: u32 = 44100;

/// Number of interleaved channels.
pub const CHANNEL_COUNT: u32 = 1;

/// Instant (milliseconds since the Unix epoch) at which the perpetual
/// broadcast is considered to have started.
pub const STATION_EPOCH: u64 = 1741013572723;

/// Size of one producer read: a tenth of a second of audio, in bytes.
pub const POLL_BUFFER_SIZE_BYTES: usize = (SAMPLE_RATE * CHANNEL_COUNT * (BIT_DEPTH / 8) / 10)
    as usize;

/// Every sound file starts with a fixed header of this many bytes; the
/// samples follow it.
pub const SOUND_HEADER_BYTES: u64 = 44;

/// How many bytes of sample data one millisecond of audio occupies:
/// `(SAMPLE_RATE / 1000) * (BIT_DEPTH / 8) * CHANNEL_COUNT`.
pub const BYTES_PER_MILLISECOND: u64 = ((SAMPLE_RATE / 1000) * (BIT_DEPTH / 8) * CHANNEL_COUNT)
    as u64;

/// Duration in milliseconds of the sound file whose total size (header
/// included) is `size_bytes`.  Sizes below the header length never occur for
/// a well-formed catalog and are mapped to zero so that the function is
/// total.
pub open spec fn spec_duration_ms(size_bytes: u64) -> int {
    if size_bytes >= SOUND_HEADER_BYTES {
        (size_bytes - SOUND_HEADER_BYTES) / (BYTES_PER_MILLISECOND as int)
    } else {
        0
    }
}

/// Byte offset within a sound file at which the sample representing
/// `time_ms` milliseconds into the sound begins.
pub open spec fn spec_time_to_byte_offset(time_ms: u64) -> int {
    SOUND_HEADER_BYTES + time_ms * BYTES_PER_MILLISECOND
}

/// A sound file of the station: a name for opening it and the size its
/// duration is derived from.
pub trait SoundFile {
    /// The size in bytes this sound reports, as seen by specifications.
    spec fn spec_size_bytes(&self) -> u64;

    /// The path this sound opens, as seen by specifications.
    spec fn spec_source_filename(&self) -> Seq<char>;

    /// Path of the backing file, for the playback layer.
    fn source_filename(&self) -> (r: String)
        ensures
            r@ == self.spec_source_filename(),
    ;

    /// Total size of the backing file in bytes, header included.
    fn size_bytes(&self) -> (r: u64)
        ensures
            r == self.spec_size_bytes(),
    ;

    /// Derived duration of the sound in milliseconds.
    fn duration_ms(&self) -> (r: u64)
        requires
            self.spec_size_bytes() >= SOUND_HEADER_BYTES,
        ensures
            r == spec_duration_ms(self.spec_size_bytes()),
    {
        let bytes_per_millisecond = (SAMPLE_RATE / 1000) * (BIT_DEPTH / 8) * CHANNEL_COUNT;
        (self.size_bytes() - 44) / bytes_per_millisecond as u64
    }

    /// Byte offset at which playback `time_ms` milliseconds into this sound
    /// must resume.
    fn time_to_byte_offset(&self, time_ms: u64) -> (r: u64)
        requires
            spec_time_to_byte_offset(time_ms) <= u64::MAX,
        ensures
            r == spec_time_to_byte_offset(time_ms),
    {
        let bytes_per_millisecond = (SAMPLE_RATE / 1000) * (BIT_DEPTH / 8) * CHANNEL_COUNT;
        44 + time_ms * bytes_per_millisecond as u64
    }
}

/// Mathematical value of a [`Narration`].
pub ghost struct NarrationView {
    pub content: Seq<char>,
    pub source: Seq<char>,
    pub size_bytes: u64,
}

/// A spoken clip optionally played before or after a track.
pub struct Narration {
    /// Human-readable caption of what is said, for logging.
    pub content: String,
    /// File name of the clip, relative to the narration directory.
    pub source: String,
    /// Total size of the clip file in bytes, header included.
    pub size_bytes: u64,
}

impl View for Narration {
    type V = NarrationView;

    open spec fn view(&self) -> NarrationView {
        NarrationView { content: self.content@, source: self.source@, size_bytes: self.size_bytes }
    }
}

impl NarrationView {
    /// A narration is well formed when its file is at least as large as the
    /// fixed sound header.
    pub open spec fn wf(self) -> bool {
        self.size_bytes >= SOUND_HEADER_BYTES
    }
}

impl Narration {
    /// Derived duration of the clip in milliseconds.
    pub fn duration_ms(&self) -> (r: u64)
        requires
            self@.wf(),
        ensures
            r == spec_duration_ms(self.size_bytes),
    {
        let bytes_per_millisecond = (SAMPLE_RATE / 1000) * (BIT_DEPTH / 8) * CHANNEL_COUNT;
        (self.size_bytes - 44) / bytes_per_millisecond as u64
    }
}

impl SoundFile for Narration {
    open spec fn spec_size_bytes(&self) -> u64 {
        self.size_bytes
    }

    open spec fn spec_source_filename(&self) -> Seq<char> {
        "./diamond_city_radio/narration/"@ + self.source@
    }

    fn source_filename(&self) -> String {
        let mut path = String::new();
        path.append("./diamond_city_radio/narration/");
        path.append(self.source.as_str());
        path
    }

    fn size_bytes(&self) -> u64 {
        self.size_bytes
    }
}

/// Mathematical value of a [`Track`].
pub ghost struct TrackView {
    pub title: Seq<char>,
    pub source: Seq<char>,
    pub size_bytes: u64,
    pub narration_before: Seq<NarrationView>,
    pub narration_after: Seq<NarrationView>,
}

/// One entry of the station catalog.
pub struct Track {
    /// Title, which identifies the track for recency purposes.
    pub title: String,
    /// File name of the audio, relative to the station directory.
    pub source: String,
    /// Total size of the audio file in bytes, header included.
    pub size_bytes: u64,
    /// Clips one of which may introduce the track.
    pub narration_before: Vec<Narration>,
    /// Clips one of which may follow the track.
    pub narration_after: Vec<Narration>,
}

impl View for Track {
    type V = TrackView;

    open spec fn view(&self) -> TrackView {
        TrackView {
            title: self.title@,
            source: self.source@,
            size_bytes: self.size_bytes,
            narration_before: self.narration_before@.map_values(|n: Narration| n@),
            narration_after: self.narration_after@.map_values(|n: Narration| n@),
        }
    }
}

impl TrackView {
    /// A track is well formed when its own file and every narration file
    /// carry at least the fixed sound header, and its narration lists are
    /// small enough to draw an index from.
    pub open spec fn wf(self) -> bool {
        &&& self.size_bytes >= SOUND_HEADER_BYTES
        &&& self.narration_before.len() <= u32::MAX
        &&& self.narration_after.len() <= u32::MAX
        &&& forall|i: int|
            0 <= i < self.narration_before.len() ==> (#[trigger] self.narration_before[i]).wf()
        &&& forall|i: int|
            0 <= i < self.narration_after.len() ==> (#[trigger] self.narration_after[i]).wf()
    }
}

impl Track {
    /// Derived duration of the track in milliseconds.
    pub fn duration_ms(&self) -> (r: u64)
        requires
            self@.wf(),
        ensures
            r == spec_duration_ms(self.size_bytes),
    {
        let bytes_per_millisecond = (SAMPLE_RATE / 1000) * (BIT_DEPTH / 8) * CHANNEL_COUNT;
        (self.size_bytes - 44) / bytes_per_millisecond as u64
    }
}

impl SoundFile for Track {
    open spec fn spec_size_bytes(&self) -> u64 {
        self.size_bytes
    }

    open spec fn spec_source_filename(&self) -> Seq<char> {
        "./diamond_city_radio/"@ + self.source@
    }

    fn source_filename(&self) -> String {
        let mut path = String::new();
        path.append("./diamond_city_radio/");
        path.append(self.source.as_str());
        path
    }

    fn size_bytes(&self) -> u64 {
        self.size_bytes
    }
}

impl PartialEq for Track {
    /// Tracks are compared by title alone.
    fn eq(&self, other: &Track) -> (r: bool) {
        self.title == other.title
    }
}

impl vstd::std_specs::cmp::PartialEqSpecImpl for Track {
    open spec fn obeys_eq_spec() -> bool {
        true
    }

    open spec fn eq_spec(&self, other: &Track) -> bool {
        self.title@ == other.title@
    }
}

/// Mathematical value of a [`Station`].
pub ghost struct StationView {
    pub title: Seq<char>,
    pub seed: u64,
    pub tracks: Seq<TrackView>,
}

/// The immutable station definition: built once at startup and then only
/// read.
pub struct Station {
    /// Display name of the station.
    pub title: String,
    /// Seed of the deterministic draw sequence every resolver replays.
    pub seed: u64,
    /// The ordered catalog.
    pub tracks: Vec<Track>,
}

impl View for Station {
    type V = StationView;

    open spec fn view(&self) -> StationView {
        StationView {
            title: self.title@,
            seed: self.seed,
            tracks: self.tracks@.map_values(|t: Track| t@),
        }
    }
}

impl StationView {
    /// A station is well formed when it has at least one track, each track
    /// is well formed, and the catalog is small enough to draw an index
    /// from.
    pub open spec fn wf(self) -> bool {
        &&& self.tracks.len() >= 1
        &&& self.tracks.len() <= u32::MAX
        &&& forall|i: int| 0 <= i < self.tracks.len() ==> (#[trigger] self.tracks[i]).wf()
    }
}

/// The value the fixed PCM format gives to [`BYTES_PER_MILLISECOND`]:
/// 44.1 samples per millisecond at 16 bits on one channel round down to 88
/// bytes.
pub proof fn lemma_bytes_per_millisecond()
    ensures
        BYTES_PER_MILLISECOND == 88,
{
    assert(SAMPLE_RATE / 1000 == 44);
    assert((SAMPLE_RATE / 1000) * (BIT_DEPTH / 8) * CHANNEL_COUNT == 88);
}

/// Round trip between a file size and its derived duration: seeking to the
/// derived duration of a file lands back on the file size, up to the
/// truncation of a partial millisecond — the reconstructed offset is the
/// size less the remainder of the sample bytes modulo one millisecond, so
/// it never overshoots and falls short by less than a millisecond of
/// bytes.
pub proof fn lemma_duration_round_trip(size_bytes: u64)
    requires
        size_bytes >= SOUND_HEADER_BYTES,
    ensures
        spec_time_to_byte_offset(spec_duration_ms(size_bytes) as u64) == size_bytes - (((
        size_bytes - SOUND_HEADER_BYTES) as int) % (BYTES_PER_MILLISECOND as int)),
        size_bytes - spec_time_to_byte_offset(spec_duration_ms(size_bytes) as u64)
            < BYTES_PER_MILLISECOND,
        spec_time_to_byte_offset(spec_duration_ms(size_bytes) as u64) <= size_bytes,
{
    lemma_bytes_per_millisecond();
    let data = size_bytes - SOUND_HEADER_BYTES;
    vstd::arithmetic::div_mod::lemma_fundamental_div_mod(data, 88);
    vstd::arithmetic::div_mod::lemma_mod_bound(data, 88);
    assert(spec_duration_ms(size_bytes) == data / 88);
    assert(0 <= data / 88 <= data);
    assert((data / 88) as u64 == data / 88);
}

} // verus!
