//! The timeline resolver: what the station is airing at a given instant.
//!
//! The broadcast program is a pure function of wall-clock time.  Resolving
//! replays the whole broadcast from the fixed epoch: starting from a
//! silence interval, it repeatedly computes the current state's duration
//! and the deterministic next state, consuming the elapsed time, until the
//! time left no longer covers the current state.  Every step of that
//! replay is mirrored by a specification function, so the result is pinned
//! down as a mathematical function of the station definition and the
//! clock.

use crate::rng::{
    rand_below, rand_state, rand_with_seed, spec_rand_below, spec_rand_next, spec_seed_hash,
};
use crate::station_data::{
    spec_duration_ms, NarrationView, Narration, Station, StationView, Track, TrackView,
    STATION_EPOCH,
};
use std::collections::VecDeque;
use vstd::prelude::*;

verus! {

/// Length of the quiet gap between programme items, in milliseconds.
pub const SILENCE_INTERVAL_MS: u64 = 200;

/// How many recently played tracks are remembered and excluded from the
/// next draw.
pub const RECENT_TRACK_WINDOW: usize = 8;

/// How many rejected draws a single track selection may burn before it
/// falls back to scanning the catalog in order.  With the recency window
/// strictly smaller than the catalog the chance of ever reaching this
/// bound is negligible; it exists so that selection is total and stays a
/// function of the seed.
pub const PICK_ATTEMPT_LIMIT: u64 = 65536;

/// Mathematical value of a [`StationExpectedState`].
pub ghost enum StateView {
    TrackNarrationBefore { narration: Option<NarrationView>, imminent_track: TrackView },
    Track { track: TrackView },
    TrackNarrationAfter { previous_track: TrackView, narration: Option<NarrationView> },
    SilenceInterval,
}

/// What the station is airing at one instant: a quiet gap, a track, or the
/// narration bracketing a track.
pub enum StationExpectedState {
    /// An optional spoken introduction; `imminent_track` plays next.
    TrackNarrationBefore { narration: Option<Narration>, imminent_track: Track },
    /// A track of the catalog.
    Track { track: Track },
    /// An optional spoken outro following `previous_track`.
    TrackNarrationAfter { previous_track: Track, narration: Option<Narration> },
    /// The fixed quiet gap between items.
    SilenceInterval,
}

impl View for StationExpectedState {
    type V = StateView;

    open spec fn view(&self) -> StateView {
        match self {
            StationExpectedState::TrackNarrationBefore { narration, imminent_track } => {
                StateView::TrackNarrationBefore {
                    narration: match narration {
                        Some(n) => Some(n@),
                        None => None,
                    },
                    imminent_track: imminent_track@,
                }
            },
            StationExpectedState::Track { track } => StateView::Track { track: track@ },
            StationExpectedState::TrackNarrationAfter { previous_track, narration } => {
                StateView::TrackNarrationAfter {
                    previous_track: previous_track@,
                    narration: match narration {
                        Some(n) => Some(n@),
                        None => None,
                    },
                }
            },
            StationExpectedState::SilenceInterval => StateView::SilenceInterval,
        }
    }
}

/// Duration of an optional narration: zero when none was chosen.
pub open spec fn spec_opt_narration_duration(narration: Option<NarrationView>) -> int {
    match narration {
        Some(n) => spec_duration_ms(n.size_bytes),
        None => 0,
    }
}

/// Total duration in milliseconds of one programme state.
pub open spec fn spec_state_duration(s: StateView) -> int {
    match s {
        StateView::SilenceInterval => SILENCE_INTERVAL_MS as int,
        StateView::TrackNarrationBefore { narration, .. } => spec_opt_narration_duration(narration),
        StateView::Track { track } => spec_duration_ms(track.size_bytes),
        StateView::TrackNarrationAfter { narration, .. } => spec_opt_narration_duration(narration),
    }
}

/// Well-formedness of a state: every sound it carries is well formed.
pub open spec fn spec_state_wf(s: StateView) -> bool {
    match s {
        StateView::SilenceInterval => true,
        StateView::TrackNarrationBefore { narration, imminent_track } => imminent_track.wf()
            && spec_opt_narration_wf(narration),
        StateView::Track { track } => track.wf(),
        StateView::TrackNarrationAfter { previous_track, narration } => previous_track.wf()
            && spec_opt_narration_wf(narration),
    }
}

/// Well-formedness of an optional narration.
pub open spec fn spec_opt_narration_wf(narration: Option<NarrationView>) -> bool {
    match narration {
        Some(n) => n.wf(),
        None => true,
    }
}

/// Rank used to show the replay terminates: within one programme item the
/// phases strictly descend, and leaving the silence phase always consumes
/// time.
pub open spec fn spec_state_rank(s: StateView) -> nat {
    match s {
        StateView::TrackNarrationBefore { .. } => 3,
        StateView::Track { .. } => 2,
        StateView::TrackNarrationAfter { .. } => 1,
        StateView::SilenceInterval => 0,
    }
}

/// Total duration of one programme state, executable form.
fn state_duration(state: &StationExpectedState) -> (r: u64)
    requires
        spec_state_wf(state@),
    ensures
        r == spec_state_duration(state@),
{
    match state {
        StationExpectedState::TrackNarrationBefore { narration, .. } => match narration {
            Some(n) => n.duration_ms(),
            None => 0,
        },
        StationExpectedState::Track { track } => track.duration_ms(),
        StationExpectedState::TrackNarrationAfter { narration, .. } => match narration {
            Some(n) => n.duration_ms(),
            None => 0,
        },
        StationExpectedState::SilenceInterval => SILENCE_INTERVAL_MS,
    }
}

/// What appending a title does to the recency window: the newest entry
/// comes in at the back, and the oldest entries leave until the capacity
/// holds.
pub open spec fn spec_window_push(window: Seq<Seq<char>>, title: Seq<char>, capacity: nat) -> Seq<
    Seq<char>,
> {
    if window.len() < capacity {
        window.push(title)
    } else {
        window.skip(window.len() - capacity + 1).push(title)
    }
}

/// The bounded first-in-first-out memory of recently played track titles.
pub struct SlidingWindow {
    capacity: usize,
    contents: VecDeque<String>,
}

impl SlidingWindow {
    /// How many titles this window can hold.
    pub closed spec fn cap(&self) -> nat {
        self.capacity as nat
    }

    /// The remembered titles, oldest first.
    pub closed spec fn entries(&self) -> Seq<Seq<char>> {
        self.contents@.map_values(|s: String| s@)
    }

    /// The window never holds more titles than its capacity, which is
    /// positive.
    pub closed spec fn wf(&self) -> bool {
        self.capacity >= 1 && self.contents@.len() <= self.capacity
    }

    /// An empty window of the given capacity.
    pub fn new(capacity: usize) -> (r: SlidingWindow)
        requires
            capacity >= 1,
        ensures
            r.wf(),
            r.cap() == capacity,
            r.entries() == Seq::<Seq<char>>::empty(),
    {
        let r = SlidingWindow { capacity, contents: VecDeque::with_capacity(capacity) };
        proof {
            assert(r.entries() =~= Seq::<Seq<char>>::empty());
        }
        r
    }

    /// Remembers one more title, forgetting the oldest if the window is
    /// full.
    #[verifier::loop_isolation(false)]
    pub fn append(&mut self, item: String)
        requires
            old(self).wf(),
        ensures
            final(self).wf(),
            final(self).cap() == old(self).cap(),
            final(self).entries() == spec_window_push(
                old(self).entries(),
                item@,
                old(self).cap(),
            ),
    {
        proof {
            assert(old(self).contents@.skip(0) =~= old(self).contents@);
        }
        while self.contents.len() >= self.capacity
            invariant
                self.capacity == old(self).capacity,
                self.contents@.len() <= old(self).contents@.len(),
                if old(self).contents@.len() < self.capacity {
                    self.contents@.len() == old(self).contents@.len()
                } else {
                    self.contents@.len() + 1 >= self.capacity
                },
                self.contents@ == old(self).contents@.skip(
                    old(self).contents@.len() - self.contents@.len(),
                ),
            decreases self.contents@.len(),
        {
            self.contents.pop_front();
            proof {
                assert(self.contents@ =~= old(self).contents@.skip(
                    old(self).contents@.len() - self.contents@.len(),
                ));
            }
        }
        self.contents.push_back(item);
        proof {
            let ghost d = old(self).contents@.len() - (self.contents@.len() - 1);
            if old(self).contents@.len() < old(self).capacity {
                assert(d == 0);
            } else {
                assert(d == 1);
            }
            assert(self.entries() =~= spec_window_push(
                old(self).entries(),
                item@,
                old(self).cap(),
            ));
        }
    }

    /// Whether a title is currently remembered.
    pub fn contains(&self, title: &String) -> (r: bool)
        ensures
            r == self.entries().contains(title@),
    {
        let mut k: usize = 0;
        while k < self.contents.len()
            invariant
                k <= self.contents@.len(),
                forall|j: int| 0 <= j < k ==> self.entries()[j] != title@,
            decreases self.contents@.len() - k,
        {
            if self.contents[k] == *title {
                proof {
                    assert(self.entries()[k as int] == title@);
                }
                return true;
            }
            k += 1;
        }
        proof {
            assert(forall|j: int| 0 <= j < self.entries().len() ==> self.entries()[j] != title@);
        }
        false
    }
}

/// Result of one track selection: the chosen catalog index and the
/// generator state it leaves behind.
pub ghost struct PickView {
    pub idx: int,
    pub rng: u64,
}

/// First catalog index whose title the window does not remember, scanning
/// from `i`; the degenerate catalog whose titles are all remembered yields
/// index zero.
pub open spec fn spec_first_free(tracks: Seq<TrackView>, window: Seq<Seq<char>>, i: nat) -> int
    decreases tracks.len() - i,
{
    if i >= tracks.len() {
        0
    } else if !window.contains(tracks[i as int].title) {
        i as int
    } else {
        spec_first_free(tracks, window, i + 1)
    }
}

/// Rejection sampling with the given number of attempts left: draw an
/// index; if its title is remembered, draw again; out of attempts, take
/// the first free index of the catalog.
pub open spec fn spec_pick_search(
    tracks: Seq<TrackView>,
    window: Seq<Seq<char>>,
    state: u64,
    attempts_left: nat,
) -> PickView
    decreases attempts_left,
{
    if attempts_left == 0 {
        PickView { idx: spec_first_free(tracks, window, 0), rng: state }
    } else {
        let draw = spec_rand_below(state, tracks.len() as u32);
        let advanced = spec_rand_next(state);
        if !window.contains(tracks[draw as int].title) {
            PickView { idx: draw as int, rng: advanced }
        } else {
            spec_pick_search(tracks, window, advanced, (attempts_left - 1) as nat)
        }
    }
}

/// The track selection the resolver makes from a given generator state.
pub open spec fn spec_pick_track(
    tracks: Seq<TrackView>,
    window: Seq<Seq<char>>,
    state: u64,
) -> PickView {
    spec_pick_search(tracks, window, state, PICK_ATTEMPT_LIMIT as nat)
}

/// A selection always lands inside the catalog.
pub proof fn lemma_first_free_in_range(tracks: Seq<TrackView>, window: Seq<Seq<char>>, i: nat)
    requires
        tracks.len() >= 1,
    ensures
        0 <= spec_first_free(tracks, window, i) < tracks.len(),
    decreases tracks.len() - i,
{
    if i >= tracks.len() {
    } else if !window.contains(tracks[i as int].title) {
    } else {
        lemma_first_free_in_range(tracks, window, i + 1);
    }
}

/// A selection always lands inside the catalog.
pub proof fn lemma_pick_search_in_range(
    tracks: Seq<TrackView>,
    window: Seq<Seq<char>>,
    state: u64,
    attempts_left: nat,
)
    requires
        1 <= tracks.len() <= u32::MAX,
    ensures
        0 <= spec_pick_search(tracks, window, state, attempts_left).idx < tracks.len(),
    decreases attempts_left,
{
    if attempts_left == 0 {
        lemma_first_free_in_range(tracks, window, 0);
    } else {
        let draw = spec_rand_below(state, tracks.len() as u32);
        assert(draw < tracks.len() as u32) by {
            crate::rng::lemma_rand_below_in_range(state, tracks.len() as u32);
        }
        if !window.contains(tracks[draw as int].title) {
        } else {
            lemma_pick_search_in_range(tracks, window, spec_rand_next(state), (attempts_left
                - 1) as nat);
        }
    }
}

/// Draws one element of a list, or nothing from an empty list; the draw
/// consumes exactly one generator step.
#[verifier::loop_isolation(false)]
fn pick_from_vec<'a, I>(vec: &'a Vec<I>, rng: &mut frand::Rand) -> (r: Option<&'a I>)
    requires
        vec@.len() <= u32::MAX,
    ensures
        vec@.len() == 0 ==> r is None && *final(rng) == *old(rng),
        vec@.len() > 0 ==> {
            &&& rand_state(*final(rng)) == spec_rand_next(rand_state(*old(rng)))
            &&& r matches Some(x) && x == &vec@[spec_rand_below(
                rand_state(*old(rng)),
                vec@.len() as u32,
            ) as int]
        },
{
    let max = vec.len() as u32;

    if max == 0 {
        return None;
    }

    proof {
        crate::rng::lemma_rand_below_in_range(rand_state(*rng), max);
    }
    let idx = rand_below(rng, max) as usize;
    Some(&vec[idx])
}

/// Selects the next track: a uniform draw over the catalog, redrawn while
/// the draw hits a recently played title.
#[verifier::loop_isolation(false)]
fn pick_next_track<'a>(
    tracks: &'a Vec<Track>,
    previous_tracks: &SlidingWindow,
    rng: &mut frand::Rand,
) -> (r: &'a Track)
    requires
        1 <= tracks@.len() <= u32::MAX,
    ensures
        ({
            let p = spec_pick_track(
                tracks@.map_values(|t: Track| t@),
                previous_tracks.entries(),
                rand_state(*old(rng)),
            );
            &&& rand_state(*final(rng)) == p.rng
            &&& 0 <= p.idx < tracks@.len()
            &&& r == &tracks@[p.idx]
        }),
{
    let ghost tviews = tracks@.map_values(|t: Track| t@);
    let ghost w = previous_tracks.entries();
    let ghost s0 = rand_state(*rng);
    proof {
        lemma_pick_search_in_range(tviews, w, s0, PICK_ATTEMPT_LIMIT as nat);
    }
    let bound = tracks.len() as u32;

    let mut attempts: u64 = 0;
    while attempts < PICK_ATTEMPT_LIMIT
        invariant
            attempts <= PICK_ATTEMPT_LIMIT,
            spec_pick_search(tviews, w, s0, PICK_ATTEMPT_LIMIT as nat) == spec_pick_search(
                tviews,
                w,
                rand_state(*rng),
                (PICK_ATTEMPT_LIMIT - attempts) as nat,
            ),
        decreases PICK_ATTEMPT_LIMIT - attempts,
    {
        proof {
            crate::rng::lemma_rand_below_in_range(rand_state(*rng), bound);
        }
        let picked = rand_below(rng, bound) as usize;
        if !previous_tracks.contains(&tracks[picked].title) {
            return &tracks[picked];
        }
        attempts += 1;
    }

    // Out of attempts: take the first track not remembered by the window,
    // or the head of the catalog if every title is remembered.
    let mut j: usize = 0;
    while j < tracks.len()
        invariant
            j <= tracks@.len(),
            spec_first_free(tviews, w, 0) == spec_first_free(tviews, w, j as nat),
        decreases tracks@.len() - j,
    {
        if !previous_tracks.contains(&tracks[j].title) {
            return &tracks[j];
        }
        j += 1;
    }
    &tracks[0]
}

/// The resolver's whole progress at one point of the replay: the state
/// being aired, the recency window, and the generator state.
pub ghost struct CfgView {
    pub state: StateView,
    pub window: Seq<Seq<char>>,
    pub rng: u64,
}

/// The narration draw made when entering a bracketing state: nothing from
/// an empty list, otherwise one uniformly drawn clip.
pub open spec fn spec_pick_narration(narrations: Seq<NarrationView>, state: u64) -> (
    Option<NarrationView>,
    u64,
) {
    if narrations.len() == 0 {
        (None, state)
    } else {
        (
            Some(narrations[spec_rand_below(state, narrations.len() as u32) as int]),
            spec_rand_next(state),
        )
    }
}

/// The deterministic successor of a resolver configuration:
/// silence chooses the next track and its introduction, the introduction
/// gives way to its track, the track chooses its outro, and the outro
/// remembers the track and gives way to silence.
pub open spec fn spec_transition(station: StationView, cfg: CfgView) -> CfgView {
    match cfg.state {
        StateView::TrackNarrationBefore { narration, imminent_track } => CfgView {
            state: StateView::Track { track: imminent_track },
            window: cfg.window,
            rng: cfg.rng,
        },
        StateView::Track { track } => {
            let (narration, rng2) = spec_pick_narration(track.narration_after, cfg.rng);
            CfgView {
                state: StateView::TrackNarrationAfter { previous_track: track, narration },
                window: cfg.window,
                rng: rng2,
            }
        },
        StateView::TrackNarrationAfter { previous_track, narration } => CfgView {
            state: StateView::SilenceInterval,
            window: spec_window_push(cfg.window, previous_track.title, RECENT_TRACK_WINDOW as nat),
            rng: cfg.rng,
        },
        StateView::SilenceInterval => {
            let p = spec_pick_track(station.tracks, cfg.window, cfg.rng);
            let track = station.tracks[p.idx];
            let (narration, rng2) = spec_pick_narration(track.narration_before, p.rng);
            CfgView {
                state: StateView::TrackNarrationBefore { narration, imminent_track: track },
                window: cfg.window,
                rng: rng2,
            }
        },
    }
}

/// The replay itself: starting from `cfg` with `remaining` milliseconds of
/// broadcast time left to account for, it steps from state to state until
/// the time left no longer covers the current state, and yields that
/// configuration together with the offset into it.
pub open spec fn spec_run(station: StationView, remaining: nat, cfg: CfgView) -> (CfgView, nat)
    decreases remaining, spec_state_rank(cfg.state),
    via spec_run_decreases
{
    let duration = spec_state_duration(cfg.state);
    if remaining < duration {
        (cfg, remaining)
    } else {
        spec_run(station, (remaining - duration) as nat, spec_transition(station, cfg))
    }
}

#[via_fn]
proof fn spec_run_decreases(station: StationView, remaining: nat, cfg: CfgView) {
    lemma_step_measure(station, cfg);
}

/// One replay step makes progress: no state has negative duration, and a
/// state of zero duration hands over to a state of strictly smaller rank.
proof fn lemma_step_measure(station: StationView, cfg: CfgView)
    ensures
        spec_state_duration(cfg.state) >= 0,
        spec_state_duration(cfg.state) == 0 ==> spec_state_rank(
            spec_transition(station, cfg).state,
        ) < spec_state_rank(cfg.state),
{
    crate::station_data::lemma_bytes_per_millisecond();
    match cfg.state {
        StateView::TrackNarrationBefore { .. } => {
            assert(spec_state_rank(spec_transition(station, cfg).state) == 2);
        },
        StateView::Track { .. } => {
            assert(spec_state_rank(spec_transition(station, cfg).state) == 1);
        },
        StateView::TrackNarrationAfter { .. } => {
            assert(spec_state_rank(spec_transition(station, cfg).state) == 0);
        },
        StateView::SilenceInterval => {
            assert(spec_state_duration(cfg.state) == 200);
        },
    }
}

/// Where every replay starts: the silence interval, an empty recency
/// window, and the generator freshly seeded from the station seed.
pub open spec fn spec_init_cfg(station: StationView) -> CfgView {
    CfgView {
        state: StateView::SilenceInterval,
        window: Seq::empty(),
        rng: spec_seed_hash(station.seed),
    }
}

/// What resolving reports `elapsed_since_epoch` milliseconds into the
/// broadcast: the state being aired, the offset into it, and its total
/// duration.
pub open spec fn spec_resolved(station: StationView, elapsed_since_epoch: nat) -> (
    StateView,
    nat,
    int,
) {
    let (cfg, offset) = spec_run(station, elapsed_since_epoch, spec_init_cfg(station));
    (cfg.state, offset, spec_state_duration(cfg.state))
}

/// An exact copy of a narration.
fn clone_narration(n: &Narration) -> (r: Narration)
    ensures
        r == *n,
{
    Narration { content: n.content.clone(), source: n.source.clone(), size_bytes: n.size_bytes }
}

/// An exact copy of a narration list.
fn clone_narrations(v: &Vec<Narration>) -> (r: Vec<Narration>)
    ensures
        r@ == v@,
{
    let mut r: Vec<Narration> = Vec::new();
    let mut i: usize = 0;
    while i < v.len()
        invariant
            i <= v@.len(),
            r@ == v@.subrange(0, i as int),
        decreases v@.len() - i,
    {
        r.push(clone_narration(&v[i]));
        proof {
            assert(r@ =~= v@.subrange(0, i + 1));
        }
        i += 1;
    }
    proof {
        assert(r@ =~= v@);
    }
    r
}

/// A copy of a catalog track, exact at the level of values.
fn clone_track(t: &Track) -> (r: Track)
    ensures
        r@ == t@,
{
    let r = Track {
        title: t.title.clone(),
        source: t.source.clone(),
        size_bytes: t.size_bytes,
        narration_before: clone_narrations(&t.narration_before),
        narration_after: clone_narrations(&t.narration_after),
    };
    r
}

/// An exact copy of an optional narration, at the level of values.
fn clone_opt_narration(n: Option<&Narration>) -> (r: Option<Narration>)
    ensures
        match n {
            Some(x) => r matches Some(y) && y == *x,
            None => r is None,
        },
{
    match n {
        Some(x) => Some(clone_narration(x)),
        None => None,
    }
}

/// Performs one step of the replay: consumes the given state and builds
/// its deterministic successor, advancing the recency window and the
/// generator exactly as [`spec_transition`] describes.
fn advance_state(
    station: &Station,
    state: StationExpectedState,
    previous_tracks: &mut SlidingWindow,
    rng: &mut frand::Rand,
) -> (r: StationExpectedState)
    requires
        station@.wf(),
        spec_state_wf(state@),
        old(previous_tracks).wf(),
        old(previous_tracks).cap() == RECENT_TRACK_WINDOW,
    ensures
        ({
            let next = spec_transition(
                station@,
                CfgView {
                    state: state@,
                    window: old(previous_tracks).entries(),
                    rng: rand_state(*old(rng)),
                },
            );
            &&& r@ == next.state
            &&& final(previous_tracks).entries() == next.window
            &&& rand_state(*final(rng)) == next.rng
        }),
        spec_state_wf(r@),
        final(previous_tracks).wf(),
        final(previous_tracks).cap() == RECENT_TRACK_WINDOW,
{
    match state {
        StationExpectedState::TrackNarrationBefore { narration: _, imminent_track } => {
            StationExpectedState::Track { track: imminent_track }
        },
        StationExpectedState::Track { track } => {
            let narration = clone_opt_narration(pick_from_vec(&track.narration_after, rng));
            StationExpectedState::TrackNarrationAfter { previous_track: track, narration }
        },
        StationExpectedState::TrackNarrationAfter { previous_track, narration: _ } => {
            previous_tracks.append(previous_track.title.clone());
            StationExpectedState::SilenceInterval
        },
        StationExpectedState::SilenceInterval => {
            let next_track = pick_next_track(&station.tracks, previous_tracks, rng);
            let next_track = clone_track(next_track);
            let narration = clone_opt_narration(pick_from_vec(&next_track.narration_before, rng));
            proof {
                let p = spec_pick_track(
                    station@.tracks,
                    old(previous_tracks).entries(),
                    rand_state(*old(rng)),
                );
                assert(station@.tracks[p.idx] == next_track@);
                assert(station@.tracks[p.idx].wf());
            }
            StationExpectedState::TrackNarrationBefore { narration, imminent_track: next_track }
        },
    }
}

/// What should be airing now: the current programme state, how many
/// milliseconds of it have elapsed, and its total duration.
///
/// A pure function of the station definition and the clock: the whole
/// broadcast is replayed from the station epoch, so every caller that
/// passes the same instant sees the same answer.
#[verifier::loop_isolation(false)]
pub fn determine_expected_current_state(station: &Station, current_time_unix_ms: u64) -> (r: (
    StationExpectedState,
    u64,
    u64,
))
    requires
        station@.wf(),
        RECENT_TRACK_WINDOW < station@.tracks.len(),
        current_time_unix_ms >= STATION_EPOCH,
    ensures
        ({
            let (state, offset, total) = spec_resolved(
                station@,
                (current_time_unix_ms - STATION_EPOCH) as nat,
            );
            &&& r.0@ == state
            &&& r.1 == offset
            &&& r.2 == total
            &&& r.1 < r.2
        }),
        spec_state_wf(r.0@),
{
    let mut rng = rand_with_seed(station.seed);
    let mut state = StationExpectedState::SilenceInterval;
    let mut elapsed: u64 = current_time_unix_ms - STATION_EPOCH;
    let mut previous_tracks = SlidingWindow::new(RECENT_TRACK_WINDOW);
    let ghost remaining0 = elapsed as nat;

    loop
        invariant
            previous_tracks.wf(),
            previous_tracks.cap() == RECENT_TRACK_WINDOW,
            spec_state_wf(state@),
            spec_run(station@, remaining0, spec_init_cfg(station@)) == spec_run(
                station@,
                elapsed as nat,
                CfgView {
                    state: state@,
                    window: previous_tracks.entries(),
                    rng: rand_state(rng),
                },
            ),
        decreases elapsed, spec_state_rank(state@),
    {
        let step_duration = state_duration(&state);

        if elapsed < step_duration {
            // this step is not completed yet: we have found the current state
            return (state, elapsed, step_duration);
        }

        // this step runs to completion
        elapsed -= step_duration;
        state = advance_state(station, state, &mut previous_tracks, &mut rng);
    }
}

/// Determinism: what the resolver reports is a function of the station
/// definition and the instant alone, so two resolutions of the same
/// station at the same instant agree exactly, in whatever process they
/// run.
pub proof fn lemma_resolver_deterministic(
    station: StationView,
    elapsed_since_epoch: nat,
    first: (StateView, nat, int),
    second: (StateView, nat, int),
)
    requires
        first == spec_resolved(station, elapsed_since_epoch),
        second == spec_resolved(station, elapsed_since_epoch),
    ensures
        first == second,
{
}

/// The replay never stops inside a state it has fully consumed: the
/// reported offset lies strictly inside the reported state's duration.
pub proof fn lemma_run_offset_in_state(station: StationView, remaining: nat, cfg: CfgView)
    ensures
        ({
            let (c, offset) = spec_run(station, remaining, cfg);
            offset < spec_state_duration(c.state)
        }),
    decreases remaining, spec_state_rank(cfg.state),
{
    crate::station_data::lemma_bytes_per_millisecond();
    let duration = spec_state_duration(cfg.state);
    if remaining < duration {
    } else {
        lemma_step_measure(station, cfg);
        lemma_run_offset_in_state(
            station,
            (remaining - duration) as nat,
            spec_transition(station, cfg),
        );
    }
}

/// Replaying with extra time follows the shorter replay to its stopping
/// point and then continues from there: the replay has no memory besides
/// the configuration it stopped in.
pub proof fn lemma_run_shift(station: StationView, remaining: nat, cfg: CfgView, delta: nat)
    ensures
        ({
            let (c, offset) = spec_run(station, remaining, cfg);
            spec_run(station, remaining + delta, cfg) == spec_run(station, offset + delta, c)
        }),
    decreases remaining, spec_state_rank(cfg.state),
{
    crate::station_data::lemma_bytes_per_millisecond();
    let duration = spec_state_duration(cfg.state);
    if remaining < duration {
    } else {
        lemma_step_measure(station, cfg);
        lemma_run_shift(
            station,
            (remaining - duration) as nat,
            spec_transition(station, cfg),
            delta,
        );
    }
}

/// The replay configuration after a given number of transitions from the
/// start of the broadcast.
pub open spec fn spec_steps(station: StationView, steps: nat) -> CfgView
    decreases steps,
{
    if steps == 0 {
        spec_init_cfg(station)
    } else {
        spec_transition(station, spec_steps(station, (steps - 1) as nat))
    }
}

/// The titles of the tracks picked in the first `steps` transitions of
/// the broadcast, oldest first.
pub open spec fn spec_picked_titles(station: StationView, steps: nat) -> Seq<Seq<char>>
    decreases steps,
{
    if steps == 0 {
        Seq::empty()
    } else {
        let c = spec_steps(station, (steps - 1) as nat);
        let prev = spec_picked_titles(station, (steps - 1) as nat);
        if c.state is SilenceInterval {
            prev.push(station.tracks[spec_pick_track(station.tracks, c.window, c.rng).idx].title)
        } else {
            prev
        }
    }
}

/// No two tracks of the catalog share a title, so that a title identifies
/// a track.
pub open spec fn spec_distinct_titles(station: StationView) -> bool {
    forall|a: int, b: int|
        0 <= a < b < station.tracks.len() ==> station.tracks[a].title != station.tracks[b].title
}

/// The newest `count` elements of a title sequence, oldest first.
pub open spec fn spec_suffix(s: Seq<Seq<char>>, count: nat) -> Seq<Seq<char>> {
    if s.len() <= count {
        s
    } else {
        s.skip(s.len() - count)
    }
}

/// A window that remembers fewer titles than the catalog has tracks, all
/// with distinct titles, always leaves some track unremembered.
proof fn lemma_window_leaves_a_track(tracks: Seq<TrackView>, window: Seq<Seq<char>>)
    requires
        forall|a: int, b: int| 0 <= a < b < tracks.len() ==> tracks[a].title != tracks[b].title,
        window.len() < tracks.len(),
    ensures
        exists|idx: int| 0 <= idx < tracks.len() && !window.contains(tracks[idx].title),
{
    broadcast use vstd::seq_lib::seq_to_set_is_finite;

    if !(exists|idx: int| 0 <= idx < tracks.len() && !window.contains(tracks[idx].title)) {
        let titles = tracks.map_values(|t: TrackView| t.title);
        assert(titles.no_duplicates()) by {
            assert(forall|a: int, b: int|
                0 <= a < titles.len() && 0 <= b < titles.len() && a != b ==> titles[a]
                    != titles[b]);
        }
        assert forall|x: Seq<char>| titles.to_set().contains(x) implies window.to_set().contains(
            x,
        ) by {
            let i = choose|i: int| 0 <= i < titles.len() && titles[i] == x;
            assert(window.contains(tracks[i].title));
        }
        titles.unique_seq_to_set();
        window.lemma_cardinality_of_set();
        vstd::set_lib::lemma_len_subset(titles.to_set(), window.to_set());
        assert(false);
    }
}

/// The fallback scan lands on an unremembered track whenever one exists
/// at or after the scan position.
proof fn lemma_first_free_is_free(tracks: Seq<TrackView>, window: Seq<Seq<char>>, i: nat)
    requires
        exists|k: int| i <= k < tracks.len() && !window.contains(tracks[k].title),
    ensures
        ({
            let r = spec_first_free(tracks, window, i);
            i <= r < tracks.len() && !window.contains(tracks[r].title)
        }),
    decreases tracks.len() - i,
{
    let k = choose|k: int| i <= k < tracks.len() && !window.contains(tracks[k].title);
    if i >= tracks.len() {
        assert(false);
    } else if !window.contains(tracks[i as int].title) {
    } else {
        assert(k >= i + 1);
        lemma_first_free_is_free(tracks, window, i + 1);
    }
}

/// The selection never picks a remembered title, as long as some track is
/// unremembered: every accepted draw was tested against the window, and
/// the fallback scans for an unremembered title.
proof fn lemma_pick_search_is_free(
    tracks: Seq<TrackView>,
    window: Seq<Seq<char>>,
    state: u64,
    attempts_left: nat,
)
    requires
        1 <= tracks.len() <= u32::MAX,
        exists|k: int| 0 <= k < tracks.len() && !window.contains(tracks[k].title),
    ensures
        !window.contains(tracks[spec_pick_search(tracks, window, state, attempts_left).idx].title),
    decreases attempts_left,
{
    if attempts_left == 0 {
        lemma_first_free_is_free(tracks, window, 0);
    } else {
        let draw = spec_rand_below(state, tracks.len() as u32);
        if !window.contains(tracks[draw as int].title) {
        } else {
            lemma_pick_search_is_free(tracks, window, spec_rand_next(state), (attempts_left
                - 1) as nat);
        }
    }
}

/// Remembering the newest pick keeps the window equal to the newest eight
/// picks.
proof fn lemma_suffix_push(s: Seq<Seq<char>>, t: Seq<char>)
    requires
        s.len() >= 1,
        t == s.last(),
    ensures
        spec_window_push(
            spec_suffix(s.drop_last(), RECENT_TRACK_WINDOW as nat),
            t,
            RECENT_TRACK_WINDOW as nat,
        ) == spec_suffix(s, RECENT_TRACK_WINDOW as nat),
{
    let d = s.drop_last();
    if d.len() < RECENT_TRACK_WINDOW {
        assert(d.push(t) =~= s);
    } else {
        assert(spec_suffix(d, RECENT_TRACK_WINDOW as nat).skip(1).push(t) =~= s.skip(
            s.len() - RECENT_TRACK_WINDOW,
        ));
    }
}

/// The facts the recency argument carries along the whole broadcast: the
/// window remembers exactly the newest eight picks (save the one still
/// being aired), and no picked title repeats within eight picks.
spec fn spec_trace_invariant(station: StationView, steps: nat) -> bool {
    let c = spec_steps(station, steps);
    let picks = spec_picked_titles(station, steps);
    &&& match c.state {
        StateView::SilenceInterval => c.window == spec_suffix(picks, RECENT_TRACK_WINDOW as nat),
        StateView::TrackNarrationBefore { imminent_track, .. } => picks.len() >= 1
            && imminent_track.title == picks.last() && c.window == spec_suffix(
            picks.drop_last(),
            RECENT_TRACK_WINDOW as nat,
        ),
        StateView::Track { track } => picks.len() >= 1 && track.title == picks.last() && c.window
            == spec_suffix(picks.drop_last(), RECENT_TRACK_WINDOW as nat),
        StateView::TrackNarrationAfter { previous_track, .. } => picks.len() >= 1
            && previous_track.title == picks.last() && c.window == spec_suffix(
            picks.drop_last(),
            RECENT_TRACK_WINDOW as nat,
        ),
    }
    &&& forall|i: int, j: int|
        0 <= i < j < picks.len() && j - i <= RECENT_TRACK_WINDOW ==> picks[i] != picks[j]
}

/// The recency argument, by induction along the broadcast.
proof fn lemma_trace_invariant(station: StationView, steps: nat)
    requires
        station.wf(),
        RECENT_TRACK_WINDOW < station.tracks.len(),
        spec_distinct_titles(station),
    ensures
        spec_trace_invariant(station, steps),
    decreases steps,
{
    if steps == 0 {
        assert(spec_suffix(Seq::<Seq<char>>::empty(), RECENT_TRACK_WINDOW as nat)
            =~= Seq::<Seq<char>>::empty());
    } else {
        lemma_trace_invariant(station, (steps - 1) as nat);
        let c = spec_steps(station, (steps - 1) as nat);
        let picks = spec_picked_titles(station, (steps - 1) as nat);
        let c2 = spec_steps(station, steps);
        let picks2 = spec_picked_titles(station, steps);
        match c.state {
            StateView::SilenceInterval => {
                let p = spec_pick_track(station.tracks, c.window, c.rng);
                lemma_pick_search_in_range(
                    station.tracks,
                    c.window,
                    c.rng,
                    PICK_ATTEMPT_LIMIT as nat,
                );
                lemma_window_leaves_a_track(station.tracks, c.window);
                lemma_pick_search_is_free(
                    station.tracks,
                    c.window,
                    c.rng,
                    PICK_ATTEMPT_LIMIT as nat,
                );
                let t = station.tracks[p.idx].title;
                assert(picks2 == picks.push(t));
                assert(picks2.drop_last() =~= picks);
                assert forall|i: int, j: int|
                    0 <= i < j < picks2.len() && j - i <= RECENT_TRACK_WINDOW implies picks2[i]
                    != picks2[j] by {
                    if j == picks.len() {
                        assert(c.window.contains(picks[i])) by {
                            if picks.len() <= RECENT_TRACK_WINDOW {
                                assert(c.window[i] == picks[i]);
                            } else {
                                assert(c.window[i - (picks.len() - RECENT_TRACK_WINDOW)]
                                    == picks[i]);
                            }
                        }
                    }
                }
            },
            StateView::TrackNarrationBefore { .. } => {
            },
            StateView::Track { .. } => {
            },
            StateView::TrackNarrationAfter { previous_track, .. } => {
                lemma_suffix_push(picks, previous_track.title);
            },
        }
    }
}

/// Recency invariant: along the broadcast of a station with more than
/// eight tracks, all titled differently, no picked track title repeats
/// any of the eight picks before it.
pub proof fn lemma_recency_window(station: StationView, steps: nat, i: int, j: int)
    requires
        station.wf(),
        RECENT_TRACK_WINDOW < station.tracks.len(),
        spec_distinct_titles(station),
        0 <= i < j < spec_picked_titles(station, steps).len(),
        j - i <= RECENT_TRACK_WINDOW,
    ensures
        spec_picked_titles(station, steps)[i] != spec_picked_titles(station, steps)[j],
{
    lemma_trace_invariant(station, steps);
}

/// Every state the resolver can report lies on the broadcast trace: the
/// replay only ever walks the transitions of [`spec_steps`].
pub proof fn lemma_run_reaches_trace(station: StationView, remaining: nat, steps: nat)
    ensures
        exists|m: nat|
            #[trigger] spec_steps(station, m) == spec_run(
                station,
                remaining,
                spec_steps(station, steps),
            ).0,
    decreases remaining, spec_state_rank(spec_steps(station, steps).state),
{
    let c = spec_steps(station, steps);
    let duration = spec_state_duration(c.state);
    lemma_step_measure(station, c);
    if remaining < duration {
        assert(spec_steps(station, steps) == spec_run(station, remaining, c).0);
    } else {
        assert(spec_transition(station, c) == spec_steps(station, steps + 1));
        lemma_run_reaches_trace(station, (remaining - duration) as nat, steps + 1);
    }
}

/// Monotonic consistency: resolving again exactly when the current
/// state's remaining time runs out lands at offset zero of the successor
/// state, provided that successor takes any time at all (a successor of
/// zero duration is skipped over in the same instant).
pub proof fn lemma_boundary_consistency(station: StationView, elapsed_since_epoch: nat)
    requires
        ({
            let (c, offset) = spec_run(station, elapsed_since_epoch, spec_init_cfg(station));
            spec_state_duration(spec_transition(station, c).state) > 0
        }),
    ensures
        ({
            let (c, offset) = spec_run(station, elapsed_since_epoch, spec_init_cfg(station));
            let total = spec_state_duration(c.state);
            let next = spec_transition(station, c);
            spec_resolved(station, (elapsed_since_epoch + total - offset) as nat) == (
                next.state,
                0nat,
                spec_state_duration(next.state),
            )
        }),
{
    let (c, offset) = spec_run(station, elapsed_since_epoch, spec_init_cfg(station));
    let total = spec_state_duration(c.state);
    let next = spec_transition(station, c);
    lemma_run_offset_in_state(station, elapsed_since_epoch, spec_init_cfg(station));
    lemma_run_shift(station, elapsed_since_epoch, spec_init_cfg(station), (total - offset) as nat);
    assert(spec_run(station, elapsed_since_epoch + (total - offset) as nat, spec_init_cfg(station))
        == spec_run(station, (offset + (total - offset) as nat) as nat, c));
    assert(offset + (total - offset) as nat == total);
    assert(spec_run(station, total as nat, c) == spec_run(station, 0, next));
    assert(spec_run(station, 0, next) == (next, 0nat));
}

} // verus!
