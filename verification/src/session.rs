//! The playback session: a state machine over {Stopped, Playing, Paused}
//! with a session-wide volume.
//!
//! The session itself never touches an audio device. The caller that owns
//! the real output pipeline (decoder, sink) reports the outcome of loading
//! a file to [`Player::play`], and this module decides the next state. All
//! transitions are specified against the abstract [`PlayerView`] model.

use vstd::prelude::*;

verus! {

/// Why a request to start playback failed.
#[derive(Debug, Clone, Copy, PartialEq, Eq)]
pub enum PlayError {
    /// The file at the requested path does not exist or could not be opened.
    NotFound,
    /// The file exists but could not be decoded as audio.
    DecodeError,
}

/// The transport state of the session, holding the path of the loaded
/// track while one is loaded.
#[derive(Debug, PartialEq, Eq)]
pub enum PlaybackState {
    Stopped,
    Playing { path: String },
    Paused { path: String },
}

/// Abstract transport state: as `PlaybackState`, with the path as a
/// sequence of characters.
pub enum StateView {
    Stopped,
    Playing(Seq<char>),
    Paused(Seq<char>),
}

/// Abstract state of a whole session: transport state plus volume.
pub struct PlayerView {
    pub state: StateView,
    pub volume: int,
}

impl View for PlaybackState {
    type V = StateView;

    open spec fn view(&self) -> StateView {
        match self {
            PlaybackState::Stopped => StateView::Stopped,
            PlaybackState::Playing { path } => StateView::Playing(path@),
            PlaybackState::Paused { path } => StateView::Paused(path@),
        }
    }
}

/// Volume is a scalar in 0..=MAX_VOLUME, where MAX_VOLUME stands for full
/// scale (1.0 of the output pipeline's unit range).
pub const MAX_VOLUME: u32 = 100;

/// A volume request clamped into 0..=MAX_VOLUME.
pub open spec fn clamped(v: int) -> int {
    if v < 0 {
        0
    } else if v > MAX_VOLUME {
        MAX_VOLUME as int
    } else {
        v
    }
}

/// Next state after a `play(path)` request whose loading step had the
/// given outcome: on success the session is Playing(path); on failure it
/// falls back to Stopped. Volume is kept either way.
pub open spec fn play_step(v: PlayerView, path: Seq<char>, loaded: Result<(), PlayError>) -> PlayerView {
    match loaded {
        Ok(_) => PlayerView { state: StateView::Playing(path), ..v },
        Err(_) => PlayerView { state: StateView::Stopped, ..v },
    }
}

/// Next state after `pause()`: Playing becomes Paused with the same path;
/// Stopped and Paused are left unchanged (a no-op, not an error).
pub open spec fn pause_step(v: PlayerView) -> PlayerView {
    match v.state {
        StateView::Playing(p) => PlayerView { state: StateView::Paused(p), ..v },
        _ => v,
    }
}

/// Next state after `resume()`: Paused becomes Playing with the same path;
/// Stopped and Playing are left unchanged (a no-op, not an error).
pub open spec fn resume_step(v: PlayerView) -> PlayerView {
    match v.state {
        StateView::Paused(p) => PlayerView { state: StateView::Playing(p), ..v },
        _ => v,
    }
}

/// Next state after `stop()`: always Stopped, volume kept.
pub open spec fn stop_step(v: PlayerView) -> PlayerView {
    PlayerView { state: StateView::Stopped, ..v }
}

/// Next state after `set_volume(x)`: transport state kept, volume clamped.
pub open spec fn set_volume_step(v: PlayerView, x: int) -> PlayerView {
    PlayerView { volume: clamped(x), ..v }
}

/// The playback session state machine. At most one track is loaded at a
/// time; a new `play` replaces it, never accumulates.
pub struct Player {
    state: PlaybackState,
    volume: u32,
}

impl View for Player {
    type V = PlayerView;

    closed spec fn view(&self) -> PlayerView {
        PlayerView { state: self.state@, volume: self.volume as int }
    }
}

impl Player {
    /// A session's volume always stays in range.
    pub open spec fn wf(self) -> bool {
        0 <= self@.volume <= MAX_VOLUME
    }

    /// A fresh session: nothing loaded, volume at full scale.
    pub fn new() -> (p: Player)
        ensures
            p@.state matches StateView::Stopped,
            p@.volume == MAX_VOLUME as int,
            p.wf(),
    {
        Player { state: PlaybackState::Stopped, volume: MAX_VOLUME }
    }

    /// Record the outcome of a `play(path)` request. `loaded` is the result
    /// of the caller's attempt to open and decode the file at `path` into a
    /// fresh output pipeline (the previous pipeline is discarded first, so
    /// pipelines never overlap). On success the session is Playing(path);
    /// on any failure it falls back to Stopped. The outcome is returned to
    /// the caller unchanged, never swallowed.
    pub fn play(&mut self, path: &str, loaded: Result<(), PlayError>) -> (r: Result<(), PlayError>)
        ensures
            final(self)@ == play_step(old(self)@, path@, loaded),
            r == loaded,
            old(self).wf() ==> final(self).wf(),
    {
        if loaded.is_ok() {
            self.state = PlaybackState::Playing { path: path.to_owned() };
        } else {
            self.state = PlaybackState::Stopped;
        }
        loaded
    }

    /// Suspend playback; a no-op unless a track is Playing.
    pub fn pause(&mut self)
        ensures
            final(self)@ == pause_step(old(self)@),
            old(self).wf() ==> final(self).wf(),
    {
        let suspended: Option<String> = match &self.state {
            PlaybackState::Playing { path } => Some(path.clone()),
            _ => None,
        };
        if let Some(path) = suspended {
            self.state = PlaybackState::Paused { path };
        }
    }

    /// Resume the suspended track; a no-op unless a track is Paused.
    pub fn resume(&mut self)
        ensures
            final(self)@ == resume_step(old(self)@),
            old(self).wf() ==> final(self).wf(),
    {
        let resumed: Option<String> = match &self.state {
            PlaybackState::Paused { path } => Some(path.clone()),
            _ => None,
        };
        if let Some(path) = resumed {
            self.state = PlaybackState::Playing { path };
        }
    }

    /// Discard the loaded track, whatever the state; volume is kept.
    pub fn stop(&mut self)
        ensures
            final(self)@ == stop_step(old(self)@),
            old(self).wf() ==> final(self).wf(),
    {
        self.state = PlaybackState::Stopped;
    }

    /// Whether the session is in the Paused state.
    pub fn is_paused(&self) -> (r: bool)
        ensures
            r == (self@.state matches StateView::Paused(_)),
    {
        match &self.state {
            PlaybackState::Paused { .. } => true,
            _ => false,
        }
    }

    /// The transport state, for rendering.
    pub fn current_state(&self) -> (s: &PlaybackState)
        ensures
            s@ == self@.state,
    {
        &self.state
    }

    /// The current volume, in 0..=MAX_VOLUME.
    pub fn volume(&self) -> (r: u32)
        ensures
            r as int == self@.volume,
    {
        self.volume
    }

    /// Set the session volume, clamping the request into 0..=MAX_VOLUME.
    /// The transport state is untouched; the value holds for the currently
    /// loaded pipeline and for every later `play`.
    pub fn set_volume(&mut self, v: i64)
        ensures
            final(self)@ == set_volume_step(old(self)@, v as int),
            final(self).wf(),
    {
        let w: u32 = if v < 0 {
            0
        } else if v > MAX_VOLUME as i64 {
            MAX_VOLUME
        } else {
            v as u32
        };
        self.volume = w;
    }
}

/// From Stopped, none of pause, resume or stop changes the session: only a
/// `play` can leave the Stopped state.
pub proof fn lemma_stopped_is_stable(v: PlayerView)
    requires
        v.state matches StateView::Stopped,
    ensures
        pause_step(v) == v,
        resume_step(v) == v,
        stop_step(v) == v,
{
}

/// From Playing, `pause` then `resume` returns the session to an equivalent
/// state: same loaded path, same volume.
pub proof fn lemma_pause_resume_round_trip(v: PlayerView)
    requires
        v.state matches StateView::Playing(_),
    ensures
        resume_step(pause_step(v)) == v,
{
}

/// `stop` yields Stopped with no loaded path, from every state.
pub proof fn lemma_stop_always_stops(v: PlayerView)
    ensures
        stop_step(v).state matches StateView::Stopped,
        stop_step(v).volume == v.volume,
{
}

/// `set_volume` clamps every request into range, keeps the transport state,
/// and an in-range request is stored exactly.
pub proof fn lemma_set_volume_clamps(v: PlayerView, x: int)
    ensures
        0 <= set_volume_step(v, x).volume <= MAX_VOLUME,
        set_volume_step(v, x).state == v.state,
        0 <= x <= MAX_VOLUME ==> set_volume_step(v, x).volume == x,
{
}

/// A volume set while Stopped is honored by the next successful `play`:
/// the session ends up Playing the requested path at exactly that volume.
pub proof fn lemma_volume_survives_play(v: PlayerView, x: int, path: Seq<char>)
    requires
        v.state matches StateView::Stopped,
        0 <= x <= MAX_VOLUME,
    ensures
        play_step(set_volume_step(v, x), path, Ok(())) == (PlayerView {
            state: StateView::Playing(path),
            volume: x,
        }),
{
}

} // verus!
