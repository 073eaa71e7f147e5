//! Playback progress: the status that the playback loop publishes and the
//! decision it takes at each tick.

use vstd::prelude::*;

verus! {

/// A command sent to the playback loop.
#[derive(Debug, Clone, Copy, PartialEq, Eq, Structural)]
pub enum PlayerCommand {
    /// Stop the playback.
    Stop,
    /// Move the playback position by this many samples (back when negative).
    Seek(i64),
    /// Pause a sounding playback, resume a paused one.
    TogglePause,
}

/// Progress of a playback, in interleaved samples.
#[derive(Debug, PartialEq, Eq, Structural)]
pub struct PlayerStatus {
    pub position_samples: usize,
    pub total_samples: usize,
    pub sample_rate: u32,
    pub is_playing: bool,
    pub is_paused: bool,
}

impl Clone for PlayerStatus {
    fn clone(&self) -> (s: Self)
        ensures
            s == *self,
    {
        PlayerStatus {
            position_samples: self.position_samples,
            total_samples: self.total_samples,
            sample_rate: self.sample_rate,
            is_playing: self.is_playing,
            is_paused: self.is_paused,
        }
    }
}

/// What the playback loop does next.
#[derive(Debug, Clone, Copy, PartialEq, Eq, Structural)]
pub enum PlaybackAction {
    /// Stop the output and leave the loop.
    StopOutput,
    /// Move the output to this sample position, then tick.
    SeekOutput(usize),
    /// Pause the output, then tick.
    PauseOutput,
    /// Resume the output, then tick.
    ResumeOutput,
    /// The output ran dry: leave the loop.
    Finished,
    /// Wait one update interval and tick again.
    Continue,
}

/// `position + delta`, kept within `0..=total`.
pub open spec fn clamped_position(position: int, delta: int, total: int) -> int {
    let target = position + delta;
    if target < 0 {
        0
    } else if target > total {
        total
    } else {
        target
    }
}

/// The status after one tick: an empty output finishes the playback at the
/// end; a paused playback stays where it is; otherwise the position
/// advances by `step`, but not past the end.
pub open spec fn spec_tick(s: PlayerStatus, output_empty: bool, step: usize) -> PlayerStatus {
    if output_empty {
        PlayerStatus { is_playing: false, position_samples: s.total_samples, ..s }
    } else if s.is_paused {
        s
    } else if s.position_samples + step > s.total_samples {
        PlayerStatus { position_samples: s.total_samples, ..s }
    } else {
        PlayerStatus { position_samples: (s.position_samples + step) as usize, ..s }
    }
}

/// Only an empty output ends a playback: a tick on a sounding output keeps
/// whether it plays and whether it is paused, a paused playback keeps its
/// position, a playing one never moves back; an empty output ends it at the
/// end of the track.
pub proof fn lemma_tick_ends_only_on_empty_output(s: PlayerStatus, step: usize)
    ensures
        spec_tick(s, false, step).is_playing == s.is_playing,
        spec_tick(s, false, step).is_paused == s.is_paused,
        spec_tick(s, false, step).total_samples == s.total_samples,
        s.is_paused ==> spec_tick(s, false, step).position_samples == s.position_samples,
        s.wf() ==> s.position_samples <= spec_tick(s, false, step).position_samples <= s.total_samples,
        s.wf() && !s.is_paused && s.position_samples + step <= s.total_samples
            ==> spec_tick(s, false, step).position_samples == s.position_samples + step,
        !spec_tick(s, true, step).is_playing,
        spec_tick(s, true, step).position_samples == s.total_samples,
{
}

/// The status after `k` ticks while the output still sounds.
pub open spec fn spec_ticks(s: PlayerStatus, step: usize, k: nat) -> PlayerStatus
    decreases k,
{
    if k == 0 {
        s
    } else {
        spec_tick(spec_ticks(s, step, (k - 1) as nat), false, step)
    }
}

/// While the output sounds and nobody pauses it, each tick raises the position by `step`, capped
/// at the end, and leaves everything else as it is; once the output is
/// empty, the next tick ends the playback at the end of the track. Every
/// tick along the way meets the bound that `tick` asks for.
pub proof fn lemma_playback_progress(s: PlayerStatus, step: usize, k: nat)
    requires
        s.wf(),
        !s.is_paused,
        s.total_samples + step <= usize::MAX,
    ensures
        spec_ticks(s, step, k).position_samples == (if s.position_samples + k * step > s.total_samples {
            s.total_samples as int
        } else {
            s.position_samples + k * step
        }),
        spec_ticks(s, step, k).total_samples == s.total_samples,
        spec_ticks(s, step, k).sample_rate == s.sample_rate,
        spec_ticks(s, step, k).is_playing == s.is_playing,
        spec_ticks(s, step, k).is_paused == s.is_paused,
        spec_ticks(s, step, k).wf(),
        spec_ticks(s, step, k).position_samples + step <= usize::MAX,
        !spec_tick(spec_ticks(s, step, k), true, step).is_playing,
        spec_tick(spec_ticks(s, step, k), true, step).position_samples == s.total_samples,
    decreases k,
{
    if k > 0 {
        lemma_playback_progress(s, step, (k - 1) as nat);
        assert(k * step == (k - 1) * step + step) by (nonlinear_arith)
            requires k > 0;
        assert((k - 1) * step >= 0) by (nonlinear_arith)
            requires k > 0;
    }
}

/// How often the playback loop updates the status, in milliseconds.
pub const UPDATE_MILLIS: u64 = 100;

/// The interleaved samples that play during one update: a tenth of a second
/// of frames (rounded down) times the channels.
pub fn samples_per_update(sample_rate: u32, channels: usize) -> (step: usize)
    requires
        (sample_rate / 10) * channels <= usize::MAX,
    ensures
        step == (sample_rate / 10) * channels,
{
    let frames: usize = (sample_rate / 10) as usize;
    frames * channels
}

impl PlayerStatus {
    /// The status of a playback that starts at the beginning of a track of
    /// `total_samples` samples.
    pub fn new(total_samples: usize, sample_rate: u32) -> (s: Self)
        ensures
            s.position_samples == 0,
            s.total_samples == total_samples,
            s.sample_rate == sample_rate,
            s.is_playing,
            !s.is_paused,
            s.wf(),
    {
        PlayerStatus { position_samples: 0, total_samples, sample_rate, is_playing: true, is_paused: false }
    }

    /// The position never passes the end.
    pub open spec fn wf(&self) -> bool {
        self.position_samples <= self.total_samples
    }

    /// The playback loop received `command`: a stop leaves the status as it
    /// is, a seek moves the position by the given number of samples, but not
    /// before the start nor past the end, and a pause toggle flips whether
    /// the playback is paused.
    pub fn handle_command(&mut self, command: PlayerCommand) -> (action: PlaybackAction)
        ensures
            final(self).total_samples == old(self).total_samples,
            final(self).sample_rate == old(self).sample_rate,
            final(self).is_playing == old(self).is_playing,
            old(self).wf() ==> final(self).wf(),
            !(command is TogglePause) ==> final(self).is_paused == old(self).is_paused,
            !(command is Seek) ==> final(self).position_samples == old(self).position_samples,
            match command {
                PlayerCommand::Stop => action == PlaybackAction::StopOutput,
                PlayerCommand::Seek(delta) => action == PlaybackAction::SeekOutput(final(self).position_samples)
                    && final(self).position_samples == clamped_position(
                    old(self).position_samples as int,
                    delta as int,
                    old(self).total_samples as int,
                ),
                PlayerCommand::TogglePause => final(self).is_paused == !old(self).is_paused
                    && action == (if old(self).is_paused {
                    PlaybackAction::ResumeOutput
                } else {
                    PlaybackAction::PauseOutput
                }),
            },
    {
        match command {
            PlayerCommand::Stop => PlaybackAction::StopOutput,
            PlayerCommand::TogglePause => {
                if self.is_paused {
                    self.is_paused = false;
                    PlaybackAction::ResumeOutput
                } else {
                    self.is_paused = true;
                    PlaybackAction::PauseOutput
                }
            },
            PlayerCommand::Seek(delta) => {
                let moved: usize = if delta < 0 {
                    let back: u128 = (-(delta as i128)) as u128;
                    assert(back == -delta);
                    if back >= self.position_samples as u128 {
                        0
                    } else {
                        let b: usize = back as usize;
                        self.position_samples - b
                    }
                } else {
                    let ahead: u128 = delta as u128;
                    assert(ahead == delta);
                    if self.position_samples >= self.total_samples {
                        self.total_samples
                    } else if ahead >= (self.total_samples - self.position_samples) as u128 {
                        self.total_samples
                    } else {
                        let a: usize = ahead as usize;
                        self.position_samples + a
                    }
                };
                let position: usize = if moved > self.total_samples { self.total_samples } else { moved };
                self.position_samples = position;
                PlaybackAction::SeekOutput(position)
            },
        }
    }

    /// One tick of the playback loop: an empty output marks the playback
    /// finished at the end; a paused playback stays where it is; otherwise
    /// the position advances by `samples_per_update`, but not past the end.
    pub fn tick(&mut self, output_empty: bool, samples_per_update: usize) -> (action: PlaybackAction)
        requires
            old(self).position_samples + samples_per_update <= usize::MAX,
        ensures
            *final(self) == spec_tick(*old(self), output_empty, samples_per_update),
            old(self).wf() ==> final(self).wf(),
            !output_empty ==> final(self).is_playing == old(self).is_playing,
            final(self).is_paused == old(self).is_paused,
            !output_empty && old(self).is_paused ==> final(self).position_samples == old(self).position_samples,
            old(self).position_samples <= final(self).position_samples || old(self).position_samples
                > old(self).total_samples,
            output_empty ==> action is Finished,
            !output_empty ==> action is Continue,
    {
        if output_empty {
            self.is_playing = false;
            self.position_samples = self.total_samples;
            return PlaybackAction::Finished;
        }
        if self.is_paused {
            return PlaybackAction::Continue;
        }
        let mut position = self.position_samples + samples_per_update;
        if position > self.total_samples {
            position = self.total_samples;
        }
        self.position_samples = position;
        PlaybackAction::Continue
    }
}

/// Seeking by `delta` and then by `-delta` comes back to the start, as long
/// as the first seek stayed within the track.
pub proof fn lemma_seek_back_returns(position: int, delta: int, total: int)
    requires
        0 <= position <= total,
        0 <= position + delta <= total,
    ensures
        clamped_position(clamped_position(position, delta, total), -delta, total) == position,
{
}

/// The keys that the playback screen reacts to.
#[derive(Debug, Clone, Copy, PartialEq, Eq, Structural)]
pub enum Key {
    Escape,
    Space,
    Left,
    Right,
    Up,
    Down,
    Enter,
    Other,
}

/// What a key press asks of the playback.
#[derive(Debug, Clone, Copy, PartialEq, Eq, Structural)]
pub enum KeyAction {
    /// Stop the playback and leave.
    Exit,
    /// Move the playback by this many samples.
    Seek(i64),
    /// Pause a sounding playback, resume a paused one.
    TogglePause,
    /// Switch to the next track.
    NextTrack,
    /// Switch to the previous track.
    PreviousTrack,
    /// Switch to a track picked at random.
    RandomTrack,
    /// Nothing.
    Ignore,
}

/// How far one press of an arrow key moves the playback, in seconds.
pub const SEEK_SECONDS: u32 = 5;

/// `SEEK_SECONDS` of interleaved audio, in samples, as far as an `i64`
/// holds it.
pub open spec fn seek_step(sample_rate: u32, channels: usize) -> int {
    let step = SEEK_SECONDS * sample_rate * channels;
    if step > i64::MAX { i64::MAX as int } else { step }
}

/// A skip is five seconds of interleaved samples at the track's rate and
/// channel count, whatever the rate: `5 * sample_rate * channels`, or the
/// largest `i64` where that does not fit.
pub proof fn lemma_skip_is_five_seconds(sample_rate: u32, channels: usize)
    ensures
        5 * sample_rate * channels <= i64::MAX ==> seek_step(sample_rate, channels) == 5 * sample_rate
            * channels,
        5 * sample_rate * channels > i64::MAX ==> seek_step(sample_rate, channels) == i64::MAX,
        seek_step(sample_rate, channels) >= 0,
{
    assert(5 * sample_rate * channels >= 0) by (nonlinear_arith);
}

/// The response to a key press: escape leaves, space pauses and resumes,
/// the left and right arrows move the playback back and forth by
/// `SEEK_SECONDS`, up and down switch to the next and previous track, and
/// enter switches to a random track.
pub fn key_action(key: Key, sample_rate: u32, channels: usize) -> (action: KeyAction)
    ensures
        match key {
            Key::Escape => action is Exit,
            Key::Space => action is TogglePause,
            Key::Up => action is NextTrack,
            Key::Down => action is PreviousTrack,
            Key::Enter => action is RandomTrack,
            Key::Left => action == KeyAction::Seek(-seek_step(sample_rate, channels) as i64),
            Key::Right => action == KeyAction::Seek(seek_step(sample_rate, channels) as i64),
            Key::Other => action is Ignore,
        },
        key is Right && 5 * sample_rate * channels <= i64::MAX ==> action == KeyAction::Seek(
            (5 * sample_rate * channels) as i64,
        ),
        key is Left && 5 * sample_rate * channels <= i64::MAX ==> action == KeyAction::Seek(
            (-(5 * sample_rate * channels)) as i64,
        ),
        key is Right && 5 * sample_rate * channels > i64::MAX ==> action == KeyAction::Seek(i64::MAX),
        key is Left && 5 * sample_rate * channels > i64::MAX ==> action == KeyAction::Seek((-i64::MAX) as i64),
{
    let rate: u128 = sample_rate as u128;
    let ch: u128 = channels as u128;
    assert(SEEK_SECONDS as u128 * rate <= 0xffff_ffff_ffff) by (nonlinear_arith)
        requires rate <= 0xffff_ffff;
    let per_channel: u128 = SEEK_SECONDS as u128 * rate;
    assert(per_channel * ch <= 0xffff_ffff_ffff * 0xffff_ffff_ffff_ffff) by (nonlinear_arith)
        requires per_channel <= 0xffff_ffff_ffff, ch <= 0xffff_ffff_ffff_ffff;
    let full: u128 = per_channel * ch;
    let step: i64 = if full > i64::MAX as u128 { i64::MAX } else { full as i64 };
    assert(step == seek_step(sample_rate, channels));
    match key {
        Key::Escape => KeyAction::Exit,
        Key::Space => KeyAction::TogglePause,
        Key::Up => KeyAction::NextTrack,
        Key::Down => KeyAction::PreviousTrack,
        Key::Enter => KeyAction::RandomTrack,
        Key::Left => KeyAction::Seek(-step),
        Key::Right => KeyAction::Seek(step),
        Key::Other => KeyAction::Ignore,
    }
}

} // verus!
