//! Plain data types exchanged with system media controls: playback state,
//! repeat and shuffle modes, media-key events, track metadata and the
//! presence-display configuration.  Times are milliseconds.

use vstd::prelude::*;

verus! {

/// A media-key event kind coming from the host system.
#[derive(Debug, Clone, Copy, PartialEq, Eq, Structural)]
pub enum SystemMediaEventType {
    Play,
    Pause,
    Stop,
    NextSong,
    PreviousSong,
    ToggleShuffle,
    ToggleRepeat,
    Seek,
}

/// A media-key event, with a target position for seeks.
#[derive(Debug, Clone)]
pub struct SystemMediaEvent {
    pub type_: SystemMediaEventType,
    pub position_ms: Option<i64>,
}

impl SystemMediaEvent {
    /// An event without a position.
    pub fn new(t: SystemMediaEventType) -> (r: SystemMediaEvent)
        ensures
            r.type_ == t,
            r.position_ms is None,
    {
        SystemMediaEvent { type_: t, position_ms: None }
    }

    /// A seek event to an absolute position.
    pub fn seek(pos_ms: i64) -> (r: SystemMediaEvent)
        ensures
            r.type_ == SystemMediaEventType::Seek,
            r.position_ms == Some(pos_ms),
    {
        SystemMediaEvent { type_: SystemMediaEventType::Seek, position_ms: Some(pos_ms) }
    }
}

/// Whether the player is running.
#[derive(Debug, Clone, Copy, PartialEq, Eq, Structural)]
pub enum PlaybackStatus {
    Playing,
    Paused,
}

/// How the playlist repeats.
#[derive(Debug, Clone, Copy, PartialEq, Eq, Structural)]
pub enum RepeatMode {
    Off,
    Track,
    List,
}

/// Playback-state notification.
#[derive(Debug, Clone, Copy)]
pub struct PlayStatePayload {
    pub status: PlaybackStatus,
}

/// Progress notification.
#[derive(Debug, Clone, Copy)]
pub struct TimelinePayload {
    pub current_time_ms: i64,
    pub total_time_ms: i64,
}

/// Shuffle and repeat notification.
#[derive(Debug, Clone, Copy)]
pub struct PlayModePayload {
    pub is_shuffling: bool,
    pub repeat_mode: RepeatMode,
}

/// What a presence display shows after "Listening to".
#[derive(Debug, Clone, Copy, PartialEq, Eq, Structural)]
pub enum DiscordDisplayMode {
    Name,
    State,
    Details,
}

/// Presence-display configuration.
#[derive(Debug, Clone)]
pub struct DiscordConfigPayload {
    pub show_when_paused: bool,
    pub display_mode: Option<DiscordDisplayMode>,
}

/// Track metadata handed to the system controls.
#[derive(Debug, Clone)]
pub struct MetadataPayload {
    pub song_name: String,
    pub author_name: String,
    pub album_name: String,
    pub cover_data: Option<Vec<u8>>,
    pub original_cover_url: Option<String>,
    pub ncm_id: Option<i64>,
    pub duration_ms: Option<i64>,
}

} // verus!
