//! The payloads exchanged with the remote collaborators: commands into
//! the playback state machine and status snapshots out of it.

use vstd::prelude::*;

verus! {

/// One playlist entry, as delivered by the catalog service.
#[derive(Debug, Clone)]
pub struct ImageInfo {
    pub id: String,
    pub path: String,
    pub order: u32,
    pub url: Option<String>,
    pub extension: Option<String>,
}

impl ImageInfo {
    /// An exact copy, field by field.
    pub fn duplicate(&self) -> (r: ImageInfo)
        ensures
            r == *self,
    {
        ImageInfo {
            id: self.id.clone(),
            path: self.path.clone(),
            order: self.order,
            url: match &self.url {
                Some(u) => Some(u.clone()),
                None => None,
            },
            extension: match &self.extension {
                Some(e) => Some(e.clone()),
                None => None,
            },
        }
    }
}

/// A partial configuration update: fields left out keep their prior
/// values.
#[derive(Debug, Clone)]
pub struct SlideshowConfig {
    pub transition_effect: Option<String>,
    pub display_duration: Option<u64>,
    pub transition_duration: Option<u64>,
    pub orientation: Option<String>,
}

/// A command for the playback state machine.
#[derive(Debug, Clone)]
pub enum SlideshowCommand {
    Play,
    Pause,
    Next,
    Previous,
    UpdateImages { images: Vec<ImageInfo> },
    UpdateConfig { config: SlideshowConfig },
    Reboot,
    Shutdown,
}

/// A status snapshot emitted after every command and auto-advance.
#[derive(Debug, Clone)]
pub struct TvStatus {
    pub status: String,
    pub current_image: Option<String>,
    pub total_images: usize,
    pub current_index: usize,
    pub uptime: u64,
    pub timestamp: String,
}

} // verus!
