//! The local control surface's pure pieces: the response envelope and
//! the mapping from control and configuration requests to commands.

use vstd::prelude::*;
use crate::messages::{SlideshowCommand, SlideshowConfig};

verus! {

/// The envelope every local endpoint answers with.
#[derive(Debug)]
pub struct ApiResponse<T> {
    pub success: bool,
    pub data: Option<T>,
    pub message: String,
}

impl<T> ApiResponse<T> {
    /// A successful response carrying a payload and a message.
    pub fn success(data: T, message: &str) -> (r: ApiResponse<T>)
        ensures
            r.success == true,
            r.data matches Some(d) && d == data,
            r.message@ == message@,
    {
        ApiResponse { success: true, data: Some(data), message: message.to_owned() }
    }
}

/// The command a control request carries, by its action word; an unknown
/// action is rejected and changes no state.
pub fn control_command(action: &str) -> (r: Option<SlideshowCommand>)
    ensures
        r == crate::remote::simple_command_action_spec(action@),
{
    crate::remote::simple_command_from_action(action)
}

/// The configuration update a config request carries: exactly the fields
/// present in the request.
pub fn config_command(
    display_duration: Option<u64>,
    transition_duration: Option<u64>,
    transition_effect: Option<String>,
    orientation: Option<String>,
) -> (r: SlideshowCommand)
    ensures
        r matches SlideshowCommand::UpdateConfig { config } && config.display_duration
            == display_duration && config.transition_duration == transition_duration
            && config.transition_effect == transition_effect && config.orientation
            == orientation,
{
    SlideshowCommand::UpdateConfig {
        config: SlideshowConfig {
            transition_effect,
            display_duration,
            transition_duration,
            orientation,
        },
    }
}

} // verus!
