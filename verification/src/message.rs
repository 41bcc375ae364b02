//! The two message vocabularies of the client's internal channels:
//! player intents flowing toward the client driver, and notifications
//! flowing toward the presentation layer.

use vstd::prelude::*;

use crate::game::Building;

verus! {

/// A player intent, produced by the presentation layer and consumed by
/// the client driver, which translates it into a wire command.
#[derive(Clone, Copy, Debug, PartialEq, Eq)]
pub enum FromGuiMessage {
    Build((u32, u32), Building),
    Excavate((u32, u32)),
    Skip,
    Quit,
}

/// A notification for the presentation layer, emitted by the listener
/// (and, for shutdown, by the driver) as it applies server answers.
#[derive(Debug, PartialEq)]
pub enum ToGuiMessage {
    Start,
    Message(String, String),
    ExcavateResult(i32, Option<Building>, (u32, u32)),
    ClearExcavate,
    ClearBuilding,
    SetBuilding((u32, u32), Building),
    RequestQuit,
    Quit,
    UpdateGrid,
    UpdateBuildings,
}

} // verus!
