use vstd::prelude::*;

verus! {

/// Configuration for one dungeon: grid dimensions, how many floors to
/// produce, and what rooms to try to place on each.
#[derive(Clone, Debug)]
pub struct DungeonOptions {
    pub name: String,
    pub height: u32,
    pub width: u32,
    pub room_types: Vec<String>,
    pub amount_of_rooms: u32,
    pub room_size_low: u32,
    pub room_size_high: u32,
    pub start_finish_min_distance: u32,
    pub room_padding_density: u32,
    pub sparse: bool,
    pub count: u32,
}

/// A whole run: the dungeons to generate plus serialization options.
#[derive(Clone, Debug)]
pub struct DungeonParameters {
    pub dungeons: Vec<DungeonOptions>,
    pub file_path: String,
    pub output_format: String,
    pub include_images: bool,
}

} // verus!
