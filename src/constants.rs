use vstd::prelude::*;

verus! {

/// Fixed-point scale: one world unit is this many coordinate units.
pub const UNIT: i64 = 10_000;
pub const HALF_UNIT: i64 = 5_000;

// Snake
pub const SNAKE_INITIAL_LENGTH: usize = 5;
/// Hard cap on the number of nodes of a snake.
pub const SNAKE_MAX_LENGTH: usize = 500;
/// Per-tick displacement of a head at normal speed (2 world units).
pub const SNAKE_SPEED: i64 = 20_000;
/// Speed multiplier while accelerating.
pub const SNAKE_SPEED_ACCELERATE: i64 = 4;
pub const SNAKE_SKIN_COLOR_RANGE: i64 = 255;
pub const SNAKE_ROTATE_SPEED: i64 = 50_000;
pub const SNAKE_NODE_SPACE: i64 = 0;
/// Rest distance between two consecutive nodes (7.071 world units).
pub const SNAKE_NODE_INITIAL_DISTANCE: i64 = 70_710;
pub const SNAKE_INITIAL_SIZE: i64 = 170_000;
pub const SNAKE_HALF_SIZE: i64 = 85_000;
/// Half-width of the boxes used for snake-against-snake collisions (a third
/// of the snake size, rounded down).
pub const SNAKE_HIT_HALF_SIZE: i64 = 56_666;
pub const SNAKE_IT_IS_TIME_TO_SHORTER: i32 = 20;

// Bait
pub const MAX_BAIT_COLOR_RANGE: i64 = 255;
pub const MAX_BAIT_SIZE: i64 = 100_000;
pub const MIN_BAITS: usize = 0;
pub const MAX_BAITS: usize = 1000;
pub const MAX_BAITS_SIZE_ON_DEAD: i64 = 150_000;
/// Size of the bait dropped while a snake accelerates.
pub const ACCELERATE_BAIT_SIZE: i64 = 50_000;
/// Bound of the jitter applied to each bait of a death burst.
pub const DEATH_BAIT_JITTER: i64 = 50_000;

// Map
pub const MAP_WIDTH: i64 = 20_000_000;
pub const MAP_HEIGHT: i64 = 20_000_000;
pub const BORDER_WIDTH: i64 = 40_000_000;
pub const BORDER_HEIGHT: i64 = 40_000_000;
pub const OFFSET_X: i64 = 8_000_000;
pub const OFFSET_Y: i64 = 8_000_000;
pub const TRUE_MAP_WIDTH: i64 = 32_000_000;
pub const TRUE_MAP_HEIGHT: i64 = 32_000_000;
/// Distance kept from the border when a snake is spawned.
pub const SPAWN_MARGIN: i64 = 5_000_000;
/// Distance kept from the border when a bait is spawned.
pub const BAIT_MARGIN: i64 = 100_000;

// Node coordinates are clamped into this rectangle after every step: the map
// inset by half a snake width.
pub const MIN_NODE_X: i64 = 8_085_000;
pub const MAX_NODE_X: i64 = 31_915_000;
pub const MIN_NODE_Y: i64 = 8_085_000;
pub const MAX_NODE_Y: i64 = 31_915_000;

// Game
pub const GAME_LOOP_DELAY: u64 = 50;
/// Sessions silent for longer than this many seconds are dropped.
pub const INACTIVITY_TIMEOUT_SECS: u64 = 30;

} // verus!
