//! Sensor point-count parameters.

use vstd::prelude::*;

verus! {

/// Number of sensor points a reading holds by default.
pub const DEFAULT_POINT_COUNT: u32 = 21;
/// Largest number of sensor points a reading may hold.
pub const MAX_POINT_COUNT: u32 = 256;

/// The point capacity actually used for a requested capacity: the request
/// clamped to `1..=256`.
pub fn sensor_data_create_with_capacity(capacity: u32) -> (r: u32)
    ensures
        r == if capacity < 1 {
            1
        } else if capacity > MAX_POINT_COUNT {
            MAX_POINT_COUNT
        } else {
            capacity
        },
{
    if capacity < 1 {
        1
    } else if capacity > MAX_POINT_COUNT {
        MAX_POINT_COUNT
    } else {
        capacity
    }
}

/// Whether a reading of `actual_count` points is acceptable: 1 when it is,
/// 0 otherwise. With `expected_count` 0 any count in `1..=256` is
/// acceptable; otherwise the count must equal `expected_count` and be at
/// most 256.
pub fn sensor_data_validate_count(actual_count: u32, expected_count: u32) -> (r: i32)
    ensures
        r == 1 || r == 0,
        r == 1 <==> if expected_count == 0 {
            0 < actual_count <= MAX_POINT_COUNT
        } else {
            actual_count == expected_count && actual_count <= MAX_POINT_COUNT
        },
{
    if expected_count == 0 {
        return if actual_count > 0 && actual_count <= MAX_POINT_COUNT {
            1
        } else {
            0
        };
    }
    if actual_count == expected_count && actual_count <= MAX_POINT_COUNT {
        1
    } else {
        0
    }
}

pub fn sensor_data_get_default_count() -> (r: u32)
    ensures
        r == DEFAULT_POINT_COUNT,
{
    DEFAULT_POINT_COUNT
}

pub fn sensor_data_get_max_count() -> (r: u32)
    ensures
        r == MAX_POINT_COUNT,
{
    MAX_POINT_COUNT
}

} // verus!
