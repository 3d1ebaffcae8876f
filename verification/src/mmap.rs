//! The steps by which the firmware's memory map is fetched, and memory for
//! the set of frames in use with it: what to do after each answer of the
//! firmware.

use crate::uefi::{Error, Status, StatusError};
use vstd::prelude::*;

verus! {

/// How often a map is asked for again with a page more after the firmware
/// found the buffer too small.
pub const MAP_RETRIES: usize = 3;

/// How often the memory for the set of frames is asked for.
pub const BITSET_ATTEMPTS: usize = 5;

/// The pages for a map of `memory_map_size` bytes, with room for four
/// descriptors more of `desc_size` bytes each.
pub open spec fn buffer_pages(memory_map_size: usize, desc_size: usize) -> int {
    (memory_map_size + desc_size * 4 + 0xFFF) / 0x1000
}

/// What follows an attempt to fetch the map into a buffer.
#[derive(Debug, Copy, Clone, PartialEq, Eq, Structural)]
pub enum MapStep {
    /// The buffer holds a map of this many descriptors.
    Done { elements: usize },
    /// The buffer is to be freed, and one of this many pages tried, with
    /// this many retries left.
    Retry { page_count: usize, retries: usize },
    /// The buffer is to be freed and the error returned.
    GiveUp,
}

/// What follows an attempt to get memory for the set of frames.
#[derive(Debug, Copy, Clone, PartialEq, Eq, Structural)]
pub enum BitsetStep {
    /// The memory suffices: the set has this many words.
    Done { words: usize },
    /// The memory is to be freed and asked for again, after this many
    /// attempts.
    Retry { attempts: usize },
    /// The memory is to be freed and the search given up.
    GiveUp,
}

/// The pages of the buffer to start with, after the firmware was asked for
/// the map's size with no buffer: those of the buffer that is kept from
/// an earlier call, else those for the size that the firmware gave.
///
/// The firmware must have refused the call for the buffer's size; success
/// is reported as `CompromisedData`, and any other error is returned.
pub fn map_buffer_pages(
    probe: Result<(), StatusError>,
    kept: Option<usize>,
    memory_map_size: usize,
    desc_size: usize,
) -> (pages: Result<usize, StatusError>)
    requires
        kept is None ==> memory_map_size + desc_size * 4 + 0xFFF <= usize::MAX,
    ensures
        pages == match probe {
            Ok(_) => Err::<usize, StatusError>(
                (StatusError {
                    code: Status(Error::CompromisedData.spec_code()),
                    error: Error::CompromisedData,
                }),
            ),
            Err(e) => if e.error != Error::BufferTooSmall {
                Err(e)
            } else {
                match kept {
                    Some(count) => Ok(count),
                    None => Ok(buffer_pages(memory_map_size, desc_size) as usize),
                }
            },
        },
{
    match probe {
        Ok(_) => Err(StatusError::from(Error::CompromisedData)),
        Err(e) => {
            if e.error != Error::BufferTooSmall {
                Err(e)
            } else {
                match kept {
                    Some(count) => Ok(count),
                    None => Ok((memory_map_size + desc_size * 4 + 0xFFF) / 0x1000),
                }
            }
        },
    }
}

/// The step after the firmware was asked for the map with a buffer of
/// `page_count` pages, with `retries` retries left: on success the map has
/// as many descriptors as its size holds; on an error a page more is
/// tried while retries are left.
pub fn after_map_attempt(
    succeeded: bool,
    retries: usize,
    page_count: usize,
    memory_map_size: usize,
    desc_size: usize,
) -> (step: MapStep)
    requires
        succeeded ==> desc_size > 0,
        !succeeded && retries > 0 ==> page_count < usize::MAX,
    ensures
        step == if succeeded {
            (MapStep::Done { elements: (memory_map_size / desc_size) as usize })
        } else if retries == 0 {
            MapStep::GiveUp
        } else {
            (MapStep::Retry {
                page_count: (page_count + 1) as usize,
                retries: (retries - 1) as usize,
            })
        },
{
    if succeeded {
        MapStep::Done { elements: memory_map_size / desc_size }
    } else if retries == 0 {
        MapStep::GiveUp
    } else {
        MapStep::Retry { page_count: page_count + 1, retries: retries - 1 }
    }
}

/// The step after memory of `first_pages` pages was got for the set of
/// frames and the map, fetched again, asks for `final_pages` pages, after
/// `attempts` attempts before this one: the memory suffices where the map
/// asks for no more, and holds 512 words for each page asked for.
pub fn after_bitset_attempt(first_pages: usize, final_pages: usize, attempts: usize) -> (step:
    BitsetStep)
    requires
        final_pages <= first_pages ==> final_pages * 512 <= usize::MAX,
        attempts < BITSET_ATTEMPTS,
    ensures
        step == if final_pages <= first_pages {
            (BitsetStep::Done { words: (final_pages * 512) as usize })
        } else if attempts + 1 < BITSET_ATTEMPTS {
            (BitsetStep::Retry { attempts: (attempts + 1) as usize })
        } else {
            BitsetStep::GiveUp
        },
{
    if final_pages <= first_pages {
        BitsetStep::Done { words: final_pages * 512 }
    } else if attempts + 1 < BITSET_ATTEMPTS {
        BitsetStep::Retry { attempts: attempts + 1 }
    } else {
        BitsetStep::GiveUp
    }
}

} // verus!
