//! The fixed header at the start of a blob.

use vstd::prelude::*;
use crate::byte_utils::{block_value, read_aligned_be_u32, block_fits};
use crate::error::{DeviceTreeError, Result};

verus! {

/// Bytes that the header occupies: ten big-endian 32-bit fields.
pub const HEADER_SIZE: usize = 40;

/// The ten fields of the header, in the order in which they are stored.
#[derive(Debug, Clone, Copy, PartialEq, Eq, Structural)]
pub struct DeviceTreeHeader {
    pub magic: u32,
    pub total_size: u32,
    pub off_dt_struct: u32,
    pub off_dt_strings: u32,
    pub off_mem_reserved: u32,
    pub version: u32,
    pub last_comp_version: u32,
    pub boot_cpu_id: u32,
    pub size_dt_strings: u32,
    pub size_dt_struct: u32,
}

/// The header that the first ten blocks of `data` hold.
pub open spec fn header_of(data: Seq<u8>) -> DeviceTreeHeader {
    DeviceTreeHeader {
        magic: block_value(data, 0) as u32,
        total_size: block_value(data, 1) as u32,
        off_dt_struct: block_value(data, 2) as u32,
        off_dt_strings: block_value(data, 3) as u32,
        off_mem_reserved: block_value(data, 4) as u32,
        version: block_value(data, 5) as u32,
        last_comp_version: block_value(data, 6) as u32,
        boot_cpu_id: block_value(data, 7) as u32,
        size_dt_strings: block_value(data, 8) as u32,
        size_dt_struct: block_value(data, 9) as u32,
    }
}

/// Field `index` of a header that is known to fit.
fn header_word(data: &[u8], index: usize) -> (r: u32)
    requires
        index < 10,
        data@.len() >= HEADER_SIZE,
    ensures
        r == block_value(data@, index as int),
{
    match read_aligned_be_u32(data, index) {
        Some(v) => v,
        None => {
            assert(block_fits(data@, index as int));
            0
        },
    }
}

impl DeviceTreeHeader {
    /// Reads the header; the data must hold at least its forty bytes.
    pub fn from_bytes(data: &[u8]) -> (r: Result<DeviceTreeHeader>)
        ensures
            r == if data@.len() < HEADER_SIZE {
                Err(DeviceTreeError::NotEnoughLength)
            } else {
                Ok(header_of(data@))
            },
    {
        if data.len() < HEADER_SIZE {
            Err(DeviceTreeError::NotEnoughLength)
        } else {
            Ok(DeviceTreeHeader {
                magic: header_word(data, 0),
                total_size: header_word(data, 1),
                off_dt_struct: header_word(data, 2),
                off_dt_strings: header_word(data, 3),
                off_mem_reserved: header_word(data, 4),
                version: header_word(data, 5),
                last_comp_version: header_word(data, 6),
                boot_cpu_id: header_word(data, 7),
                size_dt_strings: header_word(data, 8),
                size_dt_struct: header_word(data, 9),
            })
        }
    }
}

} // verus!
