//! Terrain settings: memory and rendering choices, and the checks a terrain
//! configuration must pass.
use vstd::prelude::*;
use vstd::arithmetic::power2::{pow2, lemma2_to64, lemma2_to64_rest, lemma_pow2_pos, lemma_pow2_strictly_increases, lemma_pow2_unfold};

verus! {

/// `n` is a power of two.
pub open spec fn is_pow2(n: nat) -> bool {
    exists|k: nat| k < 64 && pow2(k) == n
}

/// The smallest power of two at least `n`: a power of two, at least `n`,
/// and either 1 or with its half below `n`.
pub open spec fn is_next_pow2(n: nat, r: nat) -> bool {
    is_pow2(r) && n <= r && (r == 1 || r / 2 < n)
}

/// The smallest power of two at least `n`, found by doubling from 1.
pub(crate) fn smallest_pow2_at_least(n: u64) -> (r: u64)
    requires
        n <= 0x8000_0000_0000_0000,
    ensures
        is_next_pow2(n as nat, r as nat),
{
    let mut p: u64 = 1;
    let ghost mut k: nat = 0;
    proof {
        lemma2_to64();
    }
    while p < n
        invariant
            n <= 0x8000_0000_0000_0000,
            p == pow2(k),
            p >= 1,
            k <= 63,
            p == 1 || p / 2 < n,
        decreases 64 - k,
    {
        proof {
            lemma2_to64();
            lemma2_to64_rest();
            if k >= 63 {
                if k > 63 {
                    lemma_pow2_strictly_increases(63, k);
                }
                assert(false);
            }
            if k < 62 {
                lemma_pow2_strictly_increases(k, 62);
            }
            lemma_pow2_unfold(k + 1);
        }
        p = p * 2;
        proof {
            k = k + 1;
        }
    }
    proof {
        assert(is_pow2(p as nat)) by {
            assert(k < 64 && pow2(k) == p);
        }
    }
    p
}

/// Where `r` is the smallest power of two at least `n`, `n` is a power of
/// two exactly when it is `r`, or 0 is never one.
proof fn lemma_pow2_is_smallest(n: nat, r: nat)
    requires
        is_next_pow2(n, r),
    ensures
        is_pow2(n) <==> (n != 0 && n == r),
{
    if is_pow2(n) {
        let j = choose|j: nat| j < 64 && pow2(j) == n;
        let k = choose|k: nat| k < 64 && pow2(k) == r;
        lemma_pow2_pos(j);
        if n != r {
            if j >= k {
                if j > k {
                    lemma_pow2_strictly_increases(k, j);
                }
            } else {
                lemma_pow2_unfold(k);
                if j < k - 1 {
                    lemma_pow2_strictly_increases(j, (k - 1) as nat);
                }
            }
        }
    }
}

/// Whether `n` is `2^k` for some `k`, as `u32::is_power_of_two` answers.
pub(crate) fn u32_is_power_of_two(n: u32) -> (r: bool)
    ensures
        r == is_pow2(n as nat),
{
    let p = smallest_pow2_at_least(n as u64);
    proof {
        lemma_pow2_is_smallest(n as nat, p as nat);
    }
    n != 0 && p == n as u64
}

/// Whether `n` is `2^k` for some `k`, as `usize::is_power_of_two` answers.
pub(crate) fn usize_is_power_of_two(n: usize) -> (r: bool)
    ensures
        r == is_pow2(n as nat),
{
    if n as u64 > 0x8000_0000_0000_0000u64 {
        proof {
            if is_pow2(n as nat) {
                let j = choose|j: nat| j < 64 && pow2(j) == n;
                lemma2_to64_rest();
                if j < 63 {
                    lemma_pow2_strictly_increases(j, 63);
                }
            }
        }
        return false;
    }
    let p = smallest_pow2_at_least(n as u64);
    proof {
        lemma_pow2_is_smallest(n as nat, p as nat);
    }
    n != 0 && p == n as u64
}

/// Settings needed for terrain memory management.
#[derive(Clone, Copy, PartialEq, Eq, Structural, Debug)]
pub struct TerrainMemorySettings {
    pub allocation_count: usize,
    pub sub_allocation_count: usize,
}

impl TerrainMemorySettings {
    /// One allocation split into 1024 sub-allocations.
    pub fn default() -> (r: TerrainMemorySettings)
        ensures
            r.allocation_count == 1,
            r.sub_allocation_count == 1024,
    {
        TerrainMemorySettings { allocation_count: 1, sub_allocation_count: 1024 }
    }
}

/// A terrain sub-material (a layer of the layered textures): the paths of
/// its textures.
#[derive(Clone, Debug)]
pub struct TerrainSubMaterial {
    pub diffuse: String,
    pub normal: String,
    pub mask: String,
}

/// How normals and colors are computed in the low poly rendering mode.
#[derive(Clone, Copy, PartialEq, Eq, Structural, Debug)]
pub enum TerrainRenderingLowPolyMode {
    /// Passed in as a flat attribute.
    Flat,
    /// Averaged over the three vertices of the triangle.
    Averaged,
}

/// How the terrain is rendered.
#[derive(Clone, Copy, PartialEq, Eq, Structural, Debug)]
pub enum TerrainRenderingMode {
    Blocky,
    LowPoly(TerrainRenderingLowPolyMode),
    Smooth,
}

/// Per vertex estimated voxel ambient occlusion.
#[derive(Clone, Copy, PartialEq, Eq, Structural, Debug)]
pub struct TerrainRenderingAmbientOcclusion {}

/// The default rendering mode: low poly with averaged attributes.
pub fn default_rendering_mode() -> (r: TerrainRenderingMode)
    ensures
        r == TerrainRenderingMode::LowPoly(TerrainRenderingLowPolyMode::Averaged),
{
    TerrainRenderingMode::LowPoly(TerrainRenderingLowPolyMode::Averaged)
}

/// Why a terrain configuration was refused.
#[derive(Clone, Copy, PartialEq, Eq, Structural, Debug)]
pub enum TerrainSettingsError {
    /// The chunk size is not a power of two.
    ChunkSizeNotPowerOfTwo,
    /// The chunk size is below 16.
    ChunkSizeTooSmall,
    /// The chunk size is 128 or more.
    ChunkSizeTooBig,
    /// The sub-allocation count is not a power of two.
    SubAllocationCountNotPowerOfTwo,
}

impl TerrainSettingsError {
    /// The message that describes the error.
    pub fn message(&self) -> (r: &'static str)
        ensures
            r@ == match self {
                TerrainSettingsError::ChunkSizeNotPowerOfTwo => "Given chunk size is not a power of two"@,
                TerrainSettingsError::ChunkSizeTooSmall => "Given chunk size is too small (less than 16)"@,
                TerrainSettingsError::ChunkSizeTooBig => "Given chunk size is too big (greater than or equal to 128)"@,
                TerrainSettingsError::SubAllocationCountNotPowerOfTwo => "Given sub allocation count is not a power of two"@,
            },
    {
        match self {
            TerrainSettingsError::ChunkSizeNotPowerOfTwo => "Given chunk size is not a power of two",
            TerrainSettingsError::ChunkSizeTooSmall => "Given chunk size is too small (less than 16)",
            TerrainSettingsError::ChunkSizeTooBig => "Given chunk size is too big (greater than or equal to 128)",
            TerrainSettingsError::SubAllocationCountNotPowerOfTwo => "Given sub allocation count is not a power of two",
        }
    }
}

/// The error a terrain configuration is refused with, checked in order: chunk
/// size below 16, of 128 or more, not a power of two, then a sub-allocation count
/// that is not a power of two.
pub open spec fn settings_error(size: u32, sub_allocation_count: usize) -> Option<TerrainSettingsError> {
    if size < 16 {
        Some(TerrainSettingsError::ChunkSizeTooSmall)
    } else if size >= 128 {
        Some(TerrainSettingsError::ChunkSizeTooBig)
    } else if !is_pow2(size as nat) {
        Some(TerrainSettingsError::ChunkSizeNotPowerOfTwo)
    } else if !is_pow2(sub_allocation_count as nat) {
        Some(TerrainSettingsError::SubAllocationCountNotPowerOfTwo)
    } else {
        None
    }
}

/// Checks a terrain configuration: its chunk size (`size`) and its memory settings.
pub fn validate_settings(size: u32, memory: &TerrainMemorySettings) -> (r: Result<(), TerrainSettingsError>)
    ensures
        match settings_error(size, memory.sub_allocation_count) {
            Some(e) => r == Err::<(), TerrainSettingsError>(e),
            None => r is Ok,
        },
{
    if size < 16 {
        return Err(TerrainSettingsError::ChunkSizeTooSmall);
    } else if size >= 128 {
        return Err(TerrainSettingsError::ChunkSizeTooBig);
    } else if !u32_is_power_of_two(size) {
        return Err(TerrainSettingsError::ChunkSizeNotPowerOfTwo);
    }
    if !usize_is_power_of_two(memory.sub_allocation_count) {
        return Err(TerrainSettingsError::SubAllocationCountNotPowerOfTwo);
    }
    Ok(())
}

} // verus!
