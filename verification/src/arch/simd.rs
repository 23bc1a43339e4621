//! How the SIMD state of threads is kept: which control bits to set, which save and restore
//! instructions to use, and how large and how aligned the save area is.
use vstd::prelude::*;

verus! {

/// The instructions that save and restore the SIMD state.
#[derive(Debug, Clone, Copy, PartialEq, Eq, Structural)]
pub enum SimdSaveMethod {
    /// `xsaves` and `xrstors`.
    Xsaves,
    /// `xsaveopt` and `xrstor`.
    Xsaveopt,
    /// `xsave` and `xrstor`.
    Xsave,
    /// `fxsave` and `fxrstor`.
    Fxsave,
}

/// What the processor's features make of the SIMD setup.
#[derive(Debug, Clone, Copy, PartialEq, Eq, Structural)]
pub struct SimdConfig {
    /// Bits to set in CR4.
    pub cr4_bits: u64,
    /// The value for XCR0, when XSAVE is used.
    pub xcr0: Option<u64>,
    /// How the state is saved and restored.
    pub method: SimdSaveMethod,
    /// Bytes of a save area.
    pub save_size: u32,
    /// Alignment of a save area.
    pub save_align: u32,
}

/// Decides the SIMD setup from the processor's features: SSE with its exceptions always
/// (OSFXSR, OSXMMEXCPT); with XSAVE also OSXSAVE, the x87 and SSE state and, where the
/// processor has it, the AVX state, saved by the best of `xsaves`, `xsaveopt` and `xsave` into
/// an area of `xsave_size` bytes aligned to 64; without XSAVE, `fxsave` into 512 bytes
/// aligned to 16.
pub fn simd_config(has_xsave: bool, xcr0_supports_avx: bool, has_xsaves: bool, has_xsaveopt: bool, xsave_size: u32) -> (r: SimdConfig)
    requires
        has_xsave ==> xsave_size > 0,
    ensures
        has_xsave ==> r == (SimdConfig {
            cr4_bits: 0x40600,
            xcr0: Some(if xcr0_supports_avx { 7u64 } else { 3u64 }),
            method: if has_xsaves {
                SimdSaveMethod::Xsaves
            } else if has_xsaveopt {
                SimdSaveMethod::Xsaveopt
            } else {
                SimdSaveMethod::Xsave
            },
            save_size: xsave_size,
            save_align: 64,
        }),
        !has_xsave ==> r == (SimdConfig {
            cr4_bits: 0x600,
            xcr0: None,
            method: SimdSaveMethod::Fxsave,
            save_size: 512,
            save_align: 16,
        }),
{
    // OSFXSR and OSXMMEXCPT: at least SSE2 is available.
    let sse: u64 = 0x600;
    if has_xsave {
        // OSXSAVE; XCR0 will have the x87 and SSE states for sure.
        let xcr0: u64 = if xcr0_supports_avx { 7 } else { 3 };
        let method = if has_xsaves {
            SimdSaveMethod::Xsaves
        } else if has_xsaveopt {
            SimdSaveMethod::Xsaveopt
        } else {
            SimdSaveMethod::Xsave
        };
        SimdConfig { cr4_bits: sse + 0x40000, xcr0: Some(xcr0), method, save_size: xsave_size, save_align: 64 }
    } else {
        SimdConfig { cr4_bits: sse, xcr0: None, method: SimdSaveMethod::Fxsave, save_size: 512, save_align: 16 }
    }
}

} // verus!
