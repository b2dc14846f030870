use vstd::prelude::*;

verus! {

/// `SEE_MASK_NOCLOSEPROCESS`: keep the launched process handle open.
pub const SEE_MASK_NOCLOSEPROCESS: u32 = 0x0000_0040;

/// `SEE_MASK_FLAG_NO_UI`: suppress the shell's error dialogs.
pub const SEE_MASK_FLAG_NO_UI: u32 = 0x0000_0400;

/// The `fMask` used when the sandbox setup executable is launched through
/// the shell: the process handle is kept and no error UI is shown.
pub fn setup_exe_shell_execute_mask() -> (mask: u32)
    ensures
        mask == SEE_MASK_NOCLOSEPROCESS | SEE_MASK_FLAG_NO_UI,
        mask & SEE_MASK_NOCLOSEPROCESS == SEE_MASK_NOCLOSEPROCESS,
        mask & SEE_MASK_FLAG_NO_UI == SEE_MASK_FLAG_NO_UI,
{
    let mask = SEE_MASK_NOCLOSEPROCESS | SEE_MASK_FLAG_NO_UI;
    assert(mask & SEE_MASK_NOCLOSEPROCESS == SEE_MASK_NOCLOSEPROCESS) by (bit_vector)
        requires mask == (0x40u32 | 0x400u32);
    assert(mask & SEE_MASK_FLAG_NO_UI == SEE_MASK_FLAG_NO_UI) by (bit_vector)
        requires mask == (0x40u32 | 0x400u32);
    mask
}

} // verus!
