//! Sections of the kernel in which interrupts are masked.
use vstd::prelude::*;

verus! {

/// How deep the kernel is in sections that mask interrupts, and whether
/// interrupts were on before the outermost one.
pub struct IntrMaskingInfo {
    pub nested_level: usize,
    pub sie_before_masking: bool,
}

impl IntrMaskingInfo {
    /// Outside any section.
    pub fn new() -> (r: Self)
        ensures
            r.nested_level == 0,
            !r.sie_before_masking,
    {
        Self { nested_level: 0, sie_before_masking: false }
    }

    /// Enters a section. `sie` says whether interrupts were on just before;
    /// the caller has read it and has turned interrupts off. The outermost
    /// section remembers it.
    pub fn enter(&mut self, sie: bool)
        requires
            old(self).nested_level < usize::MAX,
        ensures
            final(self).nested_level == old(self).nested_level + 1,
            final(self).sie_before_masking == if old(self).nested_level == 0 {
                sie
            } else {
                old(self).sie_before_masking
            },
    {
        if self.nested_level == 0 {
            self.sie_before_masking = sie;
        }
        self.nested_level += 1;
    }

    /// Leaves a section and says whether the caller is to turn interrupts
    /// on: when the outermost section is left and they were on before it.
    pub fn exit(&mut self) -> (restore: bool)
        requires
            old(self).nested_level > 0,
        ensures
            final(self).nested_level == old(self).nested_level - 1,
            final(self).sie_before_masking == old(self).sie_before_masking,
            restore == (old(self).nested_level == 1 && old(self).sie_before_masking),
    {
        self.nested_level -= 1;
        self.nested_level == 0 && self.sie_before_masking
    }
}

} // verus!
