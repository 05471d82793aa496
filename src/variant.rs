use vstd::prelude::*;

verus! {

/// What differs between members of the family.
#[derive(Clone, Copy, Debug, PartialEq, Eq, Structural)]
pub struct VariantConfig {
    /// The block raises an interrupt that has to be masked in `INT_MASK`.
    pub mask_interrupts: bool,
}

pub open spec fn plain_variant() -> VariantConfig {
    VariantConfig { mask_interrupts: false }
}

pub open spec fn masked_variant() -> VariantConfig {
    VariantConfig { mask_interrupts: true }
}

/// The match table: configuration of each compatible identifier.
pub open spec fn variant_of(id: Seq<char>) -> Option<VariantConfig> {
    if id == "brcm,bcm2835-rng"@ || id == "brcm,bcm6368-rng"@ {
        Some(plain_variant())
    } else if id == "brcm,bcm-nsp-rng"@ || id == "brcm,bcm5301x-rng"@ {
        Some(masked_variant())
    } else {
        None
    }
}

/// Whether two strings hold the same characters.
fn same_text(a: &str, b: &str) -> (r: bool)
    ensures
        r == (a@ == b@),
{
    let n: usize = a.unicode_len();
    if n != b.unicode_len() {
        return false;
    }
    let mut i: usize = 0;
    while i < n
        invariant
            n == a@.len(),
            n == b@.len(),
            i <= n,
            forall|k: int| 0 <= k < i ==> a@[k] == b@[k],
        decreases n - i,
    {
        if a.get_char(i) != b.get_char(i) {
            return false;
        }
        i = i + 1;
    }
    assert(a@ =~= b@);
    true
}

/// Looks up a compatible identifier in the match table; `None` for one that
/// the table does not list.
pub fn lookup_variant(id: &str) -> (r: Option<VariantConfig>)
    ensures
        r == variant_of(id@),
{
    proof {
        reveal_strlit("brcm,bcm2835-rng");
        reveal_strlit("brcm,bcm6368-rng");
        reveal_strlit("brcm,bcm-nsp-rng");
        reveal_strlit("brcm,bcm5301x-rng");
    }
    if same_text(id, "brcm,bcm2835-rng") || same_text(id, "brcm,bcm6368-rng") {
        Some(VariantConfig { mask_interrupts: false })
    } else if same_text(id, "brcm,bcm-nsp-rng") || same_text(id, "brcm,bcm5301x-rng") {
        Some(VariantConfig { mask_interrupts: true })
    } else {
        None
    }
}

/// The configuration a probe works with: the matched entry's, or the
/// default when the entry carries none.
pub fn resolve_variant(entry: Option<VariantConfig>) -> (r: VariantConfig)
    ensures
        r == (match entry {
            Some(c) => c,
            None => plain_variant(),
        }),
{
    match entry {
        Some(c) => c,
        None => VariantConfig { mask_interrupts: false },
    }
}

impl VariantConfig {
    pub open spec fn spec_window_size(self) -> usize {
        if self.mask_interrupts { 0x14 } else { 0x10 }
    }

    /// Bytes of register window the variant needs: `INT_MASK` lies beyond
    /// the first sixteen.
    pub fn window_size(&self) -> (r: usize)
        ensures
            r == self.spec_window_size(),
    {
        if self.mask_interrupts {
            crate::regs::RNG_REG_SIZE + 4
        } else {
            crate::regs::RNG_REG_SIZE
        }
    }
}

} // verus!
