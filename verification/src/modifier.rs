//! Modifier keys and the bitmask that encodes them.

use vstd::prelude::*;

verus! {

/// A key that is held down together with the bound key.
#[derive(Debug, Clone, Copy, PartialEq, Eq, Structural)]
pub enum Modifier {
    LSHIFT,
    LCONTROL,
    LALT,
}

impl Modifier {
    /// The bit that stands for this modifier in a mask.
    pub open spec fn bit(self) -> u16 {
        match self {
            Modifier::LSHIFT => 1,
            Modifier::LCONTROL => 2,
            Modifier::LALT => 4,
        }
    }

    /// The place of this modifier in the fixed order in which modifiers are listed.
    pub open spec fn rank(self) -> int {
        match self {
            Modifier::LSHIFT => 0,
            Modifier::LCONTROL => 1,
            Modifier::LALT => 2,
        }
    }
}

/// Whether `mask` has the bit of `modifier` set.
pub open spec fn has_modifier(mask: u16, modifier: Modifier) -> bool {
    mask & modifier.bit() == modifier.bit()
}

/// The sequence of `modifier` alone if `mask` has its bit set, the empty sequence otherwise.
pub open spec fn modifier_if_set(mask: u16, modifier: Modifier) -> Seq<Modifier> {
    if has_modifier(mask, modifier) {
        seq![modifier]
    } else {
        Seq::empty()
    }
}

/// The modifiers that `mask` encodes: shift, control, alt, in that order,
/// each only if its bit is set.
pub open spec fn modifiers_for_mask(mask: u16) -> Seq<Modifier> {
    modifier_if_set(mask, Modifier::LSHIFT) + modifier_if_set(mask, Modifier::LCONTROL)
        + modifier_if_set(mask, Modifier::LALT)
}

/// Whether `modifiers` lists each modifier at most once and in the fixed order shift, control, alt.
pub open spec fn modifiers_in_order(modifiers: Seq<Modifier>) -> bool {
    forall|i: int, j: int|
        0 <= i < j < modifiers.len() ==> (#[trigger] modifiers[i]).rank() < (
        #[trigger] modifiers[j]).rank()
}

/// Decodes a modifier bitmask. Bits above the third are ignored.
pub fn parse_modifiers(number: u16) -> (result: Vec<Modifier>)
    ensures
        result@ == modifiers_for_mask(number),
{
    let mut result: Vec<Modifier> = Vec::new();
    if number & 1 == 1 {
        result.push(Modifier::LSHIFT);
    }
    if number & 2 == 2 {
        result.push(Modifier::LCONTROL);
    }
    if number & 4 == 4 {
        result.push(Modifier::LALT);
    }
    assert(result@ =~= modifiers_for_mask(number));
    result
}

/// A decoded mask lists a modifier exactly when its bit is set, never twice,
/// and always in the order shift, control, alt.
pub proof fn lemma_modifiers_for_mask(mask: u16)
    ensures
        modifiers_in_order(modifiers_for_mask(mask)),
        forall|m: Modifier| modifiers_for_mask(mask).contains(m) <==> has_modifier(mask, m),
{
    let s = modifiers_for_mask(mask);
    assert forall|m: Modifier| s.contains(m) <==> has_modifier(mask, m) by {
        if has_modifier(mask, m) {
            let a = modifier_if_set(mask, Modifier::LSHIFT);
            let b = modifier_if_set(mask, Modifier::LCONTROL);
            let k = match m {
                Modifier::LSHIFT => 0,
                Modifier::LCONTROL => a.len() as int,
                Modifier::LALT => (a.len() + b.len()) as int,
            };
            assert(s[k] == m);
        }
    }
}

/// Only the three lowest bits of a mask matter.
pub proof fn lemma_high_bits_ignored(mask: u16)
    ensures
        modifiers_for_mask(mask) == modifiers_for_mask(mask & 7),
{
    assert((mask & 7) & 1 == mask & 1) by (bit_vector);
    assert((mask & 7) & 2 == mask & 2) by (bit_vector);
    assert((mask & 7) & 4 == mask & 4) by (bit_vector);
}

} // verus!
