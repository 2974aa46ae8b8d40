//! A callback: a named action and the keys it is bound to.

use vstd::prelude::*;
use crate::key::{key_for_code, parse_key_code, Key};
use crate::modifier::{modifiers_for_mask, modifiers_in_order, parse_modifiers, Modifier};

verus! {

/// A named action bound to a key with its modifiers, and to a combo key with
/// modifiers of its own. The raw codes stand beside the keys they resolve to.
#[derive(Debug)]
pub struct Callback {
    pub name: String,
    pub key_code: u16,
    pub readable_key_code: Key,
    pub modifiers: Vec<Modifier>,
    pub combo_key_code: u16,
    pub readable_combo_key_code: Key,
    pub combo_modifiers: Vec<Modifier>,
}

/// What a `Callback` holds, as mathematical values.
pub struct CallbackView {
    pub name: Seq<char>,
    pub key_code: u16,
    pub readable_key_code: Key,
    pub modifiers: Seq<Modifier>,
    pub combo_key_code: u16,
    pub readable_combo_key_code: Key,
    pub combo_modifiers: Seq<Modifier>,
}

impl View for Callback {
    type V = CallbackView;

    open spec fn view(&self) -> CallbackView {
        CallbackView {
            name: self.name@,
            key_code: self.key_code,
            readable_key_code: self.readable_key_code,
            modifiers: self.modifiers@,
            combo_key_code: self.combo_key_code,
            readable_combo_key_code: self.readable_combo_key_code,
            combo_modifiers: self.combo_modifiers@,
        }
    }
}

impl CallbackView {
    /// Whether the keys are the ones that the raw codes resolve to, and both
    /// lists of modifiers are in the fixed order without repetition.
    pub open spec fn consistent(self) -> bool {
        &&& self.readable_key_code == key_for_code(self.key_code)
        &&& self.readable_combo_key_code == key_for_code(self.combo_key_code)
        &&& modifiers_in_order(self.modifiers)
        &&& modifiers_in_order(self.combo_modifiers)
    }
}

/// Whether every one of the callbacks is consistent.
pub open spec fn all_consistent(callbacks: Seq<CallbackView>) -> bool {
    forall|i: int| 0 <= i < callbacks.len() ==> (#[trigger] callbacks[i]).consistent()
}

/// The callback that a binding record describes: the raw codes as they are,
/// each key code resolved to its key, each modifier mask decoded.
pub open spec fn callback_for(
    name: Seq<char>,
    key_code: u16,
    modifier_mask: u16,
    combo_key_code: u16,
    combo_modifier_mask: u16,
) -> CallbackView {
    CallbackView {
        name,
        key_code,
        readable_key_code: key_for_code(key_code),
        modifiers: modifiers_for_mask(modifier_mask),
        combo_key_code,
        readable_combo_key_code: key_for_code(combo_key_code),
        combo_modifiers: modifiers_for_mask(combo_modifier_mask),
    }
}

/// A copy of a list of modifiers.
fn copy_modifiers(modifiers: &Vec<Modifier>) -> (copy: Vec<Modifier>)
    ensures
        copy@ == modifiers@,
{
    let mut copy: Vec<Modifier> = Vec::new();
    let mut i: usize = 0;
    while i < modifiers.len()
        invariant
            i <= modifiers.len(),
            copy@ == modifiers@.take(i as int),
        decreases modifiers.len() - i,
    {
        copy.push(modifiers[i]);
        assert(modifiers@.take(i + 1) =~= modifiers@.take(i as int).push(modifiers@[i as int]));
        i += 1;
    }
    assert(modifiers@.take(modifiers.len() as int) =~= modifiers@);
    copy
}

impl Callback {
    /// Assembles the callback of a binding record from its name and its four numeric fields.
    pub fn new(
        name: String,
        key_code: u16,
        modifier_mask: u16,
        combo_key_code: u16,
        combo_modifier_mask: u16,
    ) -> (callback: Callback)
        ensures
            callback@ == callback_for(
                name@,
                key_code,
                modifier_mask,
                combo_key_code,
                combo_modifier_mask,
            ),
    {
        Callback {
            name,
            key_code,
            readable_key_code: parse_key_code(key_code),
            modifiers: parse_modifiers(modifier_mask),
            combo_key_code,
            readable_combo_key_code: parse_key_code(combo_key_code),
            combo_modifiers: parse_modifiers(combo_modifier_mask),
        }
    }
}

impl Clone for Callback {
    fn clone(&self) -> (copy: Callback)
        ensures
            copy@ == self@,
    {
        Callback {
            name: self.name.clone(),
            key_code: self.key_code,
            readable_key_code: self.readable_key_code,
            modifiers: copy_modifiers(&self.modifiers),
            combo_key_code: self.combo_key_code,
            readable_combo_key_code: self.readable_combo_key_code,
            combo_modifiers: copy_modifiers(&self.combo_modifiers),
        }
    }
}

/// An assembled callback is consistent.
pub proof fn lemma_callback_for_consistent(
    name: Seq<char>,
    key_code: u16,
    modifier_mask: u16,
    combo_key_code: u16,
    combo_modifier_mask: u16,
)
    ensures
        callback_for(
            name,
            key_code,
            modifier_mask,
            combo_key_code,
            combo_modifier_mask,
        ).consistent(),
{
    crate::modifier::lemma_modifiers_for_mask(modifier_mask);
    crate::modifier::lemma_modifiers_for_mask(combo_modifier_mask);
}

} // verus!
