//! The flavor-image panel's messages and its picture-cycling rule.

use vstd::prelude::*;

verus! {

/// A message of the flavor-image panel.
#[derive(Clone, Copy, Debug, PartialEq, Eq, Structural)]
pub enum FlavorMessage {
    SwitchImage,
}

/// The index of the next picture to show: one further, wrapping around the
/// end of the picture list.
pub fn next_image_index(image_index: usize, count: usize) -> (r: usize)
    requires
        count > 0,
    ensures
        r == (image_index + 1) as int % (count as int),
{
    let r = (image_index % count + 1) % count;
    proof {
        if count == 1 {
            assert(r == 0);
        } else {
            vstd::arithmetic::div_mod::lemma_add_mod_noop(image_index as int, 1, count as int);
            vstd::arithmetic::div_mod::lemma_small_mod(1, count as nat);
        }
    }
    r
}

} // verus!
