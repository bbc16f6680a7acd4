//! Register bit fields, built with `tock_registers` and carried as plain
//! (mask, value) pairs.
use vstd::prelude::*;

verus! {

/// A set of register fields to write: `mask` covers the bits the fields
/// occupy and `value` holds their contents, already shifted into place.
#[derive(Debug, Clone, Copy, PartialEq, Eq, Structural)]
pub struct FieldSet {
    pub mask: u32,
    pub value: u32,
}

/// The field of `width_mask` (unshifted, LSB set) at bit `shift`, holding `value`.
pub open spec fn field_spec(width_mask: u32, shift: u32, value: u32) -> FieldSet {
    FieldSet { mask: width_mask << shift, value: (value & width_mask) << shift }
}

/// Two field sets combined, as `+` on `FieldValue` combines them.
pub open spec fn join(a: FieldSet, b: FieldSet) -> FieldSet {
    FieldSet { mask: a.mask | b.mask, value: a.value | b.value }
}

/// What a read-modify-write of `fields` makes of the register value `current`.
pub open spec fn modified(current: u32, fields: FieldSet) -> u32 {
    (current & !fields.mask) | fields.value
}

impl FieldSet {
    /// The value lies within the mask.
    pub open spec fn wf(self) -> bool {
        self.value & !self.mask == 0
    }

    /// Both field sets at once.
    pub fn plus(self, other: FieldSet) -> (r: FieldSet)
        ensures
            r == join(self, other),
            self.wf() && other.wf() ==> r.wf(),
    {
        let r = FieldSet { mask: self.mask | other.mask, value: self.value | other.value };
        proof {
            let (am, av, bm, bv) = (self.mask, self.value, other.mask, other.value);
            assert((av & !am == 0 && bv & !bm == 0) ==> (av | bv) & !(am | bm) == 0) by (bit_vector);
        }
        r
    }
}

/// `tock_registers::fields::Field::val`: the field of `width_mask` at `shift`
/// holding `value`. The crate's source computes `mask << shift` and
/// `(value & mask) << shift`; a shift of 32 or more would overflow.
#[verifier::external_body]
pub(crate) fn field(width_mask: u32, shift: u32, value: u32) -> (r: FieldSet)
    requires
        shift < 32,
    ensures
        r == field_spec(width_mask, shift, value),
{
    let fv = tock_registers::fields::Field::<u32, ()>::new(width_mask, shift as usize).val(value);
    FieldSet { mask: fv.mask(), value: fv.value }
}

} // verus!
