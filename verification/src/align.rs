//! Alignment of offsets and sizes.

use vstd::prelude::*;

use crate::error::{invalid_data, RuntimeDataError};

verus! {

/// The lowest multiple of `alignment` that is not below `value`.
pub open spec fn aligned(value: int, alignment: int) -> int {
    (value + (alignment - 1)) / alignment * alignment
}

/// `value` aligned to `alignment`, where the rounding stays within 64 bits.
pub open spec fn aligned_up(value: u64, alignment: u64) -> Result<u64, RuntimeDataError> {
    if alignment == 0 {
        Err(invalid_data("binary alignment is zero"))
    } else if value + (alignment - 1) > u64::MAX {
        Err(invalid_data("binary alignment overflow"))
    } else {
        Ok(aligned(value as int, alignment as int) as u64)
    }
}

/// `value` aligned to `alignment`.
pub fn align_up(value: u64, alignment: u64) -> (result: Result<u64, RuntimeDataError>)
    ensures
        result == aligned_up(value, alignment),
        result matches Ok(multiple) ==> multiple == aligned(value as int, alignment as int),
        result is Ok <==> alignment > 0 && value + (alignment - 1) <= u64::MAX,
        result matches Ok(multiple) ==> multiple % alignment == 0 && value <= multiple < value
            + alignment,
        result matches Err(error) ==> error == (if alignment == 0 {
            RuntimeDataError::InvalidData("binary alignment is zero")
        } else {
            RuntimeDataError::InvalidData("binary alignment overflow")
        }),
{
    if alignment == 0 {
        return Err(invalid_data("binary alignment is zero"));
    }
    match value.checked_add(alignment - 1) {
        Some(raised) => {
            proof {
                lemma_aligned(value as int, alignment as int);
            }
            Ok(raised / alignment * alignment)
        },
        None => Err(invalid_data("binary alignment overflow")),
    }
}

/// An aligned value is the one multiple of the alignment that the value lies at or less than one
/// alignment below.
pub proof fn law_aligned_is_the_next_multiple(value: int, alignment: int, multiple: int)
    requires
        0 <= value,
        0 < alignment,
    ensures
        multiple == aligned(value, alignment) <==> multiple % alignment == 0 && value <= multiple
            < value + alignment,
{
    lemma_aligned(value, alignment);
    if multiple % alignment == 0 && value <= multiple < value + alignment {
        let lowest = aligned(value, alignment);
        let quotient = multiple / alignment;
        let least = lowest / alignment;
        vstd::arithmetic::div_mod::lemma_fundamental_div_mod(multiple, alignment);
        vstd::arithmetic::div_mod::lemma_fundamental_div_mod(lowest, alignment);
        assert(quotient == least) by (nonlinear_arith)
            requires
                multiple == alignment * quotient,
                lowest == alignment * least,
                lowest <= multiple < lowest + alignment,
                0 < alignment,
        ;
    }
}

/// An aligned value is the lowest multiple of the alignment that is not below the value.
pub proof fn lemma_aligned(value: int, alignment: int)
    requires
        0 <= value,
        0 < alignment,
    ensures
        aligned(value, alignment) % alignment == 0,
        value <= aligned(value, alignment) < value + alignment,
        forall|multiple: int|
            value <= multiple && #[trigger] (multiple % alignment) == 0 ==> aligned(value, alignment)
                <= multiple,
{
    let raised = value + (alignment - 1);
    let quotient = raised / alignment;
    vstd::arithmetic::div_mod::lemma_fundamental_div_mod(raised, alignment);
    vstd::arithmetic::div_mod::lemma_mod_bound(raised, alignment);
    assert(alignment * quotient == quotient * alignment) by (nonlinear_arith);
    vstd::arithmetic::div_mod::lemma_mod_multiples_basic(quotient, alignment);
    assert forall|multiple: int| value <= multiple && #[trigger] (multiple % alignment)
        == 0 implies aligned(value, alignment) <= multiple by {
        let other = multiple / alignment;
        vstd::arithmetic::div_mod::lemma_fundamental_div_mod(multiple, alignment);
        assert(quotient <= other) by (nonlinear_arith)
            requires
                quotient * alignment < value + alignment,
                value <= alignment * other,
                0 < alignment,
        ;
        assert(quotient * alignment <= alignment * other) by (nonlinear_arith)
            requires
                quotient <= other,
                0 < alignment,
        ;
    }
}

} // verus!
