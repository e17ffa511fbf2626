use vstd::prelude::*;
use crate::boolean::Boolean;
use crate::integer::Integer;
use crate::scalar::{Scalar, SCALAR_BITS};

verus! {

/// The number of bits of data that one field element holds.
pub const FIELD_DATA_BITS: u64 = 252;

/// The number of field elements that encode `bits` bits of data.
pub open spec fn fields_for(bits: nat) -> nat {
    ((bits + FIELD_DATA_BITS - 1) / (FIELD_DATA_BITS as int)) as nat
}

/// Why a value cannot be encoded as field elements.
#[derive(Clone, Copy, Debug, PartialEq, Eq, Structural)]
pub enum EncodingError {
    /// The value needs more field elements than a `u16` counts.
    TooManyFields,
}

/// Returns the number of field elements that encode `bits` bits of data.
pub fn size_in_fields_of(bits: u64) -> (r: Result<u16, EncodingError>)
    ensures
        match r {
            Ok(n) => n == fields_for(bits as nat),
            Err(e) => fields_for(bits as nat) > u16::MAX && e == EncodingError::TooManyFields,
        },
{
    let fields = bits / FIELD_DATA_BITS + if bits % FIELD_DATA_BITS == 0 {
        0
    } else {
        1
    };
    proof {
        let q = bits / FIELD_DATA_BITS;
        let m = bits % FIELD_DATA_BITS;
        vstd::arithmetic::div_mod::lemma_fundamental_div_mod(bits as int, FIELD_DATA_BITS as int);
        if m == 0 {
            vstd::arithmetic::div_mod::lemma_fundamental_div_mod_converse(
                bits + FIELD_DATA_BITS - 1,
                FIELD_DATA_BITS as int,
                q as int,
                FIELD_DATA_BITS - 1,
            );
        } else {
            vstd::arithmetic::div_mod::lemma_fundamental_div_mod_converse(
                bits + FIELD_DATA_BITS - 1,
                FIELD_DATA_BITS as int,
                q + 1,
                m - 1,
            );
        }
    }
    if fields > u16::MAX as u64 {
        Err(EncodingError::TooManyFields)
    } else {
        Ok(fields as u16)
    }
}

/// A value that can be encoded as field elements.
pub trait Visibility {
    /// The number of bits of data that encode `self`.
    spec fn encoded_bits(&self) -> nat;

    /// Returns the number of field elements that encode `self`.
    fn size_in_fields(&self) -> (r: Result<u16, EncodingError>)
        ensures
            match r {
                Ok(n) => n == fields_for(self.encoded_bits()),
                Err(e) => fields_for(self.encoded_bits()) > u16::MAX && e == EncodingError::TooManyFields,
            },
    ;
}

impl Visibility for Boolean {
    open spec fn encoded_bits(&self) -> nat {
        1
    }

    fn size_in_fields(&self) -> (r: Result<u16, EncodingError>) {
        size_in_fields_of(1)
    }
}

impl Visibility for Integer {
    open spec fn encoded_bits(&self) -> nat {
        self.spec_type().width()
    }

    fn size_in_fields(&self) -> (r: Result<u16, EncodingError>) {
        size_in_fields_of(self.integer_type().bits() as u64)
    }
}

impl Visibility for Scalar {
    open spec fn encoded_bits(&self) -> nat {
        SCALAR_BITS as nat
    }

    fn size_in_fields(&self) -> (r: Result<u16, EncodingError>) {
        size_in_fields_of(SCALAR_BITS as u64)
    }
}

} // verus!
