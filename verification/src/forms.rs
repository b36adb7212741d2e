//! What a request asks for: two dimensions and, if it likes, a colour.

use crate::color::RGB;
use crate::text::{decimal_text, format_unsigned, is_unsigned, parse_unsigned, unsigned_value};
use vstd::prelude::*;

verus! {

/// Every dimension is below this.
pub const MAX_DIMENSION: usize = 10_000;

/// An extent in pixels, below `MAX_DIMENSION`. The only way to one is
/// `from_form_value`.
#[derive(Debug, Clone, Copy)]
pub struct Dimension(usize);

/// A request for a picture.
#[derive(Debug)]
pub struct ImageForm {
    pub width: Dimension,
    pub height: Dimension,
    pub color: Option<RGB>,
}

impl View for Dimension {
    type V = nat;

    closed spec fn view(&self) -> nat {
        self.0 as nat
    }
}

impl Dimension {
    #[verifier::type_invariant]
    spec fn in_range(self) -> bool {
        self.0 < MAX_DIMENSION
    }

    /// Reads a dimension from decimal text. Text that is no unsigned number,
    /// or whose number is 10000 or more, comes back as the error.
    pub fn from_form_value(form_value: &str) -> (parsed: Result<Dimension, &str>)
        ensures
            parsed is Ok <==> is_unsigned(form_value@) && unsigned_value(form_value@)
                < MAX_DIMENSION,
            parsed matches Ok(d) ==> d@ == unsigned_value(form_value@),
            parsed matches Err(e) ==> e@ == form_value@,
    {
        match parse_unsigned(form_value, (MAX_DIMENSION - 1) as u64) {
            Some(num) => Ok(Dimension(num as usize)),
            None => Err(form_value),
        }
    }

    /// Writes the dimension in decimal.
    pub fn to_string(&self) -> (text: String)
        ensures
            text@ == decimal_text(self@),
    {
        format_unsigned(self.0 as u64)
    }
}

impl From<Dimension> for u32 {
    fn from(dimension: Dimension) -> (n: u32)
        ensures
            n == dimension@,
            n < MAX_DIMENSION,
    {
        proof {
            use_type_invariant(&dimension);
        }
        dimension.0 as u32
    }
}

impl vstd::std_specs::convert::FromSpecImpl<Dimension> for u32 {
    open spec fn obeys_from_spec() -> bool {
        true
    }

    open spec fn from_spec(dimension: Dimension) -> u32 {
        dimension@ as u32
    }
}

} // verus!
