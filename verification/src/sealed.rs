//! The seal on traits that only this crate implements.

use vstd::prelude::*;

verus! {

/// A trait that cannot be named outside the crate.
pub trait Sealed {

}

} // verus!
