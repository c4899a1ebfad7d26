//! The error-reporting surface a vault implementation must offer: each vault
//! error names the domain it came from.

use vstd::prelude::*;

verus! {

/// A vault error that can name the domain it belongs to.
pub trait ErrorVault {
    /// The error domain of this vault.
    fn error_domain(&self) -> &'static str;
}

} // verus!
