//! The Rust types that stand for exactly one atomic OSC type.

use crate::atomic::Float;
use crate::dynamic::Data;
use vstd::prelude::*;

verus! {

/// Whitelist. Otherwise useless.
pub trait IntoAtomic {

}

impl IntoAtomic for i32 {

}

impl IntoAtomic for Float {

}

impl IntoAtomic for &str {

}

impl IntoAtomic for &[u8] {

}

impl IntoAtomic for Data {

}

impl IntoAtomic for std::string::String {

}

impl IntoAtomic for Vec<u8> {

}

} // verus!
