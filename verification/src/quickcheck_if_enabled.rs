//! Marks of the types that random testing can work with.

use vstd::prelude::*;

verus! {

/// Types that a property can be tested on.
pub trait QuickCheckIfEnabled {

}

/// Types whose values can be kept and compared while a property is tested.
pub trait CloneIfQuickCheck {

}

impl<A> QuickCheckIfEnabled for A {

}

impl<A> CloneIfQuickCheck for A {

}

} // verus!
