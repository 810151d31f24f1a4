//! Readers of an interface's byte counters.
use vstd::prelude::*;

verus! {

/// A reader of the bytes that an interface has received and sent.
pub trait NicCounterReader: Send + Sync {
    /// The bytes received and sent so far.
    fn read_counters(&self, iface: &str) -> Result<(u64, u64), String>;
}

/// A reader made of a function.
pub struct FnNicCounterReader<F: Fn(&str) -> Result<(u64, u64), String> + Send + Sync> {
    read: F,
}

impl<F: Fn(&str) -> Result<(u64, u64), String> + Send + Sync> FnNicCounterReader<F> {
    /// Whether the function can be called with any name.
    #[verifier::type_invariant]
    spec fn callable(&self) -> bool {
        forall|iface: &str| call_requires(self.read, (iface,))
    }

    /// Whether the function may answer `r` for a name.
    pub closed spec fn may_answer(&self, iface: &str, r: Result<(u64, u64), String>) -> bool {
        call_ensures(self.read, (iface,), r)
    }

    /// A reader that asks `read`.
    pub fn new(read: F) -> (r: FnNicCounterReader<F>)
        requires
            forall|iface: &str| call_requires(read, (iface,)),
        ensures
            forall|iface: &str, answer: Result<(u64, u64), String>|
                #[trigger] r.may_answer(iface, answer) == call_ensures(read, (iface,), answer),
    {
        FnNicCounterReader { read }
    }
}

impl<F: Fn(&str) -> Result<(u64, u64), String> + Send + Sync> NicCounterReader for FnNicCounterReader<F> {
    fn read_counters(&self, iface: &str) -> (r: Result<(u64, u64), String>)
        ensures
            self.may_answer(iface, r),
    {
        proof {
            use_type_invariant(self);
        }
        (self.read)(iface)
    }
}

} // verus!
