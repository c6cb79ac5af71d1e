//! The fixed set of addresses known to belong to exchanges.
use vstd::prelude::*;
use crate::text::same_text;

verus! {

/// Lower-case addresses known to be operated by exchanges. Lookups expect
/// lower-case input and do not fold case themselves.
pub struct ExchangeRegistry {
    addresses: Vec<String>,
}

pub open spec fn listed(addresses: Seq<String>, a: Seq<char>) -> bool {
    exists|i: int| 0 <= i < addresses.len() && (#[trigger] addresses[i])@ == a
}

impl View for ExchangeRegistry {
    type V = Set<Seq<char>>;

    closed spec fn view(&self) -> Set<Seq<char>> {
        Set::new(|a: Seq<char>| listed(self.addresses@, a))
    }
}

impl ExchangeRegistry {
    pub fn new(addresses: Vec<String>) -> (r: ExchangeRegistry)
        ensures
            forall|a: Seq<char>| #[trigger] r@.contains(a) <==> listed(addresses@, a),
    {
        ExchangeRegistry { addresses }
    }

    pub fn is_exchange_owned(&self, address: &str) -> (r: bool)
        ensures
            r == self@.contains(address@),
    {
        is_listed(&self.addresses, address)
    }
}

/// Whether one of `addresses` has the same text as `a`.
pub fn is_listed(addresses: &Vec<String>, a: &str) -> (r: bool)
    ensures
        r == listed(addresses@, a@),
{
    let mut i: usize = 0;
    while i < addresses.len()
        invariant
            i <= addresses.len(),
            forall|j: int| 0 <= j < i ==> (#[trigger] addresses@[j])@ != a@,
        decreases addresses.len() - i,
    {
        if same_text(addresses[i].as_str(), a) {
            assert(listed(addresses@, a@));
            return true;
        }
        i = i + 1;
    }
    false
}

} // verus!
