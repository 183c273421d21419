use vstd::prelude::*;

verus! {

/// Additional effects of a complex effect card.
#[derive(Debug)]
pub enum ComplexEffect {
    Steal { count: usize, element: Option<String>, kind: Option<String>, stars: Option<String> },
    Give,
    Exchange,
}

} // verus!
