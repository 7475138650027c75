use vstd::prelude::*;

verus! {

/// What intake answers to an order that was taken in.
#[derive(Debug, Clone, Copy, PartialEq, Eq, Structural)]
pub struct CreateOrderOutput {
    pub success: Success,
    pub order_id: u32,
}

#[derive(Debug, Clone, Copy, PartialEq, Eq, Structural)]
pub enum Success {
    True,
    False,
}

} // verus!
