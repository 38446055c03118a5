use vstd::prelude::*;
use vstd::bytes::spec_u64_from_le_bytes;
use vstd::bytes::u64_from_le_bytes;

use crate::errors::AmmError;
use crate::OpResult;

verus! {

/// Which of the three legacy swap flavours a request asks for.
#[derive(Clone, Copy, Debug, PartialEq, Eq, Structural)]
pub enum SwapType {
    SOLToToken,
    TokenToSOL,
    TokenToToken,
}

/// A decoded legacy swap request: one tag byte for the flavour, then the
/// amount as eight little-endian bytes.
#[derive(Clone, Copy, Debug, PartialEq, Eq, Structural)]
pub struct SwapInstruction {
    pub swap_type: SwapType,
    pub amount: u64,
}

/// The swap flavour a tag byte names; tags above two decode to nothing.
pub open spec fn spec_swap_type(tag: u8) -> SwapType {
    if tag == 0 {
        SwapType::SOLToToken
    } else if tag == 1 {
        SwapType::TokenToSOL
    } else {
        SwapType::TokenToToken
    }
}

impl SwapInstruction {
    /// Decodes a legacy swap request: a tag byte in 0..=2 followed by
    /// exactly eight little-endian amount bytes; anything else is refused.
    pub fn unpack(input: &[u8]) -> (r: Option<SwapInstruction>)
        ensures
            r.is_some() <==> input@.len() == 9 && input@[0] <= 2,
            r.is_some() ==> r.unwrap() == (SwapInstruction {
                swap_type: spec_swap_type(input@[0]),
                amount: spec_u64_from_le_bytes(input@.subrange(1, 9)),
            }),
    {
        if input.len() != 9 {
            return None;
        }
        let swap_type = match input[0] {
            0 => SwapType::SOLToToken,
            1 => SwapType::TokenToSOL,
            2 => SwapType::TokenToToken,
            _ => {
                return None;
            },
        };
        let amount = u64_from_le_bytes(&input[1..9]);
        Some(SwapInstruction { swap_type, amount })
    }
}

/// A decoded liquidity-pool request.
#[derive(Clone, Copy, Debug, PartialEq, Eq, Structural)]
pub enum PoolOperation {
    AddLiquidity { amount0: u64, amount1: u64 },
    RemoveLiquidity { liquidity_amount: u64 },
}

impl PoolOperation {
    /// Decodes a liquidity-pool request: tag 0 followed by two eight-byte
    /// little-endian amounts, or tag 1 followed by one; anything else is
    /// refused.
    pub fn unpack(input: &[u8]) -> (r: Option<PoolOperation>)
        ensures
            r.is_some() <==> (input@.len() == 17 && input@[0] == 0)
                || (input@.len() == 9 && input@[0] == 1),
            input@.len() == 17 && input@[0] == 0 ==> r == Some(PoolOperation::AddLiquidity {
                amount0: spec_u64_from_le_bytes(input@.subrange(1, 9)),
                amount1: spec_u64_from_le_bytes(input@.subrange(9, 17)),
            }),
            input@.len() == 9 && input@[0] == 1 ==> r == Some(PoolOperation::RemoveLiquidity {
                liquidity_amount: spec_u64_from_le_bytes(input@.subrange(1, 9)),
            }),
    {
        if input.len() < 1 {
            return None;
        }
        match input[0] {
            0 => {
                if input.len() != 17 {
                    return None;
                }
                let amount0 = u64_from_le_bytes(&input[1..9]);
                let amount1 = u64_from_le_bytes(&input[9..17]);
                Some(PoolOperation::AddLiquidity { amount0, amount1 })
            },
            1 => {
                if input.len() != 9 {
                    return None;
                }
                let liquidity_amount = u64_from_le_bytes(&input[1..9]);
                Some(PoolOperation::RemoveLiquidity { liquidity_amount })
            },
            _ => None,
        }
    }
}

/// The closed union of every request the core dispatches on, validated once
/// at the boundary; no component re-parses bytes after this.
#[derive(Clone, Copy, Debug, PartialEq, Eq)]
pub enum Operation {
    Transfer { amount: u64 },
    InitializeMint { decimals: u8, authority: Option<u64> },
    InitializeAccount { mint: u64, owner: u64 },
    AddLiquidity { amount0: u64, amount1: u64 },
    RemoveLiquidity { shares: u64 },
    Swap { amount_in: u64, minimum_amount_out: u64, input_is_token0: bool },
}

/// What a request's bytes decode to: the operation under the tag byte and a
/// fixed-width little-endian payload, or `MalformedOperation` when the tag,
/// the length, or a flag byte fits no operation.
pub open spec fn spec_decode_operation(input: Seq<u8>) -> Result<Operation, AmmError> {
    if input.len() == 0 {
        Err(AmmError::MalformedOperation)
    } else if input[0] == 0 && input.len() == 9 {
        Ok(Operation::Transfer { amount: spec_u64_from_le_bytes(input.subrange(1, 9)) })
    } else if input[0] == 1 && input.len() == 11 && input[2] <= 1 {
        Ok(Operation::InitializeMint {
            decimals: input[1],
            authority: if input[2] == 1 {
                Some(spec_u64_from_le_bytes(input.subrange(3, 11)))
            } else {
                None
            },
        })
    } else if input[0] == 2 && input.len() == 17 {
        Ok(Operation::InitializeAccount {
            mint: spec_u64_from_le_bytes(input.subrange(1, 9)),
            owner: spec_u64_from_le_bytes(input.subrange(9, 17)),
        })
    } else if input[0] == 3 && input.len() == 17 {
        Ok(Operation::AddLiquidity {
            amount0: spec_u64_from_le_bytes(input.subrange(1, 9)),
            amount1: spec_u64_from_le_bytes(input.subrange(9, 17)),
        })
    } else if input[0] == 4 && input.len() == 9 {
        Ok(Operation::RemoveLiquidity { shares: spec_u64_from_le_bytes(input.subrange(1, 9)) })
    } else if input[0] == 5 && input.len() == 18 && input[17] <= 1 {
        Ok(Operation::Swap {
            amount_in: spec_u64_from_le_bytes(input.subrange(1, 9)),
            minimum_amount_out: spec_u64_from_le_bytes(input.subrange(9, 17)),
            input_is_token0: input[17] == 0,
        })
    } else {
        Err(AmmError::MalformedOperation)
    }
}

impl Operation {
    /// Decodes one request from its wire bytes: a tag byte naming the
    /// operation, then its fields as fixed-width little-endian integers.
    /// Any other shape fails with `MalformedOperation`.
    pub fn decode(input: &[u8]) -> (r: Result<Operation, AmmError>)
        ensures
            r == spec_decode_operation(input@),
    {
        if input.len() == 0 {
            return Err(AmmError::MalformedOperation);
        }
        let tag = input[0];
        if tag == 0 && input.len() == 9 {
            Ok(Operation::Transfer { amount: u64_from_le_bytes(&input[1..9]) })
        } else if tag == 1 && input.len() == 11 && input[2] <= 1 {
            let authority = if input[2] == 1 {
                Some(u64_from_le_bytes(&input[3..11]))
            } else {
                None
            };
            Ok(Operation::InitializeMint { decimals: input[1], authority })
        } else if tag == 2 && input.len() == 17 {
            Ok(Operation::InitializeAccount {
                mint: u64_from_le_bytes(&input[1..9]),
                owner: u64_from_le_bytes(&input[9..17]),
            })
        } else if tag == 3 && input.len() == 17 {
            Ok(Operation::AddLiquidity {
                amount0: u64_from_le_bytes(&input[1..9]),
                amount1: u64_from_le_bytes(&input[9..17]),
            })
        } else if tag == 4 && input.len() == 9 {
            Ok(Operation::RemoveLiquidity { shares: u64_from_le_bytes(&input[1..9]) })
        } else if tag == 5 && input.len() == 18 && input[17] <= 1 {
            Ok(Operation::Swap {
                amount_in: u64_from_le_bytes(&input[1..9]),
                minimum_amount_out: u64_from_le_bytes(&input[9..17]),
                input_is_token0: input[17] == 0,
            })
        } else {
            Err(AmmError::MalformedOperation)
        }
    }

    /// How many resolved account records the operation names, in the fixed
    /// positional order the dispatcher binds them.
    pub open spec fn spec_account_count(self) -> usize {
        match self {
            Operation::Transfer { .. } => 2,
            Operation::InitializeMint { .. } => 1,
            Operation::InitializeAccount { .. } => 1,
            Operation::AddLiquidity { .. } => 5,
            Operation::RemoveLiquidity { .. } => 5,
            Operation::Swap { .. } => 4,
        }
    }

    /// Executable twin of [`Self::spec_account_count`].
    pub fn account_count(&self) -> (n: usize)
        ensures
            n == self.spec_account_count(),
    {
        match self {
            Operation::Transfer { .. } => 2,
            Operation::InitializeMint { .. } => 1,
            Operation::InitializeAccount { .. } => 1,
            Operation::AddLiquidity { .. } => 5,
            Operation::RemoveLiquidity { .. } => 5,
            Operation::Swap { .. } => 4,
        }
    }

    /// Accepts a resolved account list for this operation only when its
    /// length is exactly the operation's required count.
    pub fn check_account_count(&self, provided: usize) -> (r: OpResult)
        ensures
            r == if provided == self.spec_account_count() {
                Ok::<(), AmmError>(())
            } else {
                Err::<(), AmmError>(AmmError::WrongAccountCount)
            },
    {
        if provided == self.account_count() {
            Ok(())
        } else {
            Err(AmmError::WrongAccountCount)
        }
    }
}

} // verus!
