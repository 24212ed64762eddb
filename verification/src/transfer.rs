//! Moving assets between an account and the ledger's own account. The ledger
//! decides what is to be moved and how; whoever holds the assets carries it
//! out and reports back; the ledger decides whether that was a success.

use crate::address::{all_zero, Address};
use crate::errors::StylusSwapError;
use crate::uint256::U256;
use vstd::prelude::*;

verus! {

/// How an asset is moved.
#[derive(Clone, Copy, Debug, PartialEq, Eq)]
pub enum MovementKind {
    /// Native value is sent from the ledger's account.
    SendNative,
    /// A token is transferred from the ledger's account.
    TokenTransfer,
    /// A token is pulled from another account, on its owner's allowance.
    TokenTransferFrom,
}

/// One movement of `amount` of `token` from `from` to `to`.
#[derive(Clone, Copy, Debug, PartialEq, Eq)]
pub struct Movement {
    pub kind: MovementKind,
    pub token: Address,
    pub from: Address,
    pub to: Address,
    pub amount: U256,
}

/// What a transfer asks to be carried out: the movement itself, unless the
/// value attached to the call covers it, and the return of what was attached
/// beyond the amount.
#[derive(Clone, Copy, Debug, PartialEq, Eq)]
pub struct TransferPlan {
    pub primary: Option<Movement>,
    pub refund: Option<Movement>,
}

/// What came of a movement.
#[derive(Clone, Copy, Debug, PartialEq, Eq)]
pub enum CallOutcome {
    /// The call failed.
    Reverted,
    /// The call came back with this answer.
    Returned(bool),
}

/// The refusal of a transfer of `amount` of `token` from `from` to `to`.
pub open spec fn refused(token: Address, from: Address, to: Address, amount: U256) -> StylusSwapError {
    StylusSwapError::FailedOrInsufficientTokenTransfer { token, from, to, amount }
}

/// Plans the transfer of `amount` of `token` from `from` to `to`, one of which
/// must be the ledger's own account `address_this`. Native value that comes
/// in must be covered by `msg_value`, the value attached to the call; what is
/// attached beyond the amount goes back to the sender.
pub fn try_transfer_token(
    token: Address,
    from: Address,
    to: Address,
    amount: U256,
    address_this: Address,
    msg_value: U256,
) -> (r: Result<TransferPlan, StylusSwapError>)
    ensures
        from != address_this && to != address_this ==> r == Err::<TransferPlan, StylusSwapError>(
            refused(token, from, to, amount),
        ),
        from == address_this ==> r == Ok::<TransferPlan, StylusSwapError>(
            TransferPlan {
                primary: Some(
                    Movement {
                        kind: if all_zero(token@) {
                            MovementKind::SendNative
                        } else {
                            MovementKind::TokenTransfer
                        },
                        token,
                        from,
                        to,
                        amount,
                    },
                ),
                refund: None,
            },
        ),
        from != address_this && to == address_this && !all_zero(token@) ==> r == Ok::<
            TransferPlan,
            StylusSwapError,
        >(
            TransferPlan {
                primary: Some(Movement { kind: MovementKind::TokenTransferFrom, token, from, to, amount }),
                refund: None,
            },
        ),
        from != address_this && to == address_this && all_zero(token@) ==> {
            &&& msg_value@ < amount@ ==> r == Err::<TransferPlan, StylusSwapError>(
                refused(token, from, to, amount),
            )
            &&& msg_value@ == amount@ ==> r == Ok::<TransferPlan, StylusSwapError>(
                TransferPlan { primary: None, refund: None },
            )
            &&& msg_value@ > amount@ ==> {
                &&& r is Ok
                &&& r->Ok_0.primary is None
                &&& r->Ok_0.refund is Some
                &&& r->Ok_0.refund->0.kind == MovementKind::SendNative
                &&& r->Ok_0.refund->0.token == token
                &&& r->Ok_0.refund->0.from == address_this
                &&& r->Ok_0.refund->0.to == from
                &&& r->Ok_0.refund->0.amount@ == msg_value@ - amount@
            }
        },
{
    let outgoing = from.same(&address_this);
    let incoming = to.same(&address_this);
    if !outgoing && !incoming {
        return Err(StylusSwapError::FailedOrInsufficientTokenTransfer { token, from, to, amount });
    }
    if token.is_zero() {
        if outgoing {
            Ok(
                TransferPlan {
                    primary: Some(Movement { kind: MovementKind::SendNative, token, from, to, amount }),
                    refund: None,
                },
            )
        } else {
            match msg_value.checked_sub(amount) {
                None => Err(StylusSwapError::FailedOrInsufficientTokenTransfer { token, from, to, amount }),
                Some(extra) => if extra.is_zero() {
                    Ok(TransferPlan { primary: None, refund: None })
                } else {
                    Ok(
                        TransferPlan {
                            primary: None,
                            refund: Some(
                                Movement {
                                    kind: MovementKind::SendNative,
                                    token,
                                    from: address_this,
                                    to: from,
                                    amount: extra,
                                },
                            ),
                        },
                    )
                },
            }
        }
    } else if outgoing {
        Ok(
            TransferPlan {
                primary: Some(Movement { kind: MovementKind::TokenTransfer, token, from, to, amount }),
                refund: None,
            },
        )
    } else {
        Ok(
            TransferPlan {
                primary: Some(Movement { kind: MovementKind::TokenTransferFrom, token, from, to, amount }),
                refund: None,
            },
        )
    }
}

/// Whether a movement that was carried out counts: it does where the call
/// came back with a yes, and is refused where the call failed or came back
/// with a no.
pub fn settle(movement: Movement, outcome: CallOutcome) -> (r: Result<(), StylusSwapError>)
    ensures
        outcome == CallOutcome::Returned(true) ==> r == Ok::<(), StylusSwapError>(()),
        outcome != CallOutcome::Returned(true) ==> r == Err::<(), StylusSwapError>(
            refused(movement.token, movement.from, movement.to, movement.amount),
        ),
{
    match outcome {
        CallOutcome::Returned(true) => Ok(()),
        _ => Err(
            StylusSwapError::FailedOrInsufficientTokenTransfer {
                token: movement.token,
                from: movement.from,
                to: movement.to,
                amount: movement.amount,
            },
        ),
    }
}

} // verus!
