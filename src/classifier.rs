//! Wallet classes and the decisions around the probabilistic model: the
//! contract rule that comes before it and the reading of its output.
use vstd::prelude::*;
use crate::text::same_text;

verus! {

/// The behavioural category of an account.
#[derive(PartialEq, Eq, Structural)]
pub enum WalletClass {
    Customer,
    MevBot,
    Exchange { hot: bool },
    Contract,
}

pub open spec fn label_of(c: WalletClass) -> Seq<char> {
    match c {
        WalletClass::Customer => "customer"@,
        WalletClass::MevBot => "mev bot"@,
        WalletClass::Exchange { hot } => if hot {
            "hot exchange"@
        } else {
            "cold exchange"@
        },
        WalletClass::Contract => "contract"@,
    }
}

impl WalletClass {
    /// The class's name as shown to users.
    pub fn label(&self) -> (r: String)
        ensures
            r@ == label_of(*self),
    {
        match self {
            WalletClass::Customer => "customer".to_owned(),
            WalletClass::MevBot => "mev bot".to_owned(),
            WalletClass::Exchange { hot } => if *hot {
                "hot exchange".to_owned()
            } else {
                "cold exchange".to_owned()
            },
            WalletClass::Contract => "contract".to_owned(),
        }
    }
}

/// The explorer's answers for an account without bytecode: nothing at all,
/// `0x` or `0x0`.
pub open spec fn is_no_code(code: Seq<char>) -> bool {
    code.len() == 0 || code == "0x"@ || code == "0x0"@
}

/// Whether the account's bytecode, as the explorer gives it, is that of a
/// contract.
pub fn has_code(code: &str) -> (r: bool)
    ensures
        r == !is_no_code(code@),
{
    !(code.unicode_len() == 0 || same_text(code, "0x") || same_text(code, "0x0"))
}

/// The class decided before any model runs: `Contract` for an account with
/// bytecode, else `None` (the model decides).
pub fn contract_verdict(code: &str) -> (r: Option<WalletClass>)
    ensures
        r == (if is_no_code(code@) {
            None
        } else {
            Some(WalletClass::Contract)
        }),
{
    if has_code(code) {
        Some(WalletClass::Contract)
    } else {
        None
    }
}

/// The class at a position of the model's output, which lists cold
/// exchange, hot exchange, automated agent and customer in that order.
pub open spec fn model_class_at(index: nat) -> Option<WalletClass> {
    if index == 0 {
        Some(WalletClass::Exchange { hot: false })
    } else if index == 1 {
        Some(WalletClass::Exchange { hot: true })
    } else if index == 2 {
        Some(WalletClass::MevBot)
    } else if index == 3 {
        Some(WalletClass::Customer)
    } else {
        None
    }
}

/// The class that the model's most probable position stands for; `None`
/// for a position past the four classes.
pub fn model_class(index: usize) -> (r: Option<WalletClass>)
    ensures
        r == model_class_at(index as nat),
{
    match index {
        0 => Some(WalletClass::Exchange { hot: false }),
        1 => Some(WalletClass::Exchange { hot: true }),
        2 => Some(WalletClass::MevBot),
        3 => Some(WalletClass::Customer),
        _ => None,
    }
}

} // verus!
