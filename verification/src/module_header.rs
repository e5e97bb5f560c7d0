use vstd::prelude::*;

use crate::exposing::Exposing;
use crate::ident::{Ident, ModuleName};
use crate::node::Spanned;

verus! {

/// A module header.
#[derive(Debug, PartialEq, Eq)]
pub enum ModuleHeader {
    /// `module Main exposing (..)`
    Normal { name: Spanned<ModuleName>, exposing: Spanned<Exposing> },
    /// `port module Main exposing (..)`
    Port { name: Spanned<ModuleName>, exposing: Spanned<Exposing> },
    /// `effect module Task where { command = MyCmd } exposing (..)`
    Effect {
        name: Spanned<ModuleName>,
        exposing: Spanned<Exposing>,
        command: Option<Spanned<Ident>>,
        subscription: Option<Spanned<Ident>>,
    },
}

} // verus!
