//! The pools that a state space holds.
use vstd::prelude::*;

use crate::pool::UniswapV4Pool;
use crate::uniswap_v3::UniswapV3Pool;

verus! {

/// A pool of one of the protocols.
#[derive(Debug, Clone)]
pub enum AMM {
    UniswapV3Pool(UniswapV3Pool),
    UniswapV4Pool(UniswapV4Pool),
}

} // verus!
