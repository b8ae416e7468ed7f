pub mod accumulator;
pub mod feature;
pub mod incremental;
pub mod inference;
pub mod loader;
pub mod simd;
pub mod tracking;

use vstd::prelude::*;
use crate::nnue::accumulator::Accumulator;
use crate::nnue::inference::{layers_fit, spec_evaluate};
use crate::nnue::loader::{decoded, file_complete, NetworkParams};
use crate::types::Color;

verus! {

/// The evaluation network.
pub struct NNUE {
    pub params: NetworkParams,
}

impl NNUE {
    pub open spec fn wf(&self) -> bool {
        self.params.wf()
    }

    /// A network with every weight zero.
    pub fn new() -> (n: NNUE)
        ensures
            n.wf(),
    {
        NNUE { params: NetworkParams::new() }
    }

    /// The network a `.nnue` file holds, read from its bytes; `None` when
    /// the bytes end before the file does.
    pub fn load(data: &[u8]) -> (r: Option<NNUE>)
        ensures
            r is Some <==> file_complete(data@),
            r matches Some(n) ==> n.wf() && decoded(data@, &n.params),
    {
        match NetworkParams::load(data) {
            Some(params) => Some(NNUE { params }),
            None => None,
        }
    }

    /// Whether `evaluate` can run for `side` on these accumulator values: the
    /// sums of both layers stay within `i32`.
    pub fn fits(&self, side: Color, acc: &Accumulator) -> (r: bool)
        requires
            self.wf(),
            acc.wf(),
        ensures
            r == layers_fit(
                &self.params,
                (if side == Color::White { acc.white.values@ } else { acc.black.values@ }),
                (if side == Color::White { acc.black.values@ } else { acc.white.values@ }),
            ),
    {
        match side {
            Color::White => crate::nnue::inference::layers_fit_check(&self.params, &acc.white, &acc.black),
            Color::Black => crate::nnue::inference::layers_fit_check(&self.params, &acc.black, &acc.white),
        }
    }

    /// The evaluation of the position for `side`, the side to move, with
    /// `piece_count` pieces on the board.
    pub fn evaluate(&self, side: Color, acc: &Accumulator, piece_count: u32) -> (v: i32)
        requires
            self.wf(),
            acc.wf(),
            layers_fit(
                &self.params,
                (if side == Color::White { acc.white.values@ } else { acc.black.values@ }),
                (if side == Color::White { acc.black.values@ } else { acc.white.values@ }),
            ),
        ensures
            v == (if side == Color::White {
                spec_evaluate(&acc.white, &acc.black, &self.params, piece_count)
            } else {
                spec_evaluate(&acc.black, &acc.white, &self.params, piece_count)
            }),
    {
        crate::nnue::inference::evaluate(side, acc, &self.params, piece_count)
    }
}

} // verus!
