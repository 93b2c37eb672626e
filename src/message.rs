use vstd::prelude::*;

use crate::stage::CalculationStage;

verus! {

/// What a run sends to its consumer, in the order the run produces it: stage
/// changes and trajectory points. The point type is the consumer's own.
#[derive(Clone, Debug)]
pub enum Message<P> {
    NewStage(CalculationStage),
    NewPoint(P),
}

} // verus!
