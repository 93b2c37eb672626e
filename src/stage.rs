use vstd::prelude::*;

verus! {

/// Coarse progress marker of a simulation run.
///
/// A run goes through `Start`, `Points`, optionally `Plots`, and `End`, in that
/// order. `End` is also the resting state before any run has been made.
#[derive(Clone, Copy, Debug, PartialEq, Eq, Structural)]
pub enum CalculationStage {
    Start,
    Points,
    Plots,
    End,
}

/// Human-readable label of each stage.
pub open spec fn stage_label(s: CalculationStage) -> Seq<char> {
    match s {
        CalculationStage::Start => "Just started calculation"@,
        CalculationStage::Points => "Generating points"@,
        CalculationStage::Plots => "Generating plots"@,
        CalculationStage::End => "Ended calculations"@,
    }
}

impl CalculationStage {
    /// The stage that comes after `self` in a run; `End` leads to the `Start`
    /// of the next run. `Plots` is entered only when an image is generated.
    pub open spec fn successor(self, generate_image: bool) -> CalculationStage {
        match self {
            CalculationStage::Start => CalculationStage::Points,
            CalculationStage::Points => if generate_image {
                CalculationStage::Plots
            } else {
                CalculationStage::End
            },
            CalculationStage::Plots => CalculationStage::End,
            CalculationStage::End => CalculationStage::Start,
        }
    }

    /// The label shown to the user for this stage.
    pub fn label(&self) -> (r: &'static str)
        ensures
            r@ == stage_label(*self),
    {
        match self {
            CalculationStage::Start => "Just started calculation",
            CalculationStage::Points => "Generating points",
            CalculationStage::Plots => "Generating plots",
            CalculationStage::End => "Ended calculations",
        }
    }
}

impl AsRef<str> for CalculationStage {
    /// The label shown to the user for this stage.
    fn as_ref(&self) -> (r: &str)
        ensures
            r@ == stage_label(*self),
    {
        self.label()
    }
}

} // verus!
