use vstd::prelude::*;
use vstd::std_specs::cmp::PartialEqSpec;

verus! {

/// One memoized stage: the parameters it last ran with, if it has run, and what it
/// produced. The stage is stale for parameters that differ from those last applied.
pub struct StageCache<P, O> {
    pub applied: Option<P>,
    pub output: O,
}

impl<P: PartialEq + PartialEqSpec, O> StageCache<P, O> {
    /// A stage that has not run, holding `output` until it does.
    pub fn new(output: O) -> (r: Self)
        ensures
            r.applied is None,
            r.output == output,
    {
        StageCache { applied: None, output }
    }

    /// Whether the stage must run again for `current`: it has not run, or it ran with
    /// other parameters.
    pub fn is_stale(&self, current: &P) -> (r: bool)
        requires
            P::obeys_eq_spec(),
        ensures
            r == !(self.applied is Some && self.applied->Some_0.eq_spec(current)),
    {
        match &self.applied {
            Some(a) => !(*a == *current),
            None => true,
        }
    }

    /// Records that the stage ran with `params` and produced `output`.
    pub fn store(&mut self, params: P, output: O)
        ensures
            final(self).applied == Some(params),
            final(self).output == output,
    {
        self.applied = Some(params);
        self.output = output;
    }

    /// Forgets the parameters, so that the stage runs again; the output stays.
    pub fn invalidate(&mut self)
        ensures
            final(self).applied is None,
            final(self).output == old(self).output,
    {
        self.applied = None;
    }
}

} // verus!
