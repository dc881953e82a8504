//! Settings for one run of a program.
use vstd::prelude::*;
use crate::diagnostic::ErrorKind;
use crate::lang::Lang;

verus! {

/// Settings for one run.
#[derive(Debug, Clone, Copy)]
pub struct Options {
    pub lang: Lang,
    /// Loop iterations plus calls allowed before `TooLong` (the playground sets this).
    pub step_budget: Option<u64>,
    pub max_depth: usize,
    /// Where the random sequence starts; a session carries it on from run to run.
    pub seed: u64,
}

/// The seed of a run that is given none.
pub const DEFAULT_SEED: u64 = 0x2545_f491_4f6c_dd1d;

impl Default for Options {
    fn default() -> (o: Options)
        ensures
            o.lang == Lang::Uk,
            o.step_budget == None::<u64>,
            o.max_depth == 1000,
            o.seed == DEFAULT_SEED,
    {
        Options { lang: Lang::Uk, step_budget: None, max_depth: 1000, seed: DEFAULT_SEED }
    }
}

impl Options {
    /// Counts one loop iteration or call in `steps`; once the count passes the step budget,
    /// the program is stopped as too long.
    pub fn tick(&self, steps: &mut u64) -> (r: Result<(), ErrorKind>)
        requires
            *old(steps) < u64::MAX,
        ensures
            *final(steps) == *old(steps) + 1,
            match self.step_budget {
                Some(max) if *final(steps) > max => r matches Err(ErrorKind::TooLong),
                _ => r is Ok,
            },
    {
        *steps = *steps + 1;
        match self.step_budget {
            Some(max) => {
                if *steps > max {
                    return Err(ErrorKind::TooLong);
                }
                Ok(())
            },
            None => Ok(()),
        }
    }

    /// Whether a call may start `depth` calls deep; at the limit it is refused as too deep.
    pub fn enter_call(&self, depth: usize) -> (r: Result<(), ErrorKind>)
        ensures
            depth < self.max_depth ==> r is Ok,
            depth >= self.max_depth ==> r matches Err(ErrorKind::RecursionTooDeep),
    {
        if depth >= self.max_depth {
            Err(ErrorKind::RecursionTooDeep)
        } else {
            Ok(())
        }
    }
}

} // verus!
