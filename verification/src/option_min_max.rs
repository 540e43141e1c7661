use vstd::prelude::*;

verus! {

/// An optional running extreme: `None` before the first sample, then the
/// least (or greatest) value seen so far.
#[derive(Copy, Clone, Debug)]
pub struct OptionMinMax<T>(pub Option<T>);

impl OptionMinMax<i64> {
    /// Folds one more sample into the running minimum.
    pub fn min(&self, other: i64) -> (r: OptionMinMax<i64>)
        ensures
            match self.0 {
                None => r.0 == Some(other),
                Some(m) => r.0 == Some(
                    if other < m {
                        other
                    } else {
                        m
                    },
                ),
            },
    {
        OptionMinMax(
            Some(
                match self.0 {
                    None => other,
                    Some(m) => if other < m {
                        other
                    } else {
                        m
                    },
                },
            ),
        )
    }

    /// Folds one more sample into the running maximum.
    pub fn max(&self, other: i64) -> (r: OptionMinMax<i64>)
        ensures
            match self.0 {
                None => r.0 == Some(other),
                Some(m) => r.0 == Some(
                    if other > m {
                        other
                    } else {
                        m
                    },
                ),
            },
    {
        OptionMinMax(
            Some(
                match self.0 {
                    None => other,
                    Some(m) => if other > m {
                        other
                    } else {
                        m
                    },
                },
            ),
        )
    }
}

} // verus!
