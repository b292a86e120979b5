//! What is computed over a list of sprints: the width of the column their
//! identifiers are shown in.

use crate::decimal::{decimal, decimal_width};
use crate::extend_issues::widest;
use crate::tracker::{Sprint, SprintView};
use vstd::prelude::*;

verus! {

/// A list of sprints.
pub type Sprints = Vec<Sprint>;

/// The width of the identifier of each sprint, written in decimal.
pub open spec fn id_widths(sprints: Seq<SprintView>) -> Seq<nat> {
    Seq::new(sprints.len(), |i: int| decimal(sprints[i].id as nat).len())
}

/// The largest width of the columns of a list of sprints.
pub trait SprintsPadding {
    /// The width of the widest identifier, 0 for no sprints.
    fn id_padding(&self) -> usize;
}

impl SprintsPadding for Sprints {
    fn id_padding(&self) -> (r: usize)
        ensures
            r == widest(id_widths(self.deep_view())),
    {
        let ghost all = id_widths(self.deep_view());
        let mut most: usize = 0;
        let mut i: usize = 0;
        while i < self.len()
            invariant
                i <= self.len(),
                all == id_widths(self.deep_view()),
                most == widest(all.take(i as int)),
            decreases self.len() - i,
        {
            let this = decimal_width(self[i].id);
            proof {
                assert(all.take(i + 1).drop_last() =~= all.take(i as int));
                assert(all.take(i + 1).last() == this);
            }
            if this > most {
                most = this;
            }
            i += 1;
        }
        assert(all.take(self.len() as int) =~= all);
        most
    }
}

} // verus!
