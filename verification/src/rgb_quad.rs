use crate::rgba::Rgba;
use vstd::prelude::*;

verus! {

/// The colour table of an image file, in file order.
#[derive(Debug)]
pub struct RgbQuad {
    data: Vec<Rgba>,
}

impl RgbQuad {
    /// The colours of the table, in order.
    pub closed spec fn colors(&self) -> Seq<Rgba> {
        self.data@
    }

    /// A colour table that holds `colors`, in the given order.
    pub fn new(colors: Vec<Rgba>) -> (table: RgbQuad)
        ensures
            table.colors() == colors@,
    {
        RgbQuad { data: colors }
    }

    /// Number of colours in the table.
    pub fn len(&self) -> (count: usize)
        ensures
            count == self.colors().len(),
    {
        self.data.len()
    }

    /// A copy of the colours of the table, in order.
    pub fn clone_colors(&self) -> (colors: Vec<Rgba>)
        ensures
            colors@ == self.colors(),
    {
        let mut colors: Vec<Rgba> = Vec::new();
        let mut i: usize = 0;
        while i < self.data.len()
            invariant
                i <= self.data@.len(),
                colors@ == self.data@.take(i as int),
            decreases self.data@.len() - i,
        {
            colors.push(self.data[i]);
            proof {
                assert(self.data@.take(i + 1) =~= self.data@.take(i as int).push(
                    self.data@[i as int],
                ));
            }
            i += 1;
        }
        proof {
            assert(self.data@.take(self.data@.len() as int) =~= self.data@);
        }
        colors
    }
}

} // verus!
