//! One step's worth of named scalar inputs: a mapping from channel name to
//! a 64-bit value pattern. Channels not bound in a row read as 0.0.

use vstd::prelude::*;

use crate::arith::F64_ZERO;

verus! {

/// The binding a key has in an entry sequence: the value of the latest
/// entry carrying that key, if any.
pub open spec fn lookup_row(entries: Seq<(String, u64)>, key: Seq<char>) -> Option<u64>
    decreases entries.len(),
{
    if entries.len() == 0 {
        None
    } else if entries.last().0@ == key {
        Some(entries.last().1)
    } else {
        lookup_row(entries.drop_last(), key)
    }
}

/// The value a channel reads in a row: its binding, or 0.0 when unbound.
pub open spec fn row_val(entries: Seq<(String, u64)>, key: Seq<char>) -> u64 {
    match lookup_row(entries, key) {
        Some(v) => v,
        None => F64_ZERO,
    }
}

/// A row of named input values, presented once per evaluation step.
/// Setting a name again overrides its earlier binding.
pub struct Row {
    pub entries: Vec<(String, u64)>,
}

impl View for Row {
    type V = Seq<(String, u64)>;

    open spec fn view(&self) -> Seq<(String, u64)> {
        self.entries@
    }
}

impl Row {
    /// An empty row: every channel reads 0.0.
    pub fn new() -> (r: Row)
        ensures
            r@ == Seq::<(String, u64)>::empty(),
    {
        Row { entries: Vec::new() }
    }

    /// Bind `name` to `bits`, overriding any earlier binding of `name`.
    pub fn set(&mut self, name: String, bits: u64)
        ensures
            final(self)@ == old(self)@.push((name, bits)),
    {
        self.entries.push((name, bits));
    }

    /// The binding of `name`, if this row has one.
    pub fn get(&self, name: &String) -> (r: Option<u64>)
        ensures
            r == lookup_row(self@, name@),
    {
        let n = self.entries.len();
        let mut best: Option<u64> = None;
        let mut i: usize = 0;
        while i < n
            invariant
                i <= n,
                n == self.entries@.len(),
                best == lookup_row(self.entries@.take(i as int), name@),
            decreases n - i,
        {
            proof {
                assert(self.entries@.take(i + 1int).drop_last() =~= self.entries@.take(i as int));
            }
            if self.entries[i].0 == *name {
                best = Some(self.entries[i].1);
            }
            i = i + 1;
        }
        proof {
            assert(self.entries@.take(n as int) =~= self.entries@);
        }
        best
    }

    /// The value channel `name` reads from this row: its binding, or 0.0.
    pub fn value(&self, name: &String) -> (r: u64)
        ensures
            r == row_val(self@, name@),
    {
        match self.get(name) {
            Some(v) => v,
            None => F64_ZERO,
        }
    }
}

} // verus!
