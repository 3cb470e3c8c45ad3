use vstd::prelude::*;
use crate::record::{records_model, Record, RecordModel};

verus! {

/// The append-only list of the records received so far, in order; the
/// view layer renders it.
pub struct MessageLog {
    entries: Vec<Record>,
}

impl MessageLog {
    pub closed spec fn view(&self) -> Seq<RecordModel> {
        records_model(self.entries@)
    }

    pub fn new() -> (l: MessageLog)
        ensures
            l@ == Seq::<RecordModel>::empty(),
    {
        let l = MessageLog { entries: Vec::new() };
        assert(l@ =~= Seq::<RecordModel>::empty());
        l
    }

    /// Adds `r` after every record already in the log.
    pub fn append(&mut self, r: Record)
        ensures
            final(self)@ == old(self)@.push(r@),
    {
        let ghost prev = self@;
        self.entries.push(r);
        assert(self@ =~= prev.push(r@));
    }

    /// A copy of the log as it stands, for a reader to render.
    pub fn snapshot(&self) -> (v: Vec<Record>)
        ensures
            records_model(v@) == self@,
    {
        let mut v: Vec<Record> = Vec::new();
        let mut i: usize = 0;
        while i < self.entries.len()
            invariant
                i <= self.entries@.len(),
                v@.len() == i,
                forall|k: int| 0 <= k < i ==> v@[k]@ == self.entries@[k]@,
            decreases self.entries@.len() - i,
        {
            let r = self.entries[i].duplicate();
            v.push(r);
            i = i + 1;
        }
        assert(records_model(v@) =~= records_model(self.entries@));
        v
    }

    /// How many records the log holds.
    pub fn len(&self) -> (n: usize)
        ensures
            n == self@.len(),
    {
        self.entries.len()
    }
}

} // verus!
