//! Tabular records: one row of positional string fields, and the cursor
//! that advances through an externally supplied sequence of rows, strictly
//! forward, never reset.

use vstd::prelude::*;

verus! {

/// One row of positional string fields, immutable once produced.
#[derive(Debug, PartialEq)]
pub struct Record {
    pub fields: Vec<String>,
}

impl View for Record {
    type V = Seq<Seq<char>>;

    open spec fn view(&self) -> Seq<Seq<char>> {
        self.fields.deep_view()
    }
}

impl DeepView for Record {
    type V = Seq<Seq<char>>;

    open spec fn deep_view(&self) -> Seq<Seq<char>> {
        self.view()
    }
}

impl Record {
    pub fn new(fields: Vec<String>) -> (r: Record)
        ensures
            r@ == fields.deep_view(),
    {
        Record { fields }
    }

    pub fn len(&self) -> (n: usize)
        ensures
            n == self@.len(),
    {
        self.fields.len()
    }

    /// The field at position `i`, if the row has one.
    pub fn get(&self, i: usize) -> (r: Option<&String>)
        ensures
            match r {
                Some(s) => i < self@.len() && s@ == self@[i as int],
                None => i >= self@.len(),
            },
    {
        if i < self.fields.len() {
            Some(&self.fields[i])
        } else {
            None
        }
    }

    /// An owned copy of the row.
    pub fn duplicate(&self) -> (r: Record)
        ensures
            r@ == self@,
    {
        let mut fields: Vec<String> = Vec::new();
        let mut i: usize = 0;
        while i < self.fields.len()
            invariant
                i <= self.fields@.len(),
                fields.deep_view() =~= self.fields.deep_view().take(i as int),
            decreases self.fields@.len() - i,
        {
            let ghost f0 = fields.deep_view();
            fields.push(self.fields[i].clone());
            proof {
                assert(fields.deep_view() =~= f0.push(self.fields@[i as int]@));
                assert(fields.deep_view() =~= self.fields.deep_view().take(i + 1));
            }
            i = i + 1;
        }
        proof {
            assert(fields.deep_view() =~= self.fields.deep_view());
        }
        Record { fields }
    }
}

/// The forward-only cursor over an externally supplied, finite sequence of
/// records.
#[derive(Debug, PartialEq)]
pub struct RecordCursor {
    pub records: Vec<Record>,
    pub position: usize,
}

impl RecordCursor {
    /// The rows still to come, in order.
    pub open spec fn remaining(self) -> Seq<Seq<Seq<char>>> {
        self.records.deep_view().skip(self.position as int)
    }

    pub open spec fn wf(self) -> bool {
        self.position <= self.records@.len()
    }

    pub fn new(records: Vec<Record>) -> (c: RecordCursor)
        ensures
            c.wf(),
            c.remaining() == records.deep_view(),
    {
        let c = RecordCursor { records, position: 0 };
        proof {
            assert(c.remaining() =~= c.records.deep_view());
        }
        c
    }

    /// Hand out the next row, advancing; `None` once the rows are spent.
    /// The cursor only ever moves forward.
    pub fn next(&mut self) -> (r: Option<Record>)
        requires
            old(self).wf(),
        ensures
            final(self).wf(),
            final(self).records == old(self).records,
            match r {
                Some(rec) => old(self).remaining().len() > 0 && rec@ == old(self).remaining()[0]
                    && final(self).position == old(self).position + 1,
                None => old(self).remaining().len() == 0 && final(self).position == old(
                    self,
                ).position,
            },
    {
        if self.position < self.records.len() {
            let r = (&self.records[self.position]).duplicate();
            proof {
                assert(old(self).remaining()[0] == self.records.deep_view()[
                    self.position as int]);
            }
            self.position = self.position + 1;
            Some(r)
        } else {
            proof {
                assert(old(self).remaining().len() == 0);
            }
            None
        }
    }
}

} // verus!
