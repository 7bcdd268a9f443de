//! Walking a USN journal: records laid end to end, each announcing its own
//! length, possibly followed by zero padding.
use vstd::prelude::*;
use crate::le::{copy_range, read_u32, u32_at};
use crate::usn::{decodes_to, record_complete, UsnError, UsnJournalEntry};

verus! {

/// The length that a record starting at the front of `d` announces, when the
/// journal holds a whole record there; none at the end of the journal, at
/// zero padding, or where the rest is shorter than announced.
pub open spec fn next_len(d: Seq<u8>) -> Option<int> {
    if d.len() >= 4 && 0 < u32_at(d, 0) <= d.len() {
        Some(u32_at(d, 0))
    } else {
        None
    }
}

/// The byte windows of the records that a walk over `d` yields, in order.
pub open spec fn journal_windows(d: Seq<u8>) -> Seq<Seq<u8>>
    decreases d.len(),
{
    match next_len(d) {
        Some(n) => if 0 < n <= d.len() {
            seq![d.take(n)] + journal_windows(d.skip(n))
        } else {
            Seq::empty()
        },
        None => Seq::empty(),
    }
}

/// Whether `r` is one well-formed record: its length field gives its size.
pub open spec fn is_record(r: Seq<u8>) -> bool {
    r.len() >= 4 && u32_at(r, 0) == r.len()
}

/// Whether every byte of `z` is zero.
pub open spec fn all_zero(z: Seq<u8>) -> bool {
    forall|i: int| 0 <= i < z.len() ==> z[i] == 0
}

/// A walk over records laid end to end yields exactly those records, and zero
/// padding after them yields nothing more.
pub proof fn lemma_records_then_padding(recs: Seq<Seq<u8>>, z: Seq<u8>)
    requires
        forall|i: int| 0 <= i < recs.len() ==> is_record(#[trigger] recs[i]),
        all_zero(z),
    ensures
        journal_windows(recs.flatten() + z) == recs,
    decreases recs.len(),
{
    if recs.len() == 0 {
        assert(recs.flatten() + z =~= z);
        if z.len() >= 4 {
            assert(z[0] == 0 && z[1] == 0 && z[2] == 0 && z[3] == 0);
        }
        assert(journal_windows(z) =~= recs);
    } else {
        let r = recs[0];
        let rest = recs.drop_first();
        assert forall|i: int| 0 <= i < rest.len() implies is_record(#[trigger] rest[i]) by {
            assert(rest[i] == recs[i + 1]);
        }
        lemma_records_then_padding(rest, z);
        let d = recs.flatten() + z;
        assert(recs.flatten() == r + rest.flatten());
        assert(d =~= r + (rest.flatten() + z));
        assert(is_record(r));
        assert(d[0] == r[0] && d[1] == r[1] && d[2] == r[2] && d[3] == r[3]);
        assert(d.take(r.len() as int) =~= r);
        assert(d.skip(r.len() as int) =~= rest.flatten() + z);
        assert(journal_windows(d) =~= seq![r] + rest);
        assert(seq![r] + rest =~= recs);
    }
}

/// A walk over a journal held in memory.
pub struct UsnJournalParser {
    data: Vec<u8>,
    pos: usize,
}

impl UsnJournalParser {
    /// The bytes of the journal.
    pub closed spec fn data(&self) -> Seq<u8> {
        self.data@
    }

    /// How far the walk has come.
    pub closed spec fn pos(&self) -> int {
        self.pos as int
    }

    /// The part of the journal not yet walked.
    pub open spec fn remaining(&self) -> Seq<u8> {
        self.data().skip(self.pos())
    }

    pub open spec fn wf(&self) -> bool {
        0 <= self.pos() <= self.data().len()
    }

    /// A walk from the start of `data`.
    pub fn new(data: Vec<u8>) -> (r: Self)
        ensures
            r.wf(),
            r.data() == data@,
            r.pos() == 0,
            r.remaining() == data@,
    {
        let r = UsnJournalParser { data, pos: 0 };
        assert(r.remaining() =~= data@);
        r
    }

    /// The next record: none at the end of the journal, at zero padding, or
    /// where fewer bytes are left than the record announces. Otherwise the
    /// walk moves past exactly the announced length, and the record is
    /// decoded from that window alone.
    pub fn next(&mut self) -> (r: Option<Result<UsnJournalEntry, UsnError>>)
        requires
            old(self).wf(),
        ensures
            final(self).wf(),
            final(self).data() == old(self).data(),
            journal_windows(old(self).remaining()).len() == 0 ==> r is None
                && final(self).pos() == old(self).pos(),
            journal_windows(old(self).remaining()).len() > 0 ==> {
                let w = journal_windows(old(self).remaining())[0];
                &&& r is Some
                &&& journal_windows(final(self).remaining()) == journal_windows(
                    old(self).remaining(),
                ).drop_first()
                &&& final(self).remaining() == old(self).remaining().skip(w.len() as int)
                &&& (r->0 is Ok <==> record_complete(w))
                &&& (r->0 is Ok ==> decodes_to(w, r->0->Ok_0))
                &&& (r->0 is Err ==> r->0->Err_0 == UsnError::UnexpectedEof)
            },
    {
        let ghost rem = self.remaining();
        let n = self.data.len();
        if n - self.pos < 4 {
            return None;
        }
        let len = read_u32(self.data.as_slice(), self.pos);
        assert(u32_at(rem, 0) == u32_at(self.data@, self.pos as int));
        if len == 0 || (len as usize) > n - self.pos {
            return None;
        }
        let end: usize = self.pos + len as usize;
        let window = copy_range(self.data.as_slice(), self.pos, end);
        assert(window@ =~= rem.take(len as int));
        self.pos = end;
        assert(self.remaining() =~= rem.skip(len as int));
        Some(UsnJournalEntry::from_buffer(window.as_slice()))
    }

    /// Every remaining record, in journal order, each decoded from its own
    /// window; the walk ends at the end of the journal or at zero padding.
    pub fn iter_entries(&mut self) -> (r: Vec<Result<UsnJournalEntry, UsnError>>)
        requires
            old(self).wf(),
        ensures
            final(self).wf(),
            final(self).data() == old(self).data(),
            r@.len() == journal_windows(old(self).remaining()).len(),
            forall|i: int|
                0 <= i < r@.len() ==> {
                    let w = #[trigger] journal_windows(old(self).remaining())[i];
                    &&& (r@[i] is Ok <==> record_complete(w))
                    &&& (r@[i] is Ok ==> decodes_to(w, r@[i]->Ok_0))
                },
    {
        let ghost all = journal_windows(self.remaining());
        let mut out: Vec<Result<UsnJournalEntry, UsnError>> = Vec::new();
        loop
            invariant
                self.wf(),
                self.data() == old(self).data(),
                all == journal_windows(old(self).remaining()),
                out@.len() + journal_windows(self.remaining()).len() == all.len(),
                journal_windows(self.remaining()) == all.skip(out@.len() as int),
                forall|i: int|
                    0 <= i < out@.len() ==> {
                        let w = #[trigger] all[i];
                        &&& (out@[i] is Ok <==> record_complete(w))
                        &&& (out@[i] is Ok ==> decodes_to(w, out@[i]->Ok_0))
                    },
            decreases journal_windows(self.remaining()).len(),
        {
            let ghost k = out@.len() as int;
            match self.next() {
                Some(e) => {
                    assert(all[k] == all.skip(k)[0]);
                    assert(all.skip(k).drop_first() =~= all.skip(k + 1));
                    out.push(e);
                },
                None => {
                    assert(out@.len() == all.len());
                    return out;
                },
            }
        }
    }
}

} // verus!
