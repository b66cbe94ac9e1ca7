use vstd::prelude::*;

use crate::errors::StegoError;
use vstd::slice::slice_to_vec;

verus! {

/// One persisted placement: where a message's frame begins, and the digest
/// it was registered with.
#[derive(Debug, Clone)]
pub struct IndexRecord {
    /// Identifier the message was registered under.
    pub message_id: u32,
    /// Identity of the carrier holding the frame.
    pub image_path: String,
    /// Byte offset of the frame within the carrier's hidden stream.
    pub offset_bytes: usize,
    /// Digest of the plaintext, as registered.
    pub message_hash: Vec<u8>,
}

/// The message index: a keyed record store mapping message identifiers to
/// carrier and offset. Records are only ever appended, never mutated or
/// deleted; identifiers are unique. Loading it from and flushing it to a
/// persistent store is its caller's concern.
pub struct MessageIndexDB {
    records: Vec<IndexRecord>,
}

impl MessageIndexDB {
    /// The records in insertion order.
    pub closed spec fn rows(self) -> Seq<IndexRecord> {
        self.records@
    }

    /// No two records share a message identifier.
    pub open spec fn wf(self) -> bool {
        forall|i: int, j: int|
            0 <= i < j < self.rows().len() ==> (#[trigger] self.rows()[i]).message_id != (
            #[trigger] self.rows()[j]).message_id
    }

    /// Some record carries this identifier.
    pub open spec fn contains_id(self, message_id: u32) -> bool {
        exists|i: int|
            0 <= i < self.rows().len() && (#[trigger] self.rows()[i]).message_id == message_id
    }

    /// An empty index.
    pub fn new() -> (r: MessageIndexDB)
        ensures
            r.rows().len() == 0,
            r.wf(),
    {
        MessageIndexDB { records: Vec::new() }
    }

    /// Whether some record already carries this identifier.
    fn contains(&self, message_id: u32) -> (r: bool)
        ensures
            r == self.contains_id(message_id),
    {
        let n = self.records.len();
        let mut i: usize = 0;
        while i < n
            invariant
                n == self.rows().len(),
                i <= n,
                forall|j: int| 0 <= j < i ==> (#[trigger] self.rows()[j]).message_id != message_id,
            decreases n - i,
        {
            if self.records[i].message_id == message_id {
                proof {
                    assert(self.rows()[i as int].message_id == message_id);
                }
                return true;
            }
            i += 1;
        }
        false
    }

    /// Appends a record for a fresh identifier; registering an identifier
    /// twice violates the store's key constraint and is reported as a store
    /// failure, leaving the index unchanged.
    pub fn register(
        &mut self,
        message_id: u32,
        image_path: &str,
        offset_bytes: usize,
        message_hash: &[u8],
    ) -> (r: Result<(), StegoError>)
        requires
            old(self).wf(),
        ensures
            final(self).wf(),
            (r is Ok) == !old(self).contains_id(message_id),
            r is Ok ==> {
                &&& final(self).rows().len() == old(self).rows().len() + 1
                &&& final(self).rows().subrange(0, old(self).rows().len() as int) == old(
                    self,
                ).rows()
                &&& final(self).rows().last().message_id == message_id
                &&& final(self).rows().last().image_path@ == image_path@
                &&& final(self).rows().last().offset_bytes == offset_bytes
                &&& final(self).rows().last().message_hash@ == message_hash@
            },
            r is Err ==> final(self).rows() == old(self).rows(),
            r matches Err(e) ==> e == StegoError::IOError,
    {
        if self.contains(message_id) {
            return Err(StegoError::IOError);
        }
        let record = IndexRecord {
            message_id,
            image_path: image_path.to_owned(),
            offset_bytes,
            message_hash: slice_to_vec(message_hash),
        };
        let ghost old_rows = self.records@;
        self.records.push(record);
        proof {
            let rows = self.records@;
            assert(rows.subrange(0, old_rows.len() as int) =~= old_rows);
            assert(old_rows == old(self).rows());
            assert forall|i: int, j: int|
                0 <= i < j < rows.len() implies (#[trigger] rows[i]).message_id != (
            #[trigger] rows[j]).message_id by {
                assert(rows[i] == old_rows[i]);
                assert(old(self).rows()[i] == old_rows[i]);
                if j < rows.len() - 1 {
                    assert(rows[j] == old_rows[j]);
                    assert(old(self).rows()[j] == old_rows[j]);
                    assert((old(self).rows()[i]).message_id != (old(self).rows()[j]).message_id);
                } else {
                    assert(rows[j] == record);
                    assert(!old(self).contains_id(message_id));
                    assert((old(self).rows()[i]).message_id != message_id);
                }
            }
        }
        Ok(())
    }

    /// Looks an identifier up; under the uniqueness invariant the returned
    /// carrier identity and offset are those of the one record carrying it.
    pub fn get_message_location(&self, message_id: u32) -> (r: Option<(String, usize)>)
        ensures
            (r is Some) == self.contains_id(message_id),
            r matches Some(loc) ==> exists|i: int|
                0 <= i < self.rows().len() && (#[trigger] self.rows()[i]).message_id == message_id
                    && loc.0@ == self.rows()[i].image_path@ && loc.1
                    == self.rows()[i].offset_bytes,
    {
        let n = self.records.len();
        let mut i: usize = 0;
        while i < n
            invariant
                n == self.rows().len(),
                i <= n,
                forall|j: int| 0 <= j < i ==> (#[trigger] self.rows()[j]).message_id != message_id,
            decreases n - i,
        {
            if self.records[i].message_id == message_id {
                proof {
                    assert(self.rows()[i as int].message_id == message_id);
                }
                return Some((self.records[i].image_path.clone(), self.records[i].offset_bytes));
            }
            i += 1;
        }
        None
    }

    /// Copies of every record, digest included, in insertion order.
    pub fn all_records(&self) -> (r: Vec<IndexRecord>)
        ensures
            r@.len() == self.rows().len(),
            forall|i: int|
                0 <= i < self.rows().len() ==> {
                    &&& (#[trigger] r@[i]).message_id == self.rows()[i].message_id
                    &&& r@[i].image_path@ == self.rows()[i].image_path@
                    &&& r@[i].offset_bytes == self.rows()[i].offset_bytes
                    &&& r@[i].message_hash@ == self.rows()[i].message_hash@
                },
    {
        let n = self.records.len();
        let mut out: Vec<IndexRecord> = Vec::new();
        let mut i: usize = 0;
        while i < n
            invariant
                n == self.records.len(),
                i <= n,
                out@.len() == i,
                forall|j: int|
                    0 <= j < i ==> {
                        &&& (#[trigger] out@[j]).message_id == self.records@[j].message_id
                        &&& out@[j].image_path@ == self.records@[j].image_path@
                        &&& out@[j].offset_bytes == self.records@[j].offset_bytes
                        &&& out@[j].message_hash@ == self.records@[j].message_hash@
                    },
            decreases n - i,
        {
            out.push(
                IndexRecord {
                    message_id: self.records[i].message_id,
                    image_path: self.records[i].image_path.clone(),
                    offset_bytes: self.records[i].offset_bytes,
                    message_hash: slice_to_vec(self.records[i].message_hash.as_slice()),
                },
            );
            i += 1;
        }
        out
    }

    /// Every record's identifier, carrier identity and offset, in insertion
    /// order.
    pub fn get_all_messages(&self) -> (r: Vec<(u32, String, usize)>)
        ensures
            r@.len() == self.rows().len(),
            forall|i: int|
                0 <= i < self.rows().len() ==> {
                    &&& (#[trigger] r@[i]).0 == self.rows()[i].message_id
                    &&& r@[i].1@ == self.rows()[i].image_path@
                    &&& r@[i].2 == self.rows()[i].offset_bytes
                },
    {
        let n = self.records.len();
        let mut out: Vec<(u32, String, usize)> = Vec::new();
        let mut i: usize = 0;
        while i < n
            invariant
                n == self.records.len(),
                i <= n,
                out@.len() == i,
                forall|j: int|
                    0 <= j < i ==> {
                        &&& (#[trigger] out@[j]).0 == self.records@[j].message_id
                        &&& out@[j].1@ == self.records@[j].image_path@
                        &&& out@[j].2 == self.records@[j].offset_bytes
                    },
            decreases n - i,
        {
            out.push(
                (self.records[i].message_id, self.records[i].image_path.clone(), self.records[i].offset_bytes),
            );
            i += 1;
        }
        out
    }
}

} // verus!
