//! Writer of sorted runs of fixed-width records.

use vstd::prelude::*;

use crate::artifact::EncodedRun;
use crate::bytes::{bytes_less, lemma_lex_transitive, lex_less, push_bytes};
use crate::digest::encode_hex;
use crate::records::{keys_increase, record, record_key};
use crate::unique_sort::increasing;

verus! {

/// A run in the making: whole records whose leading key bytes strictly increase.
pub struct RunWriter {
    bytes: Vec<u8>,
    width: usize,
    key: usize,
    rows: u64,
}

impl RunWriter {
    /// The bytes written so far.
    pub closed spec fn written(&self) -> Seq<u8> {
        self.bytes@
    }

    /// Width of a record.
    pub closed spec fn width(&self) -> int {
        self.width as int
    }

    /// Width of a key.
    pub closed spec fn key(&self) -> int {
        self.key as int
    }

    /// Number of records written so far.
    pub closed spec fn rows(&self) -> int {
        self.rows as int
    }

    /// Whole records in key order.
    pub closed spec fn wf(&self) -> bool {
        &&& 0 < self.width
        &&& self.key <= self.width
        &&& self.bytes@.len() == self.rows * self.width
        &&& keys_increase(self.bytes@, self.width as int, self.key as int, self.rows as int)
    }

    /// Start a run.
    pub fn new(width: usize, key: usize) -> (writer: Self)
        requires
            0 < width,
            key <= width,
        ensures
            writer.wf(),
            writer.written() == Seq::<u8>::empty(),
            writer.width() == width,
            writer.key() == key,
            writer.rows() == 0,
    {
        RunWriter { bytes: Vec::new(), width, key, rows: 0 }
    }

    /// What a well-formed writer holds.
    pub proof fn lemma_wf(&self)
        requires
            self.wf(),
        ensures
            0 < self.width(),
            self.written().len() == self.rows() * self.width(),
            keys_increase(self.written(), self.width(), self.key(), self.rows()),
            0 <= self.rows() <= u64::MAX,
    {
    }

    /// The key of the last record.
    pub open spec fn last_key(&self) -> Seq<u8> {
        record_key(self.written(), self.width(), self.key(), self.rows() - 1)
    }

    /// Append a record; refused where its key does not exceed the last one.
    pub fn append(&mut self, entry: &[u8]) -> (accepted: bool)
        requires
            old(self).wf(),
            entry@.len() == old(self).width(),
            old(self).rows() < u64::MAX,
        ensures
            final(self).wf(),
            final(self).width() == old(self).width(),
            final(self).key() == old(self).key(),
            accepted == (old(self).rows() == 0 || lex_less(
                old(self).last_key(),
                entry@.take(old(self).key()),
            )),
            accepted ==> final(self).written() == old(self).written() + entry@,
            accepted ==> final(self).rows() == old(self).rows() + 1,
            !accepted ==> *final(self) == *old(self),
    {
        let ghost before = self.bytes@;
        let ghost width = self.width as int;
        let ghost key = self.key as int;
        let ghost rows = self.rows as int;
        let length: usize = self.bytes.len();
        proof {
            assert((rows + 1) * width == rows * width + width) by (nonlinear_arith);
            assert((rows - 1) * width == rows * width - width) by (nonlinear_arith);
        }
        if self.rows > 0 {
            proof {
                assert(rows * width >= width) by (nonlinear_arith)
                    requires
                        rows >= 1,
                        width > 0,
                ;
            }
            let start: usize = length - self.width;
            let previous: &[u8] = vstd::slice::slice_subrange(
                self.bytes.as_slice(),
                start,
                start + self.key,
            );
            let current: &[u8] = vstd::slice::slice_subrange(entry, 0, self.key);
            proof {
                assert(previous@ =~= record_key(before, width, key, rows - 1));
                assert(current@ =~= entry@.take(key));
            }
            if !bytes_less(previous, current) {
                return false;
            }
        }
        push_bytes(&mut self.bytes, entry);
        self.rows = self.rows + 1;
        proof {
            let after = self.bytes@;
            assert forall|i: int| 0 <= i < rows implies #[trigger] record(after, width, i)
                == record(before, width, i) by {
                lemma_record_within(width, i, rows);
                assert(record(after, width, i) =~= record(before, width, i));
            }
            assert(record(after, width, rows) =~= entry@);
            assert forall|i: int, j: int| 0 <= i < j < rows + 1 implies #[trigger] lex_less(
                record_key(after, width, key, i),
                record_key(after, width, key, j),
            ) by {
                assert(record(after, width, i) == record(before, width, i));
                if j < rows {
                    assert(record(after, width, j) == record(before, width, j));
                    assert(lex_less(
                        record_key(before, width, key, i),
                        record_key(before, width, key, j),
                    ));
                } else if i < rows - 1 {
                    assert(lex_less(
                        record_key(before, width, key, i),
                        record_key(before, width, key, rows - 1),
                    ));
                    lemma_lex_transitive(
                        record_key(before, width, key, i),
                        record_key(before, width, key, rows - 1),
                        entry@.take(key),
                    );
                }
            }
        }
        true
    }

    /// The finished run, with its first and last key.
    pub fn finish(self) -> (run: EncodedRun)
        requires
            self.wf(),
        ensures
            run.bytes@ == self.written(),
            run.rows == self.rows(),
            run.keys_are(
                self.rows() > 0,
                record_key(self.written(), self.width(), self.key(), 0),
                self.last_key(),
            ),
    {
        let ghost width = self.width as int;
        let ghost rows = self.rows as int;
        let mut min_key: Option<String> = None;
        let mut max_key: Option<String> = None;
        if self.rows > 0 {
            proof {
                assert((rows - 1) * width == rows * width - width) by (nonlinear_arith);
                assert(rows * width >= width) by (nonlinear_arith)
                    requires
                        rows >= 1,
                        width > 0,
                ;
            }
            let start: usize = self.bytes.len() - self.width;
            let first: &[u8] = vstd::slice::slice_subrange(self.bytes.as_slice(), 0, self.key);
            let last: &[u8] = vstd::slice::slice_subrange(
                self.bytes.as_slice(),
                start,
                start + self.key,
            );
            proof {
                assert(first@ =~= record_key(self.bytes@, width, self.key as int, 0));
                assert(last@ =~= record_key(self.bytes@, width, self.key as int, rows - 1));
            }
            min_key = Some(encode_hex(first));
            max_key = Some(encode_hex(last));
        }
        EncodedRun { bytes: self.bytes, rows: self.rows, min_key, max_key }
    }
}

/// Encode increasing identities as one run.
pub fn encode_unique<const N: usize>(unique: &Vec<[u8; N]>) -> (run: EncodedRun)
    requires
        0 < N,
        increasing(unique@),
    ensures
        run.rows == unique@.len(),
        run.bytes@.len() == unique@.len() * N,
        forall|i: int|
            0 <= i < unique@.len() ==> #[trigger] record(run.bytes@, N as int, i) == unique@[i]@,
        run.keys_are(unique@.len() > 0, unique@[0]@, unique@[unique@.len() - 1]@),
{
    let mut writer: RunWriter = RunWriter::new(N, N);
    let ghost width = N as int;
    let mut i: usize = 0;
    while i < unique.len()
        invariant
            0 < N,
            width == N,
            i <= unique@.len(),
            increasing(unique@),
            writer.wf(),
            writer.width() == N,
            writer.key() == N,
            writer.rows() == i,
            forall|j: int|
                0 <= j < i ==> #[trigger] record(writer.written(), width, j) == unique@[j]@,
        decreases unique.len() - i,
    {
        let ghost before = writer.written();
        proof {
            writer.lemma_wf();
            assert(unique@[i as int]@.take(width) =~= unique@[i as int]@);
            if i > 0 {
                assert(record(before, width, i - 1) == unique@[i - 1]@);
                assert(unique@[i - 1]@.take(width) =~= unique@[i - 1]@);
                assert(lex_less(unique@[i - 1]@, unique@[i as int]@));
            }
        }
        let accepted: bool = writer.append(unique[i].as_slice());
        proof {
            assert(accepted);
            let after = writer.written();
            assert forall|j: int| 0 <= j < i + 1 implies #[trigger] record(after, width, j)
                == unique@[j]@ by {
                if j < i {
                    lemma_record_within(width, j, i as int);
                    assert(record(after, width, j) =~= record(before, width, j));
                } else {
                    assert((i + 1) * width == i * width + width) by (nonlinear_arith);
                    assert(record(after, width, j) =~= unique@[i as int]@);
                }
            }
        }
        i += 1;
    }
    proof {
        writer.lemma_wf();
        if unique@.len() > 0 {
            assert(record(writer.written(), width, 0) == unique@[0]@);
            assert(record(writer.written(), width, unique@.len() - 1) == unique@[unique@.len()
                - 1]@);
            assert(unique@[0]@.take(width) =~= unique@[0]@);
            assert(unique@[unique@.len() - 1]@.take(width) =~= unique@[unique@.len() - 1]@);
        }
    }
    writer.finish()
}

/// Entry `i` has a larger key than the one before it.
pub open spec fn entry_step(entries: Seq<Vec<u8>>, key: int, i: int) -> bool {
    lex_less(entries[i - 1]@.take(key), entries[i]@.take(key))
}

/// The keys of the entries strictly increase.
pub open spec fn entries_increase(entries: Seq<Vec<u8>>, key: int) -> bool {
    forall|i: int| 0 < i < entries.len() ==> #[trigger] entry_step(entries, key, i)
}

/// The run holds exactly the entries, in order.
pub open spec fn holds_entries(
    run: EncodedRun,
    entries: Seq<Vec<u8>>,
    width: int,
    key: int,
) -> bool {
    &&& run.rows == entries.len()
    &&& run.bytes@.len() == entries.len() * width
    &&& forall|i: int|
        0 <= i < entries.len() ==> #[trigger] record(run.bytes@, width, i) == entries[i]@
    &&& run.keys_are(
        entries.len() > 0,
        entries[0]@.take(key),
        entries[entries.len() - 1]@.take(key),
    )
}

/// Encode entries whose keys strictly increase as one run; nothing where they
/// do not.
pub fn encode_entries(entries: &Vec<Vec<u8>>, width: usize, key: usize) -> (outcome: Option<
    EncodedRun,
>)
    requires
        0 < width,
        key <= width,
        forall|i: int| 0 <= i < entries@.len() ==> (#[trigger] entries@[i])@.len() == width,
    ensures
        outcome is Some <==> entries_increase(entries@, key as int),
        outcome is Some ==> holds_entries(
            outcome->0,
            entries@,
            width as int,
            key as int,
        ),
{
    let mut writer: RunWriter = RunWriter::new(width, key);
    let ghost wide = width as int;
    let mut i: usize = 0;
    while i < entries.len()
        invariant
            0 < width,
            key <= width,
            wide == width,
            i <= entries@.len(),
            forall|j: int| 0 <= j < entries@.len() ==> (#[trigger] entries@[j])@.len() == width,
            writer.wf(),
            writer.width() == width,
            writer.key() == key,
            writer.rows() == i,
            forall|j: int|
                0 <= j < i ==> #[trigger] record(writer.written(), wide, j) == entries@[j]@,
            forall|j: int| 0 < j < i ==> #[trigger] entry_step(entries@, key as int, j),
        decreases entries.len() - i,
    {
        let ghost before = writer.written();
        proof {
            writer.lemma_wf();
            if i > 0 {
                assert(record(before, wide, i - 1) == entries@[i - 1]@);
            }
        }
        let accepted: bool = writer.append(entries[i].as_slice());
        if !accepted {
            assert(!entry_step(entries@, key as int, i as int));
            return None;
        }
        proof {
            let after = writer.written();
            assert(i > 0 ==> entry_step(entries@, key as int, i as int));
            assert forall|j: int| 0 <= j < i + 1 implies #[trigger] record(after, wide, j)
                == entries@[j]@ by {
                if j < i {
                    lemma_record_within(wide, j, i as int);
                    assert(record(after, wide, j) =~= record(before, wide, j));
                } else {
                    assert((i + 1) * wide == i * wide + wide) by (nonlinear_arith);
                    assert(record(after, wide, j) =~= entries@[i as int]@);
                }
            }
        }
        i += 1;
    }
    proof {
        writer.lemma_wf();
        if entries@.len() > 0 {
            assert(record(writer.written(), wide, 0) == entries@[0]@);
            assert(record(writer.written(), wide, entries@.len() - 1) == entries@[entries@.len()
                - 1]@);
        }
    }
    Some(writer.finish())
}

/// Earlier records end before later ones start.
pub proof fn lemma_record_within(width: int, i: int, rows: int)
    requires
        0 <= i < rows,
        0 < width,
    ensures
        0 <= i * width,
        (i + 1) * width <= rows * width,
        (i + 1) * width == i * width + width,
{
    assert(0 <= i * width && (i + 1) * width <= rows * width && (i + 1) * width == i * width
        + width) by (nonlinear_arith)
        requires
            0 <= i < rows,
            0 < width,
    ;
}

} // verus!
