//! Streams of fixed-width records.
//!
//! An artifact is a byte string cut into records of one width. The leading
//! bytes of a record are its key, and keys strictly increase.

use vstd::prelude::*;

use crate::bytes::{bytes_less, lemma_lex_transitive, lex_less};

verus! {

/// Record number `index` of a stream of `width`-byte records.
pub open spec fn record(bytes: Seq<u8>, width: int, index: int) -> Seq<u8> {
    bytes.subrange(index * width, (index + 1) * width)
}

/// Number of complete records.
pub open spec fn record_count(bytes: Seq<u8>, width: int) -> int {
    bytes.len() as int / width
}

/// The key of a record: its first `key` bytes.
pub open spec fn record_key(bytes: Seq<u8>, width: int, key: int, index: int) -> Seq<u8> {
    record(bytes, width, index).take(key)
}

/// The keys of the first `count` records strictly increase.
pub open spec fn keys_increase(bytes: Seq<u8>, width: int, key: int, count: int) -> bool {
    forall|i: int, j: int|
        0 <= i < j < count ==> #[trigger] lex_less(
            record_key(bytes, width, key, i),
            record_key(bytes, width, key, j),
        )
}

/// The stream ends on a record boundary and its keys strictly increase.
pub open spec fn sorted_stream(bytes: Seq<u8>, width: int, key: int) -> bool {
    &&& bytes.len() as int % width == 0
    &&& keys_increase(bytes, width, key, record_count(bytes, width))
}

/// Why a record stream stops before its end.
#[derive(Clone, Copy, Debug, PartialEq, Eq, Structural)]
pub enum StreamFault {
    /// The last record is incomplete.
    Truncated,
    /// A key does not follow the one before it.
    Unordered,
}

/// Reader of a sorted stream of fixed-width records.
pub struct RecordReader<'a> {
    bytes: &'a [u8],
    width: usize,
    key: usize,
    offset: usize,
    index: usize,
}

impl<'a> RecordReader<'a> {
    /// The bytes that are read.
    pub closed spec fn source(&self) -> Seq<u8> {
        self.bytes@
    }

    /// Width of a record.
    pub closed spec fn width(&self) -> int {
        self.width as int
    }

    /// Width of a key.
    pub closed spec fn key(&self) -> int {
        self.key as int
    }

    /// Number of records read so far.
    pub closed spec fn position(&self) -> int {
        self.index as int
    }

    /// The records read so far are complete and in order.
    pub closed spec fn wf(&self) -> bool {
        &&& 0 < self.width
        &&& self.key <= self.width
        &&& self.offset == self.index * self.width
        &&& self.offset <= self.bytes@.len()
        &&& keys_increase(self.source(), self.width(), self.key(), self.position())
    }

    /// Start reading `bytes`.
    pub fn new(bytes: &'a [u8], width: usize, key: usize) -> (reader: Self)
        requires
            0 < width,
            key <= width,
        ensures
            reader.wf(),
            reader.source() == bytes@,
            reader.width() == width,
            reader.key() == key,
            reader.position() == 0,
    {
        RecordReader { bytes, width, key, offset: 0, index: 0 }
    }

    /// A reader never passes the last complete record.
    pub proof fn lemma_position(&self)
        requires
            self.wf(),
        ensures
            0 < self.width(),
            self.key() <= self.width(),
            0 <= self.position() <= record_count(self.source(), self.width()),
            keys_increase(self.source(), self.width(), self.key(), self.position()),
            self.position() <= usize::MAX,
    {
        let width = self.width();
        let index = self.position();
        let len = self.source().len() as int;
        assert(index <= len / width) by (nonlinear_arith)
            requires
                0 < width,
                index * width <= len,
        ;
    }

    /// Read the next record.
    ///
    /// At the end of the stream there is none. A partial last record is
    /// `Truncated`; a key that does not exceed the previous one is `Unordered`.
    pub fn next(&mut self) -> (outcome: core::result::Result<Option<&'a [u8]>, StreamFault>)
        requires
            old(self).wf(),
        ensures
            final(self).wf(),
            final(self).source() == old(self).source(),
            final(self).width() == old(self).width(),
            final(self).key() == old(self).key(),
            ({
                let bytes = old(self).source();
                let width = old(self).width();
                let key = old(self).key();
                let index = old(self).position();
                match outcome {
                    Ok(None) => {
                        &&& index == record_count(bytes, width)
                        &&& final(self).position() == index
                        &&& sorted_stream(bytes, width, key)
                    },
                    Ok(Some(found)) => {
                        &&& index < record_count(bytes, width)
                        &&& found@ == record(bytes, width, index)
                        &&& found@.len() == width
                        &&& final(self).position() == index + 1
                        &&& keys_increase(bytes, width, key, index + 1)
                    },
                    Err(StreamFault::Truncated) => {
                        &&& index == record_count(bytes, width)
                        &&& bytes.len() as int % width != 0
                    },
                    Err(StreamFault::Unordered) => {
                        &&& index < record_count(bytes, width)
                        &&& !keys_increase(bytes, width, key, index + 1)
                    },
                }
            }),
            outcome is Err ==> !sorted_stream(
                old(self).source(),
                old(self).width(),
                old(self).key(),
            ),
    {
        let remaining: usize = self.bytes.len() - self.offset;
        let ghost bytes = self.source();
        let ghost width = self.width();
        let ghost key = self.key();
        let ghost index = self.position();
        let ghost len = bytes.len() as int;
        if remaining < self.width {
            proof {
                let rest = remaining as int;
                assert(len == index * width + rest);
                assert(len / width == index && len % width == rest) by {
                    vstd::arithmetic::div_mod::lemma_fundamental_div_mod_converse(
                        len,
                        width,
                        index,
                        rest,
                    );
                }
            }
            if remaining == 0 {
                return Ok(None);
            }
            return Err(StreamFault::Truncated);
        }
        proof {
            assert((index + 1) * width == index * width + width) by (nonlinear_arith);
            assert(index < len / width) by (nonlinear_arith)
                requires
                    0 < width,
                    index * width + width <= len,
            ;
        }
        let end: usize = self.offset + self.width;
        let found: &'a [u8] = vstd::slice::slice_subrange(self.bytes, self.offset, end);
        proof {
            assert(found@ == record(bytes, width, index));
        }
        if self.index > 0 {
            proof {
                assert((index - 1) * width == index * width - width) by (nonlinear_arith);
                assert(index * width >= width) by (nonlinear_arith)
                    requires
                        index >= 1,
                        width > 0,
                ;
            }
            let start: usize = self.offset - self.width;
            let previous: &[u8] = vstd::slice::slice_subrange(
                self.bytes,
                start,
                start + self.key,
            );
            let current: &[u8] = vstd::slice::slice_subrange(found, 0, self.key);
            proof {
                assert(previous@ =~= record_key(bytes, width, key, index - 1));
                assert(current@ =~= record_key(bytes, width, key, index));
            }
            if !bytes_less(previous, current) {
                proof {
                    assert(!lex_less(
                        record_key(bytes, width, key, index - 1),
                        record_key(bytes, width, key, index),
                    ));
                }
                return Err(StreamFault::Unordered);
            }
        }
        proof {
            assert forall|i: int, j: int| 0 <= i < j < index + 1 implies #[trigger] lex_less(
                record_key(bytes, width, key, i),
                record_key(bytes, width, key, j),
            ) by {
                if j == index && i < index - 1 {
                    lemma_lex_transitive(
                        record_key(bytes, width, key, i),
                        record_key(bytes, width, key, index - 1),
                        record_key(bytes, width, key, index),
                    );
                }
            }
        }
        self.offset = end;
        proof {
            assert(index < len / width && len / width <= len) by (nonlinear_arith)
                requires
                    0 < width,
                    index * width + width <= len,
                    0 <= len,
                    0 <= index,
            ;
        }
        self.index = self.index + 1;
        Ok(Some(found))
    }
}

/// Reader of a stream of fixed-width records in any order.
pub struct PlainReader<'a> {
    bytes: &'a [u8],
    width: usize,
    offset: usize,
    index: usize,
}

impl<'a> PlainReader<'a> {
    /// The bytes that are read.
    pub closed spec fn source(&self) -> Seq<u8> {
        self.bytes@
    }

    /// Width of a record.
    pub closed spec fn width(&self) -> int {
        self.width as int
    }

    /// Number of records read so far.
    pub closed spec fn position(&self) -> int {
        self.index as int
    }

    /// The records read so far are complete.
    pub closed spec fn wf(&self) -> bool {
        &&& 0 < self.width
        &&& self.offset == self.index * self.width
        &&& self.offset <= self.bytes@.len()
    }

    /// Start reading `bytes`.
    pub fn new(bytes: &'a [u8], width: usize) -> (reader: Self)
        requires
            0 < width,
        ensures
            reader.wf(),
            reader.source() == bytes@,
            reader.width() == width,
            reader.position() == 0,
    {
        PlainReader { bytes, width, offset: 0, index: 0 }
    }

    /// A reader never passes the last complete record.
    pub proof fn lemma_position(&self)
        requires
            self.wf(),
        ensures
            0 < self.width(),
            0 <= self.position() <= record_count(self.source(), self.width()),
            self.position() <= usize::MAX,
    {
        let width = self.width();
        let index = self.position();
        let len = self.source().len() as int;
        assert(index <= len / width) by (nonlinear_arith)
            requires
                0 < width,
                index * width <= len,
        ;
    }

    /// Read the next record.
    ///
    /// At the end of the stream there is none. A partial last record is
    /// `Truncated`.
    pub fn next(&mut self) -> (outcome: core::result::Result<Option<&'a [u8]>, StreamFault>)
        requires
            old(self).wf(),
        ensures
            final(self).wf(),
            final(self).source() == old(self).source(),
            final(self).width() == old(self).width(),
            ({
                let bytes = old(self).source();
                let width = old(self).width();
                let index = old(self).position();
                match outcome {
                    Ok(None) => {
                        &&& index == record_count(bytes, width)
                        &&& final(self).position() == index
                        &&& bytes.len() as int % width == 0
                    },
                    Ok(Some(found)) => {
                        &&& index < record_count(bytes, width)
                        &&& found@ == record(bytes, width, index)
                        &&& found@.len() == width
                        &&& final(self).position() == index + 1
                    },
                    Err(fault) => {
                        &&& fault == StreamFault::Truncated
                        &&& final(self).position() == index
                        &&& index == record_count(bytes, width)
                        &&& bytes.len() as int % width != 0
                    },
                }
            }),
    {
        let remaining: usize = self.bytes.len() - self.offset;
        let ghost bytes = self.source();
        let ghost width = self.width();
        let ghost index = self.position();
        let ghost len = bytes.len() as int;
        if remaining < self.width {
            proof {
                let rest = remaining as int;
                assert(len == index * width + rest);
                assert(len / width == index && len % width == rest) by {
                    vstd::arithmetic::div_mod::lemma_fundamental_div_mod_converse(
                        len,
                        width,
                        index,
                        rest,
                    );
                }
            }
            if remaining == 0 {
                return Ok(None);
            }
            return Err(StreamFault::Truncated);
        }
        proof {
            assert((index + 1) * width == index * width + width) by (nonlinear_arith);
            assert(index < len / width && len / width <= len) by (nonlinear_arith)
                requires
                    0 < width,
                    index * width + width <= len,
                    0 <= len,
                    0 <= index,
            ;
        }
        let end: usize = self.offset + self.width;
        let found: &'a [u8] = vstd::slice::slice_subrange(self.bytes, self.offset, end);
        self.offset = end;
        self.index = self.index + 1;
        Ok(Some(found))
    }
}

} // verus!
