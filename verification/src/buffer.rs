//! The in-memory byte buffer every command works on: bounds-checked range
//! reads, writes, insertions and removals, with a configured chunk size in
//! bits and a display width.

use crate::errors::BinfiddleError;
use vstd::prelude::*;
use vstd::slice::slice_to_vec;

verus! {

/// Represents a chunk of data with configurable bit length.
pub struct Chunk {
    data: Vec<u8>,
    bit_length: usize,
}

impl Chunk {
    /// The bytes this chunk carries.
    pub closed spec fn spec_data(&self) -> Seq<u8> {
        self.data@
    }

    /// The configured bit length.
    pub closed spec fn spec_bit_length(&self) -> int {
        self.bit_length as int
    }

    /// Creates a chunk; the bit length must be positive and fit in the
    /// data, else `InvalidChunkSize` is returned.
    pub fn new(data: Vec<u8>, bit_length: usize) -> (r: Result<Self, BinfiddleError>)
        ensures
            (bit_length == 0 || bit_length > 8 * data@.len()) <==> (r matches Err(e) && e matches
                BinfiddleError::InvalidChunkSize(bl) && bl == bit_length),
            !(bit_length == 0 || bit_length > 8 * data@.len()) ==> (r matches Ok(c)
                && c.spec_data() == data@ && c.spec_bit_length() == bit_length),
    {
        if bit_length == 0 || (bit_length as u128) > (data.len() as u128) * 8 {
            Err(BinfiddleError::InvalidChunkSize(bit_length))
        } else {
            Ok(Chunk { data, bit_length })
        }
    }

    /// The chunk's bytes.
    pub fn get_bytes(&self) -> (r: &[u8])
        ensures
            r@ == self.spec_data(),
    {
        self.data.as_slice()
    }

    /// The chunk's bit length.
    pub fn get_bit_length(&self) -> (r: usize)
        ensures
            r == self.spec_bit_length(),
    {
        self.bit_length
    }
}

/// Main struct representing the binary data being manipulated.
pub struct BinaryData {
    data: Vec<u8>,
    chunk_size: usize,  // in bits
    width: usize,  // chunks per line
}

impl BinaryData {
    /// The bytes the buffer holds.
    pub closed spec fn spec_data(&self) -> Seq<u8> {
        self.data@
    }

    /// The configured chunk size in bits.
    pub closed spec fn spec_chunk_size(&self) -> int {
        self.chunk_size as int
    }

    /// The configured display width, in chunks per line.
    pub closed spec fn spec_width(&self) -> int {
        self.width as int
    }

    /// A chunk size is acceptable for a buffer when it is positive and,
    /// for a non-empty buffer, no larger than the buffer's bit count.
    pub open spec fn spec_chunk_size_ok(cs: int, len: int) -> bool {
        cs >= 1 && (len > 0 ==> cs <= 8 * len)
    }

    /// Creates a buffer over raw bytes; the chunk size must be acceptable
    /// for them, else `InvalidChunkSize` is returned.
    pub fn new(data: Vec<u8>, chunk_size: usize, width: usize) -> (r: Result<Self, BinfiddleError>)
        ensures
            Self::spec_chunk_size_ok(chunk_size as int, data@.len() as int) <==> r is Ok,
            r matches Ok(b) ==> b.spec_data() == data@ && b.spec_chunk_size() == chunk_size
                && b.spec_width() == width,
            r matches Err(e) ==> e matches BinfiddleError::InvalidChunkSize(cs) && cs == chunk_size,
    {
        if chunk_size == 0 || (data.len() > 0 && (chunk_size as u128) > (data.len() as u128) * 8) {
            return Err(BinfiddleError::InvalidChunkSize(chunk_size));
        }
        Ok(BinaryData { data, chunk_size, width })
    }

    /// The configured display width.
    pub fn get_width(&self) -> (r: usize)
        ensures
            r == self.spec_width(),
    {
        self.width
    }

    /// Reads the byte range `[start, end)` (to the buffer's end when no
    /// end is given) as a chunk whose bit length is the configured chunk
    /// size, capped at the range's bit count.
    ///
    /// Fails with `InvalidRange` exactly when the range is empty,
    /// inverted, or out of bounds.
    pub fn read_range(&self, start: usize, end: Option<usize>) -> (r: Result<Chunk, BinfiddleError>)
        ensures
            ({
                let e = match end {
                    Some(e) => e as int,
                    None => self.spec_data().len() as int,
                };
                let range_bad = start >= self.spec_data().len() || e > self.spec_data().len()
                    || start >= e;
                &&& range_bad <==> (r matches Err(err) && err matches BinfiddleError::InvalidRange(
                    _,
                ))
                &&& (!range_bad && self.spec_chunk_size() == 0) ==> (r matches Err(err)
                    && err matches BinfiddleError::InvalidChunkSize(_))
                &&& (!range_bad && self.spec_chunk_size() >= 1) ==> (r matches Ok(c)
                    && c.spec_data() == self.spec_data().subrange(start as int, e)
                    && c.spec_bit_length() == vstd::math::min(self.spec_chunk_size(), 8 * (e
                    - start)))
            }),
    {
        let len = self.data.len();
        let end = match end {
            Some(e) => e,
            None => len,
        };
        if start >= len || end > len || start >= end {
            return Err(
                BinfiddleError::InvalidRange(
                    crate::errors::join_msg("Invalid range for read", "", ""),
                ),
            );
        }
        let byte_count = end - start;
        let bit_length128 = (byte_count as u128) * 8;
        let effective: usize = if (self.chunk_size as u128) > bit_length128 {
            // The whole range is shorter than one configured chunk.
            proof {
                assert((byte_count as u128) * 8 == 8 * (byte_count as int));
            }
            (byte_count * 8) as usize
        } else {
            self.chunk_size
        };
        let window = vstd::slice::slice_subrange(self.data.as_slice(), start, end);
        let data = slice_to_vec(window);
        Chunk::new(data, effective)
    }

    /// Overwrites the bytes at `[start, start + data.len())`.
    ///
    /// Fails with `InvalidRange` exactly when the write would run past
    /// the buffer's end; on success only the written range changes.
    pub fn write_range(&mut self, start: usize, data: &[u8]) -> (r: Result<(), BinfiddleError>)
        ensures
            r is Ok <==> start + data@.len() <= old(self).spec_data().len(),
            (start + data@.len() > old(self).spec_data().len()) <==> (r matches Err(e) && e matches
                BinfiddleError::InvalidRange(_)),
            r is Err ==> *final(self) == *old(self),
            r is Ok ==> final(self).spec_data() == old(self).spec_data().subrange(0, start as int)
                + data@ + old(self).spec_data().subrange(
                start + data@.len(),
                old(self).spec_data().len() as int,
            ),
            final(self).spec_chunk_size() == old(self).spec_chunk_size(),
            final(self).spec_width() == old(self).spec_width(),
    {
        let len = self.data.len();
        if data.len() > len || start > len - data.len() {
            return Err(
                BinfiddleError::InvalidRange(
                    crate::errors::join_msg("Write operation would exceed data bounds", "", ""),
                ),
            );
        }
        let m = data.len();
        let mut i: usize = 0;
        while i < m
            invariant
                i <= m,
                m == data@.len(),
                start + m <= self.data@.len(),
                self.data@.len() == old(self).spec_data().len(),
                self.chunk_size == old(self).spec_chunk_size(),
                self.width == old(self).spec_width(),
                self.data@ =~= old(self).spec_data().subrange(0, start as int) + data@.subrange(
                    0,
                    i as int,
                ) + old(self).spec_data().subrange(
                    start + i,
                    old(self).spec_data().len() as int,
                ),
            decreases m - i,
        {
            let v = data[i];
            let total = self.data.len();
            proof {
                assert(start + i < total);
            }
            self.data.set(start + i, v);
            proof {
                assert(self.data@ =~= old(self).spec_data().subrange(0, start as int)
                    + data@.subrange(0, i + 1) + old(self).spec_data().subrange(
                    start + i + 1,
                    old(self).spec_data().len() as int,
                ));
            }
            i = i + 1;
        }
        proof {
            assert(data@.subrange(0, m as int) =~= data@);
        }
        Ok(())
    }

    /// Inserts bytes at `position`, shifting the rest right.
    ///
    /// Fails with `InvalidRange` exactly when the position lies past the
    /// buffer's end.
    pub fn insert_data(&mut self, position: usize, data: &[u8]) -> (r: Result<(), BinfiddleError>)
        ensures
            r is Ok <==> position <= old(self).spec_data().len(),
            (position > old(self).spec_data().len()) <==> (r matches Err(e) && e matches
                BinfiddleError::InvalidRange(_)),
            r is Err ==> *final(self) == *old(self),
            r is Ok ==> final(self).spec_data() == old(self).spec_data().subrange(
                0,
                position as int,
            ) + data@ + old(self).spec_data().subrange(
                position as int,
                old(self).spec_data().len() as int,
            ),
            final(self).spec_chunk_size() == old(self).spec_chunk_size(),
            final(self).spec_width() == old(self).spec_width(),
    {
        if position > self.data.len() {
            return Err(
                BinfiddleError::InvalidRange(
                    crate::errors::join_msg("Insert position out of bounds", "", ""),
                ),
            );
        }
        let mut rebuilt: Vec<u8> = Vec::new();
        let mut i: usize = 0;
        while i < position
            invariant
                i <= position <= self.data@.len(),
                self == old(self),
                rebuilt@ =~= self.data@.subrange(0, i as int),
            decreases position - i,
        {
            rebuilt.push(self.data[i]);
            assert(rebuilt@ =~= self.data@.subrange(0, i + 1));
            i = i + 1;
        }
        let m = data.len();
        let mut j: usize = 0;
        while j < m
            invariant
                j <= m,
                m == data@.len(),
                position <= self.data@.len(),
                self == old(self),
                rebuilt@ =~= self.data@.subrange(0, position as int) + data@.subrange(0, j as int),
            decreases m - j,
        {
            rebuilt.push(data[j]);
            assert(rebuilt@ =~= self.data@.subrange(0, position as int) + data@.subrange(0, j + 1));
            j = j + 1;
        }
        let n = self.data.len();
        let mut k: usize = position;
        while k < n
            invariant
                position <= k <= n,
                n == self.data@.len(),
                m == data@.len(),
                self == old(self),
                rebuilt@ =~= self.data@.subrange(0, position as int) + data@.subrange(0, m as int)
                    + self.data@.subrange(position as int, k as int),
            decreases n - k,
        {
            rebuilt.push(self.data[k]);
            assert(rebuilt@ =~= self.data@.subrange(0, position as int) + data@.subrange(0, m as int)
                + self.data@.subrange(position as int, k + 1));
            k = k + 1;
        }
        proof {
            assert(data@.subrange(0, m as int) =~= data@);
        }
        self.data = rebuilt;
        Ok(())
    }

    /// Removes the byte range `[start, end)`, shifting the rest left.
    ///
    /// Fails with `InvalidRange` exactly when the range is empty,
    /// inverted, or out of bounds.
    pub fn remove_range(&mut self, start: usize, end: usize) -> (r: Result<(), BinfiddleError>)
        ensures
            r is Ok <==> (start < old(self).spec_data().len() && end <= old(self).spec_data().len()
                && start < end),
            (start >= old(self).spec_data().len() || end > old(self).spec_data().len() || start
                >= end) <==> (r matches Err(e) && e matches BinfiddleError::InvalidRange(_)),
            r is Err ==> *final(self) == *old(self),
            r is Ok ==> final(self).spec_data() == old(self).spec_data().subrange(0, start as int)
                + old(self).spec_data().subrange(end as int, old(self).spec_data().len() as int),
            final(self).spec_chunk_size() == old(self).spec_chunk_size(),
            final(self).spec_width() == old(self).spec_width(),
    {
        let len = self.data.len();
        if start >= len || end > len || start >= end {
            return Err(
                BinfiddleError::InvalidRange(
                    crate::errors::join_msg("Invalid range for removal", "", ""),
                ),
            );
        }
        let mut rebuilt: Vec<u8> = Vec::new();
        let mut i: usize = 0;
        while i < start
            invariant
                i <= start < self.data@.len(),
                self == old(self),
                rebuilt@ =~= self.data@.subrange(0, i as int),
            decreases start - i,
        {
            rebuilt.push(self.data[i]);
            assert(rebuilt@ =~= self.data@.subrange(0, i + 1));
            i = i + 1;
        }
        let n = self.data.len();
        let mut k: usize = end;
        while k < n
            invariant
                end <= k <= n,
                n == self.data@.len(),
                start < self.data@.len(),
                self == old(self),
                rebuilt@ =~= self.data@.subrange(0, start as int) + self.data@.subrange(
                    end as int,
                    k as int,
                ),
            decreases n - k,
        {
            rebuilt.push(self.data[k]);
            assert(rebuilt@ =~= self.data@.subrange(0, start as int) + self.data@.subrange(
                end as int,
                k + 1,
            ));
            k = k + 1;
        }
        self.data = rebuilt;
        Ok(())
    }

    /// The configured chunk size in bits.
    pub fn get_chunk_size(&self) -> (r: usize)
        ensures
            r == self.spec_chunk_size(),
    {
        self.chunk_size
    }

    /// Reconfigures the chunk size; it must be acceptable for the current
    /// buffer, else `InvalidChunkSize` is returned and nothing changes.
    pub fn set_chunk_size(&mut self, chunk_size: usize) -> (r: Result<(), BinfiddleError>)
        ensures
            Self::spec_chunk_size_ok(chunk_size as int, old(self).spec_data().len() as int) <==> r
                is Ok,
            r is Ok ==> final(self).spec_chunk_size() == chunk_size,
            r is Err ==> *final(self) == *old(self) && (r matches Err(e) ==> e matches
                BinfiddleError::InvalidChunkSize(cs) && cs == chunk_size),
            final(self).spec_data() == old(self).spec_data(),
            final(self).spec_width() == old(self).spec_width(),
    {
        if chunk_size == 0 || (self.data.len() > 0 && (chunk_size as u128) > (self.data.len()
            as u128) * 8) {
            return Err(BinfiddleError::InvalidChunkSize(chunk_size));
        }
        self.chunk_size = chunk_size;
        Ok(())
    }

    /// How many bytes the buffer holds.
    pub fn len(&self) -> (r: usize)
        ensures
            r == self.spec_data().len(),
    {
        self.data.len()
    }

    /// Whether the buffer is empty.
    pub fn is_empty(&self) -> (r: bool)
        ensures
            r == (self.spec_data().len() == 0),
    {
        self.data.is_empty()
    }
}

/// A single editing step on the buffer.
pub enum EditOperation {
    /// Insert bytes at a position.
    Insert { position: usize, data: Vec<u8> },
    /// Remove the byte range `[start, end)`.
    Remove { start: usize, end: usize },
    /// Replace the byte range `[start, end)` with new bytes.
    Replace { start: usize, end: usize, data: Vec<u8> },
}

/// A command that runs against the loaded buffer. Each command states
/// through `spec_execute` how the buffer after the call and the result
/// relate to the buffer before it, and `execute` must meet that statement.
pub trait Command {
    /// What executing this command does: the relation between the buffer
    /// before the call, the buffer after it, and the result.
    spec fn spec_execute(
        &self,
        pre: BinaryData,
        post: BinaryData,
        r: Result<(), BinfiddleError>,
    ) -> bool;

    /// Executes the command against the buffer.
    fn execute(&self, data: &mut BinaryData) -> (r: Result<(), BinfiddleError>)
        ensures
            self.spec_execute(*old(data), *final(data), r),
    ;
}

/// The edit command: one insert, remove or replace step.
pub struct EditCommand {
    operation: EditOperation,
}

impl EditCommand {
    /// Creates a new edit command for the given operation.
    pub fn new(operation: EditOperation) -> (r: Self)
        ensures
            r.spec_operation() == operation,
    {
        EditCommand { operation }
    }

    /// The operation this command performs.
    pub closed spec fn spec_operation(&self) -> EditOperation {
        self.operation
    }
}

impl Command for EditCommand {
    /// Inserting succeeds exactly on an in-bounds position, removing and
    /// replacing exactly on a valid range; on success the buffer holds
    /// the edited bytes, on failure it is unchanged and the error is
    /// `InvalidRange`.
    open spec fn spec_execute(
        &self,
        pre: BinaryData,
        post: BinaryData,
        r: Result<(), BinfiddleError>,
    ) -> bool {
        (match self.spec_operation() {
            EditOperation::Insert { position, data: new_data } => {
                &&& (r is Ok <==> position <= pre.spec_data().len())
                &&& (r is Ok ==> post.spec_data() == pre.spec_data().subrange(0, position as int)
                    + new_data@ + pre.spec_data().subrange(
                    position as int,
                    pre.spec_data().len() as int,
                ))
            },
            EditOperation::Remove { start, end } => {
                &&& (r is Ok <==> (start < pre.spec_data().len() && end <= pre.spec_data().len()
                    && start < end))
                &&& (r is Ok ==> post.spec_data() == pre.spec_data().subrange(0, start as int)
                    + pre.spec_data().subrange(end as int, pre.spec_data().len() as int))
            },
            EditOperation::Replace { start, end, data: new_data } => {
                &&& (r is Ok <==> (start < pre.spec_data().len() && end <= pre.spec_data().len()
                    && start < end))
                &&& (r is Ok ==> post.spec_data() == pre.spec_data().subrange(0, start as int)
                    + new_data@ + pre.spec_data().subrange(
                    end as int,
                    pre.spec_data().len() as int,
                ))
            },
        }) && (r matches Err(e) ==> e matches BinfiddleError::InvalidRange(_) && post == pre)
            && post.spec_chunk_size() == pre.spec_chunk_size() && post.spec_width()
            == pre.spec_width()
    }

    fn execute(&self, data: &mut BinaryData) -> Result<(), BinfiddleError> {
        match &self.operation {
            EditOperation::Insert { position, data: new_data } => data.insert_data(
                *position,
                new_data.as_slice(),
            ),
            EditOperation::Remove { start, end } => data.remove_range(*start, *end),
            EditOperation::Replace { start, end, data: new_data } => {
                let ghost pre = *data;
                let r = data.remove_range(*start, *end);
                match r {
                    Ok(_) => {
                        proof {
                            // After a successful removal the insert position
                            // lies within the shortened buffer.
                            assert(*start <= data.spec_data().len());
                        }
                        let r2 = data.insert_data(*start, new_data.as_slice());
                        proof {
                            assert(data.spec_data() =~= pre.spec_data().subrange(0, *start as int)
                                + new_data@ + pre.spec_data().subrange(
                                *end as int,
                                pre.spec_data().len() as int,
                            ));
                        }
                        r2
                    },
                    Err(e) => Err(e),
                }
            },
        }
    }
}

/// The write command: overwrite bytes at a position.
pub struct WriteCommand {
    position: usize,
    value: Vec<u8>,
}

impl WriteCommand {
    /// Creates a new write command.
    pub fn new(position: usize, value: Vec<u8>) -> (r: Self)
        ensures
            r.spec_position() == position,
            r.spec_value() == value@,
    {
        WriteCommand { position, value }
    }

    /// The write position.
    pub closed spec fn spec_position(&self) -> int {
        self.position as int
    }

    /// The bytes to write.
    pub closed spec fn spec_value(&self) -> Seq<u8> {
        self.value@
    }
}

impl Command for WriteCommand {
    /// Writing succeeds exactly when the value fits before the buffer's
    /// end; on success only the written range changes, on failure the
    /// buffer is unchanged and the error is `InvalidRange`.
    open spec fn spec_execute(
        &self,
        pre: BinaryData,
        post: BinaryData,
        r: Result<(), BinfiddleError>,
    ) -> bool {
        &&& (r is Ok <==> self.spec_position() + self.spec_value().len()
            <= pre.spec_data().len())
        &&& (r is Ok ==> post.spec_data() == pre.spec_data().subrange(0, self.spec_position())
            + self.spec_value() + pre.spec_data().subrange(
            self.spec_position() + self.spec_value().len(),
            pre.spec_data().len() as int,
        ))
        &&& (r matches Err(e) ==> e matches BinfiddleError::InvalidRange(_) && post == pre)
        &&& post.spec_chunk_size() == pre.spec_chunk_size()
        &&& post.spec_width() == pre.spec_width()
    }

    fn execute(&self, data: &mut BinaryData) -> Result<(), BinfiddleError> {
        data.write_range(self.position, self.value.as_slice())
    }
}

} // verus!
