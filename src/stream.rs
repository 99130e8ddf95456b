use crate::error::CsvError;
use vstd::prelude::*;
use vstd::string::*;

verus! {

/// A byte source read in chunks of at most `buffer_size` bytes, for handing
/// over from a reading context to a processing context.
pub struct StreamingCsvReader<R> {
    reader: R,
    buffer_size: usize,
}

/// What the reading side does after one read.
#[derive(Debug)]
pub enum ProducerStep {
    /// Hand this chunk to the processing side.
    Deliver(Vec<u8>),
    /// The input is exhausted: close the channel.
    Finish,
    /// The read failed: stop and report the error.
    Fail(CsvError),
}

impl<R> StreamingCsvReader<R> {
    /// A chunked reader over `reader` with chunks of `buffer_size` bytes.
    pub fn new(reader: R, buffer_size: usize) -> (r: Self)
        ensures
            r.chunk_size() == buffer_size,
    {
        StreamingCsvReader { reader, buffer_size }
    }

    /// The chunk size as a spec value.
    pub closed spec fn chunk_size(&self) -> usize {
        self.buffer_size
    }

    /// The size of the chunks read.
    pub fn buffer_size(&self) -> (r: usize)
        ensures
            r == self.chunk_size(),
    {
        self.buffer_size
    }

    /// The underlying source, for the reading context to take over.
    pub fn reader_mut(&mut self) -> (r: &mut R) {
        &mut self.reader
    }
}

/// The reading side's decision after a read into `buffer`: a read of `n > 0`
/// bytes delivers exactly the first `n` bytes, a read of 0 bytes ends the
/// input, and a failed read stops with its error.
pub fn producer_step(read: Result<usize, std::io::Error>, buffer: &Vec<u8>) -> (r: ProducerStep)
    requires
        read is Ok ==> read->Ok_0 <= buffer@.len(),
    ensures
        match read {
            Ok(n) => if n == 0 {
                r is Finish
            } else {
                r is Deliver && r->Deliver_0@ == buffer@.subrange(0, n as int)
            },
            Err(e) => r is Fail && r->Fail_0 == CsvError::Io(e),
        },
{
    match read {
        Ok(n) => {
            if n == 0 {
                ProducerStep::Finish
            } else {
                let mut chunk: Vec<u8> = Vec::new();
                let mut i: usize = 0;
                while i < n
                    invariant
                        n <= buffer@.len(),
                        i <= n,
                        chunk@ == buffer@.subrange(0, i as int),
                    decreases n - i,
                {
                    chunk.push(buffer[i]);
                    assert(chunk@ =~= buffer@.subrange(0, i + 1));
                    i += 1;
                }
                ProducerStep::Deliver(chunk)
            }
        },
        Err(e) => ProducerStep::Fail(CsvError::Io(e)),
    }
}

/// The outcome of the processing side once joined: its own result when it
/// ended normally (`Some`), and a threading error, apart from any I/O or parse
/// error, when it ended abnormally (`None`).
pub fn consumer_outcome(joined: Option<Result<(), CsvError>>) -> (r: Result<(), CsvError>)
    ensures
        match joined {
            Some(result) => r == result,
            None => r is Err && r->Err_0 is Threading,
        },
{
    match joined {
        Some(result) => result,
        None => Err(CsvError::Threading(String::from_str("Processor thread panicked"))),
    }
}

#[verifier::external_type_specification]
#[verifier::external_body]
pub struct ExMmap(memmap2::Mmap);

/// The number of bytes in a memory map, fixed when the map was made.
pub uninterp spec fn mapped_len(map: memmap2::Mmap) -> nat;

/// Relies on `Mmap`'s `Deref` to a byte slice: its length is the length the
/// map was made with.
#[verifier::external_body]
fn map_len(map: &memmap2::Mmap) -> (r: usize)
    ensures
        r == mapped_len(*map),
{
    map.len()
}

/// Relies on `Mmap`'s `Deref` to a byte slice, indexed by `start..end`, which
/// is in bounds for `end` up to the map's length.
#[verifier::external_body]
fn map_range(map: &memmap2::Mmap, start: usize, end: usize) -> (r: &[u8])
    requires
        start <= end <= mapped_len(*map),
    ensures
        r@.len() == end - start,
{
    &map[start..end]
}

/// Reads a memory-mapped file front to back in chunks.
pub struct MemoryMappedReader {
    map: memmap2::Mmap,
    position: usize,
}

impl MemoryMappedReader {
    /// A reader at the start of `map`.
    pub fn from_map(map: memmap2::Mmap) -> (r: Self)
        ensures
            r.position() == 0,
            r.len() == mapped_len(map),
    {
        MemoryMappedReader { map, position: 0 }
    }

    /// How many bytes have been handed out.
    pub closed spec fn position(&self) -> usize {
        self.position
    }

    /// The length of the mapped file.
    pub closed spec fn len(&self) -> nat {
        mapped_len(self.map)
    }

    /// The next chunk of at most `size` bytes: `None` once the whole map has
    /// been read, else the bytes from the current position up to `size` more
    /// or the end of the map, whichever comes first, after which the position
    /// moves past them.
    pub fn read_chunk(&mut self, size: usize) -> (r: Option<&[u8]>)
        ensures
            final(self).len() == old(self).len(),
            old(self).position() >= old(self).len() ==> r is None && final(self).position()
                == old(self).position(),
            old(self).position() < old(self).len() ==> {
                let end = if old(self).position() + size >= old(self).len() {
                    old(self).len() as int
                } else {
                    old(self).position() + size
                };
                &&& r is Some
                &&& r->Some_0@.len() == end - old(self).position()
                &&& final(self).position() == end
            },
    {
        let len = map_len(&self.map);
        if self.position >= len {
            return None;
        }
        let start = self.position;
        let end = if size >= len - start {
            len
        } else {
            start + size
        };
        self.position = end;
        Some(map_range(&self.map, start, end))
    }
}

} // verus!
