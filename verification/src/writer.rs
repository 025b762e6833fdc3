//! Writing SSL log files, plain or gzip-compressed, as bytes.
use vstd::prelude::*;

use crate::bytes::{lemma_i64_u64_same_bits, write_i32_be, write_i64_be};
use crate::error::{IoErrorKind, WriteError};
use crate::format::{
    encode_index, encode_message, file_header, header_bytes, indexed_marker, u64s_be,
    FILE_VERSION,
};
use crate::gzip::{gunzip, gzip, gzip_bytes};
use crate::message::{LogMessage, MessageId};

verus! {

/// Appends `bytes` to `out`.
fn append_bytes(out: &mut Vec<u8>, bytes: &[u8])
    ensures
        final(out)@ == old(out)@ + bytes@,
{
    let ghost start = out@;
    let mut i: usize = 0;
    while i < bytes.len()
        invariant
            i <= bytes.len(),
            out@ == start + bytes@.take(i as int),
        decreases bytes.len() - i,
    {
        out.push(bytes[i]);
        i = i + 1;
        assert(out@ =~= start + bytes@.take(i as int));
    }
    assert(bytes@.take(i as int) =~= bytes@);
}

/// What a log writer holds: the bytes written so far, before compression,
/// and whether the file is compressed.
pub struct LogWriterView {
    pub output: Seq<u8>,
    pub compressed: bool,
}

/// Writes SSL log files, both plain and gzip-compressed. The bytes of the
/// file are handed out by [`close`](Self::close).
pub struct LogWriter {
    output: Vec<u8>,
    compressed: bool,
}

impl View for LogWriter {
    type V = LogWriterView;

    closed spec fn view(&self) -> LogWriterView {
        LogWriterView { output: self.output@, compressed: self.compressed }
    }
}

impl LogWriter {
    /// Creates a new log file, writing the header.
    pub fn create(compressed: bool) -> (w: LogWriter)
        ensures
            w@.output == header_bytes(),
            w@.compressed == compressed,
    {
        let mut output: Vec<u8> = Vec::new();
        let magic = file_header();
        append_bytes(&mut output, &magic);
        write_i32_be(&mut output, FILE_VERSION);
        LogWriter { output, compressed }
    }

    /// Continues an existing log file.
    ///
    /// Does **not** write a header (assumes it already exists).
    pub fn append(compressed: bool) -> (w: LogWriter)
        ensures
            w@.output == Seq::<u8>::empty(),
            w@.compressed == compressed,
    {
        LogWriter { output: Vec::new(), compressed }
    }

    /// Writes a single message to the log file.
    pub fn write_message(&mut self, msg: &LogMessage) -> (r: Result<(), WriteError>)
        ensures
            r is Ok,
            final(self)@.output == old(self)@.output + encode_message(msg@),
            final(self)@.compressed == old(self)@.compressed,
    {
        write_i64_be(&mut self.output, msg.timestamp_ns);
        write_i32_be(&mut self.output, msg.message_id.as_i32());
        write_i32_be(&mut self.output, #[verifier::truncate] (msg.payload.len() as i32));
        append_bytes(&mut self.output, msg.payload.as_slice());
        Ok(())
    }

    /// Writes an index to the end of the file.
    ///
    /// The index contains byte offsets to each message, enabling random access:
    /// - a message header (timestamp 0, id `Index2021`, length),
    /// - the offsets, each as a big-endian `i64`,
    /// - the total size of the index message, header included, as an `i64`,
    /// - the `"INDEXED"` marker (7 bytes).
    pub fn write_index(&mut self, offsets: &[u64]) -> (r: Result<(), WriteError>)
        requires
            offsets@.len() * 8 + 31 <= usize::MAX,
        ensures
            r is Ok,
            final(self)@.output == old(self)@.output + encode_index(offsets@),
            final(self)@.compressed == old(self)@.compressed,
    {
        let payload_len = offsets.len() * 8;
        let trailing_size: usize = 8 + 7;
        let msg_len = payload_len + 16 + trailing_size;

        write_i64_be(&mut self.output, 0);
        write_i32_be(&mut self.output, MessageId::Index2021.as_i32());
        write_i32_be(&mut self.output, #[verifier::truncate] ((payload_len + trailing_size) as i32));

        let ghost before_offsets = self.output@;
        let mut i: usize = 0;
        while i < offsets.len()
            invariant
                i <= offsets.len(),
                self.compressed == old(self)@.compressed,
                self.output@ == before_offsets + u64s_be(offsets@.take(i as int)),
            decreases offsets.len() - i,
        {
            let offset = offsets[i];
            proof {
                lemma_i64_u64_same_bits(offset);
                assert(offsets@.take(i + 1).drop_last() =~= offsets@.take(i as int));
            }
            write_i64_be(&mut self.output, offset as i64);
            i = i + 1;
        }
        assert(offsets@.take(i as int) =~= offsets@);

        write_i64_be(&mut self.output, #[verifier::truncate] (msg_len as i64));
        let marker = indexed_marker();
        append_bytes(&mut self.output, &marker);
        assert(self.output@ =~= old(self)@.output + encode_index(offsets@));
        Ok(())
    }

    /// Flushes and closes the writer, handing out the bytes of the file:
    /// what was written, gzip-compressed if the file is compressed.
    pub fn close(self) -> (r: Result<Vec<u8>, WriteError>)
        ensures
            !self@.compressed ==> (r matches Ok(v) && v@ == self@.output),
            self@.compressed ==> match r {
                Ok(v) => v@ == gzip(self@.output) && gunzip(v@) == (
                    self@.output,
                    None::<(IoErrorKind, Seq<char>)>,
                ),
                Err(e) => e is Io,
            },
    {
        if !self.compressed {
            return Ok(self.output);
        }
        match gzip_bytes(self.output.as_slice()) {
            Ok(v) => Ok(v),
            Err(e) => Err(WriteError::Io(e)),
        }
    }
}

} // verus!
