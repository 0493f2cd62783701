//! File connection messages — sent over an "F" TCP connection.
//!
//! There are no message codes here; the two messages are identified solely
//! by their position in the connection handshake.
use vstd::prelude::*;
use crate::codec::{read_u32_le, read_u64_le, write_u32_le, write_u64_le, ByteReader};
use crate::error::Result;
use crate::wire::{lemma_u32_at, lemma_u64_at, p_u32, p_u64, step_matches, u32_le, u64_le, Step};

verus! {

// ── FileTransferInit ──────────────────────────────────────────────────────────

/// Sent by the uploader to the downloader as the first message over an F
/// connection, to indicate which queued transfer token this connection
/// corresponds to.
#[derive(Debug, Clone)]
pub struct FileTransferInit {
    /// Matches the token in the corresponding `TransferRequest` peer message.
    pub token: u32,
}

impl View for FileTransferInit {
    type V = u32;

    open spec fn view(&self) -> u32 {
        self.token
    }
}

impl FileTransferInit {
    pub fn encode(&self) -> (out: Vec<u8>)
        ensures
            out@ == u32_le(self.token),
    {
        let mut buf = Vec::new();
        write_u32_le(&mut buf, self.token);
        buf
    }

    pub fn decode(r: &mut ByteReader) -> (res: Result<Self>)
        ensures
            final(r).bytes() == old(r).bytes(),
            step_matches(res, final(r).pos(), p_u32(old(r).bytes(), old(r).pos())),
    {
        let token = read_u32_le(r)?;
        Ok(Self { token })
    }

    /// Reading back an encoded message gives the message.
    pub proof fn lemma_roundtrip(m: Self)
        ensures
            p_u32(u32_le(m.token), 0) == Step::Ok((m@, 4int)),
    {
        assert(u32_le(m.token).subrange(0, 4) =~= u32_le(m.token));
        lemma_u32_at(u32_le(m.token), 0, m.token);
    }
}

// ── FileOffset ────────────────────────────────────────────────────────────────

/// Sent by the downloader right after receiving `FileTransferInit`, specifying
/// how many bytes of the file have already been downloaded (0 for fresh
/// downloads). The uploader then seeks to this offset before sending data.
///
/// Note: Soulseek NS has a bug where it sends an offset of −1 when more than
/// 2 GB have been downloaded. Implementations should handle this gracefully.
#[derive(Debug, Clone)]
pub struct FileOffset {
    pub offset: u64,
}

impl View for FileOffset {
    type V = u64;

    open spec fn view(&self) -> u64 {
        self.offset
    }
}

impl FileOffset {
    pub fn encode(&self) -> (out: Vec<u8>)
        ensures
            out@ == u64_le(self.offset),
    {
        let mut buf = Vec::new();
        write_u64_le(&mut buf, self.offset);
        buf
    }

    pub fn decode(r: &mut ByteReader) -> (res: Result<Self>)
        ensures
            final(r).bytes() == old(r).bytes(),
            step_matches(res, final(r).pos(), p_u64(old(r).bytes(), old(r).pos())),
    {
        let offset = read_u64_le(r)?;
        Ok(Self { offset })
    }

    /// Reading back an encoded message gives the message.
    pub proof fn lemma_roundtrip(m: Self)
        ensures
            p_u64(u64_le(m.offset), 0) == Step::Ok((m@, 8int)),
    {
        assert(u64_le(m.offset).subrange(0, 8) =~= u64_le(m.offset));
        lemma_u64_at(u64_le(m.offset), 0, m.offset);
    }
}

} // verus!
