//! The chunked file format: a sequence of frames `u32_le(len) || frame`,
//! each frame one AEAD frame over at most `CHUNK_SIZE` plaintext bytes,
//! ending where the input ends.
use crate::crypto::{aead_frame, aead_open, draw_nonce, SessionKey, NONCE_SIZE, TAG_SIZE};
use crate::error::ErrorKind;
use vstd::bytes::{
    lemma_auto_spec_u32_to_from_le_bytes, spec_u32_from_le_bytes, spec_u32_to_le_bytes, u32_from_le_bytes, u32_to_le_bytes,
};
use vstd::prelude::*;
use vstd::slice::slice_subrange;

verus! {

/// Plaintext bytes per chunk.
pub const CHUNK_SIZE: usize = 4 * 1024 * 1024;

/// Bytes that each chunk adds: the length prefix, the nonce and the tag.
pub const CHUNK_OVERHEAD: usize = 4 + NONCE_SIZE + TAG_SIZE;

/// Longest frame that a chunk holds: a full window with its nonce and tag.
/// A longer declared length is refused before anything is read.
pub const MAX_FRAME: usize = CHUNK_SIZE + NONCE_SIZE + TAG_SIZE;

/// What decrypting a chunk stream gives: the plaintexts of its frames in
/// order, `Truncated` when it ends inside a length prefix or a frame,
/// `Corrupt` when a prefix declares more than `MAX_FRAME` bytes, or the
/// first frame's decryption error.
pub open spec fn stream_open(key: Seq<u8>, bytes: Seq<u8>) -> Result<Seq<u8>, ErrorKind>
    decreases bytes.len(),
{
    if bytes.len() == 0 {
        Ok(Seq::empty())
    } else if bytes.len() < 4 {
        Err(ErrorKind::Truncated)
    } else {
        let n = spec_u32_from_le_bytes(bytes.subrange(0, 4)) as int;
        if n > MAX_FRAME {
            Err(ErrorKind::Corrupt)
        } else if bytes.len() < 4 + n {
            Err(ErrorKind::Truncated)
        } else {
            match aead_open(key, bytes.subrange(4, 4 + n)) {
                Err(e) => Err(e),
                Ok(p) => match stream_open(key, bytes.subrange(4 + n, bytes.len() as int)) {
                    Ok(rest) => Ok(p + rest),
                    Err(e) => Err(e),
                },
            }
        }
    }
}

/// Number of chunks that a plaintext of `len` bytes is cut into.
pub open spec fn chunk_count(len: nat) -> nat {
    if len == 0 {
        0
    } else {
        ((len - 1) as nat / CHUNK_SIZE as nat) + 1
    }
}

/// Appending a stream to a stream appends what they decrypt to.
proof fn lemma_stream_concat(key: Seq<u8>, a: Seq<u8>, b: Seq<u8>)
    requires
        stream_open(key, a) is Ok,
        stream_open(key, b) is Ok,
    ensures
        stream_open(key, a + b) == Ok::<Seq<u8>, ErrorKind>(stream_open(key, a)->Ok_0 + stream_open(key, b)->Ok_0),
    decreases a.len(),
{
    if a.len() == 0 {
        assert(a + b =~= b);
        assert(Seq::<u8>::empty() + stream_open(key, b)->Ok_0 =~= stream_open(key, b)->Ok_0);
    } else {
        let ab = a + b;
        let n = spec_u32_from_le_bytes(a.subrange(0, 4)) as int;
        assert(ab.subrange(0, 4) =~= a.subrange(0, 4));
        assert(ab.subrange(4, 4 + n) =~= a.subrange(4, 4 + n));
        let tail = a.subrange(4 + n, a.len() as int);
        lemma_stream_concat(key, tail, b);
        assert(ab.subrange(4 + n, ab.len() as int) =~= tail + b);
        let p = aead_open(key, a.subrange(4, 4 + n))->Ok_0;
        assert(p + (stream_open(key, tail)->Ok_0 + stream_open(key, b)->Ok_0) =~= (p + stream_open(key, tail)->Ok_0) + stream_open(key, b)->Ok_0);
    }
}

/// Seals one window of plaintext as one chunk under `nonce`:
/// `u32_le(len) || nonce || ciphertext_with_tag`, where `len` counts the
/// frame after the prefix. The chunk alone decrypts back to the window.
pub fn seal_chunk_with_nonce(key: &SessionKey, nonce: &[u8; 12], window: &[u8]) -> (r: Vec<u8>)
    requires
        window@.len() <= CHUNK_SIZE,
    ensures
        r@ == spec_u32_to_le_bytes((window@.len() + NONCE_SIZE + TAG_SIZE) as u32) + aead_frame(key@, nonce@, window@),
        r@.len() == window@.len() + CHUNK_OVERHEAD,
        stream_open(key@, r@) == Ok::<Seq<u8>, ErrorKind>(window@),
{
    let frame = match key.encrypt_file_with_nonce(nonce, window) {
        Ok(f) => f,
        Err(_) => Vec::new(),
    };
    let len = frame.len() as u32;
    let mut out = u32_to_le_bytes(len);
    let ghost head = out@;
    let ghost body = frame@;
    let mut tail = frame;
    out.append(&mut tail);
    proof {
        lemma_auto_spec_u32_to_from_le_bytes();
        let s = out@;
        assert(s =~= head + body);
        assert(s.subrange(0, 4) =~= head);
        assert(s.subrange(4, 4 + len as int) =~= body);
        assert(s.subrange(4 + len as int, s.len() as int) =~= Seq::<u8>::empty());
        assert(stream_open(key@, s.subrange(4 + len as int, s.len() as int)) == Ok::<Seq<u8>, ErrorKind>(Seq::empty()));
        assert(spec_u32_from_le_bytes(s.subrange(0, 4)) == len);
        assert(window@ + Seq::<u8>::empty() =~= window@);
    }
    out
}

/// Seals one window of plaintext as one chunk with a fresh random nonce
/// (see `seal_chunk_with_nonce`). `InternalRng` when no nonce can be drawn.
pub fn seal_chunk(key: &SessionKey, window: &[u8]) -> (r: Result<Vec<u8>, ErrorKind>)
    requires
        window@.len() <= CHUNK_SIZE,
    ensures
        match r {
            Ok(c) => {
                &&& c@ == spec_u32_to_le_bytes((window@.len() + NONCE_SIZE + TAG_SIZE) as u32)
                    + aead_frame(key@, c@.subrange(4, 4 + NONCE_SIZE as int), window@)
                &&& c@.len() == window@.len() + CHUNK_OVERHEAD
                &&& stream_open(key@, c@) == Ok::<Seq<u8>, ErrorKind>(window@)
            },
            Err(e) => e == ErrorKind::InternalRng,
        },
{
    let nonce = draw_nonce()?;
    let c = seal_chunk_with_nonce(key, &nonce, window);
    proof {
        lemma_auto_spec_u32_to_from_le_bytes();
        assert(c@.subrange(4, 4 + NONCE_SIZE as int) =~= nonce@);
    }
    Ok(c)
}

/// Encrypts a whole plaintext into the chunk format, in windows of
/// `CHUNK_SIZE` bytes; the result decrypts back to `data`. `InternalRng`
/// when a nonce cannot be drawn.
pub fn encrypt_stream(key: &SessionKey, data: &[u8]) -> (r: Result<Vec<u8>, ErrorKind>)
    requires
        data@.len() + CHUNK_OVERHEAD * chunk_count(data@.len() as nat) <= usize::MAX,
    ensures
        match r {
            Ok(c) => {
                &&& c@.len() == data@.len() + CHUNK_OVERHEAD * chunk_count(data@.len() as nat)
                &&& stream_open(key@, c@) == Ok::<Seq<u8>, ErrorKind>(data@)
            },
            Err(e) => e == ErrorKind::InternalRng,
        },
        data@.len() == 0 ==> (r matches Ok(c) && c@.len() == 0),
{
    let mut out: Vec<u8> = Vec::new();
    let mut pos: usize = 0;
    proof {
        assert(data@.subrange(0, 0) =~= Seq::<u8>::empty());
    }
    while pos < data.len()
        invariant
            pos <= data@.len(),
            pos == data@.len() || pos % CHUNK_SIZE == 0,
            data@.len() + CHUNK_OVERHEAD * chunk_count(data@.len() as nat) <= usize::MAX,
            out@.len() == pos + CHUNK_OVERHEAD * chunk_count(pos as nat),
            stream_open(key@, out@) == Ok::<Seq<u8>, ErrorKind>(data@.subrange(0, pos as int)),
        decreases data@.len() - pos,
    {
        let end: usize = if data.len() - pos > CHUNK_SIZE { pos + CHUNK_SIZE } else { data.len() };
        let chunk = seal_chunk(key, slice_subrange(data, pos, end))?;
        proof {
            lemma_stream_concat(key@, out@, chunk@);
            assert(data@.subrange(0, pos as int) + data@.subrange(pos as int, end as int) =~= data@.subrange(0, end as int));
            assert(chunk_count(end as nat) == chunk_count(pos as nat) + 1) by {
                assert(pos % CHUNK_SIZE == 0);
                if pos > 0 {
                    assert((pos - 1) as nat / CHUNK_SIZE as nat == pos as nat / CHUNK_SIZE as nat - 1) by (nonlinear_arith)
                        requires pos % CHUNK_SIZE == 0, pos > 0, CHUNK_SIZE > 0;
                    assert((end - 1) as nat / CHUNK_SIZE as nat == pos as nat / CHUNK_SIZE as nat) by (nonlinear_arith)
                        requires pos % CHUNK_SIZE == 0, pos < end, end <= pos + CHUNK_SIZE, CHUNK_SIZE > 0;
                } else {
                    assert((end - 1) as nat / CHUNK_SIZE as nat == 0) by (nonlinear_arith)
                        requires 0 < end, end <= CHUNK_SIZE;
                }
            }
            assert(chunk_count(end as nat) <= chunk_count(data@.len() as nat)) by {
                if end < data@.len() {
                    assert((end - 1) as nat / CHUNK_SIZE as nat <= (data@.len() - 1) as nat / CHUNK_SIZE as nat) by (nonlinear_arith)
                        requires end <= data@.len(), end > 0, CHUNK_SIZE > 0;
                }
            }
            assert(end == data@.len() || end % CHUNK_SIZE == 0) by (nonlinear_arith)
                requires pos % CHUNK_SIZE == 0, end == data@.len() || end == pos + CHUNK_SIZE;
            let c = chunk_count(pos as nat);
            assert(CHUNK_OVERHEAD * c + CHUNK_OVERHEAD == CHUNK_OVERHEAD * (c + 1)) by (nonlinear_arith);
        }
        let mut tail = chunk;
        out.append(&mut tail);
        pos = end;
    }
    proof {
        assert(data@.subrange(0, data@.len() as int) =~= data@);
    }
    Ok(out)
}

/// What a read of a length prefix tells the reader: the end of the stream
/// when nothing was read (`None`), the frame's length when all four bytes
/// were read and it is at most `MAX_FRAME`, `Corrupt` for a longer one,
/// else `Truncated`.
pub fn next_frame_len(header: &[u8]) -> (r: Result<Option<usize>, ErrorKind>)
    ensures
        header@.len() == 0 ==> r == Ok::<Option<usize>, ErrorKind>(None),
        header@.len() == 4 && spec_u32_from_le_bytes(header@) <= MAX_FRAME
            ==> r == Ok::<Option<usize>, ErrorKind>(Some(spec_u32_from_le_bytes(header@) as usize)),
        header@.len() == 4 && spec_u32_from_le_bytes(header@) > MAX_FRAME
            ==> r == Err::<Option<usize>, ErrorKind>(ErrorKind::Corrupt),
        header@.len() != 0 && header@.len() != 4 ==> r == Err::<Option<usize>, ErrorKind>(ErrorKind::Truncated),
{
    if header.len() == 0 {
        Ok(None)
    } else if header.len() == 4 {
        let n = u32_from_le_bytes(header);
        if n as usize > MAX_FRAME {
            Err(ErrorKind::Corrupt)
        } else {
            Ok(Some(n as usize))
        }
    } else {
        Err(ErrorKind::Truncated)
    }
}

/// Opens the frame that follows a length prefix declaring `declared`
/// bytes, given the bytes that could be read: `Truncated` when fewer came,
/// else the frame's decryption.
pub fn open_chunk(key: &SessionKey, declared: usize, frame: &[u8]) -> (r: Result<Vec<u8>, ErrorKind>)
    requires
        frame@.len() <= declared,
    ensures
        frame@.len() < declared ==> r == Err::<Vec<u8>, ErrorKind>(ErrorKind::Truncated),
        frame@.len() == declared ==> match r {
            Ok(p) => aead_open(key@, frame@) == Ok::<Seq<u8>, ErrorKind>(p@),
            Err(e) => aead_open(key@, frame@) == Err::<Seq<u8>, ErrorKind>(e),
        },
{
    if frame.len() < declared {
        return Err(ErrorKind::Truncated);
    }
    key.decrypt_file(frame)
}

/// Decrypts a whole chunk stream.
pub fn decrypt_stream(key: &SessionKey, bytes: &[u8]) -> (r: Result<Vec<u8>, ErrorKind>)
    ensures
        match r {
            Ok(p) => stream_open(key@, bytes@) == Ok::<Seq<u8>, ErrorKind>(p@),
            Err(e) => stream_open(key@, bytes@) == Err::<Seq<u8>, ErrorKind>(e),
        },
{
    let mut out: Vec<u8> = Vec::new();
    let mut pos: usize = 0;
    proof {
        assert(bytes@.subrange(0, bytes@.len() as int) =~= bytes@);
        assert(out@ + Seq::<u8>::empty() =~= Seq::<u8>::empty());
    }
    while pos < bytes.len()
        invariant
            pos <= bytes@.len(),
            stream_open(key@, bytes@) == match stream_open(key@, bytes@.subrange(pos as int, bytes@.len() as int)) {
                Ok(rest) => Ok::<Seq<u8>, ErrorKind>(out@ + rest),
                Err(e) => Err(e),
            },
        decreases bytes@.len() - pos,
    {
        let ghost rem = bytes@.subrange(pos as int, bytes@.len() as int);
        if bytes.len() - pos < 4 {
            return Err(ErrorKind::Truncated);
        }
        let header = slice_subrange(bytes, pos, pos + 4);
        assert(rem.subrange(0, 4) =~= header@);
        let n = u32_from_le_bytes(header) as usize;
        if n > MAX_FRAME {
            return Err(ErrorKind::Corrupt);
        }
        if bytes.len() - pos - 4 < n {
            return Err(ErrorKind::Truncated);
        }
        let frame = slice_subrange(bytes, pos + 4, pos + 4 + n);
        assert(rem.subrange(4, 4 + n as int) =~= frame@);
        assert(rem.subrange(4 + n as int, rem.len() as int) =~= bytes@.subrange(pos + 4 + n, bytes@.len() as int));
        let p = key.decrypt_file(frame)?;
        let ghost before = out@;
        let mut piece = p;
        let ghost piece_view = piece@;
        out.append(&mut piece);
        proof {
            match stream_open(key@, bytes@.subrange(pos + 4 + n, bytes@.len() as int)) {
                Ok(rest) => {
                    assert(before + (piece_view + rest) =~= out@ + rest);
                },
                Err(e) => {},
            }
        }
        pos = pos + 4 + n;
    }
    proof {
        assert(bytes@.subrange(pos as int, bytes@.len() as int) =~= Seq::<u8>::empty());
        assert(out@ + Seq::<u8>::empty() =~= out@);
    }
    Ok(out)
}

} // verus!
