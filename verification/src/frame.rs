//! Frames: how items are told apart in a stream of bytes. A frame is its length, in four bytes, and
//! then its data.
use bytes::BytesMut;
use tokio_util::codec::{Decoder, Encoder, LengthDelimitedCodec};
use vstd::prelude::*;

verus! {

/// The length of the data of a frame at most: eight mebibytes.
pub const MAX_FRAME_LEN: usize = 8_388_608;

/// The length of the head of a frame.
pub const HEAD_LEN: usize = 4;

/// Why there is no frame.
#[derive(Debug, Clone, Copy, PartialEq, Eq, Structural)]
pub enum FrameError {
    /// The data to send is too long.
    TooLongToSend,
    /// The frame that begins is too long.
    TooLongToReceive,
}

/// The head of a frame with `n` bytes of data: the number, the highest byte first.
pub open spec fn head_bytes(n: nat) -> Seq<u8> {
    seq![
        (n / 0x100_0000) as u8,
        (n / 0x1_0000 % 0x100) as u8,
        (n / 0x100 % 0x100) as u8,
        (n % 0x100) as u8,
    ]
}

/// The number in the head of a frame.
pub open spec fn head_value(bytes: Seq<u8>) -> nat {
    (bytes[0] * 0x100_0000 + bytes[1] * 0x1_0000 + bytes[2] * 0x100 + bytes[3]) as nat
}

/// The frame of some data.
pub open spec fn frame(data: Seq<u8>) -> Seq<u8> {
    head_bytes(data.len()) + data
}

/// What stands at the beginning of some bytes, and the bytes that are left. Where the head is there
/// and the data are not, the head is taken.
pub open spec fn unframed(bytes: Seq<u8>) -> (Result<Option<Seq<u8>>, FrameError>, Seq<u8>) {
    if bytes.len() < HEAD_LEN {
        (Ok(None), bytes)
    } else {
        let n = head_value(bytes);
        if n > MAX_FRAME_LEN {
            (Err(FrameError::TooLongToReceive), bytes)
        } else if bytes.len() < HEAD_LEN + n {
            (Ok(None), bytes.skip(HEAD_LEN as int))
        } else {
            (
                Ok(Some(bytes.subrange(HEAD_LEN as int, HEAD_LEN + n))),
                bytes.skip(HEAD_LEN + n),
            )
        }
    }
}

/// A result, its bytes taken as a sequence.
pub open spec fn bytes_result(r: Result<Option<Vec<u8>>, FrameError>) -> Result<
    Option<Seq<u8>>,
    FrameError,
> {
    match r {
        Ok(Some(data)) => Ok(Some(data@)),
        Ok(None) => Ok(None),
        Err(e) => Err(e),
    }
}

/// Calls `tokio_util::codec::LengthDelimitedCodec::encode` in its default configuration on an empty
/// buffer. It refuses data that are longer than eight mebibytes, and else gives their length in
/// four bytes, the highest first, and the data.
#[verifier::external_body]
fn encode_frame(data: &[u8]) -> (r: Result<Vec<u8>, FrameError>)
    ensures
        match r {
            Ok(bytes) => data@.len() <= MAX_FRAME_LEN && bytes@ == frame(data@),
            Err(e) => data@.len() > MAX_FRAME_LEN && e == FrameError::TooLongToSend,
        },
{
    let mut dst = BytesMut::new();
    match LengthDelimitedCodec::new().encode(data, &mut dst) {
        Ok(()) => Ok(dst.to_vec()),
        Err(_) => Err(FrameError::TooLongToSend),
    }
}

/// Calls `tokio_util::codec::LengthDelimitedCodec::decode` in its default configuration, on a codec
/// that has seen nothing before. It wants four bytes of head, refuses a length of more than eight
/// mebibytes, and gives the data once they are all there. It takes what it has used from the
/// buffer; the head is used as soon as it is there and not refused.
#[verifier::external_body]
fn decode_frame(bytes: Vec<u8>) -> (r: (Result<Option<Vec<u8>>, FrameError>, Vec<u8>))
    ensures
        (bytes_result(r.0), r.1@) == unframed(bytes@),
{
    let mut src = BytesMut::from(bytes.as_slice());
    let r = match LengthDelimitedCodec::new().decode(&mut src) {
        Ok(data) => Ok(data.map(|d| d.to_vec())),
        Err(_) => Err(FrameError::TooLongToReceive),
    };
    (r, src.to_vec())
}

/// Makes frames, and takes them apart. It remembers the length of a frame whose head it has taken
/// from the buffer.
#[derive(Debug, Clone, Copy, PartialEq, Eq, Structural)]
pub struct FramedBlocking {
    pub awaiting: Option<usize>,
}

/// The bytes of a stream from the beginning of a frame on.
pub open spec fn from_head(awaiting: Option<usize>, src: Seq<u8>) -> Seq<u8> {
    match awaiting {
        Some(n) => head_bytes(n as nat) + src,
        None => src,
    }
}

/// The length of the frame whose head is used, once frames were sought in some bytes.
pub open spec fn awaited(bytes: Seq<u8>) -> Option<usize> {
    if unframed(bytes).0 == Ok::<Option<Seq<u8>>, FrameError>(None) && bytes.len() >= HEAD_LEN {
        Some(head_value(bytes) as usize)
    } else {
        None
    }
}

impl Default for FramedBlocking {
    /// Has seen nothing yet.
    fn default() -> (r: Self)
        ensures
            r.awaiting == None::<usize>,
            r.well_formed(),
    {
        FramedBlocking { awaiting: None }
    }
}

impl FramedBlocking {
    /// A length that is remembered was not refused.
    pub open spec fn well_formed(self) -> bool {
        self.awaiting matches Some(n) ==> n <= MAX_FRAME_LEN
    }

    /// Appends the frame of some data. Data that are too long are refused.
    pub fn encode(&mut self, data: &[u8], dst: &mut Vec<u8>) -> (r: Result<(), FrameError>)
        ensures
            *final(self) == *old(self),
            if data@.len() <= MAX_FRAME_LEN {
                r == Ok::<(), FrameError>(()) && final(dst)@ == old(dst)@ + frame(data@)
            } else {
                r == Err::<(), FrameError>(FrameError::TooLongToSend) && final(dst)@ == old(dst)@
            },
    {
        match encode_frame(data) {
            Ok(mut bytes) => {
                dst.append(&mut bytes);
                Ok(())
            },
            Err(e) => Err(e),
        }
    }

    /// Takes the data of the next frame from the bytes that came, if they are all there. A frame
    /// that is too long is refused.
    pub fn decode(&mut self, src: &mut Vec<u8>) -> (r: Result<Option<Vec<u8>>, FrameError>)
        requires
            old(self).well_formed(),
        ensures
            final(self).well_formed(),
            (bytes_result(r), final(src)@) == unframed(
                from_head(old(self).awaiting, old(src)@),
            ),
            final(self).awaiting == awaited(from_head(old(self).awaiting, old(src)@)),
    {
        let mut bytes: Vec<u8> = match self.awaiting {
            Some(n) => head(n),
            None => Vec::new(),
        };
        bytes.append(src);
        assert(bytes@ =~= from_head(old(self).awaiting, old(src)@));
        let ghost all = bytes@;
        self.awaiting = None;
        let n: Option<usize> = if bytes.len() >= HEAD_LEN {
            Some(head_number(bytes.as_slice()))
        } else {
            None
        };
        let (r, mut rest) = decode_frame(bytes);
        src.append(&mut rest);
        assert(src@ =~= unframed(all).1);
        if let Ok(None) = r {
            self.awaiting = n;
        }
        r
    }
}

/// The head of a frame.
fn head(n: usize) -> (r: Vec<u8>)
    requires
        n <= MAX_FRAME_LEN,
    ensures
        r@ == head_bytes(n as nat),
{
    let mut bytes: Vec<u8> = Vec::new();
    bytes.push((n / 0x100_0000) as u8);
    bytes.push((n / 0x1_0000 % 0x100) as u8);
    bytes.push((n / 0x100 % 0x100) as u8);
    bytes.push((n % 0x100) as u8);
    assert(bytes@ =~= head_bytes(n as nat));
    bytes
}

/// The number in the head of a frame.
fn head_number(bytes: &[u8]) -> (n: usize)
    requires
        bytes@.len() >= HEAD_LEN,
    ensures
        n == head_value(bytes@),
{
    bytes[0] as usize * 0x100_0000 + bytes[1] as usize * 0x1_0000 + bytes[2] as usize * 0x100
        + bytes[3] as usize
}

// ---------------------------------------------------------------------------
// What holds of every frame
// ---------------------------------------------------------------------------

proof fn lemma_head_value(n: nat)
    requires
        n <= MAX_FRAME_LEN,
    ensures
        head_value(head_bytes(n)) == n,
        head_bytes(n).len() == HEAD_LEN,
{
}

proof fn lemma_head_prefix(bytes: Seq<u8>, prefix: Seq<u8>)
    requires
        prefix.len() >= HEAD_LEN,
        prefix.is_prefix_of(bytes),
    ensures
        head_value(bytes) == head_value(prefix),
{
    assert(prefix =~= bytes.take(prefix.len() as int));
    assert(forall|i: int| 0 <= i < HEAD_LEN ==> prefix[i] == bytes[i]);
}

/// A frame gives back the data that it was made of, and leaves what follows it.
pub proof fn frames_give_back_their_data(data: Seq<u8>, rest: Seq<u8>)
    requires
        data.len() <= MAX_FRAME_LEN,
    ensures
        unframed(frame(data) + rest) == (
            Ok::<Option<Seq<u8>>, FrameError>(Some(data)),
            rest,
        ),
        awaited(frame(data) + rest) == None::<usize>,
{
    let bytes = frame(data) + rest;
    lemma_head_value(data.len());
    lemma_head_prefix(bytes, head_bytes(data.len()));
    assert(bytes.subrange(HEAD_LEN as int, HEAD_LEN + data.len()) =~= data);
    assert(bytes.skip(HEAD_LEN + data.len()) =~= rest);
}

/// It does not matter in which pieces a frame comes. As long as a part of it is missing there is
/// nothing, and with the last part its data are there.
pub proof fn frames_may_come_in_pieces(data: Seq<u8>, part: Seq<u8>, missing: Seq<u8>, rest: Seq<u8>)
    requires
        data.len() <= MAX_FRAME_LEN,
        part + missing == frame(data),
        missing.len() > 0,
    ensures
        unframed(part).0 == Ok::<Option<Seq<u8>>, FrameError>(None),
        ({
            let left = unframed(part).1;
            let awaiting = awaited(part);
            &&& from_head(awaiting, left + missing + rest) == frame(data) + rest
            &&& unframed(from_head(awaiting, left + missing + rest)) == (
                Ok::<Option<Seq<u8>>, FrameError>(Some(data)),
                rest,
            )
        }),
{
    let whole = frame(data);
    lemma_head_value(data.len());
    if part.len() >= HEAD_LEN {
        assert(whole.take(part.len() as int) =~= part);
        lemma_head_prefix(whole, part);
        lemma_head_prefix(whole, head_bytes(data.len()));
        assert(head_value(part) == data.len());
        assert(part.take(HEAD_LEN as int) =~= head_bytes(data.len()));
        assert(head_bytes(data.len()) + part.skip(HEAD_LEN as int) =~= part);
        let left = unframed(part).1;
        assert(from_head(awaited(part), left + missing + rest) =~= whole + rest);
    } else {
        assert(part + missing + rest =~= whole + rest);
    }
    frames_give_back_their_data(data, rest);
}

/// A frame is four bytes that give the length of its data, the highest first, and then the data.
/// Data of up to eight mebibytes have one.
pub proof fn frame_is_length_and_data(data: Seq<u8>)
    requires
        data.len() <= 0x80_0000,
    ensures
        MAX_FRAME_LEN == 0x80_0000,
        frame(data).len() == data.len() + 4,
        frame(data)[0] * 0x100_0000 + frame(data)[1] * 0x1_0000 + frame(data)[2] * 0x100 + frame(
            data,
        )[3] == data.len(),
        frame(data).skip(4) == data,
{
    lemma_head_value(data.len());
    assert(frame(data).skip(4) =~= data);
}

/// Bytes without a whole head are left for later. A head that gives more than eight mebibytes is
/// refused, and with less data than it gives, there is nothing yet.
pub proof fn unfinished_frames_wait(bytes: Seq<u8>)
    ensures
        bytes.len() < 4 ==> unframed(bytes) == (Ok::<Option<Seq<u8>>, FrameError>(None), bytes)
            && awaited(bytes) is None,
        bytes.len() >= 4 ==> ({
            let n = bytes[0] * 0x100_0000 + bytes[1] * 0x1_0000 + bytes[2] * 0x100 + bytes[3];
            &&& n > 0x80_0000 ==> unframed(bytes) == (
                Err::<Option<Seq<u8>>, FrameError>(FrameError::TooLongToReceive),
                bytes,
            )
            &&& n <= 0x80_0000 && bytes.len() < n + 4 ==> unframed(bytes) == (
                Ok::<Option<Seq<u8>>, FrameError>(None),
                bytes.skip(4),
            ) && awaited(bytes) == Some(n as usize)
            &&& n <= 0x80_0000 && bytes.len() >= n + 4 ==> unframed(bytes) == (
                Ok::<Option<Seq<u8>>, FrameError>(Some(bytes.skip(4).take(n))),
                bytes.skip(4 + n),
            ) && awaited(bytes) is None
        }),
{
    if bytes.len() >= 4 {
        let n = bytes[0] * 0x100_0000 + bytes[1] * 0x1_0000 + bytes[2] * 0x100 + bytes[3];
        if bytes.len() >= n + 4 {
            assert(bytes.subrange(4, 4 + n) =~= bytes.skip(4).take(n));
        }
    }
}

} // verus!
