//! How command bytes and pixel data are framed for the controller: a control
//! byte first, and pixel data cut into chunks that fit one transaction.

use vstd::prelude::*;

verus! {

/// Control byte that announces a command.
pub const COMMAND_PREFIX: u8 = 0x00;

/// Control byte that announces pixel data.
pub const DATA_PREFIX: u8 = 0x40;

/// The most payload bytes that one data transaction carries.
pub const CHUNK_SIZE: usize = 16;

/// The most bytes that one transaction carries: the control byte and a full chunk.
pub const FRAME_CAPACITY: usize = 17;

/// The frame that carries the command byte `command`.
pub open spec fn command_frame(command: u8) -> Seq<u8> {
    seq![COMMAND_PREFIX, command]
}

/// The frames that carry the command bytes `commands`, one frame each.
pub open spec fn command_frames(commands: Seq<u8>) -> Seq<Seq<u8>> {
    Seq::new(commands.len(), |i: int| command_frame(commands[i]))
}

/// The number of chunks that a payload of `len` bytes is cut into.
pub open spec fn chunk_count(len: nat) -> nat {
    ((len + 15) / 16) as nat
}

/// Chunk number `k` of `payload`: sixteen bytes from offset `16 * k`, or
/// what is left of the payload where that is less.
pub open spec fn chunk(payload: Seq<u8>, k: int) -> Seq<u8> {
    payload.subrange(
        16 * k,
        if 16 * k + 16 <= payload.len() {
            16 * k + 16
        } else {
            payload.len() as int
        },
    )
}

/// The chunks of `payload`, in order.
pub open spec fn chunks(payload: Seq<u8>) -> Seq<Seq<u8>> {
    Seq::new(chunk_count(payload.len()), |k: int| chunk(payload, k))
}

/// The frame that carries one chunk of pixel data.
pub open spec fn data_frame(chunk: Seq<u8>) -> Seq<u8> {
    seq![DATA_PREFIX] + chunk
}

/// The frames that carry `payload`, one per chunk.
pub open spec fn data_frames(payload: Seq<u8>) -> Seq<Seq<u8>> {
    Seq::new(chunk_count(payload.len()), |k: int| data_frame(chunk(payload, k)))
}

/// The chunks of the first `16 * n` bytes of a payload, joined, are those bytes.
proof fn lemma_chunks_join(payload: Seq<u8>, n: nat)
    requires
        n <= chunk_count(payload.len()),
    ensures
        chunks(payload).take(n as int).flatten() == payload.take(
            if 16 * n <= payload.len() {
                16 * n as int
            } else {
                payload.len() as int
            },
        ),
    decreases n,
{
    let all = chunks(payload);
    if n == 0 {
        assert(all.take(0) =~= Seq::<Seq<u8>>::empty());
        assert(payload.take(0) =~= Seq::<u8>::empty());
    } else {
        lemma_chunks_join(payload, (n - 1) as nat);
        let head = all.take(n - 1);
        assert(all.take(n as int) =~= head.push(all[n - 1]));
        head.lemma_flatten_push(all[n - 1]);
        let end = if 16 * n <= payload.len() {
            16 * n as int
        } else {
            payload.len() as int
        };
        assert(payload.take(16 * (n - 1)) + chunk(payload, n - 1) =~= payload.take(end));
    }
}

/// A payload of `L` bytes is cut into `ceil(L / 16)` chunks, none empty and
/// none longer than sixteen bytes; the chunks joined in order are the
/// payload; and each frame is the data prefix followed by its chunk, at most
/// seventeen bytes in all.
pub proof fn lemma_data_frames(payload: Seq<u8>)
    ensures
        data_frames(payload).len() == chunks(payload).len(),
        16 * (chunks(payload).len() - 1) < payload.len() <= 16 * chunks(payload).len(),
        chunks(payload).flatten() == payload,
        forall|k: int|
            0 <= k < chunks(payload).len() ==> 1 <= (#[trigger] chunks(payload)[k]).len() <= 16,
        forall|k: int|
            0 <= k < chunks(payload).len() ==> {
                &&& (#[trigger] data_frames(payload)[k]).len() == chunks(payload)[k].len() + 1
                &&& data_frames(payload)[k].len() <= 17
                &&& data_frames(payload)[k][0] == 0x40u8
                &&& data_frames(payload)[k].skip(1) == chunks(payload)[k]
            },
{
    let all = chunks(payload);
    let n = chunk_count(payload.len());
    lemma_chunks_join(payload, n);
    assert(all.take(n as int) =~= all);
    assert(payload.take(payload.len() as int) =~= payload);
    assert forall|k: int| 0 <= k < all.len() implies {
        &&& (#[trigger] data_frames(payload)[k]).len() == all[k].len() + 1
        &&& data_frames(payload)[k].len() <= 17
        &&& data_frames(payload)[k][0] == 0x40u8
        &&& data_frames(payload)[k].skip(1) == all[k]
    } by {
        assert(data_frames(payload)[k].skip(1) =~= all[k]);
    }
}

/// A payload that fits one chunk goes out as one frame.
pub proof fn lemma_single_frame(payload: Seq<u8>)
    requires
        1 <= payload.len() <= 16,
    ensures
        data_frames(payload) == seq![data_frame(payload)],
{
    assert(chunk(payload, 0) =~= payload);
    assert(data_frames(payload) =~= seq![data_frame(payload)]);
}

} // verus!
