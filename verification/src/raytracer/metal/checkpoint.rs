//! Checkpoints of a render: how often they are written, their file, and where a render
//! goes on from one.

use crate::raytracer::metal::scene_buffers;
use crate::raytracer::metal::scene_buffers::as_bytes;
use vstd::prelude::*;

verus! {

/// Samples between checkpoints.
pub const CHECKPOINT_EVERY: u32 = 4;

/// "RCKP" as a word.
pub const CHECKPOINT_MAGIC: u32 = 0x504b_4352;

/// The words of a checkpoint: a mark, the size of the image, how many samples are done,
/// and the accumulation.
pub open spec fn checkpoint_words(w: u32, h: u32, done: u32, accum: Seq<u32>) -> Seq<u32> {
    seq![CHECKPOINT_MAGIC, w, h, done] + accum
}

/// The bytes of a checkpoint.
pub open spec fn checkpoint_file(w: u32, h: u32, done: u32, accum: Seq<u32>) -> Seq<u8> {
    scene_buffers::bytes_of(checkpoint_words(w, h, done, accum))
}

/// The word at four bytes, low byte first.
pub open spec fn word_at(bytes: Seq<u8>, p: int) -> u32 {
    (bytes[p] + bytes[p + 1] * 256 + bytes[p + 2] * 65536 + bytes[p + 3] * 16777216) as u32
}

/// What a checkpoint file says to a render of that size; `None` where it is none, or
/// belongs to another size.
pub open spec fn checkpoint_read(bytes: Seq<u8>, w: u32, h: u32) -> Option<(u32, Seq<u32>)> {
    if bytes.len() != 16 + w * h * 16 || word_at(bytes, 0) != CHECKPOINT_MAGIC || word_at(bytes, 4)
        != w || word_at(bytes, 8) != h {
        None
    } else {
        Some(
            (
                word_at(bytes, 12),
                Seq::new((w * h * 4) as nat, |i: int| word_at(bytes, 16 + 4 * i)),
            ),
        )
    }
}

/// The bytes of a checkpoint.
pub fn save_checkpoint(w: u32, h: u32, done: u32, accum: &Vec<u32>) -> (r: Vec<u8>)
    ensures
        r@ == checkpoint_file(w, h, done, accum@),
{
    let mut words: Vec<u32> = vec![CHECKPOINT_MAGIC, w, h, done];
    scene_buffers::push_words(&mut words, accum);
    assert(words@ =~= checkpoint_words(w, h, done, accum@));
    as_bytes(&words)
}

fn read_word(bytes: &[u8], p: usize) -> (r: u32)
    requires
        p + 4 <= bytes@.len(),
    ensures
        r == word_at(bytes@, p as int),
{
    bytes[p] as u32 + bytes[p + 1] as u32 * 256 + bytes[p + 2] as u32 * 65536 + bytes[p + 3] as u32
        * 16777216
}

/// What a checkpoint file says to a render of that size.
#[verifier::rlimit(40)]
pub fn load_checkpoint(bytes: &[u8], w: u32, h: u32) -> (r: Option<(u32, Vec<u32>)>)
    ensures
        match r {
            Some((done, accum)) => checkpoint_read(bytes@, w, h) == Some((done, accum@)),
            None => checkpoint_read(bytes@, w, h) is None,
        },
{
    let n: usize = bytes.len();
    assert(w * h <= 0xffff_ffff * 0xffff_ffff) by (nonlinear_arith)
        requires
            w <= 0xffff_ffff,
            h <= 0xffff_ffff,
    ;
    assert(w * h >= 0) by (nonlinear_arith)
        requires
            w >= 0,
            h >= 0,
    ;
    let pixels: u128 = w as u128 * h as u128;
    if n as u128 != 16 + pixels * 16 {
        return None;
    }
    if read_word(bytes, 0) != CHECKPOINT_MAGIC || read_word(bytes, 4) != w || read_word(bytes, 8)
        != h {
        return None;
    }
    let done: u32 = read_word(bytes, 12);
    let count: usize = (n - 16) / 4;
    let mut accum: Vec<u32> = Vec::new();
    let mut i: usize = 0;
    while i < count
        invariant
            i <= count,
            16 + 4 * count == n == bytes@.len(),
            accum@.len() == i,
            forall|k: int| 0 <= k < i ==> #[trigger] accum@[k] == word_at(bytes@, 16 + 4 * k),
        decreases count - i,
    {
        accum.push(read_word(bytes, 16 + 4 * i));
        i += 1;
    }
    assert(accum@ =~= checkpoint_read(bytes@, w, h)->Some_0.1);
    Some((done, accum))
}

/// Where a render starts: behind the samples that a checkpoint has, but not past the end.
pub fn resume_at(done: u32, spp: u32) -> (r: u32)
    ensures
        r == if done < spp {
            done
        } else {
            spp
        },
{
    if done < spp {
        done
    } else {
        spp
    }
}

/// How many samples are taken before the next checkpoint.
pub fn next_step(sample: u32, spp: u32, checkpointing: bool) -> (r: u32)
    requires
        sample < spp,
    ensures
        r == if checkpointing && CHECKPOINT_EVERY < spp - sample {
            CHECKPOINT_EVERY as int
        } else {
            spp - sample
        },
        1 <= r <= spp - sample,
{
    if checkpointing && CHECKPOINT_EVERY < spp - sample {
        CHECKPOINT_EVERY
    } else {
        spp - sample
    }
}

proof fn words_bytes(words: Seq<u32>, i: int)
    requires
        0 <= i < words.len(),
    ensures
        scene_buffers::bytes_of(words).len() == 4 * words.len(),
        word_at(scene_buffers::bytes_of(words), 4 * i) == words[i],
    decreases words.len(),
{
    scene_buffers::buffer_size(words);
    scene_buffers::buffer_size(words.drop_last());
    let before = scene_buffers::bytes_of(words.drop_last());
    let all = scene_buffers::bytes_of(words);
    if i < words.len() - 1 {
        words_bytes(words.drop_last(), i);
        assert(all[4 * i] == before[4 * i]);
        assert(all[4 * i + 1] == before[4 * i + 1]);
        assert(all[4 * i + 2] == before[4 * i + 2]);
        assert(all[4 * i + 3] == before[4 * i + 3]);
    } else {
        let b = scene_buffers::word_bytes(words[i]);
        assert(all[4 * i] == b[0]);
        assert(all[4 * i + 1] == b[1]);
        assert(all[4 * i + 2] == b[2]);
        assert(all[4 * i + 3] == b[3]);
    }
}

/// A checkpoint read by a render of its size gives back the samples done and the
/// accumulation that were saved.
pub proof fn checkpoint_round_trip(w: u32, h: u32, done: u32, accum: Seq<u32>)
    requires
        accum.len() == w * h * 4,
    ensures
        checkpoint_read(checkpoint_file(w, h, done, accum), w, h) == Some((done, accum)),
{
    let words = checkpoint_words(w, h, done, accum);
    let bytes = checkpoint_file(w, h, done, accum);
    words_bytes(words, 0);
    words_bytes(words, 1);
    words_bytes(words, 2);
    words_bytes(words, 3);
    assert(bytes.len() == 16 + 4 * accum.len());
    let read = Seq::new((w * h * 4) as nat, |i: int| word_at(bytes, 16 + 4 * i));
    assert(read =~= accum) by {
        assert forall|i: int| 0 <= i < accum.len() implies read[i] == accum[i] by {
            words_bytes(words, i + 4);
            assert(words[i + 4] == accum[i]);
        }
    }
}

} // verus!
