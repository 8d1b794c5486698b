//! The streaming decoder adapter: wraps lewton's ogg/vorbis reader and
//! serves one stereo sample pair per call, decoding one packet at a time
//! into a queue of pending pairs.

use vstd::prelude::*;
use std::collections::VecDeque;
use crate::sound::AudioSource;

verus! {

#[verifier::external_type_specification]
#[verifier::external_body]
pub struct ExVorbisError(lewton::VorbisError);

/// Lewton's stream reader over an in-memory buffer. It is held behind an
/// opaque struct because the reader type's own `Read + Seek` bounds cannot
/// be declared to the verifier.
#[verifier::external_body]
pub struct OggReader {
    inner: lewton::inside_ogg::OggStreamReader<std::io::Cursor<Vec<u8>>>,
}

/// Whether a byte buffer opens as an ogg vorbis stream: lewton's header
/// parsing decides this as a function of the bytes alone, so the outcome
/// only carries a name here.
pub uninterp spec fn vorbis_opens(data: Seq<u8>) -> bool;

/// The interleaved audio packets a container's bytes decode to, in stream
/// order: a function of the bytes alone, named rather than spelt out.
pub uninterp spec fn vorbis_packets(data: Seq<u8>) -> Seq<Seq<i16>>;

/// What an open reader still holds: the decoded packets it has not yet
/// handed out, in the order `read_packet` will yield them.
pub uninterp spec fn reader_pending(r: OggReader) -> Seq<Seq<i16>>;

/// Relies on lewton's `OggStreamReader::new`: reads the three vorbis header
/// packets, succeeding exactly when the bytes open as an ogg vorbis stream
/// — a function of the bytes alone, named `vorbis_opens`. A fresh reader
/// still holds the whole container's packets, named `vorbis_packets`.
#[verifier::external_body]
fn open_reader(data: Vec<u8>) -> (r: Result<OggReader, lewton::VorbisError>)
    ensures
        r is Ok <==> vorbis_opens(data@),
        r matches Ok(rd) ==> reader_pending(rd) == vorbis_packets(data@),
{
    match lewton::inside_ogg::OggStreamReader::new(std::io::Cursor::new(data)) {
        Ok(inner) => Ok(OggReader { inner }),
        Err(e) => Err(e),
    }
}

/// Relies on lewton's `read_dec_packet_itl`: decodes and hands out the
/// reader's next pending packet, and returns `Ok(None)` or `Err` (corrupt
/// data) exactly where the pending prefix — everything the reader yields
/// before its first end-of-stream or error — is exhausted. After an error
/// nothing is assumed of the reader.
#[verifier::external_body]
fn read_packet(reader: &mut OggReader) -> (r: Result<Option<Vec<i16>>, lewton::VorbisError>)
    ensures
        ({
            let pend = reader_pending(*old(reader));
            match r {
                Ok(p) => match p {
                    Some(samples) => pend.len() > 0 && samples@ == pend[0] && reader_pending(
                        *final(reader),
                    ) == pend.skip(1),
                    None => pend.len() == 0 && reader_pending(*final(reader)) == pend,
                },
                Err(e) => pend.len() == 0,
            }
        }),
{
    reader.inner.read_dec_packet_itl()
}

/// An interleaved packet split into stereo pairs; a trailing odd sample is
/// dropped.
pub open spec fn interleaved_pairs(samples: Seq<i16>) -> Seq<(i16, i16)> {
    Seq::new((samples.len() / 2) as nat, |i: int| (samples[2 * i], samples[2 * i + 1]))
}

/// Split a decoded interleaved packet into stereo pairs.
pub fn interleaved_to_pairs(samples: &Vec<i16>) -> (r: Vec<(i16, i16)>)
    ensures
        r@ == interleaved_pairs(samples@),
{
    let len = samples.len();
    let n = len / 2;
    let mut r: Vec<(i16, i16)> = Vec::new();
    let mut i: usize = 0;
    while i < n
        invariant
            len == samples@.len(),
            n == len as int / 2,
            i <= n,
            r@.len() == i as int,
            forall|k: int| 0 <= k < i as int ==> r@[k] == (samples@[2 * k], samples@[2 * k + 1]),
        decreases n - i,
    {
        r.push((samples[2 * i], samples[2 * i + 1]));
        i = i + 1;
    }
    proof {
        assert(r@ =~= interleaved_pairs(samples@));
    }
    r
}

/// Opening a sound can fail only one way: the bytes are not a readable
/// container.
#[derive(Clone, Copy, PartialEq, Eq, Structural, Debug)]
pub enum AudioError {
    InvalidContainer,
}

/// A decodable source over an in-memory ogg vorbis file: lewton's stream
/// reader, a queue of decoded-but-unserved stereo pairs, and the
/// end-of-stream flag.
pub struct OggAudioSource {
    pub stream: OggReader,
    pub pending_samples: VecDeque<(i16, i16)>,
    pub reached_end: bool,
}

/// What an adapter still owes its caller before permanent silence: the
/// queued pairs, then every pair of the reader's remaining packets.
pub open spec fn served_pairs(s: OggAudioSource) -> Seq<(i16, i16)> {
    remaining_pairs(s.pending_samples@, reader_pending(s.stream))
}

impl OggAudioSource {
    /// Open a full in-memory ogg vorbis file. Fails exactly when lewton
    /// rejects the container's headers; a fresh source starts with an empty
    /// queue and is not exhausted.
    pub fn new(data: Vec<u8>) -> (r: Result<OggAudioSource, AudioError>)
        ensures
            r is Ok <==> vorbis_opens(data@),
            r matches Ok(s) ==> !s.reached_end && s.pending_samples@.len() == 0
                && served_pairs(s) == decoded_pairs(vorbis_packets(data@)),
            r matches Err(e) ==> e == AudioError::InvalidContainer,
    {
        let ghost bytes = data@;
        match open_reader(data) {
            Ok(stream) => {
                let s = OggAudioSource {
                    stream,
                    pending_samples: VecDeque::new(),
                    reached_end: false,
                };
                proof {
                    assert(served_pairs(s) =~= decoded_pairs(vorbis_packets(bytes)));
                }
                Ok(s)
            },
            Err(_) => Err(AudioError::InvalidContainer),
        }
    }

    /// Append one decoded packet's pairs to the queue.
    pub fn enqueue_packet(&mut self, samples: &Vec<i16>)
        ensures
            final(self).pending_samples@ == old(self).pending_samples@ + interleaved_pairs(
                samples@,
            ),
            final(self).reached_end == old(self).reached_end,
            final(self).stream == old(self).stream,
    {
        let ghost pending0 = self.pending_samples@;
        let pairs = interleaved_to_pairs(samples);
        let total = pairs.len();
        let mut i: usize = 0;
        while i < total
            invariant
                total == pairs@.len(),
                i <= total,
                self.pending_samples@ == pending0 + pairs@.take(i as int),
                self.reached_end == old(self).reached_end,
                self.stream == old(self).stream,
            decreases total - i,
        {
            self.pending_samples.push_back(pairs[i]);
            proof {
                assert(pending0 + pairs@.take(i as int + 1) =~= (pending0 + pairs@.take(i as int)).push(
                    pairs@[i as int],
                ));
            }
            i = i + 1;
        }
        proof {
            assert(pairs@.take(total as int) =~= pairs@);
        }
    }
}

impl AudioSource for OggAudioSource {
    open spec fn spec_pending(&self) -> Seq<(i16, i16)> {
        served_pairs(*self)
    }

    open spec fn spec_done(&self) -> bool {
        self.reached_end
    }

    /// Serve the front of the queue; refill it by decoding packets when it
    /// runs dry: while the adapter still owes pairs (`served_pairs`), a call
    /// serves exactly the next one. Once nothing is owed — which is where
    /// the stream ends, and also where it turns corrupt: a decode error is
    /// treated, in a documented deviation from a strictly fatal policy, as
    /// end of stream — the end flag is set, and that call and every later
    /// one returns silence.
    fn next_sample(&mut self) -> (r: (i16, i16))
        ensures
            old(self).spec_done() ==> final(self).spec_done() && r == (0i16, 0i16),
            old(self).reached_end ==> *final(self) == *old(self),
            !old(self).reached_end && served_pairs(*old(self)).len() > 0
                ==> r == served_pairs(*old(self))[0] && served_pairs(*final(self))
                == served_pairs(*old(self)).skip(1) && !final(self).reached_end,
            !old(self).reached_end && served_pairs(*old(self)).len() == 0
                ==> final(self).reached_end && r == (0i16, 0i16),
            !old(self).reached_end && old(self).pending_samples@.len() > 0
                ==> r == old(self).pending_samples@[0]
                && final(self).pending_samples@ == old(self).pending_samples@.skip(1)
                && !final(self).reached_end,
            !old(self).reached_end && old(self).pending_samples@.len() == 0 ==> (
            final(self).reached_end && r == (0i16, 0i16) && final(self).pending_samples@.len()
                == 0) || (!final(self).reached_end && exists|p: Seq<i16>|
                (#[trigger] interleaved_pairs(p)).len() > 0 && r == interleaved_pairs(p)[0]
                    && final(self).pending_samples@ == interleaved_pairs(p).skip(1)),
    {
        if self.reached_end {
            return (0, 0);
        }
        match self.pending_samples.pop_front() {
            Some(pair) => {
                proof {
                    assert(self.pending_samples@ =~= old(self).pending_samples@.skip(1));
                    assert(served_pairs(*old(self)).len() > 0);
                    assert(served_pairs(*old(self))[0] == pair);
                    assert(served_pairs(*self) =~= served_pairs(*old(self)).skip(1));
                }
                return pair;
            },
            None => {},
        }
        loop
            invariant
                self.pending_samples@.len() == 0,
                !self.reached_end,
                !old(self).reached_end,
                old(self).pending_samples@.len() == 0,
                decoded_pairs(reader_pending(self.stream)) == decoded_pairs(
                    reader_pending(old(self).stream),
                ),
            decreases reader_pending(self.stream).len(),
        {
            let ghost pend_cur = reader_pending(self.stream);
            match read_packet(&mut self.stream) {
                Ok(Some(samples)) => {
                    proof {
                        assert(decoded_pairs(pend_cur) == interleaved_pairs(pend_cur[0])
                            + decoded_pairs(pend_cur.skip(1)));
                    }
                    self.enqueue_packet(&samples);
                    match self.pending_samples.pop_front() {
                        Some(pair) => {
                            proof {
                                assert(interleaved_pairs(samples@).len() > 0);
                                assert(pair == interleaved_pairs(samples@)[0]);
                                assert(self.pending_samples@ =~= interleaved_pairs(
                                    samples@,
                                ).skip(1));
                                assert(served_pairs(*old(self)) =~= decoded_pairs(
                                    reader_pending(old(self).stream),
                                ));
                                assert(served_pairs(*old(self))[0] == pair);
                                assert((interleaved_pairs(samples@) + decoded_pairs(
                                    pend_cur.skip(1),
                                )).skip(1) =~= interleaved_pairs(samples@).skip(1)
                                    + decoded_pairs(pend_cur.skip(1)));
                                assert(served_pairs(*self) =~= served_pairs(
                                    *old(self),
                                ).skip(1));
                            }
                            return pair;
                        },
                        None => {
                            proof {
                                assert(interleaved_pairs(samples@).len() == 0);
                                assert(interleaved_pairs(pend_cur[0]) + decoded_pairs(
                                    pend_cur.skip(1),
                                ) =~= decoded_pairs(pend_cur.skip(1)));
                                assert(decoded_pairs(reader_pending(self.stream))
                                    == decoded_pairs(pend_cur));
                            }
                        },
                    }
                },
                Ok(None) => {
                    proof {
                        assert(decoded_pairs(pend_cur).len() == 0);
                        assert(served_pairs(*old(self)) =~= decoded_pairs(
                            reader_pending(old(self).stream),
                        ));
                    }
                    self.reached_end = true;
                    return (0, 0);
                },
                Err(_) => {
                    proof {
                        assert(decoded_pairs(pend_cur).len() == 0);
                        assert(served_pairs(*old(self)) =~= decoded_pairs(
                            reader_pending(old(self).stream),
                        ));
                    }
                    self.reached_end = true;
                    return (0, 0);
                },
            }
        }
    }

    fn done(&self) -> (r: bool) {
        self.reached_end
    }
}

/// All the stereo pairs that a sequence of decoded packets carries, in
/// decoding order.
pub open spec fn decoded_pairs(packets: Seq<Seq<i16>>) -> Seq<(i16, i16)>
    decreases packets.len(),
{
    if packets.len() == 0 {
        Seq::empty()
    } else {
        interleaved_pairs(packets[0]) + decoded_pairs(packets.skip(1))
    }
}

/// What a serving state still owes its caller: the queued pairs, then
/// everything the stream's remaining packets hold.
pub open spec fn remaining_pairs(pending: Seq<(i16, i16)>, packets: Seq<Seq<i16>>) -> Seq<
    (i16, i16),
> {
    pending + decoded_pairs(packets)
}

/// One `next_sample` call of the adapter, over a state whose future packets
/// are explicit: serve the front of the queue; on an empty queue decode
/// packets until one yields pairs, serving the first of them; when the
/// packets run out, set the end flag and return silence. An ended state
/// stays ended and returns silence.
pub open spec fn model_next(pending: Seq<(i16, i16)>, end: bool, packets: Seq<Seq<i16>>) -> (
    (i16, i16),
    Seq<(i16, i16)>,
    bool,
    Seq<Seq<i16>>,
)
    decreases packets.len(),
{
    if end {
        ((0i16, 0i16), pending, true, packets)
    } else if pending.len() > 0 {
        (pending[0], pending.skip(1), false, packets)
    } else if packets.len() == 0 {
        ((0i16, 0i16), pending, true, packets)
    } else if interleaved_pairs(packets[0]).len() > 0 {
        let q = interleaved_pairs(packets[0]);
        (q[0], q.skip(1), false, packets.skip(1))
    } else {
        model_next(pending, false, packets.skip(1))
    }
}

/// The first `n` samples the adapter serves from a state.
pub open spec fn model_outputs(
    pending: Seq<(i16, i16)>,
    end: bool,
    packets: Seq<Seq<i16>>,
    n: nat,
) -> Seq<(i16, i16)>
    decreases n,
{
    if n == 0 {
        Seq::empty()
    } else {
        let (r, p2, e2, k2) = model_next(pending, end, packets);
        seq![r] + model_outputs(p2, e2, k2, (n - 1) as nat)
    }
}

/// One serving step takes exactly the head of what the state owes, and an
/// exhausted state ends with silence.
pub proof fn lemma_model_next_serves(pending: Seq<(i16, i16)>, packets: Seq<Seq<i16>>)
    ensures
        ({
            let (r, p2, e2, k2) = model_next(pending, false, packets);
            if remaining_pairs(pending, packets).len() > 0 {
                r == remaining_pairs(pending, packets)[0] && !e2 && remaining_pairs(p2, k2)
                    == remaining_pairs(pending, packets).skip(1)
            } else {
                r == (0i16, 0i16) && e2 && remaining_pairs(p2, k2).len() == 0
            }
        }),
    decreases packets.len(),
{
    let rem = remaining_pairs(pending, packets);
    if pending.len() > 0 {
        assert(remaining_pairs(pending.skip(1), packets) =~= rem.skip(1));
    } else if packets.len() == 0 {
    } else {
        let q = interleaved_pairs(packets[0]);
        if q.len() > 0 {
            assert(rem =~= q + decoded_pairs(packets.skip(1)));
            assert(remaining_pairs(q.skip(1), packets.skip(1)) =~= rem.skip(1));
        } else {
            lemma_model_next_serves(pending, packets.skip(1));
            assert(remaining_pairs(pending, packets.skip(1)) =~= rem);
        }
    }
}

/// Exactly one sample is served per call.
pub proof fn lemma_model_outputs_len(
    pending: Seq<(i16, i16)>,
    end: bool,
    packets: Seq<Seq<i16>>,
    n: nat,
)
    ensures
        model_outputs(pending, end, packets, n).len() == n,
    decreases n,
{
    if n > 0 {
        let (r, p2, e2, k2) = model_next(pending, end, packets);
        lemma_model_outputs_len(p2, e2, k2, (n - 1) as nat);
    }
}

/// An ended state serves silence forever.
pub proof fn lemma_model_outputs_ended(
    pending: Seq<(i16, i16)>,
    packets: Seq<Seq<i16>>,
    n: nat,
    i: int,
)
    requires
        0 <= i < n,
    ensures
        model_outputs(pending, true, packets, n).len() == n,
        model_outputs(pending, true, packets, n)[i] == (0i16, 0i16),
    decreases n,
{
    lemma_model_outputs_len(pending, true, packets, n);
    let (r, p2, e2, k2) = model_next(pending, true, packets);
    lemma_model_outputs_len(p2, e2, k2, (n - 1) as nat);
    if i > 0 {
        lemma_model_outputs_ended(pending, packets, (n - 1) as nat, i - 1);
    }
}

/// Round trip: a container whose packets hold `k` stereo pairs in all is
/// served as exactly those `k` pairs, in decoding order, followed by
/// silence once the stream is exhausted.
pub proof fn lemma_decoder_round_trip(
    pending: Seq<(i16, i16)>,
    packets: Seq<Seq<i16>>,
    n: nat,
    i: int,
)
    requires
        0 <= i < n,
    ensures
        model_outputs(pending, false, packets, n).len() == n,
        i < remaining_pairs(pending, packets).len() ==> model_outputs(pending, false, packets, n)[i]
            == remaining_pairs(pending, packets)[i],
        i >= remaining_pairs(pending, packets).len() ==> model_outputs(pending, false, packets, n)[i]
            == (0i16, 0i16),
    decreases n,
{
    let rem = remaining_pairs(pending, packets);
    let (r, p2, e2, k2) = model_next(pending, false, packets);
    lemma_model_next_serves(pending, packets);
    lemma_model_outputs_len(pending, false, packets, n);
    lemma_model_outputs_len(p2, e2, k2, (n - 1) as nat);
    if i > 0 {
        if rem.len() > 0 {
            lemma_decoder_round_trip(p2, k2, (n - 1) as nat, i - 1);
        } else {
            lemma_model_outputs_ended(p2, k2, (n - 1) as nat, i - 1);
        }
    }
}

} // verus!
