use vstd::prelude::*;
use crate::raag_db::str_eq;

verus! {

/// Decoding stops after this many samples: ten seconds at 44.1 kHz.
pub const SAMPLE_LIMIT: usize = 441_000;

/// Decoded audio: interleaved fixed-point samples (see `FULL_SCALE`), the sample
/// rate in Hz and the number of channels.
pub struct AudioReader {
    pub samples: Vec<i32>,
    pub sample_rate: u32,
    pub channels: u16,
}

/// The decoder that a file extension calls for.
#[derive(Clone, Copy, PartialEq, Eq, Structural, Debug)]
pub enum AudioFormat {
    Wav,
    Compressed,
}

#[derive(Clone, Debug)]
pub enum AudioError {
    /// The extension names no supported format.
    UnsupportedFormat { extension: String },
    /// The path has no extension to tell the format by.
    MissingExtension,
    /// The stream could not be decoded.
    Decode,
    /// Decoding yielded no samples.
    EmptyAudio,
}

/// What the decoder reported for one packet.
#[derive(Clone, Copy, PartialEq, Eq, Structural, Debug)]
pub enum PacketEvent {
    /// A packet of the selected track decoded into this many samples.
    Samples(usize),
    /// The packet belongs to another track.
    OtherTrack,
    /// The packet was malformed; it is skipped.
    Malformed,
    /// The stream has ended.
    EndOfStream,
    /// An error from which decoding cannot recover.
    Fatal,
}

#[derive(Clone, Copy, PartialEq, Eq, Structural, Debug)]
pub enum DecodeAction {
    Continue,
    Stop,
    Fail,
}

/// How many of a packet's samples to keep, and what to do next.
#[derive(Clone, Copy, PartialEq, Eq, Structural, Debug)]
pub struct DecodeStep {
    pub keep: usize,
    pub action: DecodeAction,
}

/// Lower-case form of a string, as `str::to_lowercase` gives it.
pub uninterp spec fn lower_of(s: Seq<char>) -> Seq<char>;

/// The format that a lower-case extension names.
pub open spec fn format_of(ext: Seq<char>) -> Option<AudioFormat> {
    if ext == "wav"@ {
        Some(AudioFormat::Wav)
    } else if ext == "mp3"@ || ext == "flac"@ || ext == "ogg"@ {
        Some(AudioFormat::Compressed)
    } else {
        None
    }
}

/// `r` is what an extension `ext`, already in lower case, leads to.
pub open spec fn format_result(ext: Seq<char>, r: Result<AudioFormat, AudioError>) -> bool {
    match format_of(ext) {
        Some(f) => r == Ok::<AudioFormat, AudioError>(f),
        None => match r {
            Err(AudioError::UnsupportedFormat { extension }) => extension@ == ext,
            _ => false,
        },
    }
}

/// Relies on `str::to_lowercase`: its result depends on the characters alone.
#[verifier::external_body]
fn lowercase(s: &str) -> (r: String)
    ensures
        r@ == lower_of(s@),
{
    s.to_lowercase()
}

/// The format named by a lower-case extension (without the dot).
pub fn format_for_extension(ext: &str) -> (r: Result<AudioFormat, AudioError>)
    ensures
        format_result(ext@, r),
{
    if str_eq(ext, "wav") {
        Ok(AudioFormat::Wav)
    } else if str_eq(ext, "mp3") || str_eq(ext, "flac") || str_eq(ext, "ogg") {
        Ok(AudioFormat::Compressed)
    } else {
        Err(AudioError::UnsupportedFormat { extension: ext.to_owned() })
    }
}

/// The format that a file extension names, in any case; `MissingExtension` when the
/// path has none.
pub fn format_from_extension(ext: Option<&str>) -> (r: Result<AudioFormat, AudioError>)
    ensures
        ext.is_none() ==> r matches Err(AudioError::MissingExtension),
        ext.is_some() ==> format_result(lower_of(ext.unwrap()@), r),
{
    match ext {
        None => Err(AudioError::MissingExtension),
        Some(e) => {
            let lower = lowercase(e);
            format_for_extension(lower.as_str())
        },
    }
}

/// How many samples of `e` are kept when `collected` are kept so far, at most `limit` in all.
pub open spec fn step_keep(collected: int, limit: int, e: PacketEvent) -> int {
    match e {
        PacketEvent::Samples(n) => if n < limit - collected { n as int } else { limit - collected },
        _ => 0,
    }
}

/// What the decoder does after the packet `e`.
pub open spec fn step_action(collected: int, limit: int, e: PacketEvent) -> DecodeAction {
    match e {
        PacketEvent::Samples(_) => if collected + step_keep(collected, limit, e) == limit {
            DecodeAction::Stop
        } else {
            DecodeAction::Continue
        },
        PacketEvent::OtherTrack | PacketEvent::Malformed => DecodeAction::Continue,
        PacketEvent::EndOfStream => DecodeAction::Stop,
        PacketEvent::Fatal => DecodeAction::Fail,
    }
}

/// The number of samples kept and the final action when the decoder meets `events` in
/// turn, starting with `collected` samples kept; `Continue` when the events run out first.
pub open spec fn run_decode(events: Seq<PacketEvent>, collected: int, limit: int) -> (int, DecodeAction)
    decreases events.len(),
{
    if events.len() == 0 {
        (collected, DecodeAction::Continue)
    } else {
        let e = events[0];
        let next = collected + step_keep(collected, limit, e);
        match step_action(collected, limit, e) {
            DecodeAction::Continue => run_decode(events.drop_first(), next, limit),
            a => (next, a),
        }
    }
}

/// A malformed packet is skipped: a stream with one gives the same samples and the same
/// outcome as the stream without it.
pub proof fn lemma_malformed_packet_is_skipped(
    pre: Seq<PacketEvent>,
    post: Seq<PacketEvent>,
    collected: int,
    limit: int,
)
    requires
        0 <= collected < limit,
    ensures
        run_decode(pre + seq![PacketEvent::Malformed] + post, collected, limit) == run_decode(
            pre + post,
            collected,
            limit,
        ),
    decreases pre.len(),
{
    let with = pre + seq![PacketEvent::Malformed] + post;
    if pre.len() == 0 {
        assert(with[0] == PacketEvent::Malformed);
        assert(with.drop_first() =~= pre + post);
    } else {
        let e = pre[0];
        assert(with[0] == e);
        assert((pre + post)[0] == e);
        assert(with.drop_first() =~= pre.drop_first() + seq![PacketEvent::Malformed] + post);
        assert((pre + post).drop_first() =~= pre.drop_first() + post);
        if step_action(collected, limit, e) == DecodeAction::Continue {
            lemma_malformed_packet_is_skipped(
                pre.drop_first(),
                post,
                collected + step_keep(collected, limit, e),
                limit,
            );
        }
    }
}

proof fn lemma_run_keeps_collected(events: Seq<PacketEvent>, collected: int, limit: int)
    requires
        0 <= collected <= limit,
    ensures
        collected <= run_decode(events, collected, limit).0 <= limit,
    decreases events.len(),
{
    if events.len() > 0 {
        let e = events[0];
        if step_action(collected, limit, e) == DecodeAction::Continue {
            lemma_run_keeps_collected(
                events.drop_first(),
                collected + step_keep(collected, limit, e),
                limit,
            );
        }
    }
}

/// Once a packet has decoded into samples, decoding ends with samples kept, whatever
/// follows: a later fault or malformed packet does not empty the buffer.
pub proof fn lemma_decoded_samples_stay(n: usize, post: Seq<PacketEvent>, collected: int, limit: int)
    requires
        0 <= collected < limit,
        n > 0,
    ensures
        run_decode(seq![PacketEvent::Samples(n)] + post, collected, limit).0 > collected,
{
    let events = seq![PacketEvent::Samples(n)] + post;
    assert(events[0] == PacketEvent::Samples(n));
    assert(events.drop_first() =~= post);
    let next = collected + step_keep(collected, limit, PacketEvent::Samples(n));
    lemma_run_keeps_collected(post, next, limit);
}

/// The decoder's decision on one packet, when `collected` samples are kept so far and
/// at most `limit` are kept in all.
pub fn decode_step(collected: usize, limit: usize, event: PacketEvent) -> (r: DecodeStep)
    requires
        collected < limit,
    ensures
        r.keep == step_keep(collected as int, limit as int, event),
        r.action == step_action(collected as int, limit as int, event),
{
    match event {
        PacketEvent::Samples(n) => {
            let room = limit - collected;
            let keep = if n < room { n } else { room };
            let action = if keep == room { DecodeAction::Stop } else { DecodeAction::Continue };
            DecodeStep { keep, action }
        },
        PacketEvent::OtherTrack | PacketEvent::Malformed => DecodeStep {
            keep: 0,
            action: DecodeAction::Continue,
        },
        PacketEvent::EndOfStream => DecodeStep { keep: 0, action: DecodeAction::Stop },
        PacketEvent::Fatal => DecodeStep { keep: 0, action: DecodeAction::Fail },
    }
}

impl AudioReader {
    /// Audio from decoded samples; `EmptyAudio` when there are none.
    pub fn from_samples(samples: Vec<i32>, sample_rate: u32, channels: u16) -> (r: Result<
        AudioReader,
        AudioError,
    >)
        ensures
            samples.len() == 0 <==> r matches Err(AudioError::EmptyAudio),
            samples.len() > 0 ==> (r matches Ok(a) && a.samples@ == samples@ && a.sample_rate
                == sample_rate && a.channels == channels),
    {
        if samples.len() == 0 {
            Err(AudioError::EmptyAudio)
        } else {
            Ok(AudioReader { samples, sample_rate, channels })
        }
    }
}

} // verus!
