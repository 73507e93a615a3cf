use vstd::prelude::*;
use vstd::string::*;
use crate::frames::{AudioRaw, MAX_FRAMES, CHANNELS, copy_data_and_create_audio_raw_struct};
use crate::payload::{audio_raw_cbor, b64url, zlib_of, MAX_TEXT_INPUT, convert_audio_raw_struct_to_base64_string};

verus! {

/// Decimal digits of `n`, most significant first, without leading zeros.
pub open spec fn decimal(n: nat) -> Seq<char>
    decreases n,
{
    if n < 10 {
        seq!["0123456789"@[n as int]]
    } else {
        decimal(n / 10) + seq!["0123456789"@[(n % 10) as int]]
    }
}

/// The envelope's content-type label. It names gzip although the payload
/// is a zlib stream, not a gzip container. Whether to relabel the payload
/// or to switch to a gzip container is an open decision; until it is taken
/// the label stays as deployed.
pub open spec fn content_type() -> Seq<char> {
    "application/gzip"@
}

/// The four entries of an envelope, in order: name, time, payload and
/// content type.
pub open spec fn envelope(vd: Seq<char>, sensor_id: Seq<char>, timestamp: nat) -> Seq<(Seq<char>, Seq<char>)> {
    seq![
        ("n"@, sensor_id + "_audio"@),
        ("t"@, decimal(timestamp)),
        ("vd"@, vd),
        ("ct"@, content_type()),
    ]
}

/// The keys of every envelope.
pub open spec fn envelope_keys() -> Seq<Seq<char>> {
    seq!["n"@, "t"@, "vd"@, "ct"@]
}

/// Key-value pairs as pairs of character sequences.
pub open spec fn pairs_view(v: Seq<(String, String)>) -> Seq<(Seq<char>, Seq<char>)> {
    v.map_values(|p: (String, String)| (p.0@, p.1@))
}

/// The envelope of one captured buffer, where its payload can be written.
pub open spec fn buffer_envelope(ar: AudioRaw, sensor_id: Seq<char>, timestamp: nat) -> Seq<(Seq<char>, Seq<char>)> {
    envelope(b64url(zlib_of(audio_raw_cbor(ar))), sensor_id, timestamp)
}

/// The one decimal digit `d` as text.
fn digit_text(d: u64) -> (text: &'static str)
    requires
        d < 10,
    ensures
        text@ == seq!["0123456789"@[d as int]],
{
    let digits = "0123456789";
    proof {
        reveal_strlit("0123456789");
    }
    let text = digits.substring_ascii(d as usize, d as usize + 1);
    assert(text@ =~= seq!["0123456789"@[d as int]]);
    text
}

/// The decimal digits of `n`.
pub fn decimal_text(n: u64) -> (text: String)
    ensures
        text@ == decimal(n as nat),
    decreases n,
{
    if n < 10 {
        String::from_str(digit_text(n))
    } else {
        let high = decimal_text(n / 10);
        high.concat(digit_text(n % 10))
    }
}

/// The routing table of the transport: one output topic.
pub fn get_topics() -> (topics: Vec<(String, String)>)
    ensures
        pairs_view(topics@) == seq![("out"@, "sensor/data"@)],
{
    let mut topics: Vec<(String, String)> = Vec::new();
    topics.push((String::from_str("out"), String::from_str("sensor/data")));
    assert(pairs_view(topics@) =~= seq![("out"@, "sensor/data"@)]);
    topics
}

/// The envelope of one buffer: the sensor's name marked as audio, the
/// capture time in decimal, the encoded payload and the content type.
pub fn create_sen_ml_map(base64_encoded: String, sensor_id: &str, timestamp: u64) -> (sen_ml: Vec<(String, String)>)
    ensures
        pairs_view(sen_ml@) == envelope(base64_encoded@, sensor_id@, timestamp as nat),
{
    let name = String::from_str(sensor_id).concat("_audio");
    let time = decimal_text(timestamp);
    let mut sen_ml: Vec<(String, String)> = Vec::new();
    sen_ml.push((String::from_str("n"), name));
    sen_ml.push((String::from_str("t"), time));
    sen_ml.push((String::from_str("vd"), base64_encoded));
    sen_ml.push((String::from_str("ct"), String::from_str("application/gzip")));
    assert(pairs_view(sen_ml@) =~= envelope(base64_encoded@, sensor_id@, timestamp as nat));
    sen_ml
}

/// One pass of the capture callback: copies the buffer given channel by
/// channel, encodes it and wraps it in an envelope. `None` only where the
/// compressed payload is too long to be written as text.
pub fn process_buffer(channels: &Vec<Vec<i16>>, sample_rate: i32, sensor_id: &str, timestamp: u64)
    -> (sen_ml: Option<Vec<(String, String)>>)
    requires
        channels@.len() == CHANNELS,
        channels@[0]@.len() == channels@[1]@.len(),
        channels@[0]@.len() <= MAX_FRAMES,
    ensures
        exists|ar: AudioRaw| {
            &&& #[trigger] ar.wf()
            &&& ar.sc == channels@[0]@.len()
            &&& ar.sr == sample_rate
            &&& forall|f: int, c: int|
                0 <= f < ar.sc && 0 <= c < CHANNELS ==> #[trigger] ar.matrix()[f][c] == channels@[c]@[f]
            &&& (sen_ml.is_some() <==> zlib_of(audio_raw_cbor(ar)).len() <= MAX_TEXT_INPUT)
            &&& (sen_ml matches Some(m) ==> pairs_view(m@) == buffer_envelope(ar, sensor_id@, timestamp as nat))
        },
{
    let ar = copy_data_and_create_audio_raw_struct(channels, sample_rate);
    let ghost model = ar;
    let encoded = convert_audio_raw_struct_to_base64_string(ar);
    let result = match encoded {
        Some(text) => Some(create_sen_ml_map(text, sensor_id, timestamp)),
        None => None,
    };
    assert(model.wf());
    result
}

/// Every envelope has exactly the keys `n`, `t`, `vd` and `ct`, in that
/// order, whatever its payload, sensor name or time, an empty buffer's
/// included.
pub proof fn lemma_envelope_keys(vd: Seq<char>, sensor_id: Seq<char>, timestamp: nat)
    ensures
        envelope(vd, sensor_id, timestamp).len() == 4,
        envelope(vd, sensor_id, timestamp).map_values(|p: (Seq<char>, Seq<char>)| p.0) == envelope_keys(),
{
    assert(envelope(vd, sensor_id, timestamp).map_values(|p: (Seq<char>, Seq<char>)| p.0) =~= envelope_keys());
}

/// Whatever bytes the compressor flushed for a buffer, complete or cut
/// short, they still make an envelope with the four keys that carries
/// exactly those bytes as text.
pub proof fn lemma_soft_failure_contained(flushed: Seq<u8>, sensor_id: Seq<char>, timestamp: nat)
    ensures
        envelope(b64url(flushed), sensor_id, timestamp).map_values(|p: (Seq<char>, Seq<char>)| p.0)
            == envelope_keys(),
        envelope(b64url(flushed), sensor_id, timestamp)[2].1 == b64url(flushed),
{
    lemma_envelope_keys(b64url(flushed), sensor_id, timestamp);
}

} // verus!
