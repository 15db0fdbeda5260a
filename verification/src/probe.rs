use crate::numbers::{parse_i64, spec_parse_i64};
use crate::CoreError;
use vstd::prelude::*;

verus! {

/// One decoded video-stream record. No field is ever missing: a field the
/// probe output lacks, or reports non-numerically, decodes to zero.
#[derive(Clone, Copy, Debug, PartialEq, Eq, Structural)]
pub struct VideoInfo {
    pub width: i64,
    pub height: i64,
    pub nb_packets: i64,
    pub bit_rate: i64,
}

/// The four raw fields of one streams-list entry, as the probe document
/// carries them: the dimensions as native numbers, the packet count and bit
/// rate as text.
pub struct RawStream {
    pub width: Option<i64>,
    pub height: Option<i64>,
    pub nb_read_packets: Option<String>,
    pub bit_rate: Option<String>,
}

/// A raw entry at the specification level.
pub struct RawStreamView {
    pub width: Option<i64>,
    pub height: Option<i64>,
    pub nb_read_packets: Option<Seq<char>>,
    pub bit_rate: Option<Seq<char>>,
}

impl View for RawStream {
    type V = RawStreamView;

    open spec fn view(&self) -> RawStreamView {
        RawStreamView {
            width: self.width,
            height: self.height,
            nb_read_packets: match self.nb_read_packets {
                Some(s) => Some(s@),
                None => None,
            },
            bit_rate: match self.bit_rate {
                Some(s) => Some(s@),
                None => None,
            },
        }
    }
}

/// Whether text parses as a structured document.
pub uninterp spec fn json_parses(s: Seq<char>) -> bool;

/// The raw fields of each entry of a document's streams list, in the
/// prober's enumeration order; a function of the text alone. A document
/// without a streams list carries none.
pub uninterp spec fn raw_streams_of(s: Seq<char>) -> Seq<RawStreamView>;

pub open spec fn raw_streams_view(v: Seq<RawStream>) -> Seq<RawStreamView> {
    v.map_values(|r: RawStream| r@)
}

/// Relies on serde_json::from_str and Value::{get, as_array, as_i64,
/// as_str}: parses the captured output, failing exactly when it is not a
/// valid document, and lifts each streams-list entry to its four raw
/// fields; both are functions of the text alone.
#[verifier::external_body]
fn extract_raw_streams(s: &str) -> (r: Option<Vec<RawStream>>)
    ensures
        (r is Some) <==> json_parses(s@),
        r matches Some(v) ==> raw_streams_view(v@) == raw_streams_of(s@),
{
    let doc: serde_json::Value = match serde_json::from_str(s) {
        Ok(d) => d,
        Err(_) => return None,
    };
    let streams: &[serde_json::Value] =
        doc.get("streams").and_then(serde_json::Value::as_array).map_or(&[], |a| a.as_slice());
    Some(streams.iter().map(|v| RawStream {
        width: v.get("width").and_then(serde_json::Value::as_i64),
        height: v.get("height").and_then(serde_json::Value::as_i64),
        nb_read_packets: v.get("nb_read_packets").and_then(serde_json::Value::as_str).map(str::to_string),
        bit_rate: v.get("bit_rate").and_then(serde_json::Value::as_str).map(str::to_string),
    }).collect())
}

/// A native-number field, defaulted when absent.
pub open spec fn spec_field_or_zero(v: Option<i64>) -> i64 {
    match v {
        Some(x) => x,
        None => 0,
    }
}

/// A numeric-string field, defaulted when absent or non-numeric.
pub open spec fn spec_numeric_str_or_zero(s: Option<Seq<char>>) -> i64 {
    match s {
        None => 0,
        Some(t) => match spec_parse_i64(t) {
            Some(x) => x,
            None => 0,
        },
    }
}

/// The view of an optional borrowed string.
pub open spec fn view_opt(s: Option<&str>) -> Option<Seq<char>> {
    match s {
        Some(t) => Some(t@),
        None => None,
    }
}

/// The record one raw entry decodes to.
pub open spec fn spec_stream_record(rv: RawStreamView) -> VideoInfo {
    VideoInfo {
        width: spec_field_or_zero(rv.width),
        height: spec_field_or_zero(rv.height),
        nb_packets: spec_numeric_str_or_zero(rv.nb_read_packets),
        bit_rate: spec_numeric_str_or_zero(rv.bit_rate),
    }
}

/// The records a streams list decodes to, entry by entry, order kept.
pub open spec fn spec_decode_records(raw: Seq<RawStreamView>) -> Seq<VideoInfo> {
    raw.map_values(|rv: RawStreamView| spec_stream_record(rv))
}

/// Builds one stream record from the four raw fields: the dimensions arrive
/// as native numbers, the packet count and bit rate as numeric strings, and
/// each defaults to zero when absent or non-numeric.
pub fn stream_record(
    width: Option<i64>,
    height: Option<i64>,
    nb_packets: Option<&str>,
    bit_rate: Option<&str>,
) -> (r: VideoInfo)
    ensures
        r.width == spec_field_or_zero(width),
        r.height == spec_field_or_zero(height),
        r.nb_packets == spec_numeric_str_or_zero(view_opt(nb_packets)),
        r.bit_rate == spec_numeric_str_or_zero(view_opt(bit_rate)),
{
    let w = match width {
        Some(x) => x,
        None => 0,
    };
    let h = match height {
        Some(x) => x,
        None => 0,
    };
    let p = match nb_packets {
        Some(s) => match parse_i64(s) {
            Some(x) => x,
            None => 0,
        },
        None => 0,
    };
    let b = match bit_rate {
        Some(s) => match parse_i64(s) {
            Some(x) => x,
            None => 0,
        },
        None => 0,
    };
    VideoInfo { width: w, height: h, nb_packets: p, bit_rate: b }
}

/// A record never lacks a value: an absent native-number field and an
/// absent or non-numeric string field each decode to zero.
pub proof fn lemma_missing_fields_default_to_zero(s: Option<Seq<char>>)
    ensures
        spec_field_or_zero(None::<i64>) == 0,
        spec_numeric_str_or_zero(None::<Seq<char>>) == 0,
        (s matches Some(t) && spec_parse_i64(t) is None) ==> spec_numeric_str_or_zero(s) == 0,
{
}

/// Decodes every raw entry: one record per stream, the i-th record from the
/// i-th entry, in the prober's enumeration order.
pub fn decode_streams(streams: &Vec<RawStream>) -> (r: Vec<VideoInfo>)
    ensures
        r@ == spec_decode_records(raw_streams_view(streams@)),
{
    let mut out: Vec<VideoInfo> = Vec::new();
    let n = streams.len();
    let mut i: usize = 0;
    while i < n
        invariant
            i <= n,
            n == streams@.len(),
            out@.len() == i,
            forall|k: int| 0 <= k < i ==> out@[k] == spec_stream_record(streams@[k]@),
        decreases n - i,
    {
        let st = &streams[i];
        let nb = match &st.nb_read_packets {
            Some(s) => Some(s.as_str()),
            None => None,
        };
        let br = match &st.bit_rate {
            Some(s) => Some(s.as_str()),
            None => None,
        };
        let rec = stream_record(st.width, st.height, nb, br);
        proof {
            assert(rec == spec_stream_record(streams@[i as int]@));
        }
        out.push(rec);
        i += 1;
    }
    proof {
        let target = spec_decode_records(raw_streams_view(streams@));
        assert forall|k: int| 0 <= k < n implies out@[k] == target[k] by {
            assert(raw_streams_view(streams@)[k] == streams@[k]@);
        }
        assert(out@ =~= target);
    }
    out
}

/// Decodes the prober's captured output: the document's streams list turned
/// into records entry by entry, a document without a streams list yielding
/// no records, and text that is not a valid document failing the call with
/// no partial result — exactly then.
pub fn decode_probe_output(out: &str) -> (r: Result<Vec<VideoInfo>, CoreError>)
    ensures
        (r is Ok) <==> json_parses(out@),
        r matches Ok(v) ==> v@ == spec_decode_records(raw_streams_of(out@)),
        r matches Err(e) ==> e == CoreError::ParseError,
{
    match extract_raw_streams(out) {
        Some(raw) => Ok(decode_streams(&raw)),
        None => Err(CoreError::ParseError),
    }
}

/// The fixed prober argument vector: select the first video stream, count
/// packets, and report the four fields of interest as a structured document.
pub open spec fn spec_ffprobe_args(path: Seq<char>) -> Seq<Seq<char>> {
    seq![
        "-v"@,
        "error"@,
        "-select_streams"@,
        "v:0"@,
        "-count_packets"@,
        "-show_entries"@,
        "stream=width,height,nb_read_packets,bit_rate"@,
        "-of"@,
        "json"@,
        path,
    ]
}

pub fn ffprobe_args(path: &str) -> (r: Vec<String>)
    ensures
        r.deep_view() == spec_ffprobe_args(path@),
{
    let mut v: Vec<String> = Vec::new();
    v.push(String::from_str("-v"));
    v.push(String::from_str("error"));
    v.push(String::from_str("-select_streams"));
    v.push(String::from_str("v:0"));
    v.push(String::from_str("-count_packets"));
    v.push(String::from_str("-show_entries"));
    v.push(String::from_str("stream=width,height,nb_read_packets,bit_rate"));
    v.push(String::from_str("-of"));
    v.push(String::from_str("json"));
    v.push(String::from_str(path));
    proof {
        assert(v.deep_view() =~~= spec_ffprobe_args(path@));
    }
    v
}

} // verus!
