//! Speech-to-text request building for the local whisper server: the model catalog
//! and download locations, the in-memory WAV encoding, the multipart request body,
//! the server's command line and per-request fields, and reading the transcript out
//! of the server's reply, which files of the GPU engine archive are installed, and
//! the warm-server status. Process, network and file handling is the application's.

use vstd::prelude::*;

use crate::text::{ascii_lower_of, chars_of, decimal, push_decimal, string_of, trim, trim_str};
use vstd::utf8::encode_utf8;

verus! {

/// Hugging Face source for Whisper ggml models.
pub const HF_BASE: &'static str = "https://huggingface.co/ggerganov/whisper.cpp/resolve/main";

/// A model offered in the UI: (id, label, size in MB, recommended).
pub open spec fn model_table() -> Seq<(&'static str, &'static str, u32, bool)> {
    seq![
        ("small", "Small", 466u32, true),
        ("medium", "Medium", 1500u32, false),
        ("large-v3-turbo", "Large v3 Turbo", 1600u32, false),
        ("large-v3", "Large v3", 3100u32, false),
    ]
}

/// The offered models, latency-friendly default first.
pub fn model_defs() -> (v: Vec<(&'static str, &'static str, u32, bool)>)
    ensures
        v@ == model_table(),
{
    let mut v: Vec<(&'static str, &'static str, u32, bool)> = Vec::new();
    v.push(("small", "Small", 466, true));
    v.push(("medium", "Medium", 1500, false));
    v.push(("large-v3-turbo", "Large v3 Turbo", 1600, false));
    v.push(("large-v3", "Large v3", 3100, false));
    assert(v@ =~= model_table());
    v
}

/// A model as the UI lists it.
#[derive(Clone, Debug, PartialEq, Eq)]
pub struct WhisperModel {
    pub id: String,
    pub label: String,
    pub size_mb: u32,
    pub downloaded: bool,
    pub recommended: bool,
}

/// Whether the NVIDIA engine can run and is installed.
#[derive(Clone, Copy, Debug, PartialEq, Eq, Structural)]
pub struct GpuStatus {
    pub gpu_present: bool,
    pub downloaded: bool,
}

/// What the resident server has loaded.
#[derive(Clone, Debug, PartialEq, Eq)]
pub struct WarmStatus {
    pub loaded: bool,
    pub model: Option<String>,
    pub backend: String,
    pub gpu: bool,
}

pub open spec fn known_model(id: Seq<char>) -> bool {
    exists|i: int| 0 <= i < model_table().len() && (#[trigger] model_table()[i]).0@ == id
}

pub open spec fn model_filename_spec(id: Seq<char>) -> Option<Seq<char>> {
    if known_model(id) {
        Some("ggml-"@ + id + ".bin"@)
    } else {
        None
    }
}

pub open spec fn model_url_spec(id: Seq<char>) -> Option<Seq<char>> {
    match model_filename_spec(id) {
        Some(f) => Some(HF_BASE@ + "/"@ + f),
        None => None,
    }
}

pub open spec fn opt_string_view(o: Option<String>) -> Option<Seq<char>> {
    match o {
        Some(s) => Some(s@),
        None => None,
    }
}

fn is_known_model(id: &str) -> (b: bool)
    ensures
        b == known_model(id@),
{
    let defs = model_defs();
    let idc = chars_of(id);
    let mut i: usize = 0;
    while i < defs.len()
        invariant
            i <= defs@.len(),
            defs@ == model_table(),
            idc@ == id@,
            forall|k: int| 0 <= k < i ==> (#[trigger] model_table()[k]).0@ != id@,
        decreases defs@.len() - i,
    {
        if crate::hotkey::is_lit(idc.as_slice(), defs[i].0) {
            return true;
        }
        i = i + 1;
    }
    false
}

fn concat3(a: &str, b: &str, c: &str) -> (r: String)
    ensures
        r@ == a@ + b@ + c@,
{
    let mut out = chars_of(a);
    let bc = chars_of(b);
    crate::text::append_chars(&mut out, bc.as_slice());
    let cc = chars_of(c);
    crate::text::append_chars(&mut out, cc.as_slice());
    string_of(out.as_slice())
}

/// `ggml-<id>.bin` for a known model id, else none.
pub fn model_filename(id: &str) -> (r: Option<String>)
    ensures
        opt_string_view(r) == model_filename_spec(id@),
{
    if is_known_model(id) {
        Some(concat3("ggml-", id, ".bin"))
    } else {
        None
    }
}

/// The download URL for a known model id, else none.
pub fn model_url(id: &str) -> (r: Option<String>)
    ensures
        opt_string_view(r) == model_url_spec(id@),
{
    match model_filename(id) {
        Some(f) => Some(concat3(HF_BASE, "/", f.as_str())),
        None => None,
    }
}

// ─────────────────────────────────────────────────────────────────────────────
// WAV encoding
// ─────────────────────────────────────────────────────────────────────────────

pub open spec fn le16(x: int) -> Seq<u8> {
    seq![(x % 256) as u8, ((x / 256) % 256) as u8]
}

pub open spec fn le32(x: int) -> Seq<u8> {
    seq![
        (x % 256) as u8,
        ((x / 256) % 256) as u8,
        ((x / 65536) % 256) as u8,
        ((x / 16777216) % 256) as u8,
    ]
}

/// Little-endian bytes of each sample (two's complement).
pub open spec fn pcm_bytes(samples: Seq<i16>) -> Seq<u8>
    decreases samples.len(),
{
    if samples.len() == 0 {
        Seq::empty()
    } else {
        pcm_bytes(samples.drop_last()) + le16(
            if samples.last() < 0 {
                samples.last() + 65536
            } else {
                samples.last() as int
            },
        )
    }
}

/// The canonical 44-byte-header WAV for 16-bit PCM. The data length is the sample
/// byte count truncated to 32 bits, as the header field holds it.
pub open spec fn wav_spec(samples: Seq<i16>, sample_rate: u32, channels: u16) -> Seq<u8> {
    let data_len = ((samples.len() * 2) as u32) as int;
    seq![82u8, 73, 70, 70] + le32(36 + data_len) + seq![87u8, 65, 86, 69] + seq![102u8, 109, 116, 32]
        + le32(16) + le16(1) + le16(channels as int) + le32(sample_rate as int) + le32(
        sample_rate * channels * 2,
    ) + le16(channels * 2) + le16(16) + seq![100u8, 97, 116, 97] + le32(data_len) + pcm_bytes(
        samples,
    )
}

fn push_le16(out: &mut Vec<u8>, x: u16)
    ensures
        final(out)@ == old(out)@ + le16(x as int),
{
    out.push((x % 256) as u8);
    out.push(((x / 256) % 256) as u8);
    assert(final(out)@ =~= old(out)@ + le16(x as int));
}

fn push_le32(out: &mut Vec<u8>, x: u32)
    ensures
        final(out)@ == old(out)@ + le32(x as int),
{
    out.push((x % 256) as u8);
    out.push(((x / 256) % 256) as u8);
    out.push(((x / 65536) % 256) as u8);
    out.push(((x / 16777216) % 256) as u8);
    assert(final(out)@ =~= old(out)@ + le32(x as int));
}

fn push4(out: &mut Vec<u8>, a: u8, b: u8, c: u8, d: u8)
    ensures
        final(out)@ == old(out)@ + seq![a, b, c, d],
{
    out.push(a);
    out.push(b);
    out.push(c);
    out.push(d);
    assert(final(out)@ =~= old(out)@ + seq![a, b, c, d]);
}

/// Encode 16-bit PCM as a canonical 44-byte-header WAV, in memory.
pub fn wav_from_pcm16(samples: &[i16], sample_rate: u32, channels: u16) -> (v: Vec<u8>)
    requires
        sample_rate * channels * 2 <= u32::MAX,
        channels * 2 <= u16::MAX,
        36 + ((samples@.len() * 2) as u32) <= u32::MAX,
    ensures
        v@ == wav_spec(samples@, sample_rate, channels),
{
    let byte_rate: u32 = sample_rate * (channels as u32) * 2;
    let block_align: u16 = channels * 2;
    let n: u64 = samples.len() as u64;
    let data_len: u32 = ((n % 0x80000000) * 2) as u32;
    assert(((n % 0x80000000) * 2) as u32 == (n * 2) as u32) by (bit_vector);
    let mut v: Vec<u8> = Vec::new();
    push4(&mut v, 82, 73, 70, 70);
    push_le32(&mut v, 36 + data_len);
    push4(&mut v, 87, 65, 86, 69);
    push4(&mut v, 102, 109, 116, 32);
    push_le32(&mut v, 16);
    push_le16(&mut v, 1);
    push_le16(&mut v, channels);
    push_le32(&mut v, sample_rate);
    push_le32(&mut v, byte_rate);
    push_le16(&mut v, block_align);
    push_le16(&mut v, 16);
    push4(&mut v, 100, 97, 116, 97);
    push_le32(&mut v, data_len);
    let ghost head = v@;
    let mut i: usize = 0;
    while i < samples.len()
        invariant
            i <= samples@.len(),
            v@ == head + pcm_bytes(samples@.take(i as int)),
        decreases samples@.len() - i,
    {
        let s = samples[i];
        let u: u16 = if s < 0 {
            (s as i32 + 65536) as u16
        } else {
            s as u16
        };
        push_le16(&mut v, u);
        assert(samples@.take(i + 1).drop_last() =~= samples@.take(i as int));
        assert(samples@.take(i + 1).last() == s);
        i = i + 1;
    }
    assert(samples@.take(samples@.len() as int) =~= samples@);
    v
}

// ─────────────────────────────────────────────────────────────────────────────
// Multipart request body
// ─────────────────────────────────────────────────────────────────────────────

fn push_bytes(out: &mut Vec<u8>, b: &[u8])
    ensures
        final(out)@ == old(out)@ + b@,
{
    let mut i: usize = 0;
    let ghost base = old(out)@;
    while i < b.len()
        invariant
            i <= b@.len(),
            out@ == base + b@.take(i as int),
        decreases b@.len() - i,
    {
        out.push(b[i]);
        i = i + 1;
        assert(out@ =~= base + b@.take(i as int));
    }
    assert(b@.take(b@.len() as int) =~= b@);
}

fn push_str(out: &mut Vec<u8>, s: &str)
    ensures
        final(out)@ == old(out)@ + encode_utf8(s@),
{
    push_bytes(out, s.as_bytes());
}

pub open spec fn field_part(boundary: Seq<char>, k: Seq<char>, v: Seq<char>) -> Seq<u8> {
    encode_utf8("--"@ + boundary + "\r\n"@) + encode_utf8(
        "Content-Disposition: form-data; name=\""@ + k + "\"\r\n\r\n"@,
    ) + encode_utf8(v) + encode_utf8("\r\n"@)
}

pub open spec fn field_parts(boundary: Seq<char>, fields: Seq<(&str, &str)>) -> Seq<u8>
    decreases fields.len(),
{
    if fields.len() == 0 {
        Seq::empty()
    } else {
        field_parts(boundary, fields.drop_last()) + field_part(
            boundary,
            fields.last().0@,
            fields.last().1@,
        )
    }
}

/// The `multipart/form-data` body: each field, then the WAV file part, then the
/// closing boundary.
pub open spec fn multipart_spec(boundary: Seq<char>, wav: Seq<u8>, fields: Seq<(&str, &str)>) -> Seq<u8> {
    field_parts(boundary, fields) + encode_utf8("--"@ + boundary + "\r\n"@) + encode_utf8(
        "Content-Disposition: form-data; name=\"file\"; filename=\"audio.wav\"\r\n"@,
    ) + encode_utf8("Content-Type: audio/wav\r\n\r\n"@) + wav + encode_utf8("\r\n"@) + encode_utf8(
        "--"@ + boundary + "--\r\n"@,
    )
}

fn push_joined(out: &mut Vec<u8>, a: &str, b: &str, c: &str)
    ensures
        final(out)@ == old(out)@ + encode_utf8(a@ + b@ + c@),
{
    let s = concat3(a, b, c);
    push_str(out, s.as_str());
}

/// Build the `multipart/form-data` request body: string fields and the WAV file.
pub fn multipart_body(boundary: &str, wav: &[u8], fields: &[(&str, &str)]) -> (b: Vec<u8>)
    ensures
        b@ == multipart_spec(boundary@, wav@, fields@),
{
    let mut b: Vec<u8> = Vec::new();
    let mut i: usize = 0;
    while i < fields.len()
        invariant
            i <= fields@.len(),
            b@ == field_parts(boundary@, fields@.take(i as int)),
        decreases fields@.len() - i,
    {
        let (k, v) = fields[i];
        let ghost pre = b@;
        push_joined(&mut b, "--", boundary, "\r\n");
        push_joined(&mut b, "Content-Disposition: form-data; name=\"", k, "\"\r\n\r\n");
        push_str(&mut b, v);
        push_str(&mut b, "\r\n");
        assert(fields@.take(i + 1).drop_last() =~= fields@.take(i as int));
        assert(fields@.take(i + 1).last() == fields@[i as int]);
        assert(b@ =~= pre + field_part(boundary@, k@, v@));
        i = i + 1;
    }
    assert(fields@.take(fields@.len() as int) =~= fields@);
    push_joined(&mut b, "--", boundary, "\r\n");
    push_str(&mut b, "Content-Disposition: form-data; name=\"file\"; filename=\"audio.wav\"\r\n");
    push_str(&mut b, "Content-Type: audio/wav\r\n\r\n");
    push_bytes(&mut b, wav);
    push_str(&mut b, "\r\n");
    push_joined(&mut b, "--", boundary, "--\r\n");
    b
}

// ─────────────────────────────────────────────────────────────────────────────
// Server command line and request fields
// ─────────────────────────────────────────────────────────────────────────────

pub open spec fn inference_url_spec(port: u16) -> Seq<char> {
    "http://127.0.0.1:"@ + decimal(port as nat) + "/inference"@
}

/// The server's `/inference` URL for a port.
pub fn inference_url(port: u16) -> (u: String)
    ensures
        u@ == inference_url_spec(port),
{
    let mut out = chars_of("http://127.0.0.1:");
    push_decimal(&mut out, port as u64);
    let tail = chars_of("/inference");
    crate::text::append_chars(&mut out, tail.as_slice());
    string_of(out.as_slice())
}

pub open spec fn server_args_spec(model: Seq<char>, port: u16, threads: usize) -> Seq<Seq<char>> {
    seq![
        "-m"@,
        model,
        "--host"@,
        "127.0.0.1"@,
        "--port"@,
        decimal(port as nat),
        "-t"@,
        decimal(threads as nat),
    ]
}

fn decimal_string(n: u64) -> (s: String)
    ensures
        s@ == decimal(n as nat),
{
    let mut out: Vec<char> = Vec::new();
    push_decimal(&mut out, n);
    assert(out@ =~= decimal(n as nat));
    string_of(out.as_slice())
}

/// The server's startup arguments: model path, loopback host, port and threads.
/// Decoding determinism is applied per request (see `inference_fields`).
pub fn server_args(model: &str, port: u16, threads: usize) -> (a: Vec<String>)
    ensures
        crate::snippets::strings_view(a@) == server_args_spec(model@, port, threads),
{
    let mut a: Vec<String> = Vec::new();
    a.push(String::from_str("-m"));
    a.push(String::from_str(model));
    a.push(String::from_str("--host"));
    a.push(String::from_str("127.0.0.1"));
    a.push(String::from_str("--port"));
    a.push(decimal_string(port as u64));
    a.push(String::from_str("-t"));
    a.push(decimal_string(threads as u64));
    assert(crate::snippets::strings_view(a@) =~= server_args_spec(model@, port, threads));
    a
}

pub open spec fn pairs_view(v: Seq<(String, String)>) -> Seq<(Seq<char>, Seq<char>)> {
    v.map_values(|p: (String, String)| (p.0@, p.1@))
}

pub open spec fn inference_fields_spec(language: Option<Seq<char>>) -> Seq<(Seq<char>, Seq<char>)> {
    let base = seq![
        ("temperature"@, "0.0"@),
        ("temperature_inc"@, "0.0"@),
        ("response_format"@, "json"@),
    ];
    match language {
        Some(l) => base.push(("language"@, l)),
        None => base,
    }
}

/// Per-request fields enforcing deterministic decoding: temperature 0 with no
/// fallback ladder, JSON replies, and the language when one is forced.
pub fn inference_fields(language: Option<&str>) -> (f: Vec<(String, String)>)
    ensures
        pairs_view(f@) == inference_fields_spec(crate::ai_commands::instr_view(language)),
{
    let mut f: Vec<(String, String)> = Vec::new();
    f.push((String::from_str("temperature"), String::from_str("0.0")));
    f.push((String::from_str("temperature_inc"), String::from_str("0.0")));
    f.push((String::from_str("response_format"), String::from_str("json")));
    if let Some(lang) = language {
        f.push((String::from_str("language"), String::from_str(lang)));
    }
    assert(pairs_view(f@) =~= inference_fields_spec(crate::ai_commands::instr_view(language)));
    f
}

// ─────────────────────────────────────────────────────────────────────────────
// Reading the reply (serde_json)
// ─────────────────────────────────────────────────────────────────────────────

/// What `serde_json` makes of a body: `None` when it is not JSON, else the string
/// value of its top-level field `key` if there is one (and it is a string).
pub uninterp spec fn json_str_field(body: Seq<char>, key: Seq<char>) -> Option<Option<Seq<char>>>;

/// `serde_json::from_str::<Value>` then `Value::get(key)` and `Value::as_str`.
/// Claims only that the outcome is the named reading of `body` and `key`.
#[verifier::external_body]
fn read_json_str(body: &str, key: &str) -> (r: Option<Option<String>>)
    ensures
        json_str_field(body@, key@) == match r {
            Some(t) => Some(opt_string_view(t)),
            None => None,
        },
{
    match serde_json::from_str::<serde_json::Value>(body) {
        Ok(v) => Some(v.get(key).and_then(|t| t.as_str()).map(String::from)),
        Err(_) => None,
    }
}

/// The transcript in a reply: the trimmed `"text"` of a JSON reply ("" when it has
/// none), or the trimmed body when the reply is not JSON.
pub open spec fn inference_text_spec(body: Seq<char>, reading: Option<Option<Seq<char>>>) -> Seq<char> {
    match reading {
        Some(Some(t)) => trim(t),
        Some(None) => Seq::empty(),
        None => trim(body),
    }
}

/// What follows the JSON reading: pick the field or fall back to the raw body.
pub fn inference_text_from(body: &str, reading: Option<Option<String>>) -> (r: String)
    ensures
        r@ == inference_text_spec(body@, match reading {
            Some(t) => Some(opt_string_view(t)),
            None => None,
        }),
{
    match reading {
        Some(Some(t)) => trim_str(t.as_str()),
        Some(None) => String::new(),
        None => trim_str(body),
    }
}

/// Extract the transcript from a server reply; falls back to the raw body when the
/// reply is not JSON.
pub fn parse_inference_text(body: &str) -> (r: String)
    ensures
        r@ == inference_text_spec(body@, json_str_field(body@, "text"@)),
{
    let reading = read_json_str(body, "text");
    inference_text_from(body, reading)
}


/// The name of the engine's server executable.
pub const SERVER_EXE: &'static str = "whisper-server.exe";

/// The files of an extracted GPU engine archive that get installed: the server
/// executable and every DLL beside it (the extension compared without ASCII case).
pub open spec fn engine_file_spec(name: Seq<char>) -> bool {
    name == SERVER_EXE@ || (name.len() >= 4 && name.subrange(name.len() - 4, name.len() as int).map_values(
        |c: char| ascii_lower_of(c),
    ) == ".dll"@)
}

/// Whether an archive file belongs to the installed engine.
pub fn is_engine_file(name: &str) -> (b: bool)
    ensures
        b == engine_file_spec(name@),
{
    let n = chars_of(name);
    let exe = chars_of(SERVER_EXE);
    if crate::text::chars_eq(n.as_slice(), exe.as_slice()) {
        return true;
    }
    if n.len() < 4 {
        return false;
    }
    let k = n.len() - 4;
    let a = ascii_lower(n[k]);
    let b = ascii_lower(n[k + 1]);
    let c = ascii_lower(n[k + 2]);
    let d = ascii_lower(n[k + 3]);
    proof {
        reveal_strlit(".dll");
    }
    let r = a == '.' && b == 'd' && c == 'l' && d == 'l';
    proof {
        let tail = n@.subrange(k as int, n@.len() as int).map_values(|c: char| ascii_lower_of(c));
        assert(tail.len() == 4);
        assert(tail[0] == a && tail[1] == b && tail[2] == c && tail[3] == d);
        if r {
            assert(tail =~= ".dll"@);
        }
    }
    r
}

/// The ASCII lowercase of a character (others unchanged).
fn ascii_lower(c: char) -> (r: char)
    ensures
        r == ascii_lower_of(c),
{
    let u = c as u32;
    if 65 <= u && u <= 90 {
        let v: u32 = u + 32;
        let l = (v as u8) as char;
        proof {
            vstd::utf8::char_u32_cast(l, v);
        }
        l
    } else {
        c
    }
}

/// The engine backend reported to the UI.
pub const BACKEND_NAME: &'static str = "whisperServer";

/// The status of the resident server, given the model it has loaded (and whether it
/// runs the GPU build), if any.
pub fn warm_status_of(loaded: Option<(&str, bool)>) -> (w: WarmStatus)
    ensures
        w.loaded == loaded is Some,
        w.backend@ == BACKEND_NAME@,
        match loaded {
            Some((m, g)) => w.model is Some && w.model->0@ == m@ && w.gpu == g,
            None => w.model is None && !w.gpu,
        },
{
    match loaded {
        Some((m, g)) => WarmStatus {
            loaded: true,
            model: Some(String::from_str(m)),
            backend: String::from_str(BACKEND_NAME),
            gpu: g,
        },
        None => WarmStatus { loaded: false, model: None, backend: String::from_str(BACKEND_NAME), gpu: false },
    }
}

/// Warming is a no-op when the resident server already has this model loaded.
pub fn already_warm(current: Option<&str>, model: &str) -> (b: bool)
    ensures
        b == match current {
            Some(c) => c@ == model@,
            None => false,
        },
{
    match current {
        Some(c) => {
            let cc = chars_of(c);
            let mc = chars_of(model);
            crate::text::chars_eq(cc.as_slice(), mc.as_slice())
        },
        None => false,
    }
}

} // verus!
