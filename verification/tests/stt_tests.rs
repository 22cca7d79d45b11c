use mia::stt::{
    inference_fields, inference_text_from, inference_url, model_filename, model_url, multipart_body,
    parse_inference_text, server_args, wav_from_pcm16,
};
use mia::stt::{already_warm, is_engine_file, warm_status_of};

#[test]
fn model_url_and_filename_known_vs_unknown() {
    assert_eq!(
        model_url("large-v3").unwrap(),
        "https://huggingface.co/ggerganov/whisper.cpp/resolve/main/ggml-large-v3.bin"
    );
    assert_eq!(model_filename("small").unwrap(), "ggml-small.bin");
    assert!(model_url("nope").is_none());
    assert!(model_filename("nope").is_none());
}

#[test]
fn wav_header_is_canonical() {
    let wav = wav_from_pcm16(&[0, 1, -1], 16_000, 1);
    assert_eq!(&wav[0..4], b"RIFF");
    assert_eq!(&wav[8..12], b"WAVE");
    assert_eq!(&wav[36..40], b"data");
    assert_eq!(wav.len(), 44 + 6);
    assert_eq!(u32::from_le_bytes([wav[24], wav[25], wav[26], wav[27]]), 16_000);
    assert_eq!(u16::from_le_bytes([wav[22], wav[23]]), 1);
    assert_eq!(u32::from_le_bytes([wav[40], wav[41], wav[42], wav[43]]), 6);
}

#[test]
fn multipart_structure() {
    let body = multipart_body("BND", b"\x00\x01", &[("temperature", "0.0")]);
    let s = String::from_utf8_lossy(&body);
    assert!(s.contains("--BND\r\n"));
    assert!(s.contains("name=\"temperature\""));
    assert!(s.contains("name=\"file\"; filename=\"audio.wav\""));
    assert!(s.contains("Content-Type: audio/wav"));
    assert!(s.trim_end().ends_with("--BND--"));
}

#[test]
fn inference_url_format() {
    assert_eq!(inference_url(8765), "http://127.0.0.1:8765/inference");
}

#[test]
fn server_args_has_model_host_port_threads() {
    let a = server_args("m.bin", 8765, 8);
    assert!(a.windows(2).any(|w| w[0] == "-m" && w[1] == "m.bin"));
    assert!(a.windows(2).any(|w| w[0] == "--host" && w[1] == "127.0.0.1"));
    assert!(a.windows(2).any(|w| w[0] == "--port" && w[1] == "8765"));
    assert!(a.windows(2).any(|w| w[0] == "-t" && w[1] == "8"));
}

#[test]
fn inference_fields_enforce_determinism() {
    let f = inference_fields(Some("pt"));
    assert!(f.iter().any(|(k, v)| k == "temperature" && v == "0.0"));
    assert!(f.iter().any(|(k, v)| k == "temperature_inc" && v == "0.0"));
    assert!(f.iter().any(|(k, v)| k == "language" && v == "pt"));
    assert!(!inference_fields(None).iter().any(|(k, _)| k == "language"));
}

#[test]
fn parse_inference_json_and_fallback() {
    assert_eq!(parse_inference_text(r#"{"text":"  olá mundo  "}"#), "olá mundo");
    assert_eq!(parse_inference_text("plain text body"), "plain text body");
    assert_eq!(parse_inference_text(r#"{"other":1}"#), "");
}

// ── Further cases ────────────────────────────────────────────────────────────

#[test]
fn stt_wav_negative_samples_are_twos_complement() {
    let wav = wav_from_pcm16(&[-1, -32768, 32767], 48_000, 2);
    assert_eq!(&wav[44..50], &[0xFF, 0xFF, 0x00, 0x80, 0xFF, 0x7F]);
    assert_eq!(u32::from_le_bytes([wav[28], wav[29], wav[30], wav[31]]), 48_000 * 2 * 2);
    assert_eq!(u16::from_le_bytes([wav[32], wav[33]]), 4);
    assert_eq!(u32::from_le_bytes([wav[4], wav[5], wav[6], wav[7]]), 36 + 6);
}

#[test]
fn stt_multipart_exact_bytes_and_reply_reading() {
    let body = multipart_body("B", b"W", &[]);
    let expected = "--B\r\nContent-Disposition: form-data; name=\"file\"; filename=\"audio.wav\"\r\nContent-Type: audio/wav\r\n\r\nW\r\n--B--\r\n";
    assert_eq!(body, expected.as_bytes());
    assert_eq!(inference_text_from("  raw  ", None), "raw");
    assert_eq!(inference_text_from("{}", Some(None)), "");
    assert_eq!(inference_text_from("{}", Some(Some(" t ".to_string()))), "t");
    assert_eq!(parse_inference_text("  {not json  "), "{not json");
}

#[test]
fn engine_files_are_the_server_and_its_dlls() {
    assert!(is_engine_file("whisper-server.exe"));
    assert!(is_engine_file("ggml-cuda.dll"));
    assert!(is_engine_file("CUBLAS64_12.DLL"));
    assert!(is_engine_file("x.Dll"));
    assert!(!is_engine_file("whisper-cli.exe"));
    assert!(!is_engine_file("readme.txt"));
    assert!(!is_engine_file("dll"));
    assert!(!is_engine_file("WHISPER-SERVER.EXE"));
}

#[test]
fn warm_status_and_reuse() {
    let w = warm_status_of(Some(("small", true)));
    assert!(w.loaded && w.gpu);
    assert_eq!(w.model.as_deref(), Some("small"));
    assert_eq!(w.backend, "whisperServer");
    let cold = warm_status_of(None);
    assert!(!cold.loaded && !cold.gpu && cold.model.is_none());
    assert_eq!(cold.backend, "whisperServer");
    assert!(already_warm(Some("small"), "small"));
    assert!(!already_warm(Some("small"), "medium"));
    assert!(!already_warm(None, "small"));
}
