use voice_relay::audio::{encode_wav, find_sentinel, pcm_samples, AudioAssembler};
use voice_relay::chat::{build_messages, Role};

#[test]
fn assembler_keeps_bytes_before_sentinel() {
    let mut a = AudioAssembler::new();
    assert!(!a.feed(b"abc"));
    let mut tail = b"de".to_vec();
    tail.extend_from_slice(b"END_STREAM");
    tail.extend_from_slice(b"zz");
    assert!(a.feed(&tail));
    assert_eq!(a.take_buffer().as_slice(), b"abcde");
    assert_eq!(a.len(), 0);
}

#[test]
fn sentinel_found_only_within_one_chunk() {
    let mut a = AudioAssembler::new();
    // A sentinel split across two chunks is not recognised.
    assert!(!a.feed(b"xxEND_ST"));
    assert!(!a.feed(b"REAMyy"));
    assert_eq!(a.take_buffer().as_slice(), b"xxEND_STREAMyy");
}

#[test]
fn find_sentinel_returns_first_offset() {
    assert_eq!(find_sentinel(b"END_STREAM"), Some(0));
    assert_eq!(find_sentinel(b"abEND_STREAMcdEND_STREAM"), Some(2));
    assert_eq!(find_sentinel(b"abEND_STREA"), None);
    assert_eq!(find_sentinel(b""), None);
}

#[test]
fn pcm_pairs_little_endian() {
    let samples = pcm_samples(&[0x01, 0x00, 0x00, 0x80, 0xff, 0xff, 0x34]);
    // A trailing odd byte carries no sample.
    assert_eq!(samples, vec![1, -32768, -1]);
}

#[test]
fn wav_container_wraps_the_samples() {
    let raw = [0x01, 0x02, 0x03, 0x04];
    let out = encode_wav(&raw);
    // A standard 44-byte header for 16 kHz mono 16-bit, then the data.
    assert_eq!(out.len(), 44 + raw.len());
    assert_eq!(&out[0..4], &b"RIFF"[..]);
    assert_eq!(&out[8..12], &b"WAVE"[..]);
    assert_eq!(&out[44..], &raw[..]);
    // Sample rate 16000 little-endian in the fmt chunk.
    assert_eq!(&out[24..28], &16000u32.to_le_bytes());
}

#[test]
fn messages_carry_context_in_order() {
    let context = vec![
        ("q1".to_string(), "a1".to_string()),
        ("q2".to_string(), "a2".to_string()),
    ];
    let msgs = build_messages("sys", &context, "now");
    assert_eq!(msgs.len(), 6);
    assert!(matches!(msgs[0].role, Role::System));
    assert_eq!(msgs[0].content, "sys");
    assert!(matches!(msgs[1].role, Role::User));
    assert_eq!(msgs[1].content, "q1");
    assert!(matches!(msgs[2].role, Role::Assistant));
    assert_eq!(msgs[2].content, "a1");
    assert!(matches!(msgs[3].role, Role::User));
    assert_eq!(msgs[3].content, "q2");
    assert!(matches!(msgs[4].role, Role::Assistant));
    assert_eq!(msgs[4].content, "a2");
    assert!(matches!(msgs[5].role, Role::User));
    assert_eq!(msgs[5].content, "now");
}
