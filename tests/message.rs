use metronome::factor::{amplified_length, MUL_ONE};
use metronome::message::MetronomeMessage;

fn ping(payload: Option<&str>, mul: f32) -> MetronomeMessage {
    MetronomeMessage {
        mode: "ping".to_string(),
        payload: payload.map(|p| p.as_bytes().to_vec()),
        mul_bits: mul.to_bits(),
        seq: 42,
        key: "k".to_string(),
        sid: "session".to_string(),
    }
}

#[test]
fn amplification() {
    let pong = ping(Some("AAAA"), 2.5).get_pong();
    assert_eq!(pong.payload, Some(b"AAAAAAAAAA".to_vec()));
    assert_eq!(pong.mode, "pong");
    assert_eq!(pong.mul_bits, 2.5f32.to_bits());
    assert_eq!(pong.seq, 42);
    assert_eq!(pong.key, "k");
    assert_eq!(pong.sid, "session");
}

#[test]
fn unit_factor_keeps_payload() {
    let pong = ping(Some("abcdef"), 1.0).get_pong();
    assert_eq!(pong.payload, Some(b"abcdef".to_vec()));
    assert_eq!(pong.mode, "pong");
    assert_eq!(pong.mul_bits, MUL_ONE);
    assert_eq!(pong.seq, 42);
    assert_eq!(pong.key, "k");
    assert_eq!(pong.sid, "session");
}

#[test]
fn amplified_length_rounds_down() {
    let pong = ping(Some("abc"), 1.5).get_pong();
    assert_eq!(pong.payload, Some(b"aaaa".to_vec()));
    let pong = ping(Some("xyz"), 0.5).get_pong();
    assert_eq!(pong.payload, Some(b"x".to_vec()));
}

#[test]
fn zero_factor_empties_payload() {
    let pong = ping(Some("abc"), 0.0).get_pong();
    assert_eq!(pong.payload, Some(Vec::new()));
}

#[test]
fn empty_payload_stays_empty() {
    let pong = ping(Some(""), 3.0).get_pong();
    assert_eq!(pong.payload, Some(Vec::new()));
}

#[test]
fn absent_payload_stays_absent() {
    let pong = ping(None, 2.0).get_pong();
    assert_eq!(pong.payload, None);
    assert_eq!(pong.mode, "pong");
}

#[test]
fn reply_only_to_probes() {
    let m = ping(Some("AB"), 2.0);
    assert!(m.is_ping());
    let r = m.reply().unwrap();
    assert_eq!(r.payload, Some(b"AAAA".to_vec()));
    assert_eq!(r.mode, "pong");
    let mut other = ping(Some("AB"), 2.0);
    other.mode = "pong".to_string();
    assert!(!other.is_ping());
    assert!(other.reply().is_none());
    other.mode = "hello".to_string();
    assert!(other.reply().is_none());
}

#[test]
fn reply_refused_when_too_large() {
    let big = "A".repeat(2000);
    let m = ping(Some(&big), f32::MAX);
    assert!(m.is_ping());
    assert!(!m.pong_fits());
    assert!(m.reply().is_none());
    let unit = ping(Some(&big), 1.0);
    assert!(unit.pong_fits());
}

#[test]
fn key_and_session_filters() {
    let m = ping(None, 1.0);
    assert!(m.has_key(&"k".to_string()));
    assert!(!m.has_key(&"other".to_string()));
    assert!(m.belongs_to(&"k".to_string(), &"session".to_string()));
    assert!(!m.belongs_to(&"k".to_string(), &"other".to_string()));
    assert!(!m.belongs_to(&"x".to_string(), &"session".to_string()));
}

#[test]
fn probe_carries_x_payload() {
    let p = MetronomeMessage::probe(3, 1.5f32.to_bits(), "key".to_string(), "sid".to_string());
    assert_eq!(p.mode, "ping");
    assert_eq!(p.payload, Some(b"XXX".to_vec()));
    assert_eq!(p.mul_bits, 1.5f32.to_bits());
    assert_eq!(p.seq, 0);
    assert_eq!(p.key, "key");
    assert_eq!(p.sid, "sid");
}

#[test]
fn clone_message_is_equal() {
    let m = ping(Some("q"), 0.007);
    let c = m.clone_message();
    assert_eq!(c.mode, m.mode);
    assert_eq!(c.payload, m.payload);
    assert_eq!(c.mul_bits, m.mul_bits);
    assert_eq!(c.seq, m.seq);
    assert_eq!(c.key, m.key);
    assert_eq!(c.sid, m.sid);
}

#[test]
fn unit_factor_bits() {
    assert_eq!(MUL_ONE, 1.0f32.to_bits());
}

#[test]
fn amplified_length_is_exact_floor() {
    assert_eq!(amplified_length(4, 2.5f32.to_bits()), Some(10));
    assert_eq!(amplified_length(3, 1.5f32.to_bits()), Some(4));
    assert_eq!(amplified_length(7, 1.0f32.to_bits()), Some(7));
    // 0.1 as f32 is slightly above one tenth
    assert_eq!(amplified_length(10, 0.1f32.to_bits()), Some(1));
    // 0.3 as f32 is slightly above three tenths
    assert_eq!(amplified_length(10, 0.3f32.to_bits()), Some(3));
    // 0.7 as f32 is slightly below seven tenths
    assert_eq!(amplified_length(10, 0.7f32.to_bits()), Some(6));
    assert_eq!(amplified_length(1 << 20, 1024.0f32.to_bits()), Some(1 << 30));
    assert_eq!(amplified_length(5, f32::MIN_POSITIVE.to_bits()), Some(0));
    assert_eq!(amplified_length(5, 1.0e-45f32.to_bits()), Some(0));
}

#[test]
fn amplified_length_edge_factors() {
    assert_eq!(amplified_length(5, (-2.0f32).to_bits()), Some(0));
    assert_eq!(amplified_length(5, (-0.0f32).to_bits()), Some(0));
    assert_eq!(amplified_length(5, 0.0f32.to_bits()), Some(0));
    assert_eq!(amplified_length(5, f32::NAN.to_bits()), Some(0));
    assert_eq!(amplified_length(5, f32::INFINITY.to_bits()), None);
    assert_eq!(amplified_length(0, f32::INFINITY.to_bits()), Some(0));
    assert_eq!(amplified_length(2, f32::MAX.to_bits()), None);
    assert_eq!(amplified_length(usize::MAX, 2.0f32.to_bits()), None);
    assert_eq!(amplified_length(usize::MAX, 0.5f32.to_bits()), Some(usize::MAX / 2));
}
