use au_framing::{AuKind, AuPayload, Fmp4};
use bytes::Bytes;

fn payload_with(data: Vec<u8>) -> AuPayload {
    let mut p = AuPayload::new();
    p.kind = AuKind::AVCC;
    p.data = Some(Bytes::from(data));
    p
}

#[test]
fn new_defaults() {
    let p = AuPayload::new();
    assert_eq!(p.kind, AuKind::AAC);
    assert!(p.data.is_none());
    assert!(p.sps.is_none());
    assert!(p.pps.is_none());
    assert!(p.dts.is_none());
    assert!(p.pts.is_none());
    assert!(p.path.is_none());
    assert!(!p.key);
    assert!(p.audio_codec_id.is_none());
    assert!(p.audio_bitrate_kbps.is_none());
    assert!(p.audio_sample_rate.is_none());
    assert!(p.audio_channels.is_none());
    assert_eq!(p.seq, 0);
    assert_eq!(p.track_id, 0);
    assert!(p.width.is_none());
    assert!(p.height.is_none());
}

#[test]
fn timestamps_absent_project_to_zero() {
    let p = AuPayload::new();
    assert_eq!(p.pts(), 0);
    assert_eq!(p.dts(), 0);
}

#[test]
fn timestamps_present_project_to_their_milliseconds() {
    let mut p = AuPayload::new();
    p.pts = Some(1500);
    p.dts = Some(-7);
    assert_eq!(p.pts(), 1500);
    assert_eq!(p.dts(), -7);
    // reading the projection leaves the stored optional untouched
    assert_eq!(p.pts, Some(1500));
    assert_eq!(p.dts, Some(-7));
}

#[test]
fn lp_example_end_to_end() {
    let p = payload_with(vec![0x00, 0x00, 0x00, 0x02, 0xAB, 0xCD, 0x00, 0x00, 0x00, 0x01, 0xEF]);
    let nalus = p.nalus_from_lp();
    assert_eq!(nalus, vec![&[0xAB, 0xCD][..], &[0xEF][..]]);
    let out = p.lp_to_nal_start_code();
    assert_eq!(
        &out[..],
        &[0x00, 0x00, 0x00, 0x01, 0xAB, 0xCD, 0x00, 0x00, 0x00, 0x01, 0xEF][..]
    );
}

#[test]
fn lp_round_trip_of_three_records() {
    let units: Vec<Vec<u8>> = vec![vec![1, 2, 3], vec![], vec![0xFF; 5]];
    let mut buf: Vec<u8> = Vec::new();
    for u in &units {
        buf.extend_from_slice(&(u.len() as u32).to_be_bytes());
        buf.extend_from_slice(u);
    }
    let p = payload_with(buf);
    let nalus = p.nalus_from_lp();
    assert_eq!(nalus.len(), units.len());
    for (got, want) in nalus.iter().zip(units.iter()) {
        assert_eq!(*got, &want[..]);
    }
}

#[test]
fn lp_header_cut_drops_trailing_bytes() {
    // two complete records, then three stray bytes: less than a length header
    let mut buf = vec![0x00, 0x00, 0x00, 0x01, 0xAA, 0x00, 0x00, 0x00, 0x02, 0xBB, 0xCC];
    buf.extend_from_slice(&[0x01, 0x02, 0x03]);
    let p = payload_with(buf);
    assert_eq!(p.nalus_from_lp(), vec![&[0xAA][..], &[0xBB, 0xCC][..]]);
    let out = p.lp_to_nal_start_code();
    assert_eq!(
        &out[..],
        &[0x00, 0x00, 0x00, 0x01, 0xAA, 0x00, 0x00, 0x00, 0x01, 0xBB, 0xCC][..]
    );
}

#[test]
fn lp_payload_cut_drops_unterminated_record() {
    // one complete record, then a header declaring 4 bytes with only 2 left
    let buf = vec![0x00, 0x00, 0x00, 0x01, 0xAA, 0x00, 0x00, 0x00, 0x04, 0xBB, 0xCC];
    let p = payload_with(buf);
    assert_eq!(p.nalus_from_lp(), vec![&[0xAA][..]]);
    let out = p.lp_to_nal_start_code();
    assert_eq!(&out[..], &[0x00, 0x00, 0x00, 0x01, 0xAA][..]);
}

#[test]
fn lp_huge_declared_length_is_dropped_not_wrapped() {
    // a header declaring 0xFFFFFFFF bytes: the bound check must not wrap
    let buf = vec![0xFF, 0xFF, 0xFF, 0xFF, 0x01, 0x02, 0x03];
    let p = payload_with(buf);
    assert!(p.nalus_from_lp().is_empty());
    assert!(p.lp_to_nal_start_code().is_empty());
}

#[test]
fn absent_data_yields_empty_results() {
    let p = AuPayload::new();
    assert!(p.nalus_from_lp().is_empty());
    assert!(p.nalus_from_annex_b().is_empty());
    assert!(p.lp_to_nal_start_code().is_empty());
}

#[test]
fn empty_buffer_yields_empty_results() {
    let p = payload_with(Vec::new());
    assert!(p.nalus_from_lp().is_empty());
    assert!(p.nalus_from_annex_b().is_empty());
    assert!(p.lp_to_nal_start_code().is_empty());
}

#[test]
fn annex_b_two_units_behind_long_start_codes() {
    let p = payload_with(vec![0x00, 0x00, 0x00, 0x01, 0xAA, 0x00, 0x00, 0x00, 0x01, 0xBB]);
    assert_eq!(p.nalus_from_annex_b(), vec![&[0xAA][..], &[0xBB][..]]);
}

#[test]
fn annex_b_two_units_behind_short_start_codes() {
    let p = payload_with(vec![0x00, 0x00, 0x01, 0xAA, 0x00, 0x00, 0x01, 0xBB]);
    assert_eq!(p.nalus_from_annex_b(), vec![&[0xAA][..], &[0xBB][..]]);
}

#[test]
fn annex_b_without_start_code_yields_nothing() {
    let p = payload_with(vec![0xAA, 0xBB, 0xCC]);
    assert!(p.nalus_from_annex_b().is_empty());
}

#[test]
fn annex_b_skips_bytes_before_first_start_code() {
    let p = payload_with(vec![0xAA, 0x00, 0x00, 0x01, 0xBB, 0xCC]);
    assert_eq!(p.nalus_from_annex_b(), vec![&[0xBB, 0xCC][..]]);
}

#[test]
fn annex_b_split_standalone_matches_method() {
    let buf = [0x00u8, 0x00, 0x00, 0x01, 0xAA, 0x00, 0x00, 0x01, 0xBB];
    let direct = au_framing::annex_b_split(&buf);
    assert_eq!(direct, vec![&[0xAA][..], &[0xBB][..]]);
}

#[test]
fn au_kind_equality_and_clone() {
    assert_eq!(AuKind::AAC, AuKind::AAC.clone());
    assert_ne!(AuKind::AVC, AuKind::AVCC);
}

#[test]
fn payload_clone_keeps_data() {
    let mut p = payload_with(vec![0x00, 0x00, 0x00, 0x01, 0xEE]);
    p.seq = 9;
    p.width = Some(640);
    let q = p.clone();
    assert_eq!(q.data.as_deref(), Some(&[0x00, 0x00, 0x00, 0x01, 0xEE][..]));
    assert_eq!(q.seq, 9);
    assert_eq!(q.width, Some(640));
    assert_eq!(q.kind, AuKind::AVCC);
}

#[test]
fn fmp4_is_a_plain_carrier() {
    let f = Fmp4 {
        init: Some(Bytes::from(vec![1, 2])),
        key: true,
        data: Bytes::from(vec![3, 4, 5]),
        duration: 90000,
    };
    let g = f.clone();
    assert_eq!(g.init.as_deref(), Some(&[1, 2][..]));
    assert!(g.key);
    assert_eq!(&g.data[..], &[3, 4, 5][..]);
    assert_eq!(g.duration, 90000);
}
