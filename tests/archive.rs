use pac_wav::align::align_up;
use pac_wav::extract::{extract_pac, read_entry};
use pac_wav::pac_header::PacItemHeader;
use pac_wav::pack::{create_pac, packed_size};
use pac_wav::wav_header::WavHeader;
use pac_wav::PacError;

fn le16(v: &mut Vec<u8>, x: u16) {
    v.extend_from_slice(&x.to_le_bytes());
}

fn le32(v: &mut Vec<u8>, x: u32) {
    v.extend_from_slice(&x.to_le_bytes());
}

fn entry_header(rate_doubled: u32, sample_size: u16, magic: [u8; 4], payload_size: u32) -> Vec<u8> {
    let mut v = Vec::new();
    le16(&mut v, 7);
    le16(&mut v, 8);
    le32(&mut v, 9);
    le32(&mut v, rate_doubled);
    le16(&mut v, sample_size);
    le16(&mut v, 24);
    v.extend_from_slice(&magic);
    le32(&mut v, 11);
    le16(&mut v, 12);
    le16(&mut v, 13);
    le32(&mut v, payload_size);
    assert_eq!(v.len(), 32);
    v
}

fn wav_file(rate: u32, bit_depth: u16, payload: &[u8]) -> Vec<u8> {
    let mut v = Vec::new();
    v.extend_from_slice(b"RIFF");
    le32(&mut v, 36 + payload.len() as u32);
    v.extend_from_slice(b"WAVE");
    v.extend_from_slice(b"fmt ");
    le32(&mut v, 16);
    le16(&mut v, 1);
    le16(&mut v, 1);
    le32(&mut v, rate);
    le32(&mut v, rate * (bit_depth as u32 / 8));
    le16(&mut v, bit_depth / 8);
    le16(&mut v, bit_depth);
    v.extend_from_slice(b"data");
    le32(&mut v, payload.len() as u32);
    v.extend_from_slice(payload);
    v
}

fn read32(b: &[u8], at: usize) -> u32 {
    u32::from_le_bytes([b[at], b[at + 1], b[at + 2], b[at + 3]])
}

fn read16(b: &[u8], at: usize) -> u16 {
    u16::from_le_bytes([b[at], b[at + 1]])
}

#[test]
fn align_up_values() {
    assert_eq!(align_up(0, 32), 0);
    assert_eq!(align_up(1, 32), 32);
    assert_eq!(align_up(31, 32), 32);
    assert_eq!(align_up(32, 32), 32);
    assert_eq!(align_up(33, 32), 64);
    assert_eq!(align_up(100, 10), 100);
    assert_eq!(align_up(101, 10), 110);
}

#[test]
fn align_up_idempotent_on_samples() {
    for n in [0usize, 1, 5, 31, 32, 33, 63, 64, 1000, 4097] {
        let a = align_up(n, 32);
        assert_eq!(align_up(a, 32), a);
        assert!(a >= n);
        assert_eq!(a % 32, 0);
    }
}

#[test]
fn single_entry_yields_one_wav() {
    let payload = [1u8, 2, 3, 4, 5];
    let mut archive = entry_header(88200, 2, [b'A', b'B', 0, 0], payload.len() as u32);
    archive.extend_from_slice(&payload);
    let wavs = extract_pac(&archive).unwrap();
    assert_eq!(wavs.len(), 1);
    assert_eq!(wavs[0].len(), 44 + payload.len());
    assert_eq!(&wavs[0][44..], &payload[..]);
}

#[test]
fn rate_is_halved() {
    let payload = [9u8; 6];
    let mut archive = entry_header(88200, 2, [0, 0, 0, 0], payload.len() as u32);
    archive.extend_from_slice(&payload);
    let wavs = extract_pac(&archive).unwrap();
    let w = &wavs[0];
    assert_eq!(read32(w, 24), 44100);
}

#[test]
fn wav_header_fields() {
    let payload = [7u8; 10];
    let mut archive = entry_header(96000, 4, [0, 0, 0, 0], payload.len() as u32);
    archive.extend_from_slice(&payload);
    let w = &extract_pac(&archive).unwrap()[0];
    assert_eq!(&w[0..4], b"RIFF");
    assert_eq!(read32(w, 4), 44 + 10 - 8);
    assert_eq!(&w[8..12], b"WAVE");
    assert_eq!(&w[12..16], b"fmt ");
    assert_eq!(read32(w, 16), 16);
    assert_eq!(read16(w, 20), 1);
    assert_eq!(read16(w, 22), 1);
    assert_eq!(read32(w, 24), 48000);
    assert_eq!(read32(w, 28), 192000);
    assert_eq!(read16(w, 32), 4);
    assert_eq!(read16(w, 34), 16);
    assert_eq!(&w[36..40], b"data");
    assert_eq!(read32(w, 40), 10);
}

#[test]
fn byte_rate_keeps_low_bits() {
    let mut archive = entry_header(0xFFFF_FFFE, 0xFFFF, [0, 0, 0, 0], 0);
    archive.extend_from_slice(&[]);
    let w = &extract_pac(&archive).unwrap()[0];
    let rate = 0x7FFF_FFFFu32;
    assert_eq!(read32(w, 24), rate);
    assert_eq!(read32(w, 28), rate.wrapping_mul(0xFFFF));
}

#[test]
fn packed_length_is_sum_of_spans() {
    let wavs = vec![
        wav_file(44100, 16, &[1u8; 10]),
        wav_file(22050, 16, &[2u8; 50]),
        wav_file(8000, 8, &[]),
    ];
    let archive = create_pac(&wavs).unwrap();
    let expected = align_up(32 + 10, 32) + align_up(32 + 50, 32) + align_up(32, 32);
    assert_eq!(expected, 192);
    assert_eq!(archive.len(), expected);
    assert_eq!(packed_size(&wavs), Some(192));
}

#[test]
fn short_archive_is_truncated() {
    let archive = vec![0u8; 10];
    assert_eq!(extract_pac(&archive), Err(PacError::TruncatedHeader));
}

#[test]
fn short_trailing_entry_is_truncated() {
    let mut archive = entry_header(88200, 2, [0, 0, 0, 0], 0);
    archive.extend_from_slice(&[0u8; 5]);
    assert_eq!(extract_pac(&archive), Err(PacError::TruncatedHeader));
}

#[test]
fn empty_archive_has_no_entries() {
    let archive: Vec<u8> = Vec::new();
    assert_eq!(extract_pac(&archive), Ok(Vec::new()));
}

#[test]
fn short_wav_is_truncated() {
    let wavs = vec![wav_file(44100, 16, &[1u8; 4]), vec![0u8; 43]];
    assert_eq!(create_pac(&wavs), Err(PacError::TruncatedHeader));
}

#[test]
fn payload_past_end_fails() {
    let mut archive = entry_header(88200, 2, [0, 0, 0, 0], 100);
    archive.extend_from_slice(&[1u8; 10]);
    assert_eq!(extract_pac(&archive), Err(PacError::PayloadOutOfBounds));
}

#[test]
fn non_text_tag_fails() {
    let mut archive = entry_header(88200, 2, [0xFF, 0xFE, 0, 0], 0);
    archive.extend_from_slice(&[0u8; 0]);
    assert_eq!(extract_pac(&archive), Err(PacError::InvalidTag));
}

#[test]
fn ju_entry_skips_two_bytes() {
    let mut archive = entry_header(88200, 2, [b'J', b'U', 0, 0], 3);
    archive.extend_from_slice(&[0xAA, 0xBB, 1, 2, 3]);
    let wavs = extract_pac(&archive).unwrap();
    assert_eq!(wavs.len(), 1);
    assert_eq!(&wavs[0][44..], &[1u8, 2, 3][..]);
}

#[test]
fn entries_start_on_alignment() {
    let mut archive = entry_header(88200, 2, [0, 0, 0, 0], 5);
    archive.extend_from_slice(&[1u8; 5]);
    archive.resize(64, 0xEE);
    archive.extend_from_slice(&entry_header(16000, 1, [0, 0, 0, 0], 2));
    archive.extend_from_slice(&[4u8, 5]);
    let wavs = extract_pac(&archive).unwrap();
    assert_eq!(wavs.len(), 2);
    assert_eq!(&wavs[0][44..], &[1u8; 5][..]);
    assert_eq!(&wavs[1][44..], &[4u8, 5][..]);
    assert_eq!(read32(&wavs[1], 24), 8000);
}

#[test]
fn read_entry_reports_payload_end() {
    let mut archive = entry_header(88200, 2, [0, 0, 0, 0], 4);
    archive.extend_from_slice(&[1u8, 2, 3, 4]);
    let (w, end) = read_entry(&archive, 0, true).unwrap();
    assert_eq!(end, 36);
    assert_eq!(&w[44..], &[1u8, 2, 3, 4][..]);
    assert_eq!(read_entry(&archive, 0, false).map(|p| p.1), Err(PacError::InvalidTag));
}

#[test]
fn writer_header_fields() {
    let wavs = vec![wav_file(22050, 16, &[5u8; 3])];
    let a = create_pac(&wavs).unwrap();
    assert_eq!(a.len(), 64);
    assert_eq!(read16(&a, 0), 1);
    assert_eq!(read16(&a, 2), 1);
    assert_eq!(read32(&a, 4), 22050);
    assert_eq!(read32(&a, 8), 44100);
    assert_eq!(read16(&a, 12), 2);
    assert_eq!(read16(&a, 14), 16);
    assert_eq!(&a[16..20], &[0u8, 0, 0, 0][..]);
    assert_eq!(read32(&a, 20), 0);
    assert_eq!(read16(&a, 24), 0);
    assert_eq!(read16(&a, 26), 0);
    assert_eq!(read32(&a, 28), 3);
    assert_eq!(&a[32..35], &[5u8; 3][..]);
    assert!(a[35..].iter().all(|b| *b == 0));
}

#[test]
fn payloads_survive_extract_then_pack() {
    let mut archive = entry_header(88200, 2, [b'J', b'U', 0, 0], 5);
    archive.extend_from_slice(&[0, 0, 1, 2, 3, 4, 5]);
    archive.resize(64, 0);
    archive.extend_from_slice(&entry_header(32000, 1, [b'X', 0, 0, 0], 40));
    archive.extend_from_slice(&[6u8; 40]);
    let wavs = extract_pac(&archive).unwrap();
    let repacked = create_pac(&wavs).unwrap();
    let again = extract_pac(&repacked).unwrap();
    assert_eq!(again.len(), 2);
    assert_eq!(&again[0][44..], &[1u8, 2, 3, 4, 5][..]);
    assert_eq!(&again[1][44..], &[6u8; 40][..]);
    assert_eq!(read32(&again[0], 24), 44100);
}

#[test]
fn pac_header_parse_reads_written_bytes() {
    let h = PacItemHeader {
        field_a: 0x0102,
        field_b: 0x0304,
        field_c: 0x05060708,
        sample_rate_doubled: 88200,
        sample_size: 2,
        bit_depth: 16,
        magic: [b'J', b'U', 0, 0],
        payload_size_primary: 0x11223344,
        field_unk6: 6,
        field_unk7: 7,
        payload_size: 0xA0B0C0D0,
    };
    let mut out = vec![0xFFu8];
    h.write_to(&mut out);
    assert_eq!(out.len(), 33);
    assert_eq!(&out[1..3], &[0x02u8, 0x01][..]);
    let p = PacItemHeader::parse(&out, 1).unwrap();
    assert_eq!(p.field_c, 0x05060708);
    assert_eq!(p.magic, [b'J', b'U', 0, 0]);
    assert_eq!(p.payload_size_primary, 0x11223344);
    assert_eq!(p.payload_size, 0xA0B0C0D0);
    assert_eq!(PacItemHeader::parse(&out, 2).unwrap_err(), PacError::TruncatedHeader);
}

#[test]
fn wav_header_parse_reads_fields() {
    let w = wav_file(11025, 8, &[1u8, 2]);
    let h = WavHeader::parse(&w).unwrap();
    assert_eq!(h.sample_rate, 11025);
    assert_eq!(h.bit_depth, 8);
    assert_eq!(h.data_size, 2);
    assert_eq!(h.riff_tag, *b"RIFF");
    assert_eq!(WavHeader::parse(&w[..43]).unwrap_err(), PacError::TruncatedHeader);
}
