use shadow_analyzer::wav::{decode_wav_mono_16bit, parse_header_minimal, WavError, WavInfo};

fn wav_bytes(sr: u32, channels: u16, pcm: &[i16]) -> Vec<u8> {
    let byte_len = (pcm.len() * 2) as u32;
    let block_align = channels * 2;
    let byte_rate = sr * block_align as u32;
    let riff_size = 36 + byte_len;
    let mut f: Vec<u8> = Vec::new();
    f.extend_from_slice(b"RIFF");
    f.extend_from_slice(&riff_size.to_le_bytes());
    f.extend_from_slice(b"WAVE");
    f.extend_from_slice(b"fmt ");
    f.extend_from_slice(&16u32.to_le_bytes());
    f.extend_from_slice(&1u16.to_le_bytes());
    f.extend_from_slice(&channels.to_le_bytes());
    f.extend_from_slice(&sr.to_le_bytes());
    f.extend_from_slice(&byte_rate.to_le_bytes());
    f.extend_from_slice(&block_align.to_le_bytes());
    f.extend_from_slice(&16u16.to_le_bytes());
    f.extend_from_slice(b"data");
    f.extend_from_slice(&byte_len.to_le_bytes());
    for s in pcm {
        f.extend_from_slice(&s.to_le_bytes());
    }
    f
}

#[test]
fn test_read_wav_stereo_48k_to_mono_24k() {
    let sr = 48000u32;
    let n = 4800usize;
    let mut interleaved: Vec<i16> = Vec::with_capacity(n * 2);
    for i in 0..n {
        let s = (((i as f32 / n as f32) * 2.0 - 1.0) * 0.5 * 32767.0) as i16;
        interleaved.push(s);
        interleaved.push(s);
    }
    let bytes = wav_bytes(sr, 2, &interleaved);
    let mono = decode_wav_mono_16bit(&bytes, Some(24000)).unwrap();
    assert_eq!(mono.sample_rate, 24000);
    assert_eq!(mono.sums.len(), n / 2);
}

#[test]
fn test_read_wav_mono_passthrough() {
    let sr = 48000u32;
    let n = 3200usize;
    let mut mono_i16: Vec<i16> = Vec::with_capacity(n);
    for i in 0..n {
        mono_i16.push(((i as f32 / n as f32) * 2.0 - 1.0) as f32 as i16);
    }
    let bytes = wav_bytes(sr, 1, &mono_i16);
    let mono = decode_wav_mono_16bit(&bytes, None).unwrap();
    assert_eq!(mono.sample_rate, sr);
    assert_eq!(mono.sums.len(), n);
}

#[test]
fn header_reports_format_and_data_span() {
    let bytes = wav_bytes(44100, 2, &[1, 2, 3, 4]);
    let (info, off, len) = parse_header_minimal(&bytes).unwrap();
    assert_eq!(info, WavInfo { sample_rate: 44100, channels: 2, bits_per_sample: 16 });
    assert_eq!(off, 44);
    assert_eq!(len, 8);
}

#[test]
fn stereo_frames_are_summed_and_scaled() {
    let bytes = wav_bytes(44100, 2, &[100, -300, 32767, -32768, 5, 7]);
    let mono = decode_wav_mono_16bit(&bytes, None).unwrap();
    assert_eq!(mono.sums, vec![-200, -1, 12]);
    assert_eq!(mono.scale, 65536);
    assert_eq!(mono.sample_rate, 44100);
}

#[test]
fn decimation_sums_pairs_and_drops_remainder() {
    let bytes = wav_bytes(48000, 1, &[10, 20, -5, 7, 1000]);
    let mono = decode_wav_mono_16bit(&bytes, Some(24000)).unwrap();
    assert_eq!(mono.sums, vec![30, 2]);
    assert_eq!(mono.scale, 65536);
    assert_eq!(mono.sample_rate, 24000);
}

#[test]
fn other_rate_pairs_pass_through() {
    let bytes = wav_bytes(44100, 1, &[1, 2, 3]);
    let mono = decode_wav_mono_16bit(&bytes, Some(24000)).unwrap();
    assert_eq!(mono.sums, vec![1, 2, 3]);
    assert_eq!(mono.sample_rate, 44100);
}

#[test]
fn empty_data_keeps_source_rate() {
    let bytes = wav_bytes(48000, 1, &[]);
    let mono = decode_wav_mono_16bit(&bytes, Some(16000)).unwrap();
    assert!(mono.sums.is_empty());
    assert_eq!(mono.sample_rate, 48000);
    let odd = decode_wav_mono_16bit(&bytes, Some(1000)).unwrap();
    assert_eq!(odd.sample_rate, 48000);
}

#[test]
fn empty_data_halves_48k_to_24k() {
    let bytes = wav_bytes(48000, 1, &[]);
    let mono = decode_wav_mono_16bit(&bytes, Some(24000)).unwrap();
    assert!(mono.sums.is_empty());
    assert_eq!(mono.sample_rate, 24000);
}

#[test]
fn extra_chunks_are_skipped() {
    let mut bytes = wav_bytes(48000, 1, &[9, 8]);
    // Insert a LIST chunk between fmt and data.
    let mut list = Vec::new();
    list.extend_from_slice(b"LIST");
    list.extend_from_slice(&4u32.to_le_bytes());
    list.extend_from_slice(b"abcd");
    let tail = bytes.split_off(36);
    bytes.extend_from_slice(&list);
    bytes.extend_from_slice(&tail);
    let mono = decode_wav_mono_16bit(&bytes, None).unwrap();
    assert_eq!(mono.sums, vec![9, 8]);
}

#[test]
fn too_small_is_refused() {
    assert_eq!(decode_wav_mono_16bit(&[0u8; 20], None).err(), Some(WavError::TooSmall));
}

#[test]
fn wrong_magic_is_refused() {
    let mut bytes = wav_bytes(48000, 1, &[1, 2]);
    bytes[8] = b'X';
    assert_eq!(decode_wav_mono_16bit(&bytes, None).err(), Some(WavError::NotRiffWave));
}

#[test]
fn chunk_past_end_is_refused() {
    let mut bytes = wav_bytes(48000, 1, &[1, 2]);
    bytes[40..44].copy_from_slice(&100u32.to_le_bytes());
    assert_eq!(decode_wav_mono_16bit(&bytes, None).err(), Some(WavError::ChunkOutOfBounds));
}

#[test]
fn short_fmt_is_refused() {
    let mut bytes = wav_bytes(48000, 1, &[1, 2, 3, 4, 5, 6, 7, 8]);
    bytes[16..20].copy_from_slice(&8u32.to_le_bytes());
    assert_eq!(decode_wav_mono_16bit(&bytes, None).err(), Some(WavError::FmtTooSmall));
}

#[test]
fn non_pcm_is_refused() {
    let mut bytes = wav_bytes(48000, 1, &[1, 2]);
    bytes[20..22].copy_from_slice(&3u16.to_le_bytes());
    assert_eq!(decode_wav_mono_16bit(&bytes, None).err(), Some(WavError::UnsupportedFormat(3)));
}

#[test]
fn missing_fmt_is_refused() {
    let mut bytes = wav_bytes(48000, 1, &[1, 2]);
    bytes[12..16].copy_from_slice(b"junk");
    assert_eq!(decode_wav_mono_16bit(&bytes, None).err(), Some(WavError::MissingFmt));
}

#[test]
fn missing_data_is_refused() {
    let mut bytes = wav_bytes(48000, 1, &[1, 2]);
    bytes[36..40].copy_from_slice(b"junk");
    assert_eq!(decode_wav_mono_16bit(&bytes, None).err(), Some(WavError::MissingData));
}

#[test]
fn eight_bit_is_refused() {
    let mut bytes = wav_bytes(48000, 1, &[1, 2]);
    bytes[34..36].copy_from_slice(&8u16.to_le_bytes());
    assert_eq!(decode_wav_mono_16bit(&bytes, None).err(), Some(WavError::UnsupportedBits(8)));
}

#[test]
fn mono_48k_lengths_with_and_without_target() {
    let pcm: Vec<i16> = (0..1001).map(|i| (i % 50) as i16).collect();
    let bytes = wav_bytes(48000, 1, &pcm);
    let half = decode_wav_mono_16bit(&bytes, Some(24000)).unwrap();
    assert_eq!(half.sums.len(), 500);
    assert_eq!(half.sample_rate, 24000);
    let full = decode_wav_mono_16bit(&bytes, None).unwrap();
    assert_eq!(full.sums.len(), 1001);
    assert_eq!(full.sample_rate, 48000);
}
