use gaussian_splats::bytes::read_le_word;
use gaussian_splats::gaussian::{
    gaussian_words, GpuGaussian, RawGaussian, GPU_GAUSSIAN_SIZE, GPU_GAUSSIAN_WORDS,
    RAW_GAUSSIAN_SIZE, RAW_GAUSSIAN_WORDS,
};

fn record(first: u32) -> Vec<u8> {
    let mut bytes = Vec::new();
    for k in 0..62u32 {
        bytes.extend_from_slice(&(first + k).to_le_bytes());
    }
    bytes
}

#[test]
fn record_sizes() {
    assert_eq!(RAW_GAUSSIAN_WORDS, 62);
    assert_eq!(RAW_GAUSSIAN_SIZE, 248);
    assert_eq!(GPU_GAUSSIAN_WORDS, 16);
    assert_eq!(GPU_GAUSSIAN_SIZE, 64);
}

#[test]
fn words_are_read_least_significant_byte_first() {
    let data = [0x78u8, 0x56, 0x34, 0x12, 0xEF, 0xBE, 0xAD, 0xDE, 0xFF];
    assert_eq!(read_le_word(&data, 0), 0x1234_5678);
    assert_eq!(read_le_word(&data, 4), 0xDEAD_BEEF);
    assert_eq!(read_le_word(&data, 1), 0xEF12_3456);
    assert_eq!(read_le_word(&data, 5), 0xFFDE_ADBE);
    assert_eq!(read_le_word(&1.5f32.to_le_bytes(), 0), 1.5f32.to_bits());
}

#[test]
fn stored_record_decodes_field_by_field() {
    let mut data = vec![0xAAu8; 3];
    data.extend_from_slice(&record(1000));
    data.extend_from_slice(&[0x55u8; 5]);
    let raw = RawGaussian::decode(&data, 3);
    assert_eq!(raw.position, [1000, 1001, 1002]);
    assert_eq!(raw.normals, [1003, 1004, 1005]);
    assert_eq!(raw.sh_dc, [1006, 1007, 1008]);
    for k in 0..45 {
        assert_eq!(raw.sh_rest[k], 1009 + k as u32);
    }
    assert_eq!(raw.opacity, 1054);
    assert_eq!(raw.scale, [1055, 1056, 1057]);
    assert_eq!(raw.rotation, [1058, 1059, 1060, 1061]);
}

#[test]
fn gpu_record_keeps_what_the_shaders_read() {
    let raw = RawGaussian::decode(&record(7), 0);
    let rotation = [1.0f32.to_bits(), 0, 0, 0];
    let gpu = GpuGaussian::from_raw(&raw, rotation);
    assert_eq!(gpu.position, raw.position);
    assert_eq!(gpu.opacity_logit, raw.opacity);
    assert_eq!(gpu.sh_dc, raw.sh_dc);
    assert_eq!(gpu._pad0, 0);
    assert_eq!(gpu.scale_log, raw.scale);
    assert_eq!(gpu._pad1, 0);
    assert_eq!(gpu.rotation, rotation);
}

#[test]
fn gpu_words_follow_the_buffer_layout() {
    let a = GpuGaussian {
        position: [1, 2, 3],
        opacity_logit: 4,
        sh_dc: [5, 6, 7],
        _pad0: 0,
        scale_log: [8, 9, 10],
        _pad1: 0,
        rotation: [11, 12, 13, 14],
    };
    let mut b = a;
    b.position = [21, 22, 23];
    let mut out = vec![99u32];
    a.push_words(&mut out);
    assert_eq!(out, vec![99, 1, 2, 3, 4, 5, 6, 7, 0, 8, 9, 10, 0, 11, 12, 13, 14]);
    let all = gaussian_words(&[a, b]);
    assert_eq!(all.len(), 32);
    assert_eq!(&all[0..16], &out[1..]);
    assert_eq!(&all[16..20], &[21, 22, 23, 4][..]);
    assert!(gaussian_words(&[]).is_empty());
}
