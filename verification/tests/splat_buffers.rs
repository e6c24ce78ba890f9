use nanotracer::adam::{AdamConfig, AdamState};
use nanotracer::float_bits::Vec3;
use nanotracer::ply::Gaussian;
use nanotracer::slab::{copy_words, push_all, push_zeros, swap_remove_words};
use nanotracer::splat_gpu::{
    attribute_sizes, pad3_to_vec4, pad45_to_48, unpad_48_to_45, unpad_vec4_to_3, AdamMomentBuffers,
    GpuSplatBuffer,
};
use nanotracer::splat_store::SplatBuffer;
use nanotracer::staging::{device_bytes, device_words};
use nanotracer::trainer::AdamBank;

fn b(x: f32) -> u32 {
    x.to_bits()
}

fn splat(x: f32) -> Vec3 {
    Vec3::new(b(x), b(x), b(x))
}

fn sample_buffer() -> SplatBuffer {
    let mut buf = SplatBuffer::default();
    for i in 0..3 {
        let f = i as f32;
        let mut rest = [0u32; 45];
        for (k, slot) in rest.iter_mut().enumerate() {
            *slot = b(f * 100.0 + k as f32);
        }
        buf.push_splat(
            Vec3::new(b(f), b(f * 2.0), b(f * 3.0)),
            [b(1.0 + f), b(0.1 * f), b(0.2 * f), b(0.3 * f)],
            [b(-0.5 * f), b(-0.6 * f), b(-0.7 * f)],
            b(0.9 * (f + 1.0)),
            [b(0.1 * f), b(0.2 * f), b(0.3 * f)],
            &rest,
        );
    }
    buf
}

#[test]
fn roundtrip_from_to_gaussians() {
    let g = Gaussian {
        pos: Vec3::new(b(1.0), b(2.0), b(3.0)),
        normal: Vec3::new(b(0.0), b(1.0), b(0.0)),
        sh_dc: [b(0.1), b(0.2), b(0.3)],
        sh_rest: vec![0; 45],
        opacity: b(1.5),
        scale: [b(-2.0), b(-2.0), b(-3.0)],
        rotation: [b(1.0), b(0.0), b(0.0), b(0.0)],
    };
    let (pos, sh_dc, opacity) = (g.pos, g.sh_dc, g.opacity);
    let buf = SplatBuffer::from_gaussians(&[g]);
    let back = buf.to_gaussians();
    assert_eq!(back.len(), 1);
    assert_eq!(back[0].pos, pos);
    assert_eq!(back[0].sh_dc, sh_dc);
    assert_eq!(back[0].opacity, opacity);
}

#[test]
fn swap_remove_keeps_invariants() {
    let mut buf = SplatBuffer::default();
    for i in 0..5 {
        buf.push_splat(
            splat(i as f32),
            [b(1.0), b(0.0), b(0.0), b(0.0)],
            [b(-1.0), b(-1.0), b(-1.0)],
            b(1.0),
            [b(0.1), b(0.2), b(0.3)],
            &[0; 45],
        );
    }
    buf.swap_remove(1);
    assert_eq!(buf.len(), 4);
    assert_eq!(buf.sh_rest.len(), 4 * 45);
    assert_eq!(buf.positions[1], splat(4.0));
}

#[test]
fn swap_remove_moves_the_last_coefficients_too() {
    let mut buf = sample_buffer();
    let last = buf.rest_of(2);
    buf.swap_remove(0);
    assert_eq!(buf.rest_of(0), last);
    assert_eq!(buf.opacities, vec![b(0.9 * 3.0), b(0.9 * 2.0)]);
    assert!(!buf.is_empty());
    buf.swap_remove(1);
    buf.swap_remove(0);
    assert!(buf.is_empty());
}

#[test]
fn grow_and_shrink_match_buffer_pattern() {
    let mut s = AdamState::new(AdamConfig::default(), 4);
    s.grow(2);
    assert_eq!(s.m.len(), 6);
    s.swap_remove_range(1, 2);
    assert_eq!(s.m.len(), 4);
}

#[test]
fn default_hyperparameters_are_the_usual_ones() {
    let cfg = AdamConfig::default();
    assert_eq!(cfg.lr, b(1.6e-4));
    assert_eq!(cfg.beta1, b(0.9));
    assert_eq!(cfg.beta2, b(0.999));
    assert_eq!(cfg.eps, b(1e-15));
}

#[test]
fn removing_a_range_near_the_end_keeps_what_is_behind_it() {
    let mut words = vec![10, 11, 12, 13, 14, 15];
    swap_remove_words(&mut words, 3, 2);
    assert_eq!(words, vec![10, 11, 12, 15]);
    let mut s = AdamState::new(AdamConfig::default(), 0);
    push_all(&mut s.m, &[20, 21, 22, 23, 24, 25]);
    push_all(&mut s.v, &[30, 31, 32, 33, 34, 35]);
    s.t = 7;
    s.swap_remove_range(3, 2);
    assert_eq!(s.m, vec![20, 21, 22, 25]);
    assert_eq!(s.v, vec![30, 31, 32, 35]);
    assert_eq!(s.t, 7);
    swap_remove_words(&mut words, 1, 0);
    assert_eq!(words, vec![10, 11, 12, 15]);
    swap_remove_words(&mut words, 0, 3);
    assert_eq!(words, vec![15]);
}

#[test]
fn removing_a_range_moves_the_tail_into_it() {
    let mut words = vec![0, 1, 2, 3, 4, 5, 6, 7, 8];
    swap_remove_words(&mut words, 3, 3);
    assert_eq!(words, vec![0, 1, 2, 6, 7, 8]);
    swap_remove_words(&mut words, 3, 3);
    assert_eq!(words, vec![0, 1, 2]);
    push_zeros(&mut words, 2);
    push_all(&mut words, &[9]);
    assert_eq!(words, vec![0, 1, 2, 0, 0, 9]);
    assert_eq!(copy_words(&words, 2, 4), vec![2, 0]);
}

#[test]
fn roundtrip_upload_readback() {
    let src = sample_buffer();
    let gpu = GpuSplatBuffer::upload(&src);
    let back = gpu.readback();
    assert_eq!(back.len(), src.len());
    for i in 0..src.len() {
        assert_eq!(back.positions[i], src.positions[i]);
        assert_eq!(back.rotations[i], src.rotations[i]);
        assert_eq!(back.scales[i], src.scales[i]);
        assert_eq!(back.opacities[i], src.opacities[i]);
        assert_eq!(back.sh_dc[i], src.sh_dc[i]);
        let s = i * 45;
        assert_eq!(&back.sh_rest[s..s + 45], &src.sh_rest[s..s + 45]);
    }
}

#[test]
fn uploads_are_padded_to_quadruples() {
    let src = sample_buffer();
    let mut gpu = GpuSplatBuffer::upload(&src);
    assert_eq!(gpu.n, 3);
    assert_eq!(gpu.positions[2], [b(2.0), b(4.0), b(6.0), b(1.0)]);
    assert_eq!(gpu.scales[1], [b(-0.5), b(-0.6), b(-0.7), 0]);
    assert_eq!(gpu.sh_dc[1][3], 0);
    assert_eq!(gpu.sh_rest.len(), 3 * 48);
    assert_eq!(&gpu.sh_rest[45..48], &[0, 0, 0]);
    assert_eq!(gpu.sh_rest[48], b(100.0));

    let mut moved = sample_buffer();
    moved.set_opacity(1, b(-4.0));
    gpu.sync_from(&moved);
    assert_eq!(gpu.opacities[1], b(-4.0));
    assert_eq!(gpu.n, 3);
}

#[test]
fn padding_comes_off_again() {
    let triples: Vec<u32> = (1..7).collect();
    let padded = pad3_to_vec4(&triples, 2);
    assert_eq!(padded, vec![[1, 2, 3, 0], [4, 5, 6, 0]]);
    assert_eq!(unpad_vec4_to_3(&padded), triples);
    let rest: Vec<u32> = (0..90).collect();
    let wide = pad45_to_48(&rest, 2);
    assert_eq!(wide.len(), 96);
    assert_eq!(&wide[44..49], &[44, 0, 0, 0, 45]);
    assert_eq!(unpad_48_to_45(&wide, 2), rest);
}

#[test]
fn moments_come_back_as_they_went() {
    let n = 2;
    let mut bank = AdamBank::new(AdamConfig::default(), AdamConfig::default(), n);
    for i in 0..n * 3 {
        bank.pos.m[i] = i as u32 + 1;
        bank.dc.v[i] = i as u32 + 100;
    }
    for i in 0..n * 45 {
        bank.rest.m[i] = i as u32 + 1000;
    }
    bank.op.v[1] = 77;
    bank.pos.t = 9;
    let image = AdamMomentBuffers::upload_from_cpu(&bank);
    assert_eq!(image.n, 2);
    assert_eq!(image.m_pos[1], [4, 5, 6, 0]);
    let mut back = AdamBank::new(AdamConfig::default(), AdamConfig::default(), 0);
    back.pos.t = 9;
    image.download_to_cpu(&mut back);
    assert_eq!(back.pos.m, bank.pos.m);
    assert_eq!(back.dc.v, bank.dc.v);
    assert_eq!(back.rest.m, bank.rest.m);
    assert_eq!(back.op.v, bank.op.v);
    assert_eq!(back.pos.t, 9);
}

#[test]
fn buffers_are_never_empty() {
    let none = attribute_sizes(0);
    assert_eq!((none.vec4, none.scalar, none.rest), (16, 4, 192));
    let ten = attribute_sizes(10);
    assert_eq!((ten.vec4, ten.scalar, ten.rest), (160, 40, 1920));
}

#[test]
fn words_and_bytes_convert_both_ways() {
    let words = [0x0102_0304u32, 0xffff_0000];
    let bytes = device_bytes(&words);
    assert_eq!(bytes.len(), 8);
    let native: Vec<u8> = words.iter().flat_map(|w| w.to_ne_bytes()).collect();
    assert_eq!(bytes, native);
    assert_eq!(device_words(&bytes), Some(words.to_vec()));
    assert_eq!(device_words(&bytes[..7]), None);
    assert_eq!(device_words(&[]), Some(vec![]));
}
