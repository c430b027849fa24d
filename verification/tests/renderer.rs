use pathtracer::renderer::backend::RendererBackend;
use pathtracer::renderer::{Renderer, RendererOptions};

fn options(samples: usize, depth: usize, width: usize, height: usize) -> RendererOptions {
    RendererOptions {
        samples,
        max_ray_depth: depth,
        debug_mode: false,
        output_image_dimensions: (width, height),
        backend: RendererBackend::CPU,
    }
}

#[test]
fn renderer_accepts_valid_options() {
    let renderer = Renderer::new(options(1, 6, 1920, 1080));
    assert!(renderer.is_some());
    let renderer = renderer.unwrap();
    assert_eq!(renderer.options.samples, 1);
    assert_eq!(renderer.options.max_ray_depth, 6);
    assert_eq!(renderer.options.output_image_dimensions, (1920, 1080));
}

#[test]
fn renderer_rejects_zero_width() {
    assert!(Renderer::new(options(1, 6, 0, 1080)).is_none());
}

#[test]
fn renderer_rejects_zero_height() {
    assert!(Renderer::new(options(1, 6, 1920, 0)).is_none());
}

#[test]
fn renderer_rejects_zero_bounces() {
    assert!(Renderer::new(options(1, 0, 1920, 1080)).is_none());
}

#[test]
fn renderer_rejects_zero_samples() {
    assert!(Renderer::new(options(0, 6, 1920, 1080)).is_none());
}

#[test]
fn default_options_are_one_sample_six_bounces_full_hd_on_cpu() {
    let o = RendererOptions::default();
    assert_eq!(o.samples, 1);
    assert_eq!(o.max_ray_depth, 6);
    assert_eq!(o.output_image_dimensions, (1920, 1080));
    assert_eq!(o.backend, RendererBackend::CPU);
    assert!(!o.debug_mode);
    assert_eq!(Renderer::default().options.samples, 1);
}

use pathtracer::renderer::backend::cpu::{
    block_of, block_range, block_size, machine_block_size, pixel_count, pixel_position, pixel_seed,
    render_scene, to_rgba, xor_shift, OPAQUE, SEED_OFFSET, SEED_SCALE,
};

#[test]
fn seed_of_first_pixels() {
    assert_eq!(pixel_seed(0), 2418066316);
    assert_eq!(pixel_seed(1), 3405678802);
    assert_eq!(pixel_seed(2), 98323992);
    assert_eq!(pixel_seed(1920 * 1080 - 1), 1260246598);
}

#[test]
fn seed_follows_the_wrapping_formula() {
    for index in [0usize, 7, 1000, 65535, 4_000_000_000, usize::MAX, usize::MAX - 87636354] {
        let expected = SEED_SCALE.wrapping_mul((index as u32).wrapping_add(SEED_OFFSET));
        assert_eq!(pixel_seed(index), expected);
    }
}

#[test]
fn seed_depends_on_the_index_alone() {
    for index in 0..64usize {
        assert_eq!(pixel_seed(index), pixel_seed(index));
    }
    assert_ne!(pixel_seed(10), pixel_seed(11));
}

#[test]
fn xor_shift_draws_known_numbers() {
    let mut state: u32 = 1;
    assert_eq!(xor_shift(&mut state), 270369);
    assert_eq!(state, 270369);
    let mut state: u32 = 2463534242;
    assert_eq!(xor_shift(&mut state), 723471715);
    let mut state: u32 = 0xffff_ffff;
    assert_eq!(xor_shift(&mut state), 253983);
    let mut state: u32 = 0;
    assert_eq!(xor_shift(&mut state), 0);
}

#[test]
fn random_stream_of_a_pixel_repeats_exactly() {
    let mut a: u32 = pixel_seed(0);
    let first = [xor_shift(&mut a), xor_shift(&mut a), xor_shift(&mut a)];
    assert_eq!(first, [2188505892, 1051756782, 3657873464]);
    let mut b: u32 = pixel_seed(0);
    let second = [xor_shift(&mut b), xor_shift(&mut b), xor_shift(&mut b)];
    assert_eq!(first, second);
}

#[test]
fn pixel_position_counts_rows_from_the_bottom() {
    assert_eq!(pixel_position(0, 4, 3), (0, 3));
    assert_eq!(pixel_position(3, 4, 3), (3, 3));
    assert_eq!(pixel_position(4, 4, 3), (0, 2));
    assert_eq!(pixel_position(11, 4, 3), (3, 1));
}

#[test]
fn pixel_count_is_the_product_or_nothing() {
    assert_eq!(pixel_count(1920, 1080), Some(2_073_600));
    assert_eq!(pixel_count(0, 5), Some(0));
    assert_eq!(pixel_count(usize::MAX, 2), None);
}

#[test]
fn block_size_is_an_equal_share_and_at_least_one() {
    assert_eq!(block_size(100, 8), 12);
    assert_eq!(block_size(100, 1), 100);
    assert_eq!(block_size(3, 8), 1);
    assert_eq!(block_size(0, 8), 1);
}

#[test]
fn blocks_cover_every_pixel_once() {
    let pixels: usize = 103;
    let size = block_size(pixels, 8);
    let mut seen = vec![0u32; pixels];
    let mut k: usize = 0;
    let mut previous_end: usize = 0;
    loop {
        let (start, end) = block_range(k, size, pixels);
        assert_eq!(start, previous_end);
        if start == end {
            break;
        }
        for index in start..end {
            seen[index] += 1;
            assert_eq!(block_of(index, size), k);
        }
        previous_end = end;
        k += 1;
    }
    assert_eq!(previous_end, pixels);
    assert!(seen.iter().all(|&n| n == 1));
    assert_eq!(block_range(8, 12, 103), (96, 103));
    assert_eq!(block_range(9, 12, 103), (103, 103));
    assert_eq!(block_range(usize::MAX, 12, 103), (103, 103));
}

#[test]
fn machine_block_size_is_a_share_of_the_pixels() {
    let size = machine_block_size(1000);
    assert!(size >= 1);
    assert!(size <= 1000);
    assert!((1..=1000usize).any(|workers| block_size(1000, workers) == size));
    assert_eq!(machine_block_size(0), 1);
}

#[test]
fn rgba_adds_an_opaque_alpha() {
    let bytes = to_rgba(&vec![[1, 2, 3], [4, 5, 6]]);
    assert_eq!(bytes, vec![1, 2, 3, 255, 4, 5, 6, 255]);
    assert_eq!(OPAQUE, 255);
    assert!(to_rgba(&Vec::new()).is_empty());
}

#[test]
fn render_scene_lays_out_the_image() {
    let renderer = Renderer::new(options(1, 6, 2, 1)).unwrap();
    let image = render_scene(&renderer, &vec![[10, 20, 30], [40, 50, 60]]);
    assert_eq!(image, Some(vec![10, 20, 30, 255, 40, 50, 60, 255]));
}

#[test]
fn render_scene_refuses_a_wrong_number_of_pixels() {
    let renderer = Renderer::new(options(1, 6, 2, 2)).unwrap();
    assert_eq!(render_scene(&renderer, &vec![[10, 20, 30], [40, 50, 60]]), None);
    assert_eq!(render_scene(&renderer, &Vec::new()), None);
}

#[test]
fn the_picture_of_the_hierarchy_takes_one_sample() {
    let mut o = options(16, 6, 4, 4);
    assert_eq!(o.sample_count(), 16);
    o.debug_mode = true;
    assert_eq!(o.sample_count(), 1);
}
