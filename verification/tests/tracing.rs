use vectorloom_local::starvector::{
    max_new_tokens, parse_usize, runtime_device, samples_tokens, uses_official_runtime,
    DeviceChoice, GenerationSettings, GenerationStep, StarVectorRuntime,
};
use vectorloom_local::models::ModelKind;
use vectorloom_local::{
    auto_palette_size, estimate_color_complexity, exceeds_trace_edge, is_accepted_image_type,
    preserves_fine_detail,
    runtime_device_label, runtime_status, trace_palette, uses_fine_simplification, BuildTarget,
    VectorizeError, VectorizedImage,
};

fn pixels_with_colors(colors: &[[u8; 4]]) -> Vec<u8> {
    let mut out = Vec::new();
    for c in colors {
        let mut sample = vec![0u8; 64];
        sample[..4].copy_from_slice(c);
        out.extend(sample);
    }
    out
}

#[test]
fn color_estimate_counts_distinct_visible_classes() {
    let px = pixels_with_colors(&[[255, 80, 40, 255], [250, 85, 45, 255], [30, 60, 230, 255], [1, 2, 3, 8]]);
    assert_eq!(estimate_color_complexity(&px), 2);
    let mut short = px.clone();
    short.truncate(63);
    assert_eq!(estimate_color_complexity(&short), 0);
    assert_eq!(estimate_color_complexity(&[]), 0);
}

#[test]
fn color_estimate_stops_at_the_limit() {
    let colors: Vec<[u8; 4]> = (0..200u32).map(|i| [(i % 16 * 16) as u8, (i / 16 * 16) as u8, 0, 255]).collect();
    assert_eq!(estimate_color_complexity(&pixels_with_colors(&colors)), 96);
}

#[test]
fn palette_size_follows_the_color_estimate() {
    assert_eq!(auto_palette_size(0, 10, 10), 6);
    assert_eq!(auto_palette_size(5, 10, 10), 6);
    assert_eq!(auto_palette_size(6, 10, 10), 12);
    assert_eq!(auto_palette_size(16, 10, 10), 12);
    assert_eq!(auto_palette_size(17, 10, 10), 20);
    assert_eq!(auto_palette_size(40, 10, 10), 20);
    assert_eq!(auto_palette_size(41, 2000, 1000), 36);
    assert_eq!(auto_palette_size(41, 2000, 1001), 28);
    assert_eq!(auto_palette_size(96, u32::MAX, u32::MAX), 28);
    assert!(uses_fine_simplification(6));
    assert!(!uses_fine_simplification(12));
}

#[test]
fn tracing_needs_pixels() {
    assert_eq!(trace_palette(0, 5, &[]), Err(VectorizeError::NoPixels));
    assert_eq!(VectorizeError::NoPixels.message(), "image has no pixels");
    let px = pixels_with_colors(&[[255, 80, 40, 255], [30, 60, 230, 255]]);
    assert_eq!(trace_palette(32, 32, &px), Ok(6));
}

#[test]
fn small_images_keep_fine_detail() {
    assert!(preserves_fine_detail(512, 512));
    assert!(preserves_fine_detail(32, 32));
    assert!(!preserves_fine_detail(513, 10));
    assert!(!preserves_fine_detail(10, 1024));
}

#[test]
fn large_images_are_scaled_down() {
    assert!(!exceeds_trace_edge(4096, 4096));
    assert!(exceeds_trace_edge(4097, 10));
    assert!(exceeds_trace_edge(10, 5000));
}

#[test]
fn only_png_jpeg_and_webp_uploads_are_accepted() {
    assert!(is_accepted_image_type("image/png"));
    assert!(is_accepted_image_type("image/jpeg"));
    assert!(is_accepted_image_type("image/webp"));
    assert!(!is_accepted_image_type("image/gif"));
    assert!(!is_accepted_image_type(""));
}

#[test]
fn runtime_status_reports_model_and_device() {
    let cpu = BuildTarget { apple_silicon: false, cuda: false };
    let s = runtime_status(Some("1b".to_owned()), cpu);
    assert_eq!(s.requested_model, "StarVector 1B");
    assert_eq!(s.device, "CPU · F32");
    assert_eq!(s.precision, "F32");
    assert_eq!(s.model_runtime, "linked and checkpoint-gated");
    assert_eq!(s.fallback_engine, "VTracer spline/cutout pipeline");
    assert!(s.detail.starts_with("Rust StarVector inference is linked."));
    assert_eq!(runtime_status(Some(" 1b".to_owned()), cpu).requested_model, "StarVector 8B");
    assert_eq!(runtime_status(None, cpu).requested_model, "StarVector 8B");
    let both = BuildTarget { apple_silicon: true, cuda: true };
    let s = runtime_status(None, both);
    assert_eq!(s.precision, "BF16");
    assert_eq!(s.device, "Metal · BF16");
    let cuda = runtime_status(None, BuildTarget { apple_silicon: false, cuda: true });
    assert_eq!(cuda.device, "NVIDIA CUDA · GPU");
    assert_eq!(cuda.precision, "FP16");
    assert_eq!(runtime_device_label(BuildTarget { apple_silicon: false, cuda: true }), "NVIDIA CUDA · GPU");
    assert_eq!(runtime_status(None, BuildTarget { apple_silicon: true, cuda: false }).precision, "BF16");
}

#[test]
fn traced_results_name_the_engine() {
    let s = runtime_status(None, BuildTarget { apple_silicon: false, cuda: false });
    let r = VectorizedImage::traced("<svg/>".to_owned(), 3, 4, 9, s);
    assert_eq!(r.engine, "VTracer automatic spline/cutout");
    assert!(r.warning.is_none());
    assert_eq!((r.width, r.height, r.elapsed_ms), (3, 4, 9));
}

#[test]
fn token_budget_parses_like_the_standard_library() {
    assert_eq!(parse_usize("42"), Some(42));
    assert_eq!(parse_usize("+7"), Some(7));
    assert_eq!(parse_usize("+"), None);
    assert_eq!(parse_usize(""), None);
    assert_eq!(parse_usize("-1"), None);
    assert_eq!(parse_usize(" 5"), None);
    assert_eq!(parse_usize("18446744073709551615"), Some(usize::MAX));
    assert_eq!(parse_usize("18446744073709551616"), None);
    assert_eq!(max_new_tokens(None), 7_933);
    assert_eq!(max_new_tokens(Some("abc".to_owned())), 7_933);
    assert_eq!(max_new_tokens(Some("1024".to_owned())), 1024);
}

#[test]
fn runtime_keeps_one_checkpoint_loaded() {
    let cpu = BuildTarget { apple_silicon: false, cuda: false };
    let one_b = GenerationSettings { max_new_tokens: 7_933, num_beams: 1, do_sample: false, seed: 42 };
    let mut r = StarVectorRuntime::new();
    assert!(r.needs_load(ModelKind::OneB));
    assert_eq!(
        r.generate(ModelKind::OneB, true, cpu, None),
        GenerationStep::Native { load: Some(DeviceChoice::Cpu), settings: one_b }
    );
    assert_eq!(r.generate(ModelKind::EightB, true, cpu, None), GenerationStep::Official);
    r.mark_loaded(ModelKind::OneB, DeviceChoice::Cpu);
    assert!(!r.needs_load(ModelKind::OneB));
    assert_eq!(
        r.generate(ModelKind::OneB, false, cpu, Some("512".to_owned())),
        GenerationStep::Native {
            load: None,
            settings: GenerationSettings { max_new_tokens: 512, ..one_b },
        }
    );
    assert_eq!(
        r.generate(ModelKind::EightB, false, BuildTarget { apple_silicon: true, cuda: true }, Some("x".to_owned())),
        GenerationStep::Native {
            load: Some(DeviceChoice::Metal),
            settings: GenerationSettings { do_sample: true, ..one_b },
        }
    );
    assert!(r.needs_load(ModelKind::EightB));
    r.unload(ModelKind::EightB);
    assert!(!r.needs_load(ModelKind::OneB));
    r.unload(ModelKind::OneB);
    assert!(r.needs_load(ModelKind::OneB));
    assert!(uses_official_runtime(ModelKind::EightB, true));
    assert!(!uses_official_runtime(ModelKind::OneB, true));
    assert!(!uses_official_runtime(ModelKind::EightB, false));
    assert!(samples_tokens(ModelKind::EightB));
    assert!(!samples_tokens(ModelKind::OneB));
    let d = runtime_device(BuildTarget { apple_silicon: false, cuda: true });
    assert_eq!(d, DeviceChoice::Cuda);
    assert_eq!(d.name(), "NVIDIA CUDA");
    assert_eq!(runtime_device(BuildTarget { apple_silicon: true, cuda: true }).name(), "Metal/BF16");
    assert_eq!(runtime_device(BuildTarget { apple_silicon: false, cuda: false }).name(), "CPU/F32");
}
