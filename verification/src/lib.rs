//! Image vectorization: the decisions of the tracing pipeline, the runtime status report,
//! the model catalog and download state, and the checks applied to model-generated SVG.
use vstd::prelude::*;

pub mod models;
pub mod starvector;
pub mod text;

verus! {

/// Longest image edge that the tracer accepts without downscaling.
pub const MAX_EDGE: u32 = 4096;

/// Most distinct colors that the complexity estimate counts before it stops.
pub const COLOR_SAMPLE_LIMIT: usize = 96;

/// What the build was compiled for: an Apple Silicon macOS target, and whether the
/// CUDA feature is on. The two are independent.
#[derive(Debug, Clone, Copy, PartialEq, Eq, Structural)]
pub struct BuildTarget {
    pub apple_silicon: bool,
    pub cuda: bool,
}

/// What the server reports about its inference runtime.
#[derive(Debug, Clone)]
pub struct RuntimeStatus {
    pub requested_model: &'static str,
    pub device: String,
    pub precision: &'static str,
    pub model_runtime: &'static str,
    pub fallback_engine: &'static str,
    pub detail: String,
}

/// The result of converting an image to SVG.
#[derive(Debug)]
pub struct VectorizedImage {
    pub svg: String,
    pub width: u32,
    pub height: u32,
    pub elapsed_ms: u128,
    pub engine: String,
    pub status: RuntimeStatus,
    pub warning: Option<String>,
}

/// Why an image cannot be traced.
#[derive(Debug, Clone, Copy, PartialEq, Eq, Structural)]
pub enum VectorizeError {
    /// The decoded image has no pixels.
    NoPixels,
}

impl VectorizeError {
    /// The message shown to users for this error.
    pub fn message(&self) -> (m: &'static str)
        ensures
            m@ == "image has no pixels"@,
    {
        match self {
            VectorizeError::NoPixels => "image has no pixels",
        }
    }
}

/// The device label that the model catalog shows for a build target.
pub open spec fn device_label_text(target: BuildTarget) -> Seq<char> {
    if target.apple_silicon {
        "Metal · BF16"@
    } else if target.cuda {
        "NVIDIA CUDA · GPU"@
    } else {
        "CPU · F32"@
    }
}

/// The device label of the runtime: Apple Silicon is checked before CUDA.
pub fn runtime_device_label(target: BuildTarget) -> (label: &'static str)
    ensures
        label@ == device_label_text(target),
{
    if target.apple_silicon {
        "Metal · BF16"
    } else if target.cuda {
        "NVIDIA CUDA · GPU"
    } else {
        "CPU · F32"
    }
}

/// The numeric precision of a build target, in the order of the device: Apple Silicon runs
/// Metal with BF16, else CUDA runs FP16, else the CPU runs F32.
pub open spec fn precision_text(target: BuildTarget) -> Seq<char> {
    if target.apple_silicon {
        "BF16"@
    } else if target.cuda {
        "FP16"@
    } else {
        "F32"@
    }
}

/// The precision reported follows the device: Metal runs BF16, CUDA runs FP16 and the CPU
/// runs F32.
pub proof fn precision_follows_device(target: BuildTarget)
    ensures
        device_label_text(target) == "Metal · BF16"@ ==> precision_text(target) == "BF16"@,
        device_label_text(target) == "NVIDIA CUDA · GPU"@ ==> precision_text(target) == "FP16"@,
        device_label_text(target) == "CPU · F32"@ ==> precision_text(target) == "F32"@,
{
    reveal_strlit("Metal · BF16");
    reveal_strlit("NVIDIA CUDA · GPU");
    reveal_strlit("CPU · F32");
    assert("Metal · BF16"@[0] != "NVIDIA CUDA · GPU"@[0]);
    assert("Metal · BF16"@[0] != "CPU · F32"@[0]);
    assert("CPU · F32"@[0] != "NVIDIA CUDA · GPU"@[0]);
}

/// The model that the `VECTOR_MODEL` setting requests: exactly `1b` asks for the 1B model,
/// anything else (or no setting) for the 8B model.
pub open spec fn requested_model_text(setting: Option<Seq<char>>) -> Seq<char> {
    if setting == Some("1b"@) {
        "StarVector 1B"@
    } else {
        "StarVector 8B"@
    }
}

/// The fixed explanation that the status report carries.
pub open spec fn status_detail_text() -> Seq<char> {
    "Rust StarVector inference is linked. Downloaded checkpoints run in-process; missing or invalid model output uses the visible VTracer fallback."@
}

/// Whether `a` and `b` hold the same characters.
pub fn same_text(a: &str, b: &str) -> (r: bool)
    ensures
        r == (a@ == b@),
{
    let x = text::to_chars(a);
    let y = text::to_chars(b);
    if x.len() != y.len() {
        return false;
    }
    let mut i: usize = 0;
    while i < x.len()
        invariant
            x@ == a@,
            y@ == b@,
            x.len() == y.len(),
            i <= x.len(),
            forall|j: int| 0 <= j < i ==> x@[j] == y@[j],
        decreases x.len() - i,
    {
        if x[i] != y[i] {
            return false;
        }
        i = i + 1;
    }
    assert(x@ =~= y@);
    true
}

/// The runtime status for the `VECTOR_MODEL` setting (`None` when it is unset or not
/// Unicode) on a build target.
pub fn runtime_status(requested: Option<String>, target: BuildTarget) -> (status: RuntimeStatus)
    ensures
        status.requested_model@ == requested_model_text(
            match requested {
                Some(s) => Some(s@),
                None => None,
            },
        ),
        status.device@ == device_label_text(target),
        status.precision@ == precision_text(target),
        status.model_runtime@ == "linked and checkpoint-gated"@,
        status.fallback_engine@ == "VTracer spline/cutout pipeline"@,
        status.detail@ == status_detail_text(),
{
    let requested_model = match &requested {
        Some(s) => if same_text(s.as_str(), "1b") {
            "StarVector 1B"
        } else {
            "StarVector 8B"
        },
        None => "StarVector 8B",
    };
    let device = runtime_device_label(target).to_owned();
    let detail = "Rust StarVector inference is linked. Downloaded checkpoints run in-process; missing or invalid model output uses the visible VTracer fallback.".to_owned();
    let precision = if target.apple_silicon {
        "BF16"
    } else if target.cuda {
        "FP16"
    } else {
        "F32"
    };
    RuntimeStatus {
        requested_model,
        device,
        precision,
        model_runtime: "linked and checkpoint-gated",
        fallback_engine: "VTracer spline/cutout pipeline",
        detail,
    }
}

/// Whether an image of the given size is larger than the tracer accepts on its longest edge.
pub fn exceeds_trace_edge(width: u32, height: u32) -> (r: bool)
    ensures
        r == (width > MAX_EDGE || height > MAX_EDGE),
{
    let edge = if width >= height {
        width
    } else {
        height
    };
    edge > MAX_EDGE
}

/// Longest image edge up to which direct tracing keeps small regions and finer curves.
pub const DETAIL_EDGE: u32 = 512;

/// Whether tracing an image of the given size keeps small regions and finer curves: images
/// up to `DETAIL_EDGE` pixels on their longest edge, such as small logos.
pub fn preserves_fine_detail(width: u32, height: u32) -> (r: bool)
    ensures
        r == (width <= DETAIL_EDGE && height <= DETAIL_EDGE),
{
    width <= DETAIL_EDGE && height <= DETAIL_EDGE
}

/// Whether an upload's content type is one that the service converts.
pub fn is_accepted_image_type(content_type: &str) -> (r: bool)
    ensures
        r == (content_type@ == "image/png"@ || content_type@ == "image/jpeg"@ || content_type@
            == "image/webp"@),
{
    same_text(content_type, "image/png") || same_text(content_type, "image/jpeg") || same_text(
        content_type,
        "image/webp",
    )
}

// Color complexity of an RGBA image.

/// Number of 64-byte samples in the pixel buffer (one sample every 16 pixels; a trailing
/// partial sample is ignored).
pub open spec fn sample_count(pixels: Seq<u8>) -> int {
    (pixels.len() / 64) as int
}

/// The sample at `i` counts when the alpha of its first pixel is above 8.
pub open spec fn sample_visible(pixels: Seq<u8>, i: int) -> bool {
    pixels[64 * i + 3] > 8
}

/// The color class of sample `i`: its first pixel's red, green and blue reduced to their
/// upper four bits, packed into one number below 4096.
pub open spec fn sample_color(pixels: Seq<u8>, i: int) -> u16 {
    ((pixels[64 * i] / 16) * 256 + (pixels[64 * i + 1] / 16) * 16 + pixels[64 * i + 2] / 16) as u16
}

/// The color classes of the visible samples among the first `n`.
pub open spec fn seen_colors(pixels: Seq<u8>, n: int) -> Set<u16>
    decreases n,
{
    if n <= 0 {
        Set::empty()
    } else if sample_visible(pixels, n - 1) {
        seen_colors(pixels, n - 1).insert(sample_color(pixels, n - 1))
    } else {
        seen_colors(pixels, n - 1)
    }
}

proof fn lemma_seen_colors_grow(pixels: Seq<u8>, n: int)
    requires
        n >= 0,
    ensures
        seen_colors(pixels, n).finite(),
        seen_colors(pixels, n + 1).finite(),
        seen_colors(pixels, n).len() <= seen_colors(pixels, n + 1).len() <= seen_colors(
            pixels,
            n,
        ).len() + 1,
    decreases n,
{
    broadcast use vstd::set::group_set_axioms;

    if n > 0 {
        lemma_seen_colors_grow(pixels, n - 1);
    } else {
        assert(seen_colors(pixels, 0) == Set::<u16>::empty());
    }
    let s = seen_colors(pixels, n);
    if sample_visible(pixels, n) {
        assert(seen_colors(pixels, n + 1) == s.insert(sample_color(pixels, n)));
    } else {
        assert(seen_colors(pixels, n + 1) == s);
    }
}

proof fn lemma_seen_colors_monotone(pixels: Seq<u8>, n: int, m: int)
    requires
        0 <= n <= m,
    ensures
        seen_colors(pixels, n).len() <= seen_colors(pixels, m).len(),
    decreases m - n,
{
    if n < m {
        lemma_seen_colors_grow(pixels, m - 1);
        lemma_seen_colors_monotone(pixels, n, m - 1);
    }
}

/// The estimate of how many colors an image uses: distinct color classes among the
/// visible samples, counted up to `COLOR_SAMPLE_LIMIT`.
pub open spec fn color_complexity(pixels: Seq<u8>) -> int {
    let total = seen_colors(pixels, sample_count(pixels)).len() as int;
    if total < COLOR_SAMPLE_LIMIT {
        total
    } else {
        COLOR_SAMPLE_LIMIT as int
    }
}

/// Estimates how many distinct colors an RGBA image uses, from one pixel every 64 bytes.
pub fn estimate_color_complexity(pixels: &[u8]) -> (count: usize)
    ensures
        count == color_complexity(pixels@),
        count <= COLOR_SAMPLE_LIMIT,
{
    broadcast use vstd::std_specs::hash::group_hash_axioms;

    let mut seen: std::collections::HashSet<u16> = std::collections::HashSet::new();
    let samples = pixels.len() / 64;
    let mut i: usize = 0;
    proof {
        lemma_seen_colors_grow(pixels@, 0);
        assert(seen@ == seen_colors(pixels@, 0));
    }
    while i < samples
        invariant
            samples == sample_count(pixels@),
            samples == pixels.len() / 64,
            i <= samples,
            seen@ == seen_colors(pixels@, i as int),
            seen_colors(pixels@, i as int).finite(),
            seen_colors(pixels@, i as int).len() < COLOR_SAMPLE_LIMIT,
        decreases samples - i,
    {
        proof {
            lemma_seen_colors_grow(pixels@, i as int);
        }
        assert(64 * i + 64 <= pixels.len()) by (nonlinear_arith)
            requires
                i < samples,
                samples == pixels.len() / 64,
        ;
        let base = 64 * i;
        if pixels[base + 3] > 8 {
            let key: u16 = (pixels[base] / 16) as u16 * 256 + (pixels[base + 1] / 16) as u16 * 16
                + (pixels[base + 2] / 16) as u16;
            assert(key == sample_color(pixels@, i as int));
            seen.insert(key);
        }
        i = i + 1;
        if seen.len() >= COLOR_SAMPLE_LIMIT {
            proof {
                lemma_seen_colors_monotone(pixels@, i as int, samples as int);
            }
            return seen.len();
        }
    }
    seen.len()
}

/// The palette size for a color estimate and an image area.
pub open spec fn palette_size_for(color_count: int, area: int) -> int {
    if color_count <= 5 {
        6
    } else if color_count <= 16 {
        12
    } else if color_count <= 40 {
        20
    } else if area > 2_000_000 {
        28
    } else {
        36
    }
}

/// The number of colors the tracer may use, from the color estimate and the image size.
pub fn auto_palette_size(color_count: usize, width: u32, height: u32) -> (size: usize)
    ensures
        size == palette_size_for(color_count as int, width * height),
{
    assert((width as u64) * (height as u64) <= 0xFFFF_FFFE_0000_0001) by (nonlinear_arith)
        requires
            width <= 0xFFFF_FFFF,
            height <= 0xFFFF_FFFF,
    ;
    let area = width as u64 * height as u64;
    if color_count <= 5 {
        6
    } else if color_count <= 16 {
        12
    } else if color_count <= 40 {
        20
    } else if area > 2_000_000 {
        28
    } else {
        36
    }
}

/// Whether the tracer uses its finer path simplification for a palette size (8 colors or fewer).
pub fn uses_fine_simplification(max_colors: usize) -> (r: bool)
    ensures
        r == (max_colors <= 8),
{
    max_colors <= 8
}

/// The palette size to trace an RGBA image of the given size with, or the error for an
/// image without pixels.
pub fn trace_palette(width: u32, height: u32, pixels: &[u8]) -> (r: Result<usize, VectorizeError>)
    ensures
        (width == 0 || height == 0) ==> r == Err::<usize, VectorizeError>(VectorizeError::NoPixels),
        (width != 0 && height != 0) ==> r == Ok::<usize, VectorizeError>(
            palette_size_for(color_complexity(pixels@), width * height) as usize,
        ),
{
    if width == 0 || height == 0 {
        return Err(VectorizeError::NoPixels);
    }
    let colors = estimate_color_complexity(pixels);
    Ok(auto_palette_size(colors, width, height))
}

impl VectorizedImage {
    /// The result of tracing an image with VTracer.
    pub fn traced(svg: String, width: u32, height: u32, elapsed_ms: u128, status: RuntimeStatus) -> (r: Self)
        ensures
            r.svg == svg,
            r.width == width,
            r.height == height,
            r.elapsed_ms == elapsed_ms,
            r.engine@ == "VTracer automatic spline/cutout"@,
            r.status == status,
            r.warning is None,
    {
        VectorizedImage {
            svg,
            width,
            height,
            elapsed_ms,
            engine: "VTracer automatic spline/cutout".to_owned(),
            status,
            warning: None,
        }
    }
}

/// The palette size never decreases as the color estimate grows.
pub proof fn palette_size_grows_with_colors(a: int, b: int, area: int)
    requires
        a <= b,
    ensures
        palette_size_for(a, area) <= palette_size_for(b, area),
{
}

// Laws of the color estimate, the palette and the status report.

proof fn lemma_pack_channels(r: int, g: int, b: int)
    by (nonlinear_arith)
    requires
        0 <= r < 16,
        0 <= g < 16,
        0 <= b < 16,
    ensures
        (r * 256 + g * 16 + b) / 256 == r,
        ((r * 256 + g * 16 + b) / 16) % 16 == g,
        (r * 256 + g * 16 + b) % 16 == b,
        0 <= r * 256 + g * 16 + b < 4096,
{
}

/// The color class of a sample keeps the upper four bits of the red, green and blue bytes of
/// its first pixel: each can be read back from the class, so two samples fall in the same
/// class exactly when all three agree.
pub proof fn color_class_keeps_each_channel(pixels: Seq<u8>, i: int, j: int)
    requires
        0 <= i < sample_count(pixels),
        0 <= j < sample_count(pixels),
    ensures
        sample_color(pixels, i) / 256 == pixels[64 * i] / 16,
        (sample_color(pixels, i) / 16) % 16 == pixels[64 * i + 1] / 16,
        sample_color(pixels, i) % 16 == pixels[64 * i + 2] / 16,
        sample_color(pixels, i) == sample_color(pixels, j) <==> (pixels[64 * i] / 16 == pixels[64
            * j] / 16 && pixels[64 * i + 1] / 16 == pixels[64 * j + 1] / 16 && pixels[64 * i + 2]
            / 16 == pixels[64 * j + 2] / 16),
{
    let (ri, gi, bi) = (
        (pixels[64 * i] / 16) as int,
        (pixels[64 * i + 1] / 16) as int,
        (pixels[64 * i + 2] / 16) as int,
    );
    let (rj, gj, bj) = (
        (pixels[64 * j] / 16) as int,
        (pixels[64 * j + 1] / 16) as int,
        (pixels[64 * j + 2] / 16) as int,
    );
    lemma_pack_channels(ri, gi, bi);
    lemma_pack_channels(rj, gj, bj);
    assert(sample_color(pixels, i) == ri * 256 + gi * 16 + bi);
    assert(sample_color(pixels, j) == rj * 256 + gj * 16 + bj);
}

proof fn lemma_seen_colors_are_visible(pixels: Seq<u8>, n: int, c: u16)
    requires
        0 <= n,
    ensures
        seen_colors(pixels, n).contains(c) <==> exists|i: int|
            0 <= i < n && pixels[64 * i + 3] > 8 && #[trigger] sample_color(pixels, i) == c,
    decreases n,
{
    if n > 0 {
        lemma_seen_colors_are_visible(pixels, n - 1, c);
        if exists|i: int|
            0 <= i < n && pixels[64 * i + 3] > 8 && #[trigger] sample_color(pixels, i) == c {
            let i = choose|i: int|
                0 <= i < n && pixels[64 * i + 3] > 8 && #[trigger] sample_color(pixels, i) == c;
            if i < n - 1 {
                assert(seen_colors(pixels, n - 1).contains(c));
            }
        }
        if seen_colors(pixels, n).contains(c) && !seen_colors(pixels, n - 1).contains(c) {
            assert(sample_color(pixels, n - 1) == c);
        }
    } else {
        assert(seen_colors(pixels, 0) == Set::<u16>::empty());
    }
}

/// The classes that the estimate counts are exactly those of the samples whose first pixel
/// has an alpha above 8.
pub proof fn counted_classes_are_those_of_visible_samples(pixels: Seq<u8>, c: u16)
    ensures
        seen_colors(pixels, sample_count(pixels)).contains(c) <==> exists|i: int|
            0 <= i < sample_count(pixels) && pixels[64 * i + 3] > 8 && #[trigger] sample_color(
                pixels,
                i,
            ) == c,
{
    lemma_seen_colors_are_visible(pixels, sample_count(pixels), c);
}

/// An image whose samples all have an alpha of 8 or less counts no color.
pub proof fn transparent_images_count_no_color(pixels: Seq<u8>)
    requires
        forall|i: int| 0 <= i < sample_count(pixels) ==> #[trigger] pixels[64 * i + 3] <= 8,
    ensures
        color_complexity(pixels) == 0,
{
    let s = seen_colors(pixels, sample_count(pixels));
    assert forall|c: u16| !s.contains(c) by {
        lemma_seen_colors_are_visible(pixels, sample_count(pixels), c);
    }
    assert(s =~= Set::<u16>::empty());
    lemma_seen_colors_grow(pixels, sample_count(pixels));
}

/// Two visible samples whose first pixels differ in the upper four bits of red, green or blue
/// are two colors: the estimate is at least 2.
pub proof fn differently_colored_samples_count_twice(pixels: Seq<u8>, i: int, j: int)
    requires
        0 <= i < sample_count(pixels),
        0 <= j < sample_count(pixels),
        pixels[64 * i + 3] > 8,
        pixels[64 * j + 3] > 8,
        pixels[64 * i] / 16 != pixels[64 * j] / 16 || pixels[64 * i + 1] / 16 != pixels[64 * j + 1]
            / 16 || pixels[64 * i + 2] / 16 != pixels[64 * j + 2] / 16,
    ensures
        color_complexity(pixels) >= 2,
{
    let n = sample_count(pixels);
    let s = seen_colors(pixels, n);
    let a = sample_color(pixels, i);
    let b = sample_color(pixels, j);
    color_class_keeps_each_channel(pixels, i, j);
    lemma_seen_colors_are_visible(pixels, n, a);
    lemma_seen_colors_are_visible(pixels, n, b);
    lemma_seen_colors_grow(pixels, n);
    let pair = Set::<u16>::empty().insert(a).insert(b);
    assert(pair.subset_of(s));
    vstd::set_lib::lemma_len_subset(pair, s);
    assert(pair.len() == 2) by {
        vstd::set::axiom_set_insert_len(Set::<u16>::empty(), a);
        vstd::set::axiom_set_insert_len(Set::<u16>::empty().insert(a), b);
        broadcast use vstd::set::axiom_set_empty_len;
    }
}

/// The estimate reads one sample in every 64 bytes, whole samples only, and counts the
/// classes it saw up to 96; it never passes the number of samples.
pub proof fn color_estimate_is_bounded(pixels: Seq<u8>)
    ensures
        sample_count(pixels) * 64 <= pixels.len() < sample_count(pixels) * 64 + 64,
        0 <= color_complexity(pixels) <= 96,
        seen_colors(pixels, sample_count(pixels)).len() < 96 ==> color_complexity(pixels)
            == seen_colors(pixels, sample_count(pixels)).len(),
        seen_colors(pixels, sample_count(pixels)).len() >= 96 ==> color_complexity(pixels) == 96,
        color_complexity(pixels) <= sample_count(pixels),
{
    lemma_seen_colors_bound(pixels, sample_count(pixels));
}

proof fn lemma_seen_colors_bound(pixels: Seq<u8>, n: int)
    requires
        0 <= n,
    ensures
        seen_colors(pixels, n).finite(),
        seen_colors(pixels, n).len() <= n,
    decreases n,
{
    lemma_seen_colors_grow(pixels, n);
    if n > 0 {
        lemma_seen_colors_bound(pixels, n - 1);
        lemma_seen_colors_grow(pixels, n - 1);
        let s = seen_colors(pixels, n - 1);
        if sample_visible(pixels, n - 1) {
            vstd::set::axiom_set_insert_len(s, sample_color(pixels, n - 1));
        }
    } else {
        assert(seen_colors(pixels, 0) == Set::<u16>::empty());
        broadcast use vstd::set::axiom_set_empty_len;
    }
}

/// Up to 5 colors are traced with 6, up to 16 with 12, up to 40 with 20, and more with 36,
/// or 28 on images over two million pixels; a larger image never gets a larger palette.
pub proof fn palette_sizes(count: int, area: int, larger_area: int)
    requires
        area <= larger_area,
    ensures
        0 <= count <= 5 ==> palette_size_for(count, area) == 6,
        6 <= count <= 16 ==> palette_size_for(count, area) == 12,
        17 <= count <= 40 ==> palette_size_for(count, area) == 20,
        count > 40 && larger_area > 2_000_000 ==> palette_size_for(count, larger_area) == 28,
        count > 40 && area <= 2_000_000 ==> palette_size_for(count, area) == 36,
        palette_size_for(count, larger_area) <= palette_size_for(count, area),
        6 <= palette_size_for(count, area) <= 36,
{
}

/// The status report names the device the build runs on: Metal with BF16 on Apple Silicon
/// (with or without CUDA), else the CUDA GPU with FP16, else the CPU with F32.
pub proof fn status_names_the_build_device(target: BuildTarget)
    ensures
        target.apple_silicon ==> device_label_text(target) == "Metal · BF16"@ && precision_text(
            target,
        ) == "BF16"@,
        !target.apple_silicon && target.cuda ==> device_label_text(target) == "NVIDIA CUDA · GPU"@
            && precision_text(target) == "FP16"@,
        !target.apple_silicon && !target.cuda ==> device_label_text(target) == "CPU · F32"@
            && precision_text(target) == "F32"@,
{
}

/// Only the exact setting `1b` requests the 1B model; any other setting, or none, requests
/// the 8B model.
pub proof fn only_1b_requests_the_small_model(setting: Option<Seq<char>>)
    ensures
        requested_model_text(setting) == "StarVector 1B"@ <==> setting == Some("1b"@),
        setting != Some("1b"@) ==> requested_model_text(setting) == "StarVector 8B"@,
{
    reveal_strlit("StarVector 1B");
    reveal_strlit("StarVector 8B");
    assert("StarVector 1B"@[11] != "StarVector 8B"@[11]);
}

} // verus!
