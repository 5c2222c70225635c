use render_rs::arith::Op;
use render_rs::cli::{
    id_color, output_format, parse_sample_range, plan_run, samples_per_pixel, OutputFormat,
    RangeError, RunPlan, RunRequest,
};
use render_rs::math::Vec3;
use render_rs::output::accum::{merge, Accum, MergeError};
use render_rs::output::denoise::{denoise, pack};
use render_rs::output::film::{dominant_id, Film};
use render_rs::output::multilayer::{list_channels, manifest_text};
use render_rs::output::ppm::{ppm_ascii, ppm_parts, Rgb8};
use render_rs::output::tonemap;
use render_rs::output::tonemap::{apply, apply_image, clamp_unit, Tonemap};
use render_rs::preview::{
    advance, key_request, next_action, pack_pixel, status_text, window_size, KeyRequest,
    PreviewAction, PreviewEvent, PreviewOptions, PreviewState, PreviewStatus,
};

type Image = Vec<Vec<Vec3>>;

fn arithmetic(op: Op, a: u64, b: u64) -> u64 {
    let (x, y) = (f64::from_bits(a), f64::from_bits(b));
    let r = match op {
        Op::Plus => x + y,
        Op::Minus => x - y,
        Op::Times => x * y,
        Op::Over => x / y,
        Op::Root => x.sqrt(),
        Op::Floor => x.floor(),
        Op::CubeRoot => x.cbrt(),
        Op::Degrees => x.atan2(y).to_degrees(),
        Op::Radians => x.to_radians(),
        Op::Sine => x.sin(),
        Op::Cosine => x.cos(),
        Op::Tangent => x.tan(),
        Op::ArcTangent => x.atan(),
        Op::Exponential => x.exp(),
        Op::Logarithm => x.ln(),
        Op::Power => x.powi(y as i32),
        Op::RealPower => x.powf(y),
    };
    r.to_bits()
}

fn f(bits: u64) -> f64 {
    f64::from_bits(bits)
}

fn vec3(x: f64, y: f64, z: f64) -> Vec3 {
    Vec3::new(x.to_bits(), y.to_bits(), z.to_bits())
}

fn map(v: Vec3, g: impl Fn(f64) -> f64) -> Vec3 {
    vec3(g(f(v.x)), g(f(v.y)), g(f(v.z)))
}

fn zip(a: Vec3, b: Vec3, g: impl Fn(f64, f64) -> f64) -> Vec3 {
    vec3(g(f(a.x), f(b.x)), g(f(a.y), f(b.y)), g(f(a.z), f(b.z)))
}

fn blank(w: usize, h: usize) -> Image {
    vec![vec![Vec3::zero(); w]; h]
}

fn empty_film(w: usize, h: usize) -> Film {
    Film {
        beauty: blank(w, h),
        diffuse: blank(w, h),
        specular: blank(w, h),
        albedo: blank(w, h),
        normal: blank(w, h),
        depth: blank(w, h),
        id: blank(w, h),
        manifest: Vec::new(),
    }
}

// ---- accumulations ---------------------------------------------------------

fn merged(parts: &Vec<Accum>) -> Result<Image, MergeError> {
    let plus = |a: u64, b: u64| (f(a) + f(b)).to_bits();
    let over = |a: u64, b: u64| (f(a) / f(b)).to_bits();
    merge(&plus, &over, parts)
}

#[test]
fn accum_round_trip_and_merge() {
    let (w, h) = (8, 6);
    let image = |z: f64| -> Image {
        (0..h)
            .map(|y| (0..w).map(|x| map(vec3(x as f64, y as f64, z), |v| v * 4.0)).collect())
            .collect()
    };
    let counts = || vec![vec![4.0f64.to_bits(); w]; h];
    let (img_a, img_b) = (image(1.0), image(3.0));
    let expect = map(zip(img_a[3][5], img_b[3][5], |a, b| a + b), |v| v / 8.0);
    let out = merged(&vec![
        Accum { sum: img_a, count: counts() },
        Accum { sum: img_b, count: counts() },
    ])
    .unwrap();
    let d = zip(out[3][5], expect, |a, b| a - b);
    assert!((f(d.x).powi(2) + f(d.y).powi(2) + f(d.z).powi(2)).sqrt() < 1e-5);
}

#[test]
fn accumulations_that_do_not_fit() {
    assert_eq!(merged(&Vec::new()).unwrap_err(), MergeError::NoFiles);
    let part = |w: usize, n: f64| Accum {
        sum: vec![vec![vec3(6.0, 0.0, 3.0); w]],
        count: vec![vec![n.to_bits(); w]],
    };
    assert_eq!(
        merged(&vec![part(2, 1.0), part(2, 1.0), part(3, 1.0)]).unwrap_err(),
        MergeError::ResolutionMismatch(2)
    );
    assert_eq!(merged(&vec![part(1, 3.0)]).unwrap()[0][0], vec3(2.0, 0.0, 1.0));
    assert_eq!(merged(&vec![part(1, 0.0)]).unwrap()[0][0], Vec3::zero());
}

// ---- denoising -------------------------------------------------------------

fn denoised(film: &Film) -> Image {
    denoise(film, &arithmetic)
}

/// Noisy flat region: denoising must slash variance while keeping the mean, and must not
/// blur across an id/normal edge.
#[test]
fn denoise_reduces_noise_preserves_edges() {
    let (w, h) = (64, 64);
    let mut state = 42u64;
    let mut rand = move || {
        state = state.wrapping_mul(6364136223846793005).wrapping_add(1);
        (state >> 33) as f64 / (1u64 << 31) as f64
    };
    let mut film = empty_film(w, h);
    for y in 0..h {
        for x in 0..w {
            let left = x < w / 2;
            let base: f64 = if left { 0.8 } else { 0.1 };
            let noise = (rand() - 0.5) * 0.4;
            let v = (base + noise).max(0.0);
            film.beauty[y][x] = vec3(v, v, v);
            film.albedo[y][x] = vec3(base, base, base);
            film.normal[y][x] = vec3(0.0, 0.0, 1.0);
            film.depth[y][x] = vec3(5.0, 0.0, 0.0);
            film.id[y][x] = vec3(if left { 1.0 } else { 2.0 }, 1.0, 0.0);
        }
    }
    film.diffuse = film.beauty.clone();
    let out = denoised(&film);
    let var = |img: &Image| {
        let vals: Vec<f64> = (8..h - 8)
            .flat_map(|y| (8..w / 2 - 8).map(move |x| (y, x)))
            .map(|(y, x)| f(img[y][x].x))
            .collect();
        let mean = vals.iter().sum::<f64>() / vals.len() as f64;
        (mean, vals.iter().map(|v| (v - mean) * (v - mean)).sum::<f64>() / vals.len() as f64)
    };
    let (mean_in, var_in) = var(&film.beauty);
    let (mean_out, var_out) = var(&out);
    assert!(var_out < var_in * 0.05, "variance {var_in:.5} -> {var_out:.5}");
    assert!((mean_out - mean_in).abs() < 0.02, "mean {mean_in:.3} -> {mean_out:.3}");
    let l = f(out[h / 2][w / 2 - 1].x);
    let r = f(out[h / 2][w / 2].x);
    assert!(l - r > 0.5, "edge blurred: {l:.3} vs {r:.3}");
}

/// A film of two objects side by side, the first of that brightness.
fn two_objects(first: f64) -> Film {
    let (w, h) = (6, 2);
    let mut film = empty_film(w, h);
    for y in 0..h {
        for x in 0..w {
            let left = x < 3;
            let v = if left { first } else { 0.25 + x as f64 * 0.125 };
            film.diffuse[y][x] = vec3(v, v, v);
            film.albedo[y][x] = vec3(1.0, 1.0, 1.0);
            film.normal[y][x] = vec3(0.0, 0.0, 1.0);
            film.depth[y][x] = vec3(5.0, 0.0, 0.0);
            film.specular[y][x] = vec3(0.5, 0.0, 0.0);
            film.id[y][x] = vec3(if left { 1.0 } else { 2.0 }, 1.0, 0.0);
        }
    }
    film
}

#[test]
fn films_without_width_are_left_alone() {
    let mut film = empty_film(0, 0);
    film.beauty = vec![Vec::new(), Vec::new()];
    assert_eq!(denoised(&film), film.beauty);
}

#[test]
fn objects_do_not_mix() {
    let (a, b) = (denoised(&two_objects(0.5)), denoised(&two_objects(0.75)));
    for y in 0..2 {
        assert_eq!(a[y][3..], b[y][3..]);
        assert_ne!(a[y][..3], b[y][..3]);
        // An even object stays what it is, with its highlight as it was.
        assert!((f(a[y][1].x) - 1.0).abs() < 1e-12 && (f(a[y][1].y) - 0.5).abs() < 1e-12);
    }
    // A pixel on its own counts for itself alone.
    assert!(f(a[0][3].y) > 0.625 && f(a[0][3].y) < 0.875);
    assert!(denoised(&empty_film(0, 0)).is_empty());
}

#[test]
fn pixels_packed_for_a_denoiser() {
    let image = vec![vec![vec3(0.1, 1.0, -2.0)], vec![vec3(3.0, 0.0, 0.5)]];
    let singles: Vec<f32> = pack(&image).into_iter().map(f32::from_bits).collect();
    assert_eq!(singles, [0.1, 1.0, -2.0, 3.0, 0.0, 0.5]);
}

// ---- films -----------------------------------------------------------------

#[test]
fn the_id_that_most_samples_hit() {
    assert_eq!(dominant_id(&vec![3, 5, 5, 0, 3, 5]), (5, 3));
    assert_eq!(dominant_id(&Vec::new()), (0, 0));
}

#[test]
fn channels_of_a_film() {
    let mut film = empty_film(2, 1);
    film.beauty[0][1] = vec3(0.25, 0.5, 1.0);
    film.id[0][0] = vec3(7.0, 0.75, 0.0);
    film.manifest = vec![(1, "ball".to_string()), (7, "floor".to_string())];
    assert_eq!((film.width(), film.height()), (2, 1));
    let channels = list_channels(&film);
    let names: Vec<&str> = channels.iter().map(|c| c.name.as_str()).collect();
    let mut sorted = names.clone();
    sorted.sort_unstable();
    assert_eq!(names, sorted);
    let samples = |name: &str| -> Vec<f32> {
        let c = channels.iter().find(|c| c.name == name).unwrap();
        c.samples.iter().map(|b| f32::from_bits(*b)).collect()
    };
    assert_eq!(samples("B"), [0.0, 1.0]);
    assert_eq!(samples("R"), [0.0, 0.25]);
    assert_eq!(samples("id.x"), [7.0, 0.0]);
    assert_eq!(samples("id.coverage"), [0.75, 0.0]);
    assert_eq!(manifest_text(&film), "1:ball;7:floor");
    assert_eq!(manifest_text(&empty_film(1, 1)), "");
}

// ---- tone and pixmaps ------------------------------------------------------

fn srgb_encode(c: f64) -> f64 {
    f(tonemap::srgb_encode(c.to_bits(), &arithmetic))
}

fn toned(t: Tonemap, v: f64) -> f64 {
    f(apply(t, &vec3(v, 0.0, 0.0), &arithmetic).x)
}

#[test]
fn transforms_behave() {
    let aces_fit = |v: f64| f(tonemap::aces_fit(v.to_bits(), &arithmetic));
    assert!(srgb_encode(0.0) < 1e-9);
    assert!((srgb_encode(1.0) - 1.0).abs() < 1e-9);
    assert!(aces_fit(0.18) > 0.18);
    assert!(aces_fit(4.0) > 0.95 && aces_fit(4.0) <= 1.0);
    assert!(aces_fit(1.0) < 1.0);
    let mut prev = -1.0;
    for i in 0..100 {
        let v = aces_fit(i as f64 * 0.1);
        assert!(v >= prev);
        prev = v;
    }
    assert_eq!(toned(Tonemap::Aces, 0.7), srgb_encode(aces_fit(0.7)));
}

#[test]
fn tone_curves_by_name() {
    assert_eq!(Tonemap::from_name("linear"), Some(Tonemap::Linear));
    assert_eq!(Tonemap::from_name("srgb"), Some(Tonemap::Srgb));
    assert_eq!(Tonemap::from_name("aces"), Some(Tonemap::Aces));
    assert_eq!(Tonemap::from_name("reinhard"), None);
    assert_eq!(toned(Tonemap::Linear, -0.5), 0.0);
    assert_eq!(toned(Tonemap::Linear, 7.0), 1.0);
    assert_eq!(toned(Tonemap::Linear, 0.25), 0.25);
    assert_eq!(f(clamp_unit(2.0f64.to_bits())), 1.0);
    // Above one as one, below zero as zero.
    assert_eq!(toned(Tonemap::Srgb, 7.0), toned(Tonemap::Srgb, 1.0));
    assert_eq!(toned(Tonemap::Srgb, -7.0), 0.0);
    assert_eq!(toned(Tonemap::Srgb, 0.001), 12.92 * 0.001);
    assert_eq!(toned(Tonemap::Srgb, 0.5), 1.055 * 0.5f64.powf(1.0 / 2.4) - 0.055);
    let fit = (0.5 * (2.51 * 0.5 + 0.03)) / (0.5 * (2.43 * 0.5 + 0.59) + 0.14);
    assert_eq!(f(tonemap::aces_fit(0.5f64.to_bits(), &arithmetic)), fit);
    let image = vec![vec![vec3(0.1, 0.2, 3.0)], Vec::new()];
    assert_eq!(
        apply_image(Tonemap::Linear, &image, &arithmetic),
        vec![vec![vec3(0.1, 0.2, 1.0)], Vec::new()]
    );
}

#[test]
fn pixmaps() {
    let p = |r: u8, g: u8, b: u8| Rgb8 { r, g, b };
    let image = vec![vec![p(1, 2, 3), p(255, 0, 10)]];
    let (head, bytes) = ppm_parts(&image);
    assert_eq!(head, "P6\n2 1\n255\n");
    assert_eq!(bytes, [1, 2, 3, 255, 0, 10]);
    assert_eq!(ppm_ascii(&image), "P3\n2 1\n255\n1 2 3\n255 0 10\n");
    assert_eq!(ppm_parts(&Vec::new()).0, "P6\n0 0\n255\n");
}

// ---- the command line ------------------------------------------------------

#[test]
fn sample_ranges() {
    assert_eq!(parse_sample_range("4:16"), Ok((4, 16)));
    assert_eq!(parse_sample_range("+4:16"), Ok((4, 16)));
    assert_eq!(parse_sample_range("4"), Err(RangeError::NotARange));
    assert_eq!(parse_sample_range("a:b"), Err(RangeError::NotARange));
    assert_eq!(parse_sample_range("1:2:3"), Err(RangeError::NotARange));
    assert_eq!(parse_sample_range("4294967296:1"), Err(RangeError::NotARange));
    assert_eq!(parse_sample_range("5:5"), Err(RangeError::Empty(5, 5)));
}

#[test]
fn samples_and_formats() {
    assert_eq!(samples_per_pixel(Some(3), (9, 9)), 3);
    assert_eq!(samples_per_pixel(None, (9, 9)), 81);
    assert_eq!(samples_per_pixel(None, (2, 2)), 64);
    assert_eq!(output_format("png"), OutputFormat::Png);
    assert_eq!(output_format("exr"), OutputFormat::Exr);
    assert_eq!(output_format("ppm-ascii"), OutputFormat::PpmAscii);
    assert_eq!(output_format("tiff"), OutputFormat::Ppm);
    assert_eq!(id_color(0), (0, 0, 0));
    assert_eq!(id_color(1), (0xb1, 0x79, 0x37));
}

#[test]
fn how_an_image_comes_about() {
    let q = RunRequest {
        preview: false,
        aovs: false,
        denoise: false,
        path: true,
        metal: false,
        has_range: false,
        adaptive: false,
        wavefront: false,
    };
    assert_eq!(plan_run(q), RunPlan::Path);
    assert_eq!(plan_run(RunRequest { adaptive: true, ..q }), RunPlan::AdaptivePath);
    assert_eq!(plan_run(RunRequest { path: false, ..q }), RunPlan::Direct { metal: false });
    assert_eq!(plan_run(RunRequest { denoise: true, metal: true, ..q }), RunPlan::Film { metal: true });
    assert_eq!(plan_run(RunRequest { has_range: true, ..q }), RunPlan::Range { metal: false });
    assert_eq!(
        plan_run(RunRequest { has_range: true, path: false, ..q }),
        RunPlan::RangeNeedsPath
    );
    assert_eq!(plan_run(RunRequest { preview: true, aovs: true, ..q }), RunPlan::Preview);
    assert_eq!(plan_run(RunRequest { metal: true, ..q }), RunPlan::GpuMegakernel);
    assert_eq!(
        plan_run(RunRequest { metal: true, wavefront: true, adaptive: true, ..q }),
        RunPlan::GpuWavefront { adaptive: true }
    );
}

// ---- the preview -----------------------------------------------------------

fn options(max_spp: u32) -> PreviewOptions {
    PreviewOptions {
        rib_file: "scene.rib".to_string(),
        width: Some(100),
        height: None,
        use_metal: false,
        tonemap: Tonemap::Srgb,
        max_spp,
    }
}

#[test]
fn a_preview_from_start_to_end() {
    let opts = options(2);
    let mut state = PreviewState::Loading;
    let mut rendered = Vec::new();
    let mut told = Vec::new();
    for _ in 0..4 {
        let event = match next_action(state, false) {
            PreviewAction::Load => PreviewEvent::Loaded,
            PreviewAction::Render(s) => {
                rendered.push(s);
                PreviewEvent::SampleShown { changed: false }
            }
            PreviewAction::Wait => PreviewEvent::Waited { changed: true },
            PreviewAction::Quit => panic!("not stopped"),
        };
        let (next, mut lines) = advance(&opts, state, event);
        state = next;
        told.append(&mut lines);
    }
    assert_eq!(rendered, [0, 1]);
    assert_eq!(state, PreviewState::Loading);
    assert_eq!(told, [PreviewStatus::Done(2)]);
    assert_eq!(next_action(state, true), PreviewAction::Quit);
}

#[test]
fn previews_that_fail_or_start_again() {
    let opts = options(8);
    assert_eq!(
        advance(&opts, PreviewState::Loading, PreviewEvent::LoadFailed),
        (PreviewState::Loading, vec![PreviewStatus::LoadFailed])
    );
    assert_eq!(
        advance(&opts, PreviewState::Sampling(3), PreviewEvent::SampleFailed),
        (PreviewState::Watching, vec![PreviewStatus::GpuError, PreviewStatus::Done(8)])
    );
    assert_eq!(
        advance(&opts, PreviewState::Sampling(3), PreviewEvent::SampleShown { changed: true }),
        (PreviewState::Loading, vec![PreviewStatus::FileChanged])
    );
    assert_eq!(status_text(PreviewStatus::Done(8)), "8 spp (done)");
    assert_eq!(status_text(PreviewStatus::LoadFailed), "RIB failed to load");
    assert_eq!(window_size(&opts, (640, 480)), (100, 480));
    assert_eq!(key_request("q"), KeyRequest::Quit);
    assert_eq!(key_request("s"), KeyRequest::Save);
    assert_eq!(key_request("x"), KeyRequest::Nothing);
    assert_eq!(pack_pixel(0x12, 0x34, 0x56), 0x123456);
}
