use palette_kmeans::bytes::u32_from_be_bytes;
use palette_kmeans::gpu::{
    buffer_size, buffer_usages, composite_group, composite_layout, entry_point, kmeans_groups,
    kmeans_layout, shader, shader_constant, surface_usages, texture_format, texture_usages,
    zeroes_workgroup_memory, BindingResource, BindingType, BufferId, PipelineId, ShaderId,
    StorageAccess, TextureFormat, TextureId,
};
use palette_kmeans::init::InitializationMethod;
use palette_kmeans::renderer::{
    bits_equal, centroid_bytes, choose_surface_format, image_layout, picture_workgroups,
    surface_config, widen, KmeansState, MouseState, Progress, Renderer, SurfaceFormat, Workgroups,
};
use palette_kmeans::Image;

fn colors(n: u32) -> Image {
    let data = (0..n).flat_map(|i| [i as u8, 1, 2, 255]).collect();
    Image::from_raw(n, 1, data).unwrap()
}

fn native(words: &[u32]) -> Vec<u8> {
    words.iter().flat_map(|w| w.to_ne_bytes()).collect()
}

#[test]
fn workgroups_cover_the_picture() {
    assert_eq!(picture_workgroups(16, 17), Workgroups { x: 2, y: 3, z: 1 });
    assert_eq!(picture_workgroups(1, 8), Workgroups { x: 1, y: 1, z: 1 });
    assert_eq!(picture_workgroups(0, 9), Workgroups { x: 0, y: 2, z: 1 });
    assert_eq!(picture_workgroups(u32::MAX, 7), Workgroups { x: 1 << 29, y: 1, z: 1 });
}

#[test]
fn mouse_starts_at_rest() {
    let mouse = MouseState::new();
    assert_eq!(mouse, MouseState { mouse_clicked: 0, mouse_x: 0, mouse_y: 0 });
    assert_eq!(mouse.mouse_x, 0.0f32.to_bits());
    assert_eq!(mouse.to_bytes(), vec![0; 12]);
}

#[test]
fn mouse_bytes_are_the_words_in_order() {
    let mut mouse = MouseState::new();
    mouse.set_mouse_pos(1.5f32.to_bits(), (-2.0f32).to_bits());
    mouse.set_mouse_state(true);
    assert_eq!(mouse.to_bytes(), native(&[1, 1.5f32.to_bits(), (-2.0f32).to_bits()]));
    mouse.set_mouse_state(false);
    assert_eq!(mouse.to_bytes(), native(&[0, 1.5f32.to_bits(), (-2.0f32).to_bits()]));
}

#[test]
fn positions_compare_as_numbers() {
    let numbers = [
        0.0f32,
        -0.0,
        1.0,
        -1.0,
        f32::MIN_POSITIVE,
        1e-45,
        -1e-45,
        f32::INFINITY,
        f32::NEG_INFINITY,
        f32::NAN,
        -f32::NAN,
        f32::MAX,
    ];
    for a in numbers {
        for b in numbers {
            assert_eq!(bits_equal(a.to_bits(), b.to_bits()), a == b);
            let mut one = MouseState::new();
            let mut other = MouseState::new();
            one.set_mouse_pos(a.to_bits(), 1);
            other.set_mouse_pos(b.to_bits(), 1);
            assert_eq!(one == other, a == b);
            one.set_mouse_pos(1, a.to_bits());
            other.set_mouse_pos(1, b.to_bits());
            assert_eq!(one == other, a == b);
            other.set_mouse_state(true);
            assert!(one != other);
        }
    }
}

#[test]
fn surface_format_is_the_first_preferred() {
    let srgb = SurfaceFormat { is_srgb: true, is_bgra8_unorm: false };
    let other = SurfaceFormat { is_srgb: false, is_bgra8_unorm: false };
    let bgra = SurfaceFormat { is_srgb: false, is_bgra8_unorm: true };
    assert_eq!(choose_surface_format(&[srgb, other, bgra, bgra]), 2);
    assert_eq!(choose_surface_format(&[bgra, srgb]), 0);
    assert_eq!(choose_surface_format(&[srgb, other]), 0);
    let odd = SurfaceFormat { is_srgb: true, is_bgra8_unorm: true };
    assert_eq!(choose_surface_format(&[srgb, odd]), 0);
}

#[test]
fn surface_has_the_size_of_the_image() {
    let bgra = SurfaceFormat { is_srgb: false, is_bgra8_unorm: true };
    let srgb = SurfaceFormat { is_srgb: true, is_bgra8_unorm: false };
    let config = surface_config(2, 3, &[srgb, bgra]);
    assert_eq!((config.width, config.height, config.format), (2, 3, 1));
    assert_eq!(config.usages, surface_usages());
    assert!(config.usages.copy_dst && config.usages.render_attachment);
    assert!(config.usages.texture_binding && !config.usages.storage_binding);
}

#[test]
fn image_rows_have_four_bytes_for_each_pixel() {
    let layout = image_layout(7, 5);
    assert_eq!((layout.bytes_per_row, layout.rows_per_image), (28, 5));
    let data: Vec<u8> = (0..140).collect();
    let image = Image::from_raw(7, 5, data).unwrap();
    for y in 0..5 {
        for x in 0..7 {
            let start = (y * layout.bytes_per_row + 4 * x) as usize;
            assert_eq!(image.as_bytes()[start..start + 4], image.get_pixel(x, y));
        }
    }
}

#[test]
fn centroids_are_widened_to_64_bits() {
    let rows = widen(&vec![[1, 2, 3, 255], [0, 0, 0, 9]]);
    assert_eq!(rows, vec![[1, 2, 3, 255], [0, 0, 0, 9]]);
    let bytes = centroid_bytes(&vec![[1, 2, 3, 255], [0, 0, 0, 9]]);
    let expected: Vec<u8> =
        [1u64, 2, 3, 255, 0, 0, 0, 9].iter().flat_map(|w| w.to_ne_bytes()).collect();
    assert_eq!(bytes, expected);
    assert!(centroid_bytes(&Vec::new()).is_empty());
}

#[test]
fn big_endian_numbers() {
    assert_eq!(u32_from_be_bytes(&[1, 2, 3, 4]), 0x0102_0304);
    assert_eq!(u32_from_be_bytes(&[255, 255, 255, 255]), u32::MAX);
}

#[test]
fn convergence_is_a_clear_tracker() {
    assert!(KmeansState::is_converged(&[0, 0, 0, 0]));
    assert!(!KmeansState::is_converged(&[1, 0, 0, 0]));
    assert!(!KmeansState::is_converged(&[0, 0, 0, 1]));
}

#[test]
fn run_ends_after_an_even_iteration() {
    let clear = [0, 0, 0, 0];
    let set = [1, 0, 0, 0];
    assert_eq!(KmeansState::progress(0, &clear), Progress::Converged { iteration: 0 });
    assert_eq!(KmeansState::progress(1, &clear), Progress::Running);
    assert_eq!(KmeansState::progress(2, &set), Progress::Running);
    assert_eq!(KmeansState::progress(4, &clear), Progress::Converged { iteration: 4 });
}

#[test]
fn run_ends_on_the_centroids_that_are_shown() {
    let state = KmeansState::new(colors(3), 2, InitializationMethod::Forgy);
    let groups = kmeans_groups();
    for i in 0..6 {
        if let Progress::Converged { iteration } = KmeansState::progress(i, &[0; 4]) {
            assert_eq!(state.iteration(iteration).group, 0);
            assert_eq!(groups.0[2], composite_group()[1]);
        }
    }
}

#[test]
fn iterations_alternate_between_the_groups() {
    let state = KmeansState::new(colors(20), 5, InitializationMethod::Kmeanspp);
    for i in 0..4 {
        let iteration = state.iteration(i);
        assert_eq!(iteration.group, i % 2);
        assert_eq!(iteration.assignment, Workgroups { x: 3, y: 1, z: 1 });
        assert_eq!(iteration.phase2, Workgroups { x: 5, y: 1, z: 1 });
    }
    let groups = kmeans_groups();
    assert_eq!(groups.0[1], groups.1[2]);
    assert_eq!(groups.0[2], groups.1[1]);
    assert_eq!(groups.0[0], groups.1[0]);
    assert_eq!(groups.0[3..], groups.1[3..]);
}

#[test]
fn uploads_fill_their_buffers() {
    let state = KmeansState::new(colors(20), 5, InitializationMethod::Kmeanspp);
    assert_eq!(state.k(), 5);
    assert_eq!(state.start().len() as u64, buffer_size(BufferId::FirstCentroids, 5));
    assert_eq!(state.zeros(), vec![0; 40]);
    assert_eq!(state.zeros().len() as u64, buffer_size(BufferId::Counts, 5));
    let start = state.try_start().unwrap();
    for row in start.chunks(32) {
        let mut word = [0; 8];
        word.copy_from_slice(&row[24..]);
        assert_eq!(u64::from_ne_bytes(word), 255);
    }
}

#[test]
fn no_start_with_too_few_colors() {
    let state = KmeansState::new(colors(4), 5, InitializationMethod::Kmeanspp);
    assert!(state.try_start().is_none());
}

#[test]
fn buffer_sizes() {
    assert_eq!(buffer_size(BufferId::FirstCentroids, 3), 96);
    assert_eq!(buffer_size(BufferId::SecondCentroids, u32::MAX), 32 * u32::MAX as u64);
    assert_eq!(buffer_size(BufferId::Counts, 3), 24);
    assert_eq!(buffer_size(BufferId::ConvergenceTracker, 3), 4);
    assert_eq!(buffer_size(BufferId::Staging, 3), 4);
    assert_eq!(buffer_size(BufferId::Mouse, 3), 12);
}

#[test]
fn buffer_and_texture_usages() {
    assert!(buffer_usages(BufferId::Staging).map_read);
    assert!(!buffer_usages(BufferId::Staging).storage);
    assert!(buffer_usages(BufferId::ConvergenceTracker).copy_src);
    assert!(!buffer_usages(BufferId::Counts).copy_src);
    assert!(buffer_usages(BufferId::Mouse).uniform);
    assert!(texture_usages(TextureId::Image).copy_dst);
    assert!(!texture_usages(TextureId::Assignment).copy_src);
    assert!(texture_usages(TextureId::Composite).copy_src);
    assert_eq!(texture_format(TextureId::Image), TextureFormat::Rgba8Unorm);
    assert_eq!(texture_format(TextureId::Assignment), TextureFormat::R32Uint);
    assert_eq!(texture_format(TextureId::Composite), TextureFormat::Bgra8Unorm);
}

#[test]
fn bind_groups_have_what_their_layouts_take() {
    for (layout, group) in [
        (kmeans_layout(), kmeans_groups().0),
        (kmeans_layout(), kmeans_groups().1),
        (composite_layout(), composite_group()),
    ] {
        assert_eq!(layout.len(), group.len());
        for (binding, resource) in layout.into_iter().zip(group) {
            match (binding, resource) {
                (BindingType::StorageTexture { format, .. }, BindingResource::Texture(id)) => {
                    assert_eq!(format, texture_format(id));
                    assert!(texture_usages(id).storage_binding);
                }
                (BindingType::StorageBuffer { .. }, BindingResource::Buffer(id)) => {
                    assert!(buffer_usages(id).storage);
                }
                (BindingType::UniformBuffer, BindingResource::Buffer(id)) => {
                    assert!(buffer_usages(id).uniform);
                }
                _ => panic!("a binding does not fit"),
            }
        }
    }
    assert_eq!(
        composite_layout()[2],
        BindingType::StorageTexture {
            access: StorageAccess::WriteOnly,
            format: TextureFormat::Bgra8Unorm
        }
    );
}

#[test]
fn pipelines() {
    assert_eq!(shader(PipelineId::Assignment), ShaderId::Kmeans);
    assert_eq!(shader(PipelineId::Phase2), ShaderId::Kmeans);
    assert_eq!(shader(PipelineId::Composite), ShaderId::Composite);
    assert_eq!(entry_point(PipelineId::Assignment), "main");
    assert_eq!(entry_point(PipelineId::Phase2), "phase2");
    assert_eq!(entry_point(PipelineId::Composite), "main");
    assert_eq!(shader_constant(PipelineId::Phase2, 8), Some(8));
    assert_eq!(shader_constant(PipelineId::Composite, 8), None);
    assert!(zeroes_workgroup_memory(PipelineId::Assignment));
    assert!(!zeroes_workgroup_memory(PipelineId::Phase2));
}

#[test]
fn k_means_runs_before_the_first_frame_only() {
    let mut renderer = Renderer::new(colors(20), 5);
    let first = renderer.render();
    assert!(first.run_k_means);
    assert_eq!(first.composite, Workgroups { x: 3, y: 1, z: 1 });
    assert_eq!((first.width, first.height), (20, 1));
    renderer.mouse_clicked(true);
    for _ in 0..3 {
        assert!(!renderer.render().run_k_means);
    }
    assert_eq!(renderer.k_means_state().k(), 5);
}

#[test]
fn mouse_events_are_uploaded() {
    let mut renderer = Renderer::new(colors(3), 2);
    assert_eq!(renderer.upload_mouse_state(), vec![0; 12]);
    let (x, y) = (3.0f32.to_bits(), 4.25f32.to_bits());
    assert_eq!(renderer.update_mouse_position(x, y), native(&[0, x, y]));
    assert_eq!(renderer.mouse_clicked(true), native(&[1, x, y]));
    assert_eq!(renderer.update_mouse_position(y, x), native(&[1, y, x]));
    assert_eq!(renderer.mouse_clicked(false), native(&[0, y, x]));
    assert_eq!(renderer.upload_mouse_state(), native(&[0, y, x]));
}
