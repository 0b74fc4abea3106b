use beyond_engine::gfx::error::decimal_text;
use beyond_engine::{GfxError, PipelineAttributes};

fn attributes(pattern: &[u32]) -> PipelineAttributes {
    PipelineAttributes {
        index_pattern: pattern.to_vec(),
        sampler_id: 0,
    }
}

#[test]
fn square_pattern_has_four_vertices() {
    assert_eq!(attributes(&[0, 2, 1, 0, 3, 2]).vertices_per_mesh(), 4);
}

#[test]
fn vertices_are_counted_once_each() {
    assert_eq!(attributes(&[]).vertices_per_mesh(), 0);
    assert_eq!(attributes(&[7]).vertices_per_mesh(), 1);
    assert_eq!(attributes(&[7, 7, 7]).vertices_per_mesh(), 1);
    assert_eq!(attributes(&[5, 1, 5, 9, 1, 1000]).vertices_per_mesh(), 4);
}

#[test]
fn index_data_repeats_the_pattern_mesh_after_mesh() {
    let data = attributes(&[0, 2, 1, 0, 3, 2]).index_data(3).expect("it fits");
    assert_eq!(
        data,
        vec![0, 2, 1, 0, 3, 2, 4, 6, 5, 4, 7, 6, 8, 10, 9, 8, 11, 10]
    );
}

#[test]
fn index_data_matches_repeating_and_shifting() {
    let pattern = [3u32, 0, 3, 8];
    let meshes = 5;
    let vertices = 3;
    let mut expected = pattern.repeat(meshes);
    for (i, chunk) in expected.chunks_mut(pattern.len()).enumerate() {
        for index in chunk {
            *index += (vertices * i) as u32;
        }
    }
    assert_eq!(attributes(&pattern).index_data(meshes), Some(expected));
}

#[test]
fn index_data_for_no_mesh_or_no_pattern_is_empty() {
    assert_eq!(attributes(&[0, 1, 2]).index_data(0), Some(Vec::new()));
    assert_eq!(attributes(&[]).index_data(64), Some(Vec::new()));
}

#[test]
fn index_data_that_leaves_the_index_type_is_refused() {
    assert_eq!(attributes(&[u32::MAX, 0]).index_data(2), None);
    assert_eq!(attributes(&[u32::MAX - 1, 0]).index_data(2), None);
    assert_eq!(
        attributes(&[u32::MAX - 2, 0]).index_data(2),
        Some(vec![u32::MAX - 2, 0, u32::MAX, 2])
    );
    assert_eq!(
        attributes(&[u32::MAX]).index_data(1),
        Some(vec![u32::MAX])
    );
    assert_eq!(attributes(&[u32::MAX]).index_data(2), None);
}

#[test]
fn default_flush_threshold_is_sixty_four() {
    assert_eq!(beyond_engine::gfx::pipeline::DEFAULT_FLUSH_THRESHOLD, 64);
    let data = attributes(&[0, 2, 1, 0, 3, 2])
        .index_data(beyond_engine::gfx::pipeline::DEFAULT_FLUSH_THRESHOLD)
        .expect("it fits");
    assert_eq!(data.len(), 384);
    assert_eq!(data[383], 2 + 4 * 63);
}

#[test]
fn numbers_are_written_in_decimal() {
    assert_eq!(decimal_text(0), "0");
    assert_eq!(decimal_text(7), "7");
    assert_eq!(decimal_text(10), "10");
    assert_eq!(decimal_text(405), "405");
    assert_eq!(decimal_text(9999), "9999");
    assert_eq!(decimal_text(u16::MAX), "65535");
    for n in 0..=u16::MAX {
        assert_eq!(decimal_text(n), n.to_string());
    }
}

#[test]
fn graphics_error_messages_read_as_before() {
    assert_eq!(
        GfxError::TextureNotFound(String::from("grass")).message(),
        "Texture grass was not found"
    );
    assert_eq!(
        GfxError::TextureNotFound(String::new()).message(),
        "Texture  was not found"
    );
    assert_eq!(
        GfxError::SamplerNotFound(12).message(),
        "Sampler 12 was not found"
    );
    assert_eq!(
        GfxError::SamplerNotFound(0).message(),
        "Sampler 0 was not found"
    );
    assert_eq!(GfxError::BufferSlice.message(), "Failed to slice buffer");
    assert_eq!(
        GfxError::NoActiveCamera.message(),
        "No active camera to render with"
    );
}
