use raytracer::code::ONE;
use raytracer::texture::{ImageTexture, Texel, BYTES_PER_PIXEL};
use raytracer::vec3::Vec3;

fn two_by_two() -> ImageTexture {
    ImageTexture::new((0u8..12).collect(), 2, 2).unwrap()
}

#[test]
fn three_samples_to_a_texel() {
    assert_eq!(BYTES_PER_PIXEL, 3);
}

#[test]
fn new_takes_exactly_fitting_data() {
    assert!(ImageTexture::new(vec![0; 12], 2, 2).is_some());
    assert!(ImageTexture::new(vec![0; 11], 2, 2).is_none());
    assert!(ImageTexture::new(vec![0; 13], 2, 2).is_none());
    assert!(ImageTexture::new(vec![0; 12], 4, 1).is_some());
    assert!(ImageTexture::new(Vec::new(), 0, 0).is_some());
    assert!(ImageTexture::new(Vec::new(), 5, 0).is_some());
    assert!(ImageTexture::new(Vec::new(), 0, 5).is_some());
    assert!(ImageTexture::new(vec![0; 3], 0, 5).is_none());
    assert!(ImageTexture::new(Vec::new(), usize::MAX, 0).is_none());
    assert!(ImageTexture::new(Vec::new(), usize::MAX / 3, usize::MAX).is_none());
}

#[test]
fn value_reads_the_texel() {
    let t = two_by_two();
    assert_eq!(t.value(0, 0), Texel::Samples(0, 1, 2));
    assert_eq!(t.value(1, 0), Texel::Samples(3, 4, 5));
    assert_eq!(t.value(0, 1), Texel::Samples(6, 7, 8));
    assert_eq!(t.value(1, 1), Texel::Samples(9, 10, 11));
}

#[test]
fn value_beyond_the_edge_reads_the_last_column_or_row() {
    let t = two_by_two();
    assert_eq!(t.value(2, 0), Texel::Samples(3, 4, 5));
    assert_eq!(t.value(0, 2), Texel::Samples(6, 7, 8));
    assert_eq!(t.value(usize::MAX, usize::MAX), Texel::Samples(9, 10, 11));
}

#[test]
fn value_without_data_is_cyan() {
    let cyan = Texel::Color(Vec3::new(0, ONE, ONE));
    let t = ImageTexture::new(Vec::new(), 0, 0).unwrap();
    assert_eq!(t.value(0, 0), cyan);
    let t = ImageTexture::new(Vec::new(), 7, 0).unwrap();
    assert_eq!(t.value(3, 3), cyan);
}
