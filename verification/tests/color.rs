use raytracer::color::{champ, in_raster, write_color, Raster};

#[test]
fn champ_holds_a_code_between_the_bounds() {
    assert_eq!(champ(5, 0, 10), 5);
    assert_eq!(champ(-5, 0, 10), 0);
    assert_eq!(champ(15, 0, 10), 10);
    assert_eq!(champ(0, 0, 10), 0);
    assert_eq!(champ(10, 0, 10), 10);
    // with the bounds out of order the upper one is looked at first
    assert_eq!(champ(5, 10, 0), 0);
    assert_eq!(champ(-1, 10, 0), 10);
}

#[test]
fn new_raster_is_black() {
    let r = Raster::new(3, 2);
    assert_eq!(r.width(), 3);
    assert_eq!(r.height(), 2);
    assert_eq!(r.into_raw(), vec![0u8; 18]);
}

#[test]
fn empty_raster_has_no_samples() {
    let r = Raster::new(0, 4);
    assert_eq!((r.width(), r.height()), (0, 4));
    assert!(!in_raster(&r, 0, 0));
    assert!(r.into_raw().is_empty());
}

#[test]
fn in_raster_tests_both_coordinates() {
    let r = Raster::new(3, 2);
    assert!(in_raster(&r, 0, 0));
    assert!(in_raster(&r, 2, 1));
    assert!(!in_raster(&r, 3, 1));
    assert!(!in_raster(&r, 2, 2));
}

#[test]
fn write_color_sets_one_pixel() {
    let mut r = Raster::new(3, 2);
    write_color((10, 20, 30), &mut r, 1, 0);
    write_color((1, 2, 3), &mut r, 2, 1);
    assert_eq!((r.width(), r.height()), (3, 2));
    let mut expect = vec![0u8; 18];
    expect[3..6].copy_from_slice(&[10, 20, 30]);
    expect[15..18].copy_from_slice(&[1, 2, 3]);
    assert_eq!(r.into_raw(), expect);
}

#[test]
fn write_color_overwrites() {
    let mut r = Raster::new(1, 1);
    write_color((9, 9, 9), &mut r, 0, 0);
    write_color((7, 8, 9), &mut r, 0, 0);
    assert_eq!(r.into_raw(), vec![7, 8, 9]);
}
