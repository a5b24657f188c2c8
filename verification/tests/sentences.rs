//! Tests of the sentence builders and the value-literal helpers.

use scadman::ResizeAuto2D;
use scadman::ResizeAuto3D;
use scadman::ScadBuildable;
use scadman::ScadBuilder;
use scadman::ScadDisplay;
use scadman::Surface;
use scadman::SurfaceBuilder;
use scadman::validate_path_indices;
use scadman::display::affine_2d_to_3d_rows;
use scadman::display::repr_list;
use scadman::display::repr_matrix;

#[test]
fn test_surface() {
    assert_eq!(
        Surface::build_with(|sb| sb.file("shape.dat"))
            .unwrap()
            .repr_scad(),
        "surface(file = \"shape.dat\")"
    );

    assert_eq!(
        Surface::build_with(|sb| {
            sb.file("shape.dat").convexity(10_u64).center(true).invert(true)
        })
        .unwrap()
        .repr_scad(),
        "surface(file = \"shape.dat\", center = true, invert = true, convexity = 10)"
    );
}

#[test]
fn test_surface_builder_requires_file() {
    // The one required field is the file: without it nothing is built.
    assert!(Surface::build_with(|sb| sb.center(true)).is_none());
    let err = SurfaceBuilder {
        file: None,
        center: Some(true),
        invert: None,
        convexity: None,
    }
    .build_scad()
    .unwrap_err();
    assert_eq!(err.missing, "file");
}

#[test]
fn test_resize_auto() {
    assert_eq!(ResizeAuto2D::B(true).repr_scad(), "true");
    assert_eq!(ResizeAuto2D::V([true, false]).repr_scad(), "[true, false]");
    assert_eq!(ResizeAuto3D::B(false).repr_scad(), "false");
    assert_eq!(
        ResizeAuto3D::V([true, false, true]).repr_scad(),
        "[true, false, true]"
    );
}

#[test]
fn test_repr_list_and_matrix() {
    assert_eq!(
        repr_list(&vec!["8".to_string(), "-4".to_string()]),
        "[8, -4]"
    );
    assert_eq!(repr_list(&Vec::new()), "[]");
    let planar = vec![
        vec!["1".to_string(), "0".to_string(), "8".to_string()],
        vec!["0".to_string(), "1".to_string(), "-4".to_string()],
    ];
    let spatial = affine_2d_to_3d_rows(&planar);
    assert_eq!(
        repr_matrix(&spatial),
        "[[1, 0, 0, 8], [0, 1, 0, -4], [0, 0, 1, 0]]"
    );
}

#[test]
fn test_validate_path_indices() {
    let paths = vec![vec![0_usize, 1, 2], vec![2, 3]];
    assert_eq!(validate_path_indices(&paths, 4), None);
    // The first out-of-range entry is reported by position.
    assert_eq!(validate_path_indices(&paths, 3), Some((1, 1)));
    assert_eq!(validate_path_indices(&paths, 0), Some((0, 0)));
    assert_eq!(validate_path_indices(&Vec::new(), 0), None);
}
