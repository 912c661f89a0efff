use dice_mosaic::face::dice_face;

#[test]
fn face_of_zero_is_clamped_to_darkest() {
    // Intensity 0 falls one past the last band and must be clamped to the
    // darkest face rather than left out of range.
    assert_eq!(dice_face(0), 5);
}

#[test]
fn face_band_edges() {
    // Band width is 255 / 6 = 42.5; each edge flips the face.
    assert_eq!(dice_face(1), 5);
    assert_eq!(dice_face(42), 5);
    assert_eq!(dice_face(43), 4);
    assert_eq!(dice_face(85), 4);
    assert_eq!(dice_face(86), 3);
    assert_eq!(dice_face(127), 3);
    assert_eq!(dice_face(128), 2);
    assert_eq!(dice_face(170), 2);
    assert_eq!(dice_face(171), 1);
    assert_eq!(dice_face(212), 1);
    assert_eq!(dice_face(213), 0);
    assert_eq!(dice_face(255), 0);
}

#[test]
fn face_always_in_palette() {
    for v in 0..=255u8 {
        assert!(dice_face(v) < 6);
    }
}

#[test]
fn face_monotonic_non_increasing() {
    for v in 1..=255u16 {
        assert!(dice_face(v as u8) <= dice_face((v - 1) as u8));
    }
}
