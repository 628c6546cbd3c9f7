use cliprint::layout::{Alignment, RowSettings};

#[test]
fn default_alignment_is_left() {
    assert!(matches!(Alignment::default(), Alignment::Left));
}

#[test]
fn row_settings_carry_their_spacing() {
    let settings = RowSettings { spacing: 3 };
    let copy = settings;
    assert_eq!(copy.spacing, 3);
}
