use moq_vaapi::color::{Color, Matrix};

#[test]
fn inference_splits_at_standard_definition() {
    assert_eq!(Color::infer(480), Color::bt601());
    assert_eq!(Color::infer(576), Color::bt601());
    assert_eq!(Color::infer(720), Color::bt709());
}

#[test]
fn inference_changes_right_after_standard_definition() {
    assert_eq!(Color::infer(0), Color::bt601());
    assert_eq!(Color::infer(577), Color::bt709());
    assert_eq!(Color::infer(u32::MAX), Color::bt709());
}

#[test]
fn named_spaces_are_limited_range() {
    assert_eq!(Color::bt601(), Color { matrix: Matrix::Bt601, full_range: false });
    assert_eq!(Color::bt709(), Color { matrix: Matrix::Bt709, full_range: false });
}

#[test]
fn vui_codes() {
    assert_eq!(Color::bt601().vui(), (6, 1, 6));
    assert_eq!(Color::bt709().vui(), (1, 1, 1));
    let full = Color { matrix: Matrix::Bt601, full_range: true };
    assert_eq!(full.vui(), (6, 1, 6));
}

#[test]
fn va_codes() {
    assert_eq!(Color::bt601().va_standard(), 1);
    assert_eq!(Color::bt709().va_standard(), 2);
    assert_eq!(Color::bt709().va_range(), 1);
    assert_eq!(Color { matrix: Matrix::Bt709, full_range: true }.va_range(), 2);
}

#[test]
fn label_and_conversion_agree() {
    let all = [
        Color::bt601(),
        Color::bt709(),
        Color { matrix: Matrix::Bt601, full_range: true },
        Color { matrix: Matrix::Bt709, full_range: true },
    ];
    for a in all {
        for b in all {
            assert_eq!(a.vui() == b.vui(), a.va_standard() == b.va_standard());
            let same = a.va_standard() == b.va_standard() && a.va_range() == b.va_range();
            assert_eq!(same, a == b);
        }
    }
}
