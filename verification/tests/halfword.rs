use halld::error::LinkError;
use halld::halfword::{opt_shorten, shorten};

#[test]
fn shorten_divides_by_four() {
    assert_eq!(shorten(0), Ok(0));
    assert_eq!(shorten(8), Ok(2));
    assert_eq!(shorten(0x20), Ok(8));
}

#[test]
fn shorten_rejects_unaligned_values() {
    assert_eq!(shorten(6), Err(LinkError::Misaligned(6)));
    assert_eq!(shorten(1), Err(LinkError::Misaligned(1)));
}

#[test]
fn shorten_largest_value_that_fits() {
    assert_eq!(shorten(0xFFFF * 4), Ok(0xFFFF));
    assert_eq!(shorten(262140), Ok(0xFFFF));
}

#[test]
fn shorten_rejects_values_past_sixteen_bits() {
    assert_eq!(shorten(262144), Err(LinkError::Overflow(262144)));
    assert_eq!(shorten(u32::MAX - 3), Err(LinkError::Overflow(u32::MAX as u64 - 3)));
}

#[test]
fn opt_shorten_marks_absence() {
    assert_eq!(opt_shorten(None), Ok(0xFFFF));
    assert_eq!(opt_shorten(Some(12)), Ok(3));
    assert_eq!(opt_shorten(Some(13)), Err(LinkError::Misaligned(13)));
}
