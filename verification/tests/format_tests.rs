use bytecalc::format::{best_unit, pretty_quantity, Unit};

#[test]
fn test_pretty_quantity() {
    assert_eq!("10.00 KiB", pretty_quantity(1_024 * 10));

    assert_eq!("220.302 KiB", pretty_quantity(1_834 * 123));

    assert_eq!("18.365632 MiB", pretty_quantity(1_924 * 100 * 100));

    assert_eq!(
        "109.192115900416 TiB",
        pretty_quantity(1_024 * 1_024 * 1_700 * 1_924 * 35)
    );
}

#[test]
fn test_best_unit() {
    assert_eq!(Unit::Byte, best_unit(0));
    assert_eq!(Unit::KiB, best_unit(1_024));

    assert_eq!(Unit::MiB, best_unit(1_024 * 1_024));
    assert_eq!(Unit::MiB, best_unit(1_024 * 1_024 + 1));

    assert_eq!(Unit::GiB, best_unit(1_024 * 1_024 * 1_024));
    assert_eq!(Unit::GiB, best_unit(1_024 * 1_024 * 1_024 + 1));

    assert_eq!(Unit::TiB, best_unit(1_024 * 1_024 * 1_024 * 1_024));
}

#[test]
fn unit_display() {
    assert_eq!("bytes", Unit::Byte.name());
    assert_eq!("KiB", Unit::KiB.name());
    assert_eq!("MiB", Unit::MiB.name());
    assert_eq!("GiB", Unit::GiB.name());
    assert_eq!("TiB", Unit::TiB.name());
    assert_eq!("PiB", Unit::PiB.name());
}

#[test]
fn unit_as_bytes() {
    assert_eq!(1, Unit::Byte.as_bytes());
    assert_eq!(1 << 10, Unit::KiB.as_bytes());
    assert_eq!(1 << 20, Unit::MiB.as_bytes());
    assert_eq!(1 << 30, Unit::GiB.as_bytes());
    assert_eq!(1 << 40, Unit::TiB.as_bytes());
    assert_eq!(1 << 50, Unit::PiB.as_bytes());
}

#[test]
fn best_unit_boundaries() {
    assert_eq!(Unit::Byte, best_unit(1_023));
    assert_eq!(Unit::KiB, best_unit(1_024 * 1_024 - 1));
    assert_eq!(Unit::PiB, best_unit(1u64 << 50));
    assert_eq!(Unit::PiB, best_unit((1u64 << 60) - 1));
    // At and beyond 2^60 the selection wraps around to bytes.
    assert_eq!(Unit::Byte, best_unit(1u64 << 60));
    assert_eq!(Unit::Byte, best_unit(u64::MAX));
}

#[test]
fn pretty_quantity_small_and_large() {
    assert_eq!("0.00 bytes", pretty_quantity(0));
    assert_eq!("999.00 bytes", pretty_quantity(999));
    assert_eq!("1.00 KiB", pretty_quantity(1_024));
    assert_eq!("1.01 KiB", pretty_quantity(1_025));
    assert_eq!("1.100 KiB", pretty_quantity(1_124));
    // Beyond 2^60 the whole quantity is shown as bytes.
    assert_eq!("1152921504606846976.00 bytes", pretty_quantity(1u64 << 60));
}
