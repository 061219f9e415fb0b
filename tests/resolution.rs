use easy_srtm::resolution::{Resolution, SrtmError, SRTM1_FSIZE, SRTM3_FSIZE};

#[test]
fn resolution_from_exact_sizes() {
    assert_eq!(Resolution::from_size(3601 * 3601 * 2), Ok(Resolution::SRTM1));
    assert_eq!(Resolution::from_size(1201 * 1201 * 2), Ok(Resolution::SRTM3));
    assert_eq!(Resolution::try_from(3601u64 * 3601 * 2).unwrap(), Resolution::SRTM1);
    assert_eq!(SRTM1_FSIZE, 3601 * 3601 * 2);
    assert_eq!(SRTM3_FSIZE, 1201 * 1201 * 2);
}

#[test]
fn resolution_rejects_other_sizes() {
    for size in [0u64, 1, 2, SRTM1_FSIZE - 1, SRTM1_FSIZE + 1, SRTM3_FSIZE - 2, SRTM3_FSIZE + 2, u64::MAX] {
        assert_eq!(Resolution::from_size(size), Err(SrtmError::ResolutionError));
        assert_eq!(Resolution::try_from(size), Err(SrtmError::ResolutionError));
    }
    assert!(!SrtmError::ResolutionError.message().is_empty());
}

#[test]
fn resolution_side() {
    assert_eq!(Resolution::SRTM1.side(), 3601);
    assert_eq!(Resolution::SRTM3.side(), 1201);
}
