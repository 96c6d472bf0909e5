use aligned_nearest_neighbor::nearest_neighbor::NearestNeighborError;

#[test]
fn a_length_error_names_both_records() {
    let err = NearestNeighborError::HammingDistanceError("left".to_string(), "right".to_string());
    assert_eq!(err.message(), "Hamming distance computation error between: left and right");
}

#[test]
fn a_write_error_shows_its_text() {
    let err = NearestNeighborError::IOError("disk full".to_string());
    assert_eq!(err.message(), "disk full");
}

#[test]
fn a_failure_to_write_becomes_an_error() {
    let io = std::io::Error::new(std::io::ErrorKind::PermissionDenied, "not allowed");
    let err = NearestNeighborError::from(io);
    assert_eq!(err, NearestNeighborError::IOError("not allowed".to_string()));
}
