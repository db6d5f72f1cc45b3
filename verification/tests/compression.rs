use gpscan::CompressionType;

#[test]
fn test_compression_type_from_extension() {
    assert_eq!(
        CompressionType::from_extension("file.txt"),
        CompressionType::Uncompressed
    );
    assert_eq!(
        CompressionType::from_extension("file.gz"),
        CompressionType::Gzip
    );
    assert_eq!(
        CompressionType::from_extension("file.xml.gz"),
        CompressionType::Gzip
    );
}

#[test]
fn extension_is_matched_at_the_end_only() {
    assert_eq!(CompressionType::from_extension(".gz"), CompressionType::Gzip);
    assert_eq!(CompressionType::from_extension("gz"), CompressionType::Uncompressed);
    assert_eq!(CompressionType::from_extension(""), CompressionType::Uncompressed);
    assert_eq!(CompressionType::from_extension("a.gz.txt"), CompressionType::Uncompressed);
    assert_eq!(CompressionType::from_extension("a.GZ"), CompressionType::Uncompressed);
}
