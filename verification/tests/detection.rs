use mod_installer::detect::{classify, ArchiveFormat};
use mod_installer::errors::InstallError;

fn tar_header_bytes() -> Vec<u8> {
    let mut b = tar::Builder::new(Vec::new());
    let mut h = tar::Header::new_ustar();
    h.set_size(1);
    h.set_mode(0o644);
    h.set_cksum();
    b.append_data(&mut h, "f", &b"x"[..]).unwrap();
    b.into_inner().unwrap()
}

#[test]
fn zip_signature_is_zip() {
    let mut w = zip::ZipWriter::new(std::io::Cursor::new(Vec::new()));
    w.start_file("a", zip::write::SimpleFileOptions::default()).unwrap();
    std::io::Write::write_all(&mut w, b"x").unwrap();
    let bytes = w.finish().unwrap().into_inner();
    assert_eq!(classify(&bytes).unwrap(), ArchiveFormat::Zip);
}

#[test]
fn gzip_signature_is_gzip_tar() {
    let mut enc = flate2::write::GzEncoder::new(Vec::new(), flate2::Compression::default());
    std::io::Write::write_all(&mut enc, b"anything").unwrap();
    let bytes = enc.finish().unwrap();
    assert_eq!(classify(&bytes).unwrap(), ArchiveFormat::GzipTar);
}

#[test]
fn ustar_marker_is_tar() {
    let bytes = tar_header_bytes();
    assert_eq!(classify(&bytes).unwrap(), ArchiveFormat::Tar);
}

#[test]
fn unknown_signature_reports_leading_bytes() {
    let bytes = b"plain text, not an archive".to_vec();
    let err = classify(&bytes).unwrap_err();
    assert_eq!(
        err,
        InstallError::UnsupportedFormat { signature: b"plai".to_vec() }
    );
}

#[test]
fn short_buffer_is_unsupported() {
    let bytes = vec![0x50u8, 0x4b];
    let err = classify(&bytes).unwrap_err();
    assert_eq!(
        err,
        InstallError::UnsupportedFormat { signature: vec![0x50, 0x4b] }
    );
}

#[test]
fn extension_does_not_matter_content_does() {
    // A tar payload fetched from a URL ending in .zip still classifies as tar.
    let bytes = tar_header_bytes();
    assert_eq!(classify(&bytes).unwrap(), ArchiveFormat::Tar);
}
