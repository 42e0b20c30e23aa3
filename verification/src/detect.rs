use vstd::prelude::*;

use crate::errors::InstallError;

verus! {

/// The closed set of archive containers the installer understands. The
/// format is derived from the payload's leading bytes, never from the URL
/// or a filename suffix.
#[derive(Debug, Clone, Copy, PartialEq, Eq, Structural)]
pub enum ArchiveFormat {
    Zip,
    Tar,
    GzipTar,
}

/// The zip local-file-header signature `PK\x03\x04`.
pub open spec fn is_zip_magic(b: Seq<u8>) -> bool {
    b.len() >= 4 && b[0] == 0x50 && b[1] == 0x4b && b[2] == 0x03 && b[3] == 0x04
}

/// The gzip member signature: the two magic bytes and the deflate
/// compression-method byte.
pub open spec fn is_gzip_magic(b: Seq<u8>) -> bool {
    b.len() >= 3 && b[0] == 0x1f && b[1] == 0x8b && b[2] == 0x08
}

/// A POSIX tar header: the `ustar` marker at offset 257.
pub open spec fn is_tar_magic(b: Seq<u8>) -> bool {
    b.len() >= 262 && b[257] == 0x75 && b[258] == 0x73 && b[259] == 0x74 && b[260] == 0x61 && b[261]
        == 0x72
}

/// The format the leading bytes announce, if any.
pub open spec fn classify_spec(b: Seq<u8>) -> Option<ArchiveFormat> {
    if is_zip_magic(b) {
        Some(ArchiveFormat::Zip)
    } else if is_gzip_magic(b) {
        Some(ArchiveFormat::GzipTar)
    } else if is_tar_magic(b) {
        Some(ArchiveFormat::Tar)
    } else {
        None
    }
}

/// The bytes reported with an `UnsupportedFormat` error: the first four,
/// or all of them when there are fewer.
pub open spec fn signature_bytes(b: Seq<u8>) -> Seq<u8> {
    if b.len() <= 4 {
        b
    } else {
        b.take(4)
    }
}

/// Classifies a payload by content signature alone: the zip local-file
/// header, the gzip member header (taken as a gzip-compressed tar stream),
/// or the POSIX `ustar` marker. Anything else is `UnsupportedFormat`.
pub fn classify(bytes: &Vec<u8>) -> (r: Result<ArchiveFormat, InstallError>)
    ensures
        match r {
            Ok(f) => classify_spec(bytes@) == Some(f),
            Err(e) => {
                &&& classify_spec(bytes@) is None
                &&& (e matches InstallError::UnsupportedFormat { signature } && signature@
                    == signature_bytes(bytes@))
            },
        },
{
    let n = bytes.len();
    if n >= 4 && bytes[0] == 0x50 && bytes[1] == 0x4b && bytes[2] == 0x03 && bytes[3] == 0x04 {
        return Ok(ArchiveFormat::Zip);
    }
    if n >= 3 && bytes[0] == 0x1f && bytes[1] == 0x8b && bytes[2] == 0x08 {
        return Ok(ArchiveFormat::GzipTar);
    }
    if n >= 262 && bytes[257] == 0x75 && bytes[258] == 0x73 && bytes[259] == 0x74 && bytes[260]
        == 0x61 && bytes[261] == 0x72 {
        return Ok(ArchiveFormat::Tar);
    }
    let mut sig: Vec<u8> = Vec::new();
    let mut i: usize = 0;
    let m = if n <= 4 {
        n
    } else {
        4
    };
    while i < m
        invariant
            m <= bytes@.len(),
            i <= m,
            sig@ == bytes@.take(m as int).take(i as int),
        decreases m - i,
    {
        sig.push(bytes[i]);
        proof {
            assert(sig@ =~= bytes@.take(m as int).take(i as int + 1));
        }
        i += 1;
    }
    proof {
        assert(bytes@.take(m as int).take(m as int) =~= signature_bytes(bytes@));
    }
    Err(InstallError::UnsupportedFormat { signature: sig })
}

} // verus!
