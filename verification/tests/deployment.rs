use aleo_core::deployment::{Deployment, DeploymentVersion, VerifyingKeyEntry};
use aleo_core::error::Error;
use aleo_core::program_names::Identifier;

/// A stand-in encoding: one length byte, then that many bytes.
fn length_prefixed(s: &[u8], p: usize) -> Result<usize, Error> {
    if p >= s.len() {
        return Err(Error::UnexpectedEnd);
    }
    let end = p + 1 + s[p] as usize;
    if end > s.len() {
        return Err(Error::UnexpectedEnd);
    }
    Ok(end)
}

/// A stand-in address encoding: 32 bytes.
fn address(s: &[u8], p: usize) -> Result<usize, Error> {
    if s.len() - p < 32 {
        return Err(Error::UnexpectedEnd);
    }
    Ok(p + 32)
}

/// A stand-in checksum: 32 bytes, each the program's length plus its position.
fn checksum(program: &[u8]) -> Vec<u8> {
    (0..32u8).map(|i| (program.len() as u8).wrapping_add(i)).collect()
}

fn entry(name: &str, key: &[u8], certificate: &[u8]) -> VerifyingKeyEntry {
    let mut verifying_key = vec![key.len() as u8];
    verifying_key.extend_from_slice(key);
    let mut cert = vec![certificate.len() as u8];
    cert.extend_from_slice(certificate);
    VerifyingKeyEntry { name: Identifier::from_str(name).unwrap(), verifying_key, certificate: cert }
}

fn sample(checksum_present: bool, owner_present: bool) -> Deployment {
    let program = vec![3, 7, 8, 9];
    Deployment {
        edition: 258,
        program: program.clone(),
        verifying_keys: vec![entry("mint", &[1, 2], &[3]), entry("transfer", &[4], &[5, 6, 7])],
        program_checksum: if checksum_present { Some(checksum(&program)) } else { None },
        program_owner: if owner_present { Some(vec![42u8; 32]) } else { None },
    }
}

fn read(bytes: &[u8]) -> Result<(Deployment, usize), Error> {
    Deployment::read_le(bytes, 0, 63, &length_prefixed, &length_prefixed, &length_prefixed, &address, &checksum)
}

fn same(a: &Deployment, b: &Deployment) -> bool {
    a.edition == b.edition
        && a.program == b.program
        && a.program_checksum == b.program_checksum
        && a.program_owner == b.program_owner
        && a.verifying_keys.len() == b.verifying_keys.len()
        && a.verifying_keys.iter().zip(b.verifying_keys.iter()).all(|(x, y)| {
            x.name == y.name && x.verifying_key == y.verifying_key && x.certificate == y.certificate
        })
}

#[test]
fn deployment_bytes_roundtrip() {
    for (checksum_present, owner_present, version) in
        [(false, false, DeploymentVersion::V1), (true, true, DeploymentVersion::V2), (true, false, DeploymentVersion::V3)]
    {
        let expected = sample(checksum_present, owner_present);
        assert_eq!(expected.version(), Ok(version));
        let mut bytes = Vec::new();
        expected.write_le(&mut bytes).unwrap();
        let (read_back, end) = read(&bytes).unwrap();
        assert_eq!(end, bytes.len());
        assert!(same(&expected, &read_back));
    }
}

#[test]
fn deployment_bytes_layout() {
    let mut bytes = Vec::new();
    sample(false, false).write_le(&mut bytes).unwrap();
    // Version 1, edition 258 (2, 1), the program, two entries.
    assert_eq!(&bytes[..10], &[1, 2, 1, 3, 7, 8, 9, 2, 0, 4]);
    assert_eq!(&bytes[10..14], b"mint");
    let mut v2 = Vec::new();
    sample(true, true).write_le(&mut v2).unwrap();
    assert_eq!(v2[0], 2);
    assert_eq!(v2.len(), bytes.len() + 64);
}

#[test]
fn deployment_bytes_refusals() {
    let mut bytes = Vec::new();
    sample(true, true).write_le(&mut bytes).unwrap();
    // An unknown version.
    let mut bad = bytes.clone();
    bad[0] = 4;
    assert!(matches!(read(&bad), Err(Error::InvalidVersion)));
    assert!(matches!(read(&[]), Err(Error::UnexpectedEnd)));
    // A checksum that is not the program's.
    let mut bad = bytes.clone();
    let at = bytes.len() - 64;
    bad[at] ^= 1;
    assert!(matches!(read(&bad), Err(Error::Mismatch)));
    // Too many entries for the limit.
    let too_many =
        Deployment::read_le(&bytes, 0, 1, &length_prefixed, &length_prefixed, &length_prefixed, &address, &checksum);
    assert!(matches!(too_many, Err(Error::InvalidLength)));
    // Cut short.
    assert!(matches!(read(&bytes[..bytes.len() - 1]), Err(Error::UnexpectedEnd)));
    // An owner without a checksum cannot be written.
    let mut out = vec![9u8];
    assert_eq!(sample(false, true).write_le(&mut out), Err(Error::InvalidVersion));
    assert_eq!(out, vec![9u8]);
}
