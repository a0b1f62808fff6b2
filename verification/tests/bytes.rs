// The byte round trips of transition leaves and deployments.
use aleo_core::deployment::{Deployment, DeploymentVersion, VerifyingKeyEntry};
use aleo_core::error::Error;
use aleo_core::field::Field;
use aleo_core::limbs::Limbs;
use aleo_core::program_names::Identifier;
use aleo_core::transition_leaf::TransitionLeaf;

struct TestRng(u64);

impl TestRng {
    fn next(&mut self) -> u64 {
        self.0 ^= self.0 << 13;
        self.0 ^= self.0 >> 7;
        self.0 ^= self.0 << 17;
        self.0
    }

    fn field(&mut self) -> Field {
        let l3 = self.next() >> 4;
        Field::from_limbs(Limbs { l0: self.next(), l1: self.next(), l2: self.next(), l3 }).unwrap()
    }
}

const ITERATIONS: u64 = 1000;

fn to_bytes_le(leaf: &TransitionLeaf) -> Vec<u8> {
    let mut out = Vec::new();
    leaf.write_le(&mut out);
    out
}

/// A stand-in encoding: one length byte, then that many bytes.
fn length_prefixed(s: &[u8], p: usize) -> Result<usize, Error> {
    if p >= s.len() {
        return Err(Error::UnexpectedEnd);
    }
    let end = p + 1 + s[p] as usize;
    if end > s.len() {
        return Err(Error::UnexpectedEnd);
    }
    Ok(end)
}

/// A stand-in address encoding: 32 bytes.
fn address(s: &[u8], p: usize) -> Result<usize, Error> {
    if s.len() - p < 32 {
        return Err(Error::UnexpectedEnd);
    }
    Ok(p + 32)
}

/// A stand-in checksum: 32 bytes, each the program's length plus its position.
fn checksum(program: &[u8]) -> Vec<u8> {
    (0..32u8).map(|i| (program.len() as u8).wrapping_add(i)).collect()
}

fn entry(name: &str, key: &[u8], certificate: &[u8]) -> VerifyingKeyEntry {
    let mut verifying_key = vec![key.len() as u8];
    verifying_key.extend_from_slice(key);
    let mut cert = vec![certificate.len() as u8];
    cert.extend_from_slice(certificate);
    VerifyingKeyEntry { name: Identifier::from_str(name).unwrap(), verifying_key, certificate: cert }
}

fn sample(checksum_present: bool, owner_present: bool) -> Deployment {
    let program = vec![3, 7, 8, 9];
    Deployment {
        edition: 258,
        program: program.clone(),
        verifying_keys: vec![entry("mint", &[1, 2], &[3]), entry("transfer", &[4], &[5, 6, 7])],
        program_checksum: if checksum_present { Some(checksum(&program)) } else { None },
        program_owner: if owner_present { Some(vec![42u8; 32]) } else { None },
    }
}

fn read(bytes: &[u8]) -> Result<(Deployment, usize), Error> {
    Deployment::read_le(bytes, 0, 63, &length_prefixed, &length_prefixed, &length_prefixed, &address, &checksum)
}

fn same(a: &Deployment, b: &Deployment) -> bool {
    a.edition == b.edition
        && a.program == b.program
        && a.program_checksum == b.program_checksum
        && a.program_owner == b.program_owner
        && a.verifying_keys.len() == b.verifying_keys.len()
        && a.verifying_keys.iter().zip(b.verifying_keys.iter()).all(|(x, y)| {
            x.name == y.name && x.verifying_key == y.verifying_key && x.certificate == y.certificate
        })
}

#[test]
fn bytes_test_bytes() {
    // Transition leaves.
    let mut rng = TestRng(7);
    for _ in 0..ITERATIONS {
        let expected = TransitionLeaf::new(rng.next() as u8, (rng.next() % 8) as u8, rng.field());
        let expected_bytes = to_bytes_le(&expected);
        assert_eq!(expected, TransitionLeaf::read_le(&expected_bytes[..], 0).unwrap().0);

        let expected_dynamic = if rng.next() % 2 == 0 {
            TransitionLeaf::new_record_with_dynamic_id(rng.next() as u8, rng.field())
        } else {
            TransitionLeaf::new_external_record_with_dynamic_id(rng.next() as u8, rng.field())
        };
        let expected_dynamic_bytes = to_bytes_le(&expected_dynamic);
        assert_eq!(expected_dynamic, TransitionLeaf::read_le(&expected_dynamic_bytes[..], 0).unwrap().0);
    }

    // Deployments of each version.
    for (checksum_present, owner_present, version) in
        [(false, false, DeploymentVersion::V1), (true, true, DeploymentVersion::V2), (true, false, DeploymentVersion::V3)]
    {
        let expected = sample(checksum_present, owner_present);
        assert_eq!(expected.version(), Ok(version));
        let mut expected_bytes = Vec::new();
        expected.write_le(&mut expected_bytes).unwrap();
        let (read_back, end) = read(&expected_bytes).unwrap();
        assert_eq!(end, expected_bytes.len());
        assert!(same(&expected, &read_back));
    }
}
