use mitase_workbench_server::signature::{
    governance_signature, path_escapes_repository, reported_paths, security_token, snapshot_signature, GovernedDocument,
    PathContent, ReportedPathError, SignedPath,
};
use sha2::Digest;

#[test]
fn paths_outside_the_repository_are_recognised() {
    assert!(path_escapes_repository("/etc/passwd"));
    assert!(path_escapes_repository("a/../b"));
    assert!(path_escapes_repository(".."));
    assert!(path_escapes_repository("a/.."));
    assert!(!path_escapes_repository("a/..b"));
    assert!(!path_escapes_repository("a.."));
    assert!(!path_escapes_repository("dir/file.txt"));
}

#[test]
fn git_output_is_split_decoded_and_checked() {
    assert_eq!(
        reported_paths(&b"a.txt\0dir/b.txt\0\0".to_vec()),
        Ok(vec!["a.txt".to_string(), "dir/b.txt".to_string()])
    );
    assert_eq!(reported_paths(&b"ok\0../x\0".to_vec()), Err(ReportedPathError::OutsideRepository));
    assert_eq!(reported_paths(&vec![0xff, 0xfe, 0]), Err(ReportedPathError::NotUtf8));
    assert_eq!(reported_paths(&vec![]), Ok(vec![]));
}

#[test]
fn signature_hashes_revision_fingerprint_and_contents() {
    let paths = vec![
        SignedPath { path: b"a.txt".to_vec(), content: PathContent::Present(b"hello".to_vec()) },
        SignedPath { path: b"gone.txt".to_vec(), content: PathContent::Deleted },
    ];
    let signature = snapshot_signature(&b"rev".to_vec(), &b"fp".to_vec(), &paths);
    let mut frame: Vec<u8> = Vec::new();
    frame.extend_from_slice(b"mitase/workbench-snapshot/v1\0rev\0governed-artifacts\0fp");
    frame.extend_from_slice(b"\0path\0a.txt\0content\0hello");
    frame.extend_from_slice(b"\0path\0gone.txt\0deleted\0");
    let digest = sha2::Sha256::digest(&frame);
    let hex: String = digest.iter().map(|b| format!("{b:02x}")).collect();
    assert_eq!(signature, format!("sha256:{hex}"));
}

#[test]
fn security_token_hashes_the_root_and_start_time() {
    let token = security_token(&b"/ws".to_vec(), 258);
    let mut data = b"/ws".to_vec();
    data.extend_from_slice(&258u128.to_le_bytes());
    let digest = sha2::Sha256::digest(&data);
    let hex: String = digest.iter().map(|b| format!("{b:02x}")).collect();
    assert_eq!(token, format!("sha256:{hex}"));
}

#[test]
fn governance_signature_hashes_config_and_documents_in_order() {
    let documents = vec![
        GovernedDocument { path: b"docs/a.yaml".to_vec(), content: b"a: 1".to_vec() },
        GovernedDocument { path: b"docs/b.yaml".to_vec(), content: b"b: 2".to_vec() },
    ];
    let signature = governance_signature(&b"version: 1".to_vec(), &documents);
    let mut frame: Vec<u8> = Vec::new();
    frame.extend_from_slice(b"mitase/workbench-governance/v1\0version: 1");
    frame.extend_from_slice(b"\0path\0docs/a.yaml\0content\0a: 1");
    frame.extend_from_slice(b"\0path\0docs/b.yaml\0content\0b: 2");
    let digest = sha2::Sha256::digest(&frame);
    let hex: String = digest.iter().map(|b| format!("{b:02x}")).collect();
    assert_eq!(signature, format!("sha256:{hex}"));
    let swapped = vec![
        GovernedDocument { path: b"docs/b.yaml".to_vec(), content: b"b: 2".to_vec() },
        GovernedDocument { path: b"docs/a.yaml".to_vec(), content: b"a: 1".to_vec() },
    ];
    assert_ne!(governance_signature(&b"version: 1".to_vec(), &swapped), signature);
}
