//! The signature of a workspace snapshot: which paths git reports as
//! changed, and the SHA-256 over the revision, the governed fingerprint and
//! each path's content.
use vstd::prelude::*;
use sha2::Digest;
use crate::changes::{byte_views, nul_fields, split_nul_fields};
use crate::hashing::{hex, hex_string};
use crate::scope::{decode_utf8, utf8_decoded};
use crate::text::{append, chars_of, owned};

verus! {

/// Names the SHA-256 digest of a byte sequence.
pub uninterp spec fn sha256_of_bytes(data: Seq<u8>) -> Seq<u8>;

/// Calls `sha2::Sha256::digest` on `data`.  The contract names the digest,
/// which depends on the bytes alone, and states its length: SHA-256 has a
/// 32-byte output.
#[verifier::external_body]
fn sha256_bytes(data: &Vec<u8>) -> (r: Vec<u8>)
    ensures
        r@ == sha256_of_bytes(data@),
        r@.len() == 32,
{
    <sha2::Sha256 as Digest>::digest(data.as_slice()).to_vec()
}

/// Whether a relative path reported by git escapes the repository: it is
/// absolute, or one of its `/`-separated parts is `..`.
pub open spec fn path_escapes(p: Seq<char>) -> bool {
    (p.len() > 0 && p[0] == '/') || exists|i: int| #[trigger] parent_part_at(p, i)
}

/// Whether the part of `p` at `i` is `..`.
pub open spec fn parent_part_at(p: Seq<char>, i: int) -> bool {
    0 <= i && i + 2 <= p.len() && p[i] == '.' && p[i + 1] == '.' && (i == 0 || p[i - 1] == '/') && (i + 2
        == p.len() || p[i + 2] == '/')
}

/// Whether `path` escapes the repository.
pub fn path_escapes_repository(path: &str) -> (r: bool)
    ensures
        r == path_escapes(path@),
{
    let cs = chars_of(path);
    if cs.len() > 0 && cs[0] == '/' {
        return true;
    }
    let mut i: usize = 0;
    while i < cs.len() && i + 1 < cs.len()
        invariant
            i <= cs.len(),
            cs@ == path@,
            !(cs@.len() > 0 && cs@[0] == '/'),
            forall|j: int| 0 <= j < i ==> !#[trigger] parent_part_at(cs@, j),
        decreases cs.len() - i,
    {
        if cs[i] == '.' && cs[i + 1] == '.' && (i == 0 || cs[i - 1] == '/') && (i + 2 == cs.len() || cs[i + 2]
            == '/') {
            proof {
                assert(parent_part_at(cs@, i as int));
            }
            return true;
        }
        i = i + 1;
    }
    proof {
        assert forall|j: int| !parent_part_at(cs@, j) by {
            if parent_part_at(cs@, j) && j >= i {
                assert(j + 2 <= cs@.len());
            }
        }
    }
    false
}

/// Why the paths git reported cannot be read.
#[derive(Debug, Clone, Copy, PartialEq, Eq, Structural)]
pub enum ReportedPathError {
    /// A path is not valid UTF-8.
    NotUtf8,
    /// A path lies outside the repository.
    OutsideRepository,
}

/// The paths of git's NUL-separated output `b`, each decoded; or why not.
pub open spec fn reported_paths_of(b: Seq<u8>) -> Result<Seq<Seq<char>>, ReportedPathError> {
    paths_of_fields(nul_fields(b))
}

pub open spec fn paths_of_fields(fs: Seq<Seq<u8>>) -> Result<Seq<Seq<char>>, ReportedPathError>
    decreases fs.len(),
{
    if fs.len() == 0 {
        Ok(Seq::empty())
    } else {
        match paths_of_fields(fs.drop_last()) {
            Err(e) => Err(e),
            Ok(done) => match utf8_decoded(fs.last()) {
                None => Err(ReportedPathError::NotUtf8),
                Some(p) => if path_escapes(p) {
                    Err(ReportedPathError::OutsideRepository)
                } else {
                    Ok(done.push(p))
                },
            },
        }
    }
}

/// The paths in git's NUL-separated output, in order: each must be UTF-8
/// and stay inside the repository.
pub fn reported_paths(output: &Vec<u8>) -> (r: Result<Vec<String>, ReportedPathError>)
    ensures
        match r {
            Ok(v) => reported_paths_of(output@) == Ok::<Seq<Seq<char>>, ReportedPathError>(v@.map_values(|s: String| s@)),
            Err(e) => reported_paths_of(output@) == Err::<Seq<Seq<char>>, ReportedPathError>(e),
        },
{
    let fields = split_nul_fields(output);
    let ghost fs = byte_views(fields@);
    let mut out: Vec<String> = Vec::new();
    let mut i: usize = 0;
    proof {
        assert(fs.take(0) =~= Seq::<Seq<u8>>::empty());
        assert(out@.map_values(|s: String| s@) =~= Seq::empty());
    }
    while i < fields.len()
        invariant
            i <= fields.len(),
            fs == byte_views(fields@),
            fs == nul_fields(output@),
            paths_of_fields(fs.take(i as int)) == Ok::<Seq<Seq<char>>, ReportedPathError>(out@.map_values(|s: String| s@)),
        decreases fields.len() - i,
    {
        let bytes = fields[i].clone();
        proof {
            assert(fs.take(i + 1).drop_last() =~= fs.take(i as int));
            assert(fs.take(i + 1).last() == fs[i as int]);
            assert(fs[i as int] == fields@[i as int]@);
        }
        match decode_utf8(bytes) {
            None => {
                proof {
                    lemma_error_persists(fs, i as int + 1, ReportedPathError::NotUtf8);
                }
                return Err(ReportedPathError::NotUtf8);
            },
            Some(p) => {
                if path_escapes_repository(p.as_str()) {
                    proof {
                        lemma_error_persists(fs, i as int + 1, ReportedPathError::OutsideRepository);
                    }
                    return Err(ReportedPathError::OutsideRepository);
                }
                let ghost before = out@;
                out.push(p);
                proof {
                    assert(out@.map_values(|s: String| s@) =~= before.map_values(|s: String| s@).push(p@));
                }
            },
        }
        i = i + 1;
    }
    proof {
        assert(fs.take(fs.len() as int) =~= fs);
    }
    Ok(out)
}

/// Once reading the first `n` fields fails, reading all of them fails the
/// same way.
proof fn lemma_error_persists(fs: Seq<Seq<u8>>, n: int, e: ReportedPathError)
    requires
        0 <= n <= fs.len(),
        paths_of_fields(fs.take(n)) == Err::<Seq<Seq<char>>, ReportedPathError>(e),
    ensures
        paths_of_fields(fs) == Err::<Seq<Seq<char>>, ReportedPathError>(e),
    decreases fs.len() - n,
{
    if n < fs.len() {
        assert(fs.take(n + 1).drop_last() =~= fs.take(n));
        lemma_error_persists(fs, n + 1, e);
    } else {
        assert(fs.take(n) =~= fs);
    }
}

// ---------------------------------------------------------------------------
// The snapshot signature

/// What reading a signed path gave: its bytes, or that it is gone.
pub enum PathContent {
    Present(Vec<u8>),
    Deleted,
}

/// A path of the snapshot (its text as UTF-8) and what reading it gave.
pub struct SignedPath {
    pub path: Vec<u8>,
    pub content: PathContent,
}

/// The bytes of ASCII text.
pub open spec fn ascii(s: Seq<char>) -> Seq<u8> {
    s.map_values(|c: char| c as u8)
}

fn ascii_bytes(s: &str) -> (r: Vec<u8>)
    ensures
        r@ == ascii(s@),
{
    let cs = chars_of(s);
    let mut r: Vec<u8> = Vec::new();
    let mut i: usize = 0;
    while i < cs.len()
        invariant
            i <= cs.len(),
            cs@ == s@,
            r@ == ascii(s@).take(i as int),
        decreases cs.len() - i,
    {
        r.push(cs[i] as u8);
        proof {
            assert(r@ =~= ascii(s@).take(i + 1));
        }
        i = i + 1;
    }
    proof {
        assert(ascii(s@).take(cs@.len() as int) =~= ascii(s@));
    }
    r
}

/// The bytes a path adds to the signature.
pub open spec fn path_frame(p: SignedPath) -> Seq<u8> {
    ascii("\0path\0"@) + p.path@ + match p.content {
        PathContent::Present(c) => ascii("\0content\0"@) + c@,
        PathContent::Deleted => ascii("\0deleted\0"@),
    }
}

pub open spec fn paths_frame(ps: Seq<SignedPath>) -> Seq<u8>
    decreases ps.len(),
{
    if ps.len() == 0 {
        Seq::empty()
    } else {
        paths_frame(ps.drop_last()) + path_frame(ps.last())
    }
}

/// The bytes the signature hashes: a version tag, the revision, the
/// governed fingerprint, then each path with its content or `deleted`.
pub open spec fn signature_frame(revision: Seq<u8>, fingerprint: Seq<u8>, paths: Seq<SignedPath>) -> Seq<u8> {
    ascii("mitase/workbench-snapshot/v1\0"@) + revision + ascii("\0governed-artifacts\0"@) + fingerprint
        + paths_frame(paths)
}

fn extend(out: &mut Vec<u8>, b: &Vec<u8>)
    ensures
        final(out)@ == old(out)@ + b@,
{
    let ghost start = out@;
    let mut i: usize = 0;
    while i < b.len()
        invariant
            i <= b.len(),
            out@ == start + b@.take(i as int),
        decreases b.len() - i,
    {
        out.push(b[i]);
        proof {
            assert(out@ =~= start + b@.take(i + 1));
        }
        i = i + 1;
    }
    proof {
        assert(b@.take(b@.len() as int) =~= b@);
    }
}

/// The signature of a workspace snapshot: `sha256:` and the hex of the
/// SHA-256 over the revision, the governed fingerprint and each path (in
/// the order given) with its content.
pub fn snapshot_signature(revision: &Vec<u8>, fingerprint: &Vec<u8>, paths: &Vec<SignedPath>) -> (r: String)
    ensures
        r@ == "sha256:"@ + hex(sha256_of_bytes(signature_frame(revision@, fingerprint@, paths@))),
{
    let mut frame = ascii_bytes("mitase/workbench-snapshot/v1\0");
    extend(&mut frame, revision);
    extend(&mut frame, &ascii_bytes("\0governed-artifacts\0"));
    extend(&mut frame, fingerprint);
    let ghost head = frame@;
    let mut i: usize = 0;
    proof {
        assert(paths@.take(0) =~= Seq::<SignedPath>::empty());
        assert(frame@ =~= head + paths_frame(paths@.take(0)));
    }
    while i < paths.len()
        invariant
            i <= paths.len(),
            frame@ == head + paths_frame(paths@.take(i as int)),
        decreases paths.len() - i,
    {
        let p = &paths[i];
        extend(&mut frame, &ascii_bytes("\0path\0"));
        extend(&mut frame, &p.path);
        match &p.content {
            PathContent::Present(c) => {
                extend(&mut frame, &ascii_bytes("\0content\0"));
                extend(&mut frame, c);
            },
            PathContent::Deleted => {
                extend(&mut frame, &ascii_bytes("\0deleted\0"));
            },
        }
        proof {
            assert(paths@.take(i + 1).drop_last() =~= paths@.take(i as int));
            assert(paths@.take(i + 1).last() == paths@[i as int]);
            assert(frame@ =~= head + paths_frame(paths@.take(i + 1)));
        }
        i = i + 1;
    }
    proof {
        assert(paths@.take(paths@.len() as int) =~= paths@);
    }
    let digest = sha256_bytes(&frame);
    let mut r = owned("sha256:");
    let h = hex_string(&digest);
    append(&mut r, h.as_str());
    r
}

// ---------------------------------------------------------------------------
// The governance signature

/// A specification document: its path (as UTF-8 text) and its bytes.
pub struct GovernedDocument {
    pub path: Vec<u8>,
    pub content: Vec<u8>,
}

pub open spec fn documents_frame(ds: Seq<GovernedDocument>) -> Seq<u8>
    decreases ds.len(),
{
    if ds.len() == 0 {
        Seq::empty()
    } else {
        documents_frame(ds.drop_last()) + ascii("\0path\0"@) + ds.last().path@ + ascii("\0content\0"@)
            + ds.last().content@
    }
}

/// The bytes the governance signature hashes: a version tag, the project
/// configuration, then each specification document's path and content.
pub open spec fn governance_frame(config: Seq<u8>, documents: Seq<GovernedDocument>) -> Seq<u8> {
    ascii("mitase/workbench-governance/v1\0"@) + config + documents_frame(documents)
}

/// The signature of what governs the workspace: `sha256:` and the hex of
/// the SHA-256 over the project configuration and each specification
/// document (in the order given, which is by path) with its content. A
/// change of it invalidates the work in progress.
pub fn governance_signature(config: &Vec<u8>, documents: &Vec<GovernedDocument>) -> (r: String)
    ensures
        r@ == "sha256:"@ + hex(sha256_of_bytes(governance_frame(config@, documents@))),
{
    let mut frame = ascii_bytes("mitase/workbench-governance/v1\0");
    extend(&mut frame, config);
    let ghost head = frame@;
    let mut i: usize = 0;
    proof {
        assert(documents@.take(0) =~= Seq::<GovernedDocument>::empty());
        assert(frame@ =~= head + documents_frame(documents@.take(0)));
    }
    while i < documents.len()
        invariant
            i <= documents.len(),
            frame@ == head + documents_frame(documents@.take(i as int)),
        decreases documents.len() - i,
    {
        let d = &documents[i];
        extend(&mut frame, &ascii_bytes("\0path\0"));
        extend(&mut frame, &d.path);
        extend(&mut frame, &ascii_bytes("\0content\0"));
        extend(&mut frame, &d.content);
        proof {
            assert(documents@.take(i + 1).drop_last() =~= documents@.take(i as int));
            assert(documents@.take(i + 1).last() == documents@[i as int]);
            assert(frame@ =~= head + documents_frame(documents@.take(i + 1)));
        }
        i = i + 1;
    }
    proof {
        assert(documents@.take(documents@.len() as int) =~= documents@);
    }
    let digest = sha256_bytes(&frame);
    let mut r = owned("sha256:");
    let h = hex_string(&digest);
    append(&mut r, h.as_str());
    r
}

// ---------------------------------------------------------------------------
// The server's CSRF token

/// The 16 little-endian bytes of `n`, from the `k` lowest.
pub open spec fn le_bytes(n: nat, k: nat) -> Seq<u8>
    decreases k,
{
    if k == 0 {
        Seq::empty()
    } else {
        seq![(n % 256) as u8] + le_bytes(n / 256, (k - 1) as nat)
    }
}

proof fn lemma_le_bytes_step(n: nat, k: nat)
    ensures
        le_bytes(n, k + 1) == seq![(n % 256) as u8] + le_bytes(n / 256, k),
{
}

fn u128_le_bytes(n: u128) -> (r: Vec<u8>)
    ensures
        r@ == le_bytes(n as nat, 16),
{
    let mut r: Vec<u8> = Vec::new();
    let mut m: u128 = n;
    let mut k: usize = 0;
    proof {
        assert(le_bytes(n as nat, 16) == r@ + le_bytes(m as nat, 16));
    }
    while k < 16
        invariant
            k <= 16,
            le_bytes(n as nat, 16) == r@ + le_bytes(m as nat, (16 - k) as nat),
        decreases 16 - k,
    {
        let ghost before = r@;
        let ghost mm = m;
        r.push((m % 256) as u8);
        m = m / 256;
        proof {
            lemma_le_bytes_step(mm as nat, (16 - k - 1) as nat);
            assert(le_bytes(mm as nat, (16 - k) as nat) == seq![(mm % 256) as u8] + le_bytes(
                m as nat,
                (16 - k - 1) as nat,
            ));
            assert(r@ + le_bytes(m as nat, (16 - (k + 1)) as nat) =~= before + le_bytes(mm as nat, (16 - k) as nat));
        }
        k = k + 1;
    }
    proof {
        assert(le_bytes(m as nat, 0) =~= Seq::<u8>::empty());
        assert(r@ + le_bytes(m as nat, 0) =~= r@);
    }
    r
}

/// The CSRF token of a server process: `sha256:` and the hex of the
/// SHA-256 over the workspace root's text (as UTF-8) and the start time in
/// nanoseconds since the epoch as 16 little-endian bytes.
pub fn security_token(root: &Vec<u8>, started_nanos: u128) -> (r: String)
    ensures
        r@ == "sha256:"@ + hex(sha256_of_bytes(root@ + le_bytes(started_nanos as nat, 16))),
{
    let mut data = Vec::new();
    extend(&mut data, root);
    extend(&mut data, &u128_le_bytes(started_nanos));
    proof {
        assert(data@ =~= root@ + le_bytes(started_nanos as nat, 16));
    }
    let digest = sha256_bytes(&data);
    let mut r = owned("sha256:");
    let h = hex_string(&digest);
    append(&mut r, h.as_str());
    r
}

} // verus!
