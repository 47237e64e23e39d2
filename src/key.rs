//! SSH public keys: the two fields kept of a key, the accepted algorithms and
//! the `SHA256:` fingerprint.
use vstd::prelude::*;
use vstd::string::*;
use base64::Engine;
use sha2::Digest;

verus! {

/// Why a public key was refused.
#[derive(Clone, Copy, Debug, PartialEq, Eq, Structural)]
pub enum KeyError {
    /// The text has no space between an algorithm and a key blob.
    Malformed,
    /// The algorithm is not one of those accepted.
    UnsupportedAlgorithm,
    /// The key blob is not standard padded base64.
    InvalidBase64,
}

impl KeyError {
    /// A message for the operator.
    pub fn message(&self) -> &'static str {
        match self {
            KeyError::Malformed => "Invalid key format.",
            KeyError::UnsupportedAlgorithm => "Wrong SSH key format.",
            KeyError::InvalidBase64 => "Wrong SSH key format.",
        }
    }
}

/// The bytes that standard padded base64 text encodes, if it is such text.
pub uninterp spec fn base64_decoded(s: Seq<char>) -> Option<Seq<u8>>;

/// The SHA-256 digest of `b`.
pub uninterp spec fn sha256_of(b: Seq<u8>) -> Seq<u8>;

/// Standard base64 of `b` without padding.
pub uninterp spec fn base64_unpadded(b: Seq<u8>) -> Seq<char>;

/// Relies on base64 `STANDARD.decode`: the bytes encoded by the text, or an
/// error when it is not padded standard base64.
#[verifier::external_body]
fn decode_base64(s: &str) -> (r: Option<Vec<u8>>)
    ensures
        match r {
            Some(v) => base64_decoded(s@) == Some(v@),
            None => base64_decoded(s@) is None,
        },
{
    base64::engine::general_purpose::STANDARD.decode(s).ok()
}

/// Relies on sha2 `Sha256`: the 32-byte digest of the input.
#[verifier::external_body]
fn sha256(b: &[u8]) -> (r: Vec<u8>)
    ensures
        r@ == sha256_of(b@),
        r@.len() == 32,
{
    let mut h = sha2::Sha256::new();
    h.update(b);
    h.finalize().to_vec()
}

/// Relies on base64 `STANDARD_NO_PAD.encode`, which panics only when the
/// encoded length overflows, far beyond a digest's length.
#[verifier::external_body]
fn encode_base64_unpadded(b: &[u8]) -> (r: String)
    requires
        b@.len() <= 64,
    ensures
        r@ == base64_unpadded(b@),
{
    base64::engine::general_purpose::STANDARD_NO_PAD.encode(b)
}

/// `m` is the first position of `c` in `t`.
pub open spec fn first_at(t: Seq<char>, c: char, m: int) -> bool {
    &&& 0 <= m < t.len()
    &&& t[m] == c
    &&& forall|k: int| 0 <= k < m ==> t[k] != c
}

/// The text up to the first space, or all of it.
pub open spec fn up_to_space(t: Seq<char>) -> Seq<char> {
    if exists|m: int| first_at(t, ' ', m) {
        t.take(choose|m: int| first_at(t, ' ', m))
    } else {
        t
    }
}

/// The algorithm and the key blob: the text before the first space and the
/// text between it and the next space (or the end). None without a space.
pub open spec fn key_fields(s: Seq<char>) -> Option<(Seq<char>, Seq<char>)> {
    if exists|m: int| first_at(s, ' ', m) {
        let i = choose|m: int| first_at(s, ' ', m);
        Some((s.take(i), up_to_space(s.skip(i + 1))))
    } else {
        None
    }
}

/// The key as stored: its first two space-separated fields.
pub open spec fn normalized_key(s: Seq<char>) -> Option<Seq<char>> {
    match key_fields(s) {
        Some((a, b)) => Some(a + " "@ + b),
        None => None,
    }
}

pub open spec fn accepted_algorithm(a: Seq<char>) -> bool {
    a == "ssh-ed25519"@ || a == "ssh-rsa"@ || a == "ecdsa-sha2-nistp256"@
}

/// `SHA256:` and the unpadded base64 of the SHA-256 digest of the decoded blob,
/// for a key of an accepted algorithm whose blob decodes.
pub open spec fn fingerprint_of(s: Seq<char>) -> Result<Seq<char>, KeyError> {
    match key_fields(s) {
        None => Err(KeyError::Malformed),
        Some((a, b)) => if !accepted_algorithm(a) {
            Err(KeyError::UnsupportedAlgorithm)
        } else {
            match base64_decoded(b) {
                None => Err(KeyError::InvalidBase64),
                Some(bytes) => Ok("SHA256:"@ + base64_unpadded(sha256_of(bytes))),
            }
        },
    }
}

proof fn lemma_first_unique(t: Seq<char>, c: char, m1: int, m2: int)
    requires
        first_at(t, c, m1),
        first_at(t, c, m2),
    ensures
        m1 == m2,
{
    if m1 < m2 {
        assert(t[m1] != c);
    } else if m2 < m1 {
        assert(t[m2] != c);
    }
}

/// The position of the first space in `s` at or after `from`.
fn find_space(s: &str, from: usize) -> (r: Option<usize>)
    requires
        from <= s@.len(),
    ensures
        match r {
            Some(i) => from <= i && first_at(s@.skip(from as int), ' ', i - from),
            None => !exists|m: int| first_at(s@.skip(from as int), ' ', m),
        },
{
    let n = s.unicode_len();
    let ghost t = s@.skip(from as int);
    let mut i: usize = from;
    while i < n
        invariant
            n == s@.len(),
            from <= i <= n,
            t == s@.skip(from as int),
            forall|k: int| 0 <= k < i - from ==> t[k] != ' ',
        decreases n - i,
    {
        if s.get_char(i) == ' ' {
            assert(t[i - from] == ' ');
            return Some(i);
        }
        i += 1;
    }
    proof {
        assert forall|m: int| !first_at(t, ' ', m) by {
            if first_at(t, ' ', m) {
                assert(t[m] != ' ');
            }
        }
    }
    None
}

/// The algorithm and the key blob of `s`, as `key_fields` describes them.
pub fn split_key(s: &str) -> (r: Option<(String, String)>)
    ensures
        match r {
            Some((a, b)) => key_fields(s@) == Some((a@, b@)),
            None => key_fields(s@) is None,
        },
{
    let n = s.unicode_len();
    match find_space(s, 0) {
        None => {
            assert(s@.skip(0) =~= s@);
            None
        },
        Some(i) => {
            proof {
                assert(s@.skip(0) =~= s@);
                let m = choose|m: int| first_at(s@, ' ', m);
                lemma_first_unique(s@, ' ', m, i as int);
            }
            let a = s.substring_char(0, i);
            let end = match find_space(s, i + 1) {
                Some(j) => {
                    proof {
                        let t = s@.skip(i + 1);
                        let m = choose|m: int| first_at(t, ' ', m);
                        lemma_first_unique(t, ' ', m, j - (i + 1));
                        assert(t.take(j - (i + 1)) =~= s@.subrange(i + 1, j as int));
                    }
                    j
                },
                None => {
                    assert(s@.skip(i + 1) =~= s@.subrange(i + 1, n as int));
                    n
                },
            };
            let b = s.substring_char(i + 1, end);
            assert(a@ =~= s@.take(i as int));
            Some((String::from_str(a), String::from_str(b)))
        },
    }
}

/// The key as stored: its first two space-separated fields joined by one space.
pub fn normalize_key(s: &str) -> (r: Result<String, KeyError>)
    ensures
        match r {
            Ok(k) => normalized_key(s@) == Some(k@),
            Err(e) => normalized_key(s@) is None && e == KeyError::Malformed,
        },
{
    match split_key(s) {
        Some((a, b)) => {
            let mut k = a;
            k.append(" ");
            k.append(b.as_str());
            Ok(k)
        },
        None => Err(KeyError::Malformed),
    }
}

/// Whether `a` is one of the accepted key algorithms.
pub fn is_supported_algorithm(a: &str) -> (b: bool)
    ensures
        b == accepted_algorithm(a@),
{
    let s = String::from_str(a);
    let ed = String::from_str("ssh-ed25519");
    let rsa = String::from_str("ssh-rsa");
    let ecdsa = String::from_str("ecdsa-sha2-nistp256");
    s == ed || s == rsa || s == ecdsa
}

/// `SHA256:` followed by an encoded digest.
pub fn fingerprint_text(encoded: &str) -> (r: String)
    ensures
        r@ == "SHA256:"@ + encoded@,
{
    let mut r = String::from_str("SHA256:");
    r.append(encoded);
    r
}

/// The fingerprint of a key: `SHA256:` and the unpadded base64 of the SHA-256
/// digest of its decoded blob. A key of another algorithm is refused before
/// its blob is decoded.
pub fn generate_fingerprint(key: &str) -> (r: Result<String, KeyError>)
    ensures
        match r {
            Ok(f) => fingerprint_of(key@) == Ok::<Seq<char>, KeyError>(f@),
            Err(e) => fingerprint_of(key@) == Err::<Seq<char>, KeyError>(e),
        },
{
    match split_key(key) {
        None => Err(KeyError::Malformed),
        Some((a, b)) => {
            if !is_supported_algorithm(a.as_str()) {
                return Err(KeyError::UnsupportedAlgorithm);
            }
            match decode_base64(b.as_str()) {
                None => Err(KeyError::InvalidBase64),
                Some(bytes) => {
                    let digest = sha256(bytes.as_slice());
                    let encoded = encode_base64_unpadded(digest.as_slice());
                    Ok(fingerprint_text(encoded.as_str()))
                },
            }
        },
    }
}

/// The fingerprint is a function of the key text: computing it twice on the
/// same text gives the same result.
pub proof fn lemma_fingerprint_deterministic(k1: Seq<char>, k2: Seq<char>)
    requires
        k1 == k2,
    ensures
        fingerprint_of(k1) == fingerprint_of(k2),
{
}

/// A key whose algorithm is not accepted is refused as such, whatever its blob.
pub proof fn lemma_unsupported_algorithm_refused(k: Seq<char>)
    requires
        match key_fields(k) {
            Some((a, _)) => !accepted_algorithm(a),
            None => false,
        },
    ensures
        fingerprint_of(k) == Err::<Seq<char>, KeyError>(KeyError::UnsupportedAlgorithm),
{
}

} // verus!
