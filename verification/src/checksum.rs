//! The checksum that is computed of the finished file.

use sha2::{Digest, Sha256};
use vstd::prelude::*;

verus! {

/// The SHA-256 digest of `data`, as the `sha2` crate computes it.
pub uninterp spec fn sha256_spec(data: Seq<u8>) -> Seq<u8>;

/// Calls `Sha256::digest` of the `sha2` crate, which hashes `data` in one go.
/// Claimed: the result is that crate's SHA-256 digest of `data`, named
/// `sha256_spec`, and is 32 bytes long (the crate's output size for SHA-256).
#[verifier::external_body]
fn sha256_digest(data: &[u8]) -> (d: Vec<u8>)
    ensures
        d@ == sha256_spec(data@),
        d@.len() == 32,
{
    Sha256::digest(data).to_vec()
}

/// The lower-case hexadecimal digits.
pub open spec fn hex_digits() -> Seq<char> {
    seq!['0', '1', '2', '3', '4', '5', '6', '7', '8', '9', 'a', 'b', 'c', 'd', 'e', 'f']
}

/// Two lower-case hexadecimal digits per byte, high half first.
pub open spec fn lower_hex(s: Seq<u8>) -> Seq<char>
    decreases s.len(),
{
    if s.len() == 0 {
        Seq::empty()
    } else {
        lower_hex(s.drop_last()) + seq![hex_digits()[(s.last() / 16) as int], hex_digits()[(s.last() % 16) as int]]
    }
}

proof fn lemma_lower_hex_len(s: Seq<u8>)
    ensures
        lower_hex(s).len() == 2 * s.len(),
    decreases s.len(),
{
    if s.len() > 0 {
        lemma_lower_hex_len(s.drop_last());
    }
}

/// The name under which SHA-256 is asked for.
pub open spec fn sha256_name() -> Seq<char> {
    seq!['s', 'h', 'a', '2', '5', '6']
}

fn hex_digit_str(v: u8) -> (s: &'static str)
    requires
        v < 16,
    ensures
        s@ == seq![hex_digits()[v as int]],
{
    match v {
        0 => {
            proof {
                reveal_strlit("0");
            }
            "0"
        },
        1 => {
            proof {
                reveal_strlit("1");
            }
            "1"
        },
        2 => {
            proof {
                reveal_strlit("2");
            }
            "2"
        },
        3 => {
            proof {
                reveal_strlit("3");
            }
            "3"
        },
        4 => {
            proof {
                reveal_strlit("4");
            }
            "4"
        },
        5 => {
            proof {
                reveal_strlit("5");
            }
            "5"
        },
        6 => {
            proof {
                reveal_strlit("6");
            }
            "6"
        },
        7 => {
            proof {
                reveal_strlit("7");
            }
            "7"
        },
        8 => {
            proof {
                reveal_strlit("8");
            }
            "8"
        },
        9 => {
            proof {
                reveal_strlit("9");
            }
            "9"
        },
        10 => {
            proof {
                reveal_strlit("a");
            }
            "a"
        },
        11 => {
            proof {
                reveal_strlit("b");
            }
            "b"
        },
        12 => {
            proof {
                reveal_strlit("c");
            }
            "c"
        },
        13 => {
            proof {
                reveal_strlit("d");
            }
            "d"
        },
        14 => {
            proof {
                reveal_strlit("e");
            }
            "e"
        },
        15 => {
            proof {
                reveal_strlit("f");
            }
            "f"
        },
        _ => {
            proof {
                reveal_strlit("f");
            }
            "f"
        },
    }
}

/// Writes `bytes` as lower-case hexadecimal, two digits per byte.
pub fn to_lower_hex(bytes: &[u8]) -> (s: String)
    ensures
        s@ == lower_hex(bytes@),
        s@.len() == 2 * bytes@.len(),
{
    let mut s = String::new();
    let mut i: usize = 0;
    while i < bytes.len()
        invariant
            i <= bytes@.len(),
            s@ == lower_hex(bytes@.take(i as int)),
        decreases bytes.len() - i,
    {
        let b = bytes[i];
        assert(bytes@.take(i + 1).drop_last() =~= bytes@.take(i as int));
        s.append(hex_digit_str(b / 16));
        s.append(hex_digit_str(b % 16));
        i = i + 1;
    }
    assert(bytes@.take(bytes@.len() as int) =~= bytes@);
    proof {
        lemma_lower_hex_len(bytes@);
    }
    s
}

/// Why no checksum could be computed.
#[derive(Debug)]
pub enum ChecksumError {
    /// The extension was set up with an algorithm that it does not know.
    UnsupportedAlgorithm(String),
}

impl ChecksumError {
    /// The message that reports the error.
    pub fn message(&self) -> (m: String)
        ensures
            match self {
                ChecksumError::UnsupportedAlgorithm(a) => m@ == "Unsupported checksum algorithm: "@ + a@,
            },
    {
        match self {
            ChecksumError::UnsupportedAlgorithm(a) => {
                let mut m = String::from_str("Unsupported checksum algorithm: ");
                m.append(a.as_str());
                m
            },
        }
    }
}

/// Computes a checksum of the downloaded file once the download is done.
pub struct ChecksumExtension {
    algorithm: String,
}

impl ChecksumExtension {
    pub closed spec fn algorithm_spec(self) -> Seq<char> {
        self.algorithm@
    }

    /// An extension that checksums with the algorithm named `algorithm`.
    pub fn new(algorithm: &str) -> (e: Self)
        ensures
            e.algorithm_spec() == algorithm@,
    {
        ChecksumExtension { algorithm: String::from_str(algorithm) }
    }

    /// The name of the algorithm.
    pub fn algorithm(&self) -> (s: &str)
        ensures
            s@ == self.algorithm_spec(),
    {
        self.algorithm.as_str()
    }

    /// The checksum of `data` in lower-case hexadecimal; only SHA-256 is known.
    pub fn calculate_checksum(&self, data: &[u8]) -> (r: Result<String, ChecksumError>)
        ensures
            match r {
                Ok(s) => self.algorithm_spec() == sha256_name() && s@ == lower_hex(sha256_spec(data@))
                    && s@.len() == 64,
                Err(ChecksumError::UnsupportedAlgorithm(a)) => self.algorithm_spec() != sha256_name()
                    && a@ == self.algorithm_spec(),
            },
    {
        let sha256 = String::from_str("sha256");
        proof {
            reveal_strlit("sha256");
        }
        assert(sha256@ =~= sha256_name());
        if self.algorithm == sha256 {
            let digest = sha256_digest(data);
            Ok(to_lower_hex(digest.as_slice()))
        } else {
            Err(ChecksumError::UnsupportedAlgorithm(self.algorithm.clone()))
        }
    }

    /// What is reported of a finished file of `file_size` bytes that read as
    /// `contents`: nothing for an empty file, which is skipped, and the
    /// checksum of what was read otherwise.
    pub fn checksum_file(&self, file_size: u64, contents: &[u8]) -> (r: Result<Option<String>, ChecksumError>)
        ensures
            file_size == 0 ==> r == Ok::<Option<String>, ChecksumError>(None),
            file_size > 0 ==> match r {
                Ok(Some(s)) => self.algorithm_spec() == sha256_name() && s@ == lower_hex(
                    sha256_spec(contents@),
                ) && s@.len() == 64,
                Ok(None) => false,
                Err(ChecksumError::UnsupportedAlgorithm(a)) => self.algorithm_spec() != sha256_name()
                    && a@ == self.algorithm_spec(),
            },
    {
        if file_size == 0 {
            return Ok(None);
        }
        match self.calculate_checksum(contents) {
            Ok(s) => Ok(Some(s)),
            Err(e) => Err(e),
        }
    }
}

} // verus!
