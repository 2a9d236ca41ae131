//! PBKDF2-HMAC-SHA256 password hashing.

use vstd::prelude::*;
use crate::crypto::{
    base64_standard, base64_standard_decoded, constant_time_eq, decode_base64_standard,
    encode_base64_standard, input_len_ok, is_base64_standard_char, pbkdf2_derive,
    pbkdf2_hmac_sha256, random_bytes, within_input_limit,
};
use crate::decimal::{decimal, parse_u32, parse_decimal_u32, u32_to_decimal, lemma_parse_decimal, lemma_decimal_digits, is_digit};
use crate::error::AuthError;
use crate::strings::{split_on, split_char, str_eq, lemma_split_join, lemma_split_single, lemma_split_piece_len};
use crate::collections::string_views;

verus! {

/// The UTF-8 bytes of a text.
pub open spec fn utf8(s: Seq<char>) -> Seq<u8> {
    vstd::utf8::encode_utf8(s)
}

/// The stored form of a password hash.
pub open spec fn hash_text(iterations: u32, salt: Seq<u8>, key: Seq<u8>) -> Seq<char> {
    "pbkdf2_sha256"@ + seq!['$'] + decimal(iterations as nat) + seq!['$'] + base64_standard(salt) + seq!['$']
        + base64_standard(key)
}

/// The outcome of checking a password against a stored hash.
pub enum PasswordCheck {
    /// The hash is well formed; whether the password matches.
    Verdict(bool),
    /// The iteration count is not a 32-bit decimal number.
    BadIterations,
    /// The salt or the key is not valid base64.
    BadBase64,
}

/// The outcome of checking `password` against the stored hash `hashed`: a
/// hash not of the form `pbkdf2_sha256$iterations$salt$key` never matches,
/// and a key of other than 32 bytes never matches.
pub open spec fn password_check(password: Seq<char>, hashed: Seq<char>) -> PasswordCheck {
    let parts = split_on(hashed, '$');
    if parts.len() != 4 || parts[0] != "pbkdf2_sha256"@ {
        PasswordCheck::Verdict(false)
    } else if parse_u32(parts[1]) is None {
        PasswordCheck::BadIterations
    } else if base64_standard_decoded(parts[2]) is None || base64_standard_decoded(parts[3]) is None {
        PasswordCheck::BadBase64
    } else if base64_standard_decoded(parts[3]).unwrap().len() != 32 {
        PasswordCheck::Verdict(false)
    } else {
        PasswordCheck::Verdict(
            pbkdf2_hmac_sha256(parse_u32(parts[1]).unwrap(), base64_standard_decoded(parts[2]).unwrap(), utf8(password))
                == base64_standard_decoded(parts[3]).unwrap(),
        )
    }
}

/// What checking `password` against `hashed` answers: the verdict, or the
/// error of a malformed iteration count or base64 part.
pub open spec fn password_verified(password: Seq<char>, hashed: Seq<char>, r: Result<bool, AuthError>) -> bool {
    match r {
        Ok(b) => password_check(password, hashed) == PasswordCheck::Verdict(b),
        Err(e) => {
            ||| password_check(password, hashed) is BadIterations && e is InvalidHashFormat
            ||| password_check(password, hashed) is BadBase64 && e is Base64
        },
    }
}

/// The stored hash names zero iterations, which the key derivation refuses.
pub open spec fn names_zero_iterations(hashed: Seq<char>) -> bool {
    let parts = split_on(hashed, '$');
    &&& parts.len() == 4
    &&& parts[0] == "pbkdf2_sha256"@
    &&& parse_u32(parts[1]) == Some(0u32)
    &&& base64_standard_decoded(parts[2]) is Some
    &&& base64_standard_decoded(parts[3]) matches Some(k) && k.len() == 32
}

/// PBKDF2 password hasher using SHA-256.
#[derive(Debug)]
pub struct PBKDF2Hasher {
    iterations: u32,
}

proof fn lemma_no_dollar_in_digits(n: u32)
    ensures
        !decimal(n as nat).contains('$'),
{
    lemma_decimal_digits(n as nat);
    let d = decimal(n as nat);
    if d.contains('$') {
        let i = choose|i: int| 0 <= i < d.len() && d[i] == '$';
        assert(is_digit(d[i]));
    }
}

proof fn lemma_no_dollar_in_base64(b: Seq<u8>)
    requires
        forall|i: int| 0 <= i < base64_standard(b).len() ==> is_base64_standard_char(#[trigger] base64_standard(b)[i]),
    ensures
        !base64_standard(b).contains('$'),
{
    let t = base64_standard(b);
    if t.contains('$') {
        let i = choose|i: int| 0 <= i < t.len() && t[i] == '$';
        assert(is_base64_standard_char(t[i]));
    }
}

/// The four pieces of a stored hash are read back from its text.
proof fn lemma_hash_text_parts(iterations: u32, salt: Seq<u8>, key: Seq<u8>)
    requires
        !base64_standard(salt).contains('$'),
        !base64_standard(key).contains('$'),
    ensures
        split_on(hash_text(iterations, salt, key), '$')
            == seq!["pbkdf2_sha256"@, decimal(iterations as nat), base64_standard(salt), base64_standard(key)],
{
    reveal_strlit("pbkdf2_sha256");
    let p0 = "pbkdf2_sha256"@;
    let p1 = decimal(iterations as nat);
    let p2 = base64_standard(salt);
    let p3 = base64_standard(key);
    assert(!p0.contains('$')) by {
        if p0.contains('$') {
            let i = choose|i: int| 0 <= i < p0.len() && p0[i] == '$';
        }
    }
    lemma_no_dollar_in_digits(iterations);
    lemma_split_single(p0, '$');
    lemma_split_single(p1, '$');
    lemma_split_single(p2, '$');
    lemma_split_single(p3, '$');
    let a = p0 + seq!['$'] + p1;
    lemma_split_join(p0, p1, '$');
    let b = a + seq!['$'] + p2;
    lemma_split_join(a, p2, '$');
    lemma_split_join(b, p3, '$');
    assert(hash_text(iterations, salt, key) =~= b + seq!['$'] + p3);
    assert(split_on(hash_text(iterations, salt, key), '$') =~= seq![p0, p1, p2, p3]);
}

impl PBKDF2Hasher {
    /// The iteration count of the key derivation.
    pub closed spec fn iteration_count(&self) -> u32 {
        self.iterations
    }

    /// A hasher with the default 100,000 iterations.
    pub fn new() -> (r: PBKDF2Hasher)
        ensures
            r.iteration_count() == 100_000,
    {
        PBKDF2Hasher { iterations: 100_000 }
    }

    /// The stored hash of `password` with the given salt.
    pub fn hash_with_salt(&self, password: &str, salt: &[u8]) -> (r: String)
        requires
            self.iteration_count() > 0,
            within_input_limit(utf8(password@).len() as int),
            within_input_limit(salt@.len() as int),
        ensures
            r@ == hash_text(self.iteration_count(), salt@, pbkdf2_hmac_sha256(self.iteration_count(), salt@, utf8(password@))),
            password_check(password@, r@) == PasswordCheck::Verdict(true),
            !names_zero_iterations(r@),
            r@.len() <= 100 + 4 * ((salt@.len() + 2) / 3),
    {
        let key = pbkdf2_derive(self.iterations, salt, password.as_bytes());
        let salt_text = encode_base64_standard(salt);
        let key_text = encode_base64_standard(key.as_slice());
        let mut out = String::from_str("pbkdf2_sha256$");
        out.append(u32_to_decimal(self.iterations).as_str());
        out.append("$");
        out.append(salt_text.as_str());
        out.append("$");
        out.append(key_text.as_str());
        proof {
            reveal_strlit("pbkdf2_sha256$");
            reveal_strlit("pbkdf2_sha256");
            reveal_strlit("$");
            assert("pbkdf2_sha256$"@ =~= "pbkdf2_sha256"@ + seq!['$']);
            assert(out@ =~= hash_text(self.iterations, salt@, key@));
            lemma_no_dollar_in_base64(salt@);
            lemma_no_dollar_in_base64(key@);
            lemma_hash_text_parts(self.iterations, salt@, key@);
            lemma_parse_decimal(self.iterations);
            crate::decimal::lemma_u32_decimal_len(self.iterations);
        }
        out
    }

    /// Hashes a password with a fresh random 32-byte salt.
    pub fn hash(&self, password: &str) -> (r: Result<String, AuthError>)
        requires
            self.iteration_count() > 0,
            within_input_limit(utf8(password@).len() as int),
        ensures
            match r {
                Ok(h) => {
                    &&& exists|salt: Seq<u8>| salt.len() == 32 && h@ == hash_text(
                        self.iteration_count(),
                        salt,
                        pbkdf2_hmac_sha256(self.iteration_count(), salt, utf8(password@)),
                    )
                    &&& password_check(password@, h@) == PasswordCheck::Verdict(true)
                    &&& !names_zero_iterations(h@)
                    &&& within_input_limit(h@.len() as int)
                },
                Err(e) => e is Crypto,
            },
    {
        let salt = random_bytes(32)?;
        Ok(self.hash_with_salt(password, salt.as_slice()))
    }

    /// Checks `password` against the stored hash `hashed`.
    pub fn verify(&self, password: &str, hashed: &str) -> (r: Result<bool, AuthError>)
        requires
            within_input_limit(utf8(password@).len() as int),
            within_input_limit(hashed@.len() as int),
            !names_zero_iterations(hashed@),
        ensures
            password_verified(password@, hashed@, r),
    {
        let parts = split_char(hashed, '$');
        proof { lemma_split_piece_len(hashed@, '$'); }
        if parts.len() != 4 || !str_eq(parts[0].as_str(), "pbkdf2_sha256") {
            proof {
                if parts.len() == 4 {
                    assert(string_views(parts@)[0] == parts@[0]@);
                }
            }
            return Ok(false);
        }
        assert(string_views(parts@)[1] == parts@[1]@);
        assert(string_views(parts@)[2] == parts@[2]@);
        assert(string_views(parts@)[3] == parts@[3]@);
        let iterations = match parse_decimal_u32(parts[1].as_str()) {
            Some(n) => n,
            None => return Err(AuthError::InvalidHashFormat),
        };
        let salt = match decode_base64_standard(parts[2].as_str()) {
            Ok(v) => v,
            Err(e) => return Err(AuthError::Base64(e.to_string())),
        };
        let stored = match decode_base64_standard(parts[3].as_str()) {
            Ok(v) => v,
            Err(e) => return Err(AuthError::Base64(e.to_string())),
        };
        if stored.len() != 32 {
            return Ok(false);
        }
        assert(split_on(hashed@, '$')[2].len() <= hashed@.len());
        let key = pbkdf2_derive(iterations, salt.as_slice(), password.as_bytes());
        Ok(constant_time_eq(key.as_slice(), stored.as_slice()))
    }
}

impl PBKDF2Hasher {
    /// Whether the stored hash `hashed` names zero iterations, which the key
    /// derivation refuses.
    pub fn zero_iteration_hash(hashed: &str) -> (r: bool)
        ensures
            r == names_zero_iterations(hashed@),
    {
        let parts = split_char(hashed, '$');
        if parts.len() != 4 || !str_eq(parts[0].as_str(), "pbkdf2_sha256") {
            proof {
                if parts.len() == 4 {
                    assert(string_views(parts@)[0] == parts@[0]@);
                }
            }
            return false;
        }
        assert(string_views(parts@)[1] == parts@[1]@);
        assert(string_views(parts@)[2] == parts@[2]@);
        assert(string_views(parts@)[3] == parts@[3]@);
        match parse_decimal_u32(parts[1].as_str()) {
            Some(n) => if n != 0 {
                return false;
            },
            None => return false,
        }
        match decode_base64_standard(parts[2].as_str()) {
            Ok(_) => {},
            Err(_) => return false,
        }
        match decode_base64_standard(parts[3].as_str()) {
            Ok(k) => k.len() == 32,
            Err(_) => false,
        }
    }

    /// Checks `password` against any stored hash: an invalid hash format
    /// error for one that names zero iterations, which [`PBKDF2Hasher::verify`]
    /// leaves out; otherwise what `verify` answers.
    pub fn verify_stored(&self, password: &str, hashed: &str) -> (r: Result<bool, AuthError>)
        requires
            within_input_limit(utf8(password@).len() as int),
            within_input_limit(hashed@.len() as int),
        ensures
            if names_zero_iterations(hashed@) {
                r matches Err(AuthError::InvalidHashFormat)
            } else {
                password_verified(password@, hashed@, r)
            },
    {
        if PBKDF2Hasher::zero_iteration_hash(hashed) {
            return Err(AuthError::InvalidHashFormat);
        }
        self.verify(password, hashed)
    }
}

impl Default for PBKDF2Hasher {
    /// A hasher with 100,000 iterations.
    fn default() -> (r: Self)
        ensures
            r.iteration_count() == 100_000,
    {
        PBKDF2Hasher::new()
    }
}

} // verus!
