//! The immutable parameter bundle threaded through every pipeline stage.

use vstd::prelude::*;

use crate::error::UnfError;

verus! {

/// The fingerprint algorithm revision.
///
/// `Six` selects SHA-256 as the per-column hash primitive together with the
/// canonicalization rules of this crate. The tag exists so that a future
/// revision can change the hash primitive and the canonicalization rules as
/// one unit without breaking callers of `Six`.
#[derive(Clone, Copy, Debug, PartialEq, Eq, Structural)]
pub enum UnfVersion {
    Six,
}

/// Immutable fingerprint parameters, copied by value into every component.
#[derive(Clone, Copy, Debug, PartialEq, Eq, Structural)]
pub struct UnfConfig {
    /// Significant decimal digits kept when rounding a float.
    pub digits: u32,
    /// Length, in bits, of the digest prefix rendered as a short hash.
    pub truncation: usize,
    /// Maximum number of Unicode scalar values of a canonical string that
    /// enter the hash.
    pub characters: usize,
    /// Algorithm revision.
    pub version: UnfVersion,
}

impl UnfConfig {
    /// A configuration is usable when rounding keeps at least one digit,
    /// at least one character of each canonical string is hashed, and the
    /// truncation is a whole number of bytes no longer than a SHA-256
    /// digest (256 bits).
    pub open spec fn valid(self) -> bool {
        &&& 1 <= self.digits
        &&& 1 <= self.characters
        &&& self.truncation % 8 == 0
        &&& self.truncation <= 256
    }
}

/// The configuration every field defaults to: 7 significant digits, 128
/// characters, a 128-bit truncation, and revision `Six`.
pub open spec fn spec_default_config() -> UnfConfig {
    UnfConfig { digits: 7, truncation: 128, characters: 128, version: UnfVersion::Six }
}

/// Builder for [`UnfConfig`] with optional fields.
#[derive(Clone, Copy)]
pub struct UnfConfigBuilder {
    digits: Option<u32>,
    characters: Option<usize>,
    truncation: Option<usize>,
    version: Option<UnfVersion>,
}

impl Default for UnfConfigBuilder {
    /// A fresh builder with every field unset.
    fn default() -> (r: Self)
        ensures
            r.resolved() == spec_default_config(),
    {
        UnfConfigBuilder::new()
    }
}

impl UnfConfigBuilder {
    /// The configuration this builder would produce: each unset field takes
    /// its default.
    pub closed spec fn resolved(self) -> UnfConfig {
        UnfConfig {
            digits: match self.digits {
                Some(d) => d,
                None => 7,
            },
            truncation: match self.truncation {
                Some(t) => t,
                None => 128,
            },
            characters: match self.characters {
                Some(c) => c,
                None => 128,
            },
            version: match self.version {
                Some(v) => v,
                None => UnfVersion::Six,
            },
        }
    }

    /// A fresh builder with every field unset.
    pub fn new() -> (r: UnfConfigBuilder)
        ensures
            r.resolved() == spec_default_config(),
    {
        UnfConfigBuilder { digits: None, characters: None, truncation: None, version: None }
    }

    /// Set the number of significant digits.
    pub fn digits(self, x: u32) -> (r: UnfConfigBuilder)
        ensures
            r.resolved() == (UnfConfig { digits: x, ..self.resolved() }),
    {
        UnfConfigBuilder { digits: Some(x), ..self }
    }

    /// Set the maximum number of characters hashed per canonical string.
    pub fn characters(self, x: usize) -> (r: UnfConfigBuilder)
        ensures
            r.resolved() == (UnfConfig { characters: x, ..self.resolved() }),
    {
        UnfConfigBuilder { characters: Some(x), ..self }
    }

    /// Set the truncation length in bits.
    pub fn truncation(self, x: usize) -> (r: UnfConfigBuilder)
        ensures
            r.resolved() == (UnfConfig { truncation: x, ..self.resolved() }),
    {
        UnfConfigBuilder { truncation: Some(x), ..self }
    }

    /// Set the algorithm revision.
    pub fn version(self, x: UnfVersion) -> (r: UnfConfigBuilder)
        ensures
            r.resolved() == (UnfConfig { version: x, ..self.resolved() }),
    {
        UnfConfigBuilder { version: Some(x), ..self }
    }

    /// Apply defaults and validate eagerly: an out-of-range parameter is
    /// rejected here rather than surfacing later as a wrong fingerprint.
    pub fn build(&self) -> (r: Result<UnfConfig, UnfError>)
        ensures
            self.resolved().valid() ==> r == Ok::<UnfConfig, UnfError>(self.resolved()),
            !self.resolved().valid() ==> r == Err::<UnfConfig, UnfError>(
                UnfError::InvalidConfiguration,
            ),
    {
        let config = UnfConfig {
            digits: match self.digits {
                Some(d) => d,
                None => 7,
            },
            truncation: match self.truncation {
                Some(t) => t,
                None => 128,
            },
            characters: match self.characters {
                Some(c) => c,
                None => 128,
            },
            version: match self.version {
                Some(v) => v,
                None => UnfVersion::Six,
            },
        };
        if config.digits >= 1 && config.characters >= 1 && config.truncation % 8 == 0
            && config.truncation <= 256 {
            Ok(config)
        } else {
            Err(UnfError::InvalidConfiguration)
        }
    }
}

} // verus!
