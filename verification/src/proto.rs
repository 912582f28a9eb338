//! The key-manager service protocol: its numbered commands.
//!
//! The key-manager side of the enclave exposes its own command set, distinct
//! from the model dispatcher's. Wire identifiers map to a closed command
//! enum; an out-of-range identifier falls back to `GenerateAesKey`, so a
//! caller must guard the range itself.

use vstd::prelude::*;

verus! {

/// The commands of the key-manager service.
#[derive(Copy, Clone, Debug, PartialEq, Eq, Structural)]
pub enum Command {
    /// Draw a fresh symmetric key.
    GenerateAesKey,
    /// Install a caller-supplied symmetric key.
    ImportAesKey,
    /// Return the raw symmetric key bytes.
    ExportAesKey,
    /// Encrypt one block-aligned window, updating the chaining state.
    EncryptAesChunk,
    /// Decrypt one block-aligned window, updating the chaining state.
    DecryptAesChunk,
    /// Fill a buffer with random bytes.
    GenerateRandom,
    /// Probe whether a symmetric key exists.
    HasAesKey,
    /// Draw a fresh asymmetric key pair.
    GenerateRsaKey,
    /// Install a caller-supplied asymmetric key.
    ImportRsaKey,
    /// Return the public half of the asymmetric key.
    ExportRsaPublic,
}

/// The command a wire identifier names; identifiers out of range fall back
/// to `GenerateAesKey`, which callers are expected to guard against.
pub open spec fn command_from_spec(value: u32) -> Command {
    if value == 0 {
        Command::GenerateAesKey
    } else if value == 1 {
        Command::ImportAesKey
    } else if value == 2 {
        Command::ExportAesKey
    } else if value == 3 {
        Command::EncryptAesChunk
    } else if value == 4 {
        Command::DecryptAesChunk
    } else if value == 5 {
        Command::GenerateRandom
    } else if value == 6 {
        Command::HasAesKey
    } else if value == 7 {
        Command::GenerateRsaKey
    } else if value == 8 {
        Command::ImportRsaKey
    } else if value == 9 {
        Command::ExportRsaPublic
    } else {
        Command::GenerateAesKey
    }
}

/// The wire identifier of a command.
pub open spec fn command_code_spec(cmd: Command) -> u32 {
    match cmd {
        Command::GenerateAesKey => 0,
        Command::ImportAesKey => 1,
        Command::ExportAesKey => 2,
        Command::EncryptAesChunk => 3,
        Command::DecryptAesChunk => 4,
        Command::GenerateRandom => 5,
        Command::HasAesKey => 6,
        Command::GenerateRsaKey => 7,
        Command::ImportRsaKey => 8,
        Command::ExportRsaPublic => 9,
    }
}

impl From<u32> for Command {
    fn from(value: u32) -> (r: Command) {
        if value == 0 {
            Command::GenerateAesKey
        } else if value == 1 {
            Command::ImportAesKey
        } else if value == 2 {
            Command::ExportAesKey
        } else if value == 3 {
            Command::EncryptAesChunk
        } else if value == 4 {
            Command::DecryptAesChunk
        } else if value == 5 {
            Command::GenerateRandom
        } else if value == 6 {
            Command::HasAesKey
        } else if value == 7 {
            Command::GenerateRsaKey
        } else if value == 8 {
            Command::ImportRsaKey
        } else if value == 9 {
            Command::ExportRsaPublic
        } else {
            Command::GenerateAesKey
        }
    }
}

impl vstd::std_specs::convert::FromSpecImpl<u32> for Command {
    open spec fn obeys_from_spec() -> bool {
        true
    }

    open spec fn from_spec(v: u32) -> Command {
        command_from_spec(v)
    }
}

impl Command {
    /// The wire identifier this command travels under.
    pub fn code(&self) -> (r: u32)
        ensures
            r == command_code_spec(*self),
            command_from_spec(r) == *self,
    {
        match self {
            Command::GenerateAesKey => 0,
            Command::ImportAesKey => 1,
            Command::ExportAesKey => 2,
            Command::EncryptAesChunk => 3,
            Command::DecryptAesChunk => 4,
            Command::GenerateRandom => 5,
            Command::HasAesKey => 6,
            Command::GenerateRsaKey => 7,
            Command::ImportRsaKey => 8,
            Command::ExportRsaPublic => 9,
        }
    }
}

} // verus!
