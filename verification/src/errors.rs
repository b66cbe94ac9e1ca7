use vstd::prelude::*;

verus! {

/// The ways a 36-byte frame header can fail to parse.
#[derive(Clone, Copy, Debug, PartialEq, Eq, Structural)]
pub enum FormatFault {
    /// The buffer does not hold exactly the header size.
    WrongLength { length: usize },
    /// The first four bytes are not the magic signature.
    WrongMagic,
    /// The version byte is not the single supported version.
    WrongVersion { version: u8 },
}

/// Every failure the codec can report.
#[derive(Clone, Copy, Debug, PartialEq, Eq, Structural)]
pub enum StegoError {
    /// The channel bit depth lies outside the supported range 1..=3.
    ConfigError,
    /// A carrier or index store could not be read, written, or found;
    /// also reported when a batch is started with no carriers at all,
    /// and when a message identifier is registered twice.
    IOError,
    /// No carrier has room for a frame of `required` bytes, or a write
    /// cursor ran off the end of the pixel grid.
    CapacityError { required: usize },
    /// The extracted header bytes are not a well-formed frame header.
    FormatError { fault: FormatFault },
    /// The grid was exhausted without assembling a frame whose digest
    /// matches its payload.
    IntegrityError,
    /// Encryption or decryption failed, including authentication failure.
    CryptoError,
    /// The identifier is not present in the index.
    NotFoundError { message_id: u32 },
}

} // verus!
