use vstd::prelude::*;

verus! {

/// The errors of the decoders.
#[derive(Debug)]
pub enum Errors {
    /// The signature of the container is not the NCM one, or the header is short.
    InvalidFileType,
    /// The key region could not be read in full.
    InvalidKeyLength,
    /// The metadata region could not be read in full.
    InvalidInfoLength,
    /// The image region could not be read in full.
    InvalidImageLength,
    /// The metadata could not be decoded (base64, UTF-8 or JSON).
    InfoDecodeError,
    /// The block cipher rejected the ciphertext or its padding.
    DecryptError,
    /// An error with no more detail.
    Unknown,
    /// A fixed-size field could not be decoded.
    Decode,
    /// The byte source failed.
    IO(String),
}

impl Errors {
    /// A short human-readable description.
    pub fn message(&self) -> (r: String) {
        match self {
            Errors::InvalidFileType => "Invalid file type".to_owned(),
            Errors::InvalidKeyLength => "Invalid key area length".to_owned(),
            Errors::InvalidInfoLength => "Invalid info area length".to_owned(),
            Errors::InvalidImageLength => "Invalid image area length".to_owned(),
            Errors::InfoDecodeError => "Can't decode information".to_owned(),
            Errors::DecryptError => "Can't decrypt".to_owned(),
            Errors::Unknown => "Unknown error".to_owned(),
            Errors::Decode => "Decode error".to_owned(),
            Errors::IO(s) => s.clone(),
        }
    }
}

} // verus!
