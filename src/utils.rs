use vstd::prelude::*;

use crate::ncmdump::is_ncm_magic;
use crate::source::{read_span, Source};

verus! {

/// The kind of container that a byte source holds.
#[derive(Clone, Copy, Debug, PartialEq, Eq, Structural)]
pub enum FileType {
    /// An NCM container.
    Ncm,
    /// A QMC container.
    Qmc,
    /// Anything else.
    Other,
}

/// The kind of container whose first eight bytes are `head`.
pub open spec fn file_type_of(head: Seq<u8>) -> FileType {
    if head.len() != 8 {
        FileType::Other
    } else if is_ncm_magic(head) {
        FileType::Ncm
    } else if head[0] == 0xA5 && head[1] == 0x06 && head[2] == 0xB7 && head[3] == 0x89 {
        FileType::Qmc
    } else if head[0] == 0x8A && head[1] == 0x0E && head[2] == 0xE5 {
        FileType::Qmc
    } else {
        FileType::Other
    }
}

impl FileType {
    /// Classifies a header: the NCM signature, one of the two QMC signatures,
    /// or anything else (a header of other than eight bytes included).
    pub fn from_header(head: &[u8]) -> (r: FileType)
        ensures
            r == file_type_of(head@),
    {
        if head.len() != 8 {
            FileType::Other
        } else if head[0] == 0x43 && head[1] == 0x54 && head[2] == 0x45 && head[3] == 0x4E
            && head[4] == 0x46 && head[5] == 0x44 && head[6] == 0x41 && head[7] == 0x4D {
            FileType::Ncm
        } else if head[0] == 0xA5 && head[1] == 0x06 && head[2] == 0xB7 && head[3] == 0x89 {
            FileType::Qmc
        } else if head[0] == 0x8A && head[1] == 0x0E && head[2] == 0xE5 {
            FileType::Qmc
        } else {
            FileType::Other
        }
    }

    /// Reads up to eight bytes from the source and classifies them.
    pub fn parse(reader: &mut Source) -> (r: FileType)
        requires
            old(reader).wf(),
        ensures
            final(reader).wf(),
            final(reader).data() == old(reader).data(),
            final(reader).pos() == old(reader).pos() + read_span(
                old(reader).data(),
                old(reader).pos(),
                8,
            ).len(),
            r == file_type_of(read_span(old(reader).data(), old(reader).pos(), 8)),
    {
        let head = reader.read(8);
        Self::from_header(head.as_slice())
    }
}

/// Reads up to eight bytes from the source and classifies them.
pub fn get_file_type(reader: &mut Source) -> (r: FileType)
    requires
        old(reader).wf(),
    ensures
        final(reader).wf(),
        final(reader).data() == old(reader).data(),
        final(reader).pos() == old(reader).pos() + read_span(
            old(reader).data(),
            old(reader).pos(),
            8,
        ).len(),
        r == file_type_of(read_span(old(reader).data(), old(reader).pos(), 8)),
{
    FileType::parse(reader)
}

/// Whether the source, at its position, holds an NCM container.
pub fn is_ncm_file(reader: &mut Source) -> (r: bool)
    requires
        old(reader).wf(),
    ensures
        final(reader).wf(),
        final(reader).data() == old(reader).data(),
        final(reader).pos() == old(reader).pos() + read_span(
            old(reader).data(),
            old(reader).pos(),
            8,
        ).len(),
        r == (file_type_of(read_span(old(reader).data(), old(reader).pos(), 8)) == FileType::Ncm),
{
    FileType::parse(reader) == FileType::Ncm
}

/// Whether the source, at its position, holds a QMC container.
pub fn is_qmc_file(reader: &mut Source) -> (r: bool)
    requires
        old(reader).wf(),
    ensures
        final(reader).wf(),
        final(reader).data() == old(reader).data(),
        final(reader).pos() == old(reader).pos() + read_span(
            old(reader).data(),
            old(reader).pos(),
            8,
        ).len(),
        r == (file_type_of(read_span(old(reader).data(), old(reader).pos(), 8)) == FileType::Qmc),
{
    FileType::parse(reader) == FileType::Qmc
}

/// The audio format of decrypted audio data.
#[derive(Clone, Copy, Debug, PartialEq, Eq, Structural)]
pub enum AudioFormat {
    /// FLAC: the data starts with `fLaC`.
    Flac,
    /// MP3 with an ID3 tag: the data starts with `ID3` and a version byte.
    Mp3,
}

/// The audio format that the first bytes of `data` announce.
pub open spec fn audio_format_of(data: Seq<u8>) -> Option<AudioFormat> {
    if data.len() < 4 {
        None
    } else if data[0] == 0x66 && data[1] == 0x4C && data[2] == 0x61 && data[3] == 0x43 {
        Some(AudioFormat::Flac)
    } else if data[0] == 0x49 && data[1] == 0x44 && data[2] == 0x33 {
        Some(AudioFormat::Mp3)
    } else {
        None
    }
}

impl AudioFormat {
    /// Recognizes the audio format from the first four bytes of `data`.
    pub fn detect(data: &[u8]) -> (r: Option<AudioFormat>)
        ensures
            r == audio_format_of(data@),
    {
        if data.len() < 4 {
            None
        } else if data[0] == 0x66 && data[1] == 0x4C && data[2] == 0x61 && data[3] == 0x43 {
            Some(AudioFormat::Flac)
        } else if data[0] == 0x49 && data[1] == 0x44 && data[2] == 0x33 {
            Some(AudioFormat::Mp3)
        } else {
            None
        }
    }

    /// The file extension of the format.
    pub fn extension(&self) -> (r: &'static str)
        ensures
            *self == AudioFormat::Flac ==> r@ == "flac"@,
            *self == AudioFormat::Mp3 ==> r@ == "mp3"@,
    {
        match self {
            AudioFormat::Flac => "flac",
            AudioFormat::Mp3 => "mp3",
        }
    }
}

/// The MIME type of cover art: PNG where the image starts with the PNG
/// signature, JPEG otherwise.
pub fn image_mime_type(image: &[u8]) -> (r: &'static str)
    ensures
        (image@.len() >= 4 && image@[0] == 0x89 && image@[1] == 0x50 && image@[2] == 0x4E
            && image@[3] == 0x47) ==> r@ == "image/png"@,
        !(image@.len() >= 4 && image@[0] == 0x89 && image@[1] == 0x50 && image@[2] == 0x4E
            && image@[3] == 0x47) ==> r@ == "image/jpeg"@,
{
    if image.len() >= 4 && image[0] == 0x89 && image[1] == 0x50 && image[2] == 0x4E && image[3]
        == 0x47 {
        "image/png"
    } else {
        "image/jpeg"
    }
}

} // verus!
