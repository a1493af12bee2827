use ncmdump::source::Source;
use ncmdump::utils::{
    get_file_type, image_mime_type, is_ncm_file, is_qmc_file, AudioFormat, FileType,
};

#[test]
fn utils_file_type_of_headers() {
    let ncm = [0x43, 0x54, 0x45, 0x4E, 0x46, 0x44, 0x41, 0x4D];
    assert_eq!(FileType::from_header(&ncm), FileType::Ncm);
    assert_eq!(
        FileType::from_header(&[0xA5, 0x06, 0xB7, 0x89, 1, 2, 3, 4]),
        FileType::Qmc
    );
    assert_eq!(
        FileType::from_header(&[0x8A, 0x0E, 0xE5, 9, 9, 9, 9, 9]),
        FileType::Qmc
    );
    assert_eq!(FileType::from_header(&[0; 8]), FileType::Other);
    assert_eq!(FileType::from_header(&ncm[..7]), FileType::Other);
}

#[test]
fn utils_parse_reads_the_source() {
    let mut bytes = vec![0x43, 0x54, 0x45, 0x4E, 0x46, 0x44, 0x41, 0x4D, 0x01, 0x70];
    bytes.extend_from_slice(&[0u8; 20]);
    let mut source = Source::new(bytes.clone());
    assert_eq!(FileType::parse(&mut source), FileType::Ncm);
    assert_eq!(source.position(), 8);
    let mut source = Source::new(bytes.clone());
    assert_eq!(get_file_type(&mut source), FileType::Ncm);
    let mut source = Source::new(bytes.clone());
    assert!(is_ncm_file(&mut source));
    let mut source = Source::new(bytes);
    assert!(!is_qmc_file(&mut source));
    let mut short = Source::new(vec![0x43, 0x54, 0x45]);
    assert_eq!(FileType::parse(&mut short), FileType::Other);
    let mut qmc = Source::new(vec![0x8A, 0x0E, 0xE5, 0, 0, 0, 0, 0, 1]);
    assert!(is_qmc_file(&mut qmc));
}

#[test]
fn utils_audio_format_detection() {
    let flac = [0x66, 0x4C, 0x61, 0x43, 0x00];
    assert_eq!(AudioFormat::detect(&flac), Some(AudioFormat::Flac));
    assert_eq!(AudioFormat::detect(b"ID3\x04\x00"), Some(AudioFormat::Mp3));
    assert_eq!(AudioFormat::detect(b"RIFF"), None);
    assert_eq!(AudioFormat::detect(b"fLa"), None);
    assert_eq!(AudioFormat::Flac.extension(), "flac");
    assert_eq!(AudioFormat::Mp3.extension(), "mp3");
}

#[test]
fn utils_image_mime_type() {
    assert_eq!(image_mime_type(&[0x89, 0x50, 0x4E, 0x47, 0x0D]), "image/png");
    assert_eq!(image_mime_type(&[0xFF, 0xD8, 0xFF, 0xE0]), "image/jpeg");
    assert_eq!(image_mime_type(&[]), "image/jpeg");
}
