use ncmdump::qmcdump::KEY;
use ncmdump::source::{SeekFrom, Source};
use ncmdump::QmcDump;

fn sample(len: usize) -> Vec<u8> {
    (0..len).map(|i| (i * 7 + 3) as u8).collect()
}

fn keystream(offset: usize) -> u8 {
    let v = if offset > 0x7FFF { offset % 0x7FFF } else { offset };
    KEY[(v * v + 80923) % 256]
}

#[test]
fn qmc_map_l_values() {
    assert_eq!(QmcDump::map_l(0), 0xC3);
    assert_eq!(QmcDump::map_l(1), 0x4A);
    assert_eq!(QmcDump::map_l(2), 0xD6);
    assert_eq!(QmcDump::map_l(3), 0xCA);
    assert_eq!(QmcDump::map_l(0x7FFF), 0x4A);
    assert_eq!(QmcDump::map_l(0x8000), 0x4A);
    assert_eq!(QmcDump::map_l(100000), 0x3D);
}

#[test]
fn qmc_output_length_equals_input_length() {
    for len in [0usize, 1, 100, 8191, 8192, 8193, 20000] {
        let input = sample(len);
        let mut qmc = QmcDump::from_reader(Source::new(input.clone()));
        let data = qmc.get_data();
        assert_eq!(data.len(), len);
    }
}

#[test]
fn qmc_decodes_each_byte_with_its_offset() {
    let input = sample(20000);
    let mut qmc = QmcDump::from_reader(Source::new(input.clone()));
    let data = qmc.get_data();
    for (i, b) in data.iter().enumerate() {
        assert_eq!(*b, input[i] ^ keystream(i));
    }
}

#[test]
fn qmc_round_trip() {
    let plain = sample(9000);
    let mut cipher = plain.clone();
    QmcDump::encrypt(0, &mut cipher);
    assert_ne!(cipher, plain);
    let mut qmc = QmcDump::from_reader(Source::new(cipher));
    assert_eq!(qmc.get_data(), plain);
}

#[test]
fn qmc_reads_from_source_position() {
    let input = sample(100);
    let mut source = Source::new(input.clone());
    assert_eq!(source.seek(SeekFrom::Start(40)).unwrap(), 40);
    let mut qmc = QmcDump::from_reader(source);
    let data = qmc.get_data();
    assert_eq!(data.len(), 60);
    assert_eq!(data[0], input[40] ^ keystream(0));
}
