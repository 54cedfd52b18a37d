use bhairav_synth::spectrum::{band_caption, band_of_bin, BANDS, END_BIN, FIRST_BIN};

#[test]
fn bins_are_shared_out_to_the_bands() {
    let mut counts = vec![0; BANDS];
    for bin in FIRST_BIN..END_BIN {
        counts[band_of_bin(bin)] += 1;
    }
    assert_eq!(counts, vec![15, 16, 16, 16, 16, 16, 16, 16]);
    assert_eq!(band_of_bin(1), 0);
    assert_eq!(band_of_bin(15), 0);
    assert_eq!(band_of_bin(16), 1);
    assert_eq!(band_of_bin(127), 7);
    assert_eq!(band_of_bin(128), 7);
    assert_eq!(band_of_bin(usize::MAX), 7);
}

#[test]
fn every_band_has_its_caption() {
    let captions: Vec<&str> = (0..BANDS).map(|i| band_caption(i)).collect();
    assert_eq!(captions, vec!["Sub", "Bass", "LoMid", "Mid", "HiMid", "Pres", "Treb", "Air"]);
}
