use zeus::kernel::fs::error::Error;
use zeus::kernel::fs::zmap::ZMap;

#[test]
fn new_map_reserves_the_header_and_directory() {
    let z = ZMap::new(10);
    assert_eq!(z.len(), 16);
}

#[test]
fn allocate_on_a_full_map_fails() {
    let mut z = ZMap::new(5);
    assert_eq!(z.len(), 11);
    assert_eq!(z.allocate(), Err(Error::LimitedSpace));
}

#[test]
fn allocate_from_a_clear_word_takes_its_first_zone() {
    let mut z = ZMap::new(6);
    assert_eq!(z.allocate(), Ok(352));
}

#[test]
fn allocate_hands_out_the_same_zone_again_when_its_top_bit_is_clear() {
    // The zone is 2^(leading ones) - 1 past the word's base: a word with only bit 0 set has
    // no leading ones, so the same zone comes back.
    let mut z = ZMap::new(6);
    assert_eq!(z.allocate(), Ok(352));
    assert_eq!(z.allocate(), Ok(352));
}

#[test]
fn allocate_follows_the_leading_ones() {
    let mut z = ZMap::new(6);
    z.set(352 + 31, true);
    // one leading one: zone base + 1
    assert_eq!(z.allocate(), Ok(353));
    z.set(352 + 30, true);
    // two leading ones: zone base + 3
    assert_eq!(z.allocate(), Ok(355));
}

#[test]
fn set_and_clear() {
    let mut z = ZMap::new(6);
    z.set(360, true);
    z.set(360, false);
    // the word is clear again, so allocation starts over at its first zone
    assert_eq!(z.allocate(), Ok(352));
}
