use marketdata_service::types::{
    BookFlags, BookLevel, BookMessage, ConditionFlags, ExchangeHeader, Figi, FIGI_LEN, MAX_BOOK_DEPTH,
};

fn level(price: f64, qty: f32, orders: u16) -> BookLevel {
    BookLevel { price_bits: price.to_bits(), qty_bits: qty.to_bits(), orders }
}

#[test]
fn figi_roundtrip() {
    let f: Figi = "BBG00ABCDEF1".parse().unwrap();
    assert_eq!(f.as_str(), "BBG00ABCDEF1");
    assert!(!f.is_empty());
}

#[test]
fn figi_truncates_long_input() {
    let f: Figi = "BBG00ABCDEF1XTRA".parse().unwrap();
    assert_eq!(f.as_str(), "BBG00ABCDEF1");
}

#[test]
fn figi_empty_default() {
    assert!(Figi::default().is_empty());
    assert_eq!(Figi::default().as_str(), "");
}

#[test]
fn flags_contains() {
    let f = ConditionFlags::from_bits_truncate(ConditionFlags::ENTER);
    assert!(f.contains(ConditionFlags::from_bits_truncate(ConditionFlags::ENTER)));
    assert!(!f.contains(ConditionFlags::from_bits_truncate(ConditionFlags::TRADING)));
}

#[test]
fn book_message_slices() {
    let mut m = BookMessage::default();
    m.bid_count = 2;
    m.ask_count = 3;
    m.bids[0].price_bits = 100.0f64.to_bits();
    m.bids[1].price_bits = 99.5f64.to_bits();
    m.asks[0].price_bits = 100.5f64.to_bits();
    assert_eq!(m.bids().len(), 2);
    assert_eq!(m.asks().len(), 3);
    assert_eq!(f64::from_bits(m.best_bid().unwrap().price_bits), 100.0);
    assert_eq!(f64::from_bits(m.best_ask().unwrap().price_bits), 100.5);
}

#[test]
fn figi_pads_short_input() {
    let f = Figi::from_text("AB");
    assert_eq!(f.0, [b'A', b'B', 0, 0, 0, 0, 0, 0, 0, 0, 0, 0]);
    assert_eq!(f.as_str(), "AB");
    assert_eq!(f, "AB".parse::<Figi>().unwrap());
    assert_ne!(f, Figi::from_text("AC"));
}

#[test]
fn figi_cut_inside_a_character_has_no_text() {
    // Eleven bytes and a character of two: the cut leaves half a character.
    let f = Figi::from_text("BBG00000000é");
    assert_eq!(f.0[11], 0xc3);
    assert_eq!(f.as_str(), "");
    assert!(!f.is_empty());
}

#[test]
fn figi_ends_at_the_first_nul() {
    assert_eq!(Figi::from_text("AB\0CD").as_str(), "AB");
    assert_eq!(Figi::from_text("\0CD").as_str(), "");
    assert!(!Figi::from_text("\0CD").is_empty());
}

#[test]
fn figi_with_wide_characters_is_counted_in_bytes() {
    let f = Figi::from_text("éééééé");
    assert_eq!(f.as_str(), "éééééé");
    assert_eq!(FIGI_LEN, 12);
    assert_eq!(Figi::from_text("ééééééx").as_str(), "éééééé");
}

#[test]
fn figi_debug_text_is_quoted() {
    assert_eq!(Figi::from_text("BBG000000001").debug_text(), "Figi(\"BBG000000001\")");
    assert_eq!(Figi::from_text("a\"b").debug_text(), "Figi(\"a\\\"b\")");
    assert_eq!(Figi::default().debug_text(), "Figi(\"\")");
}

#[test]
fn flags_drop_unknown_bits() {
    assert_eq!(BookFlags::from_bits_truncate(0xff).bits(), 0x01);
    assert_eq!(BookFlags::from_bits_truncate(0xfe).bits(), 0x00);
    assert_eq!(BookFlags::all().bits(), 0x01);
    assert_eq!(BookFlags::empty().bits(), 0x00);
    assert_eq!(ConditionFlags::from_bits_truncate(0xff).bits(), 0x7f);
    assert_eq!(ConditionFlags::from_bits_truncate(0x80).bits(), 0x00);
    assert_eq!(ConditionFlags::all().bits(), 0x7f);
    assert_eq!(ConditionFlags::empty().bits(), 0x00);
}

#[test]
fn flags_of_a_set_contain_each_other() {
    let all = ConditionFlags::all();
    let two = ConditionFlags::from_bits_truncate(ConditionFlags::REVISE | ConditionFlags::SINGLE_PRICE);
    assert!(all.contains(two));
    assert!(!two.contains(all));
    assert!(two.contains(ConditionFlags::empty()));
    assert!(!BookFlags::empty().contains(BookFlags::all()));
    assert!(BookFlags::all().contains(BookFlags::from_bits_truncate(BookFlags::SUSPECT)));
}

#[test]
fn flag_bits_are_the_published_ones() {
    assert_eq!(ConditionFlags::ENTER, 0x01);
    assert_eq!(ConditionFlags::REVISE, 0x02);
    assert_eq!(ConditionFlags::CANCEL, 0x04);
    assert_eq!(ConditionFlags::TRADING, 0x08);
    assert_eq!(ConditionFlags::UNKNOWN, 0x10);
    assert_eq!(ConditionFlags::SHORT_RESTRICTED, 0x20);
    assert_eq!(ConditionFlags::SINGLE_PRICE, 0x40);
    assert_eq!(BookFlags::SUSPECT, 0x01);
}

#[test]
fn flags_debug_text_is_hexadecimal() {
    assert_eq!(BookFlags::all().debug_text(), "BookFlags(0x01)");
    assert_eq!(ConditionFlags::all().debug_text(), "ConditionFlags(0x7f)");
    assert_eq!(ConditionFlags::from_bits_truncate(0x1a).debug_text(), "ConditionFlags(0x1a)");
}

#[test]
fn book_message_default_is_unset() {
    let m = BookMessage::default();
    assert_eq!(m.gateway_seq, 0);
    assert_eq!(m.gateway_ts, 0);
    assert_eq!(m.packet_seq, 0);
    assert_eq!(m.header, ExchangeHeader { time_ns: 0, seq: 0 });
    assert_eq!(m.contract_id, 0);
    assert!(m.figi.is_empty());
    assert_eq!(m.book_flags, BookFlags::empty());
    assert_eq!(m.condition_flags, ConditionFlags::empty());
    assert!(m.bids().is_empty());
    assert!(m.asks().is_empty());
    assert!(m.best_bid().is_none());
    assert!(m.best_ask().is_none());
    assert_eq!(m.bids, [level(0.0, 0.0, 0); MAX_BOOK_DEPTH]);
}

#[test]
fn book_message_counts_beyond_the_depth_are_cut() {
    let mut m = BookMessage::default();
    m.bid_count = 255;
    m.ask_count = 11;
    m.asks[9] = level(7.0, 1.0, 2);
    assert_eq!(m.bids().len(), MAX_BOOK_DEPTH);
    assert_eq!(m.asks().len(), MAX_BOOK_DEPTH);
    assert_eq!(m.asks()[9], level(7.0, 1.0, 2));
}

#[test]
fn equal_bits_are_equal_flags() {
    for bits in 0..=255u8 {
        let flags = ConditionFlags::from_bits_truncate(bits);
        assert_eq!(flags, ConditionFlags::from_bits_truncate(flags.bits()));
        assert_eq!(flags == ConditionFlags::all(), flags.bits() == ConditionFlags::all().bits());
        assert_eq!(BookFlags::from_bits_truncate(bits) == BookFlags::empty(), bits & 1 == 0);
    }
}
