use chain_ingest::effect::{Failure, SinkKind};
use chain_ingest::record::{
    format_block_line, format_event_line, format_pallet_line, format_record,
};
use chain_ingest::text::{push_decimal, push_hex, push_listing};

fn decimal(n: u64) -> String {
    let mut out = String::new();
    push_decimal(&mut out, n);
    out
}

#[test]
fn decimal_digits() {
    assert_eq!(decimal(0), "0");
    assert_eq!(decimal(7), "7");
    assert_eq!(decimal(10), "10");
    assert_eq!(decimal(109), "109");
    assert_eq!(decimal(1_000_000), "1000000");
    assert_eq!(decimal(u64::MAX), "18446744073709551615");
    for n in [0u64, 9, 10, 11, 99, 100, 101, 4_294_967_295, 4_294_967_296] {
        assert_eq!(decimal(n), n.to_string());
    }
}

#[test]
fn decimal_is_appended() {
    let mut out = String::from("height ");
    push_decimal(&mut out, 12);
    push_decimal(&mut out, 3);
    assert_eq!(out, "height 123");
}

#[test]
fn hexadecimal_bytes() {
    let mut out = String::from("0x");
    push_hex(&mut out, &vec![0x00, 0x0f, 0xa0, 0xff, 0x12]);
    assert_eq!(out, "0x000fa0ff12");
    let mut empty = String::new();
    push_hex(&mut empty, &Vec::new());
    assert_eq!(empty, "");
}

#[test]
fn listing_of_values() {
    let mut none = String::new();
    push_listing(&mut none, &Vec::new());
    assert_eq!(none, "[]");
    let mut one = String::new();
    push_listing(&mut one, &vec!["1".to_string()]);
    assert_eq!(one, "[1]");
    let mut three = String::from("v=");
    push_listing(&mut three, &vec!["a".to_string(), "".to_string(), "c d".to_string()]);
    assert_eq!(three, "v=[a, , c d]");
}

#[test]
fn block_line_format() {
    let hash = vec![0xde, 0xad, 0xbe, 0xef];
    assert_eq!(
        format_block_line("Polkadot", &hash, 23_456_789),
        "Chain: Polkadot, Hash: 0xdeadbeef, Height: 23456789"
    );
    assert_eq!(format_block_line("", &Vec::new(), 0), "Chain: , Hash: 0x, Height: 0");
}

#[test]
fn block_line_with_a_full_hash() {
    let hash: Vec<u8> = (0u8..32).collect();
    assert_eq!(
        format_block_line("AssetHub", &hash, 1),
        "Chain: AssetHub, Hash: \
         0x000102030405060708090a0b0c0d0e0f101112131415161718191a1b1c1d1e1f, Height: 1"
    );
}

#[test]
fn pallet_line_format() {
    assert_eq!(
        format_pallet_line(0, "Timestamp", "set"),
        "Extrinsic ID: 0, Pallet Name: Timestamp, Pallet Function: set"
    );
    assert_eq!(
        format_pallet_line(u32::MAX, "Balances", "transfer_keep_alive"),
        "Extrinsic ID: 4294967295, Pallet Name: Balances, Pallet Function: transfer_keep_alive"
    );
}

#[test]
fn event_line_format() {
    let values = vec!["5GrwvaEF".to_string(), "1000".to_string()];
    assert_eq!(
        format_event_line("Balances", "Deposit", &values),
        "Pallet: Balances, Event: Deposit, Event Values: [5GrwvaEF, 1000]"
    );
    assert_eq!(
        format_event_line("System", "ExtrinsicSuccess", &Vec::new()),
        "Pallet: System, Event: ExtrinsicSuccess, Event Values: []"
    );
}

#[test]
fn a_record_ends_with_a_line_feed() {
    assert_eq!(format_record("Chain: X, Hash: 0x, Height: 1"), "Chain: X, Hash: 0x, Height: 1\n");
    assert_eq!(format_record(""), "\n");
}

#[test]
fn sink_names() {
    assert_eq!(SinkKind::Blocks.name(), "blocks");
    assert_eq!(SinkKind::Pallets.name(), "pallets");
    assert_eq!(SinkKind::Events.name(), "events");
}

#[test]
fn failures_in_words() {
    let chain = "X".to_string();
    let detail = "boom".to_string();
    assert_eq!(
        Failure::Connection { chain: chain.clone(), detail: detail.clone() }.describe(),
        "source X: no notification: boom"
    );
    assert_eq!(
        Failure::BlockFetch { chain: chain.clone(), height: 12, detail: detail.clone() }.describe(),
        "block 12 of X: extrinsics not fetched: boom"
    );
    assert_eq!(
        Failure::ExtrinsicDecode {
            chain: chain.clone(),
            height: 12,
            index: 1,
            detail: detail.clone()
        }
        .describe(),
        "block 12 of X: extrinsic 1 not decoded: boom"
    );
    assert_eq!(
        Failure::EventsFetch { chain: chain.clone(), height: 12, index: 3, detail: detail.clone() }
            .describe(),
        "block 12 of X: extrinsic 3: events not fetched: boom"
    );
    assert_eq!(
        Failure::EventDecode {
            chain: chain.clone(),
            height: 12,
            index: 3,
            position: 20,
            detail: detail.clone()
        }
        .describe(),
        "block 12 of X: extrinsic 3: event 20 not decoded: boom"
    );
    assert_eq!(
        Failure::Sink { sink: SinkKind::Pallets, detail }.describe(),
        "sink pallets: line not appended: boom"
    );
}
