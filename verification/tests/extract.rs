use chain_ingest::block::{Block, Event, Extrinsic};
use chain_ingest::effect::{Effect, Failure, SinkKind};
use chain_ingest::extract::{extract_arrival, extract_block};

fn event(pallet: &str, variant: &str, values: &[&str]) -> Result<Event, String> {
    Ok(Event {
        pallet: pallet.to_string(),
        variant: variant.to_string(),
        fields: Ok(values.iter().map(|value| value.to_string()).collect()),
    })
}

fn extrinsic(index: u32, pallet: &str, variant: &str, events: Vec<Result<Event, String>>) -> Extrinsic {
    Extrinsic {
        index,
        pallet: Ok(pallet.to_string()),
        variant: Ok(variant.to_string()),
        events: Ok(events),
    }
}

fn undecoded(index: u32, detail: &str) -> Extrinsic {
    Extrinsic {
        index,
        pallet: Err(detail.to_string()),
        variant: Ok("never read".to_string()),
        events: Ok(Vec::new()),
    }
}

fn block(height: u64, extrinsics: Result<Vec<Extrinsic>, String>) -> Block {
    Block { hash: vec![0xab, 0xcd], height, extrinsics }
}

fn append(sink: SinkKind, line: &str) -> Effect {
    Effect::Append { sink, line: line.to_string() }
}

fn lines(effects: &[Effect], of: SinkKind) -> Vec<String> {
    let mut found = Vec::new();
    for effect in effects {
        if let Effect::Append { sink, line } = effect {
            if *sink == of {
                found.push(line.clone());
            }
        }
    }
    found
}

fn reports(effects: &[Effect]) -> Vec<Failure> {
    let mut found = Vec::new();
    for effect in effects {
        if let Effect::Report { failure } = effect {
            found.push(failure.clone());
        }
    }
    found
}

#[test]
fn a_block_without_extrinsics_has_its_line() {
    let effects = extract_block("X", &block(10, Ok(Vec::new())));
    assert_eq!(effects, vec![append(SinkKind::Blocks, "Chain: X, Hash: 0xabcd, Height: 10")]);
}

#[test]
fn records_come_in_on_chain_order() {
    let extrinsics = vec![
        extrinsic(0, "Timestamp", "set", vec![event("System", "ExtrinsicSuccess", &["ok"])]),
        extrinsic(
            1,
            "Balances",
            "transfer",
            vec![
                event("Balances", "Withdraw", &["alice", "5"]),
                event("Balances", "Transfer", &["alice", "bob", "5"]),
            ],
        ),
        extrinsic(2, "Utility", "batch", Vec::new()),
    ];
    let effects = extract_block("Polkadot", &block(77, Ok(extrinsics)));
    assert_eq!(
        effects,
        vec![
            append(SinkKind::Blocks, "Chain: Polkadot, Hash: 0xabcd, Height: 77"),
            append(
                SinkKind::Pallets,
                "Extrinsic ID: 0, Pallet Name: Timestamp, Pallet Function: set"
            ),
            append(
                SinkKind::Events,
                "Pallet: System, Event: ExtrinsicSuccess, Event Values: [ok]"
            ),
            append(
                SinkKind::Pallets,
                "Extrinsic ID: 1, Pallet Name: Balances, Pallet Function: transfer"
            ),
            append(
                SinkKind::Events,
                "Pallet: Balances, Event: Withdraw, Event Values: [alice, 5]"
            ),
            append(
                SinkKind::Events,
                "Pallet: Balances, Event: Transfer, Event Values: [alice, bob, 5]"
            ),
            append(
                SinkKind::Pallets,
                "Extrinsic ID: 2, Pallet Name: Utility, Pallet Function: batch"
            ),
        ]
    );
}

#[test]
fn extraction_isolates_an_undecoded_extrinsic() {
    let extrinsics = vec![
        extrinsic(0, "Timestamp", "set", Vec::new()),
        undecoded(1, "bad call index"),
        extrinsic(2, "Balances", "transfer", Vec::new()),
    ];
    let effects = extract_block("X", &block(5, Ok(extrinsics)));
    assert_eq!(
        lines(&effects, SinkKind::Pallets),
        vec![
            "Extrinsic ID: 0, Pallet Name: Timestamp, Pallet Function: set",
            "Extrinsic ID: 2, Pallet Name: Balances, Pallet Function: transfer",
        ]
    );
    assert_eq!(
        reports(&effects),
        vec![Failure::ExtrinsicDecode {
            chain: "X".to_string(),
            height: 5,
            index: 1,
            detail: "bad call index".to_string(),
        }]
    );
    assert_eq!(lines(&effects, SinkKind::Blocks).len(), 1);
    assert_eq!(effects.len(), 4);
    assert!(matches!(effects[2], Effect::Report { .. }));
}

#[test]
fn the_pallet_name_fails_before_the_call_name() {
    let both = Extrinsic {
        index: 4,
        pallet: Err("no pallet".to_string()),
        variant: Err("no call".to_string()),
        events: Err("no events".to_string()),
    };
    let call_only = Extrinsic {
        index: 5,
        pallet: Ok("Balances".to_string()),
        variant: Err("no call".to_string()),
        events: Ok(vec![event("Balances", "Deposit", &[])]),
    };
    let effects = extract_block("X", &block(1, Ok(vec![both, call_only])));
    assert_eq!(
        reports(&effects),
        vec![
            Failure::ExtrinsicDecode {
                chain: "X".to_string(),
                height: 1,
                index: 4,
                detail: "no pallet".to_string(),
            },
            Failure::ExtrinsicDecode {
                chain: "X".to_string(),
                height: 1,
                index: 5,
                detail: "no call".to_string(),
            },
        ]
    );
    assert!(lines(&effects, SinkKind::Pallets).is_empty());
    assert!(lines(&effects, SinkKind::Events).is_empty());
}

#[test]
fn an_undecoded_event_leaves_its_neighbours() {
    let events = vec![
        event("A", "One", &["1"]),
        Err("truncated".to_string()),
        Ok(Event {
            pallet: "A".to_string(),
            variant: "Two".to_string(),
            fields: Err("unknown type".to_string()),
        }),
        event("A", "Three", &[]),
    ];
    let effects = extract_block("Y", &block(9, Ok(vec![extrinsic(6, "A", "call", events)])));
    assert_eq!(
        lines(&effects, SinkKind::Events),
        vec![
            "Pallet: A, Event: One, Event Values: [1]",
            "Pallet: A, Event: Three, Event Values: []",
        ]
    );
    assert_eq!(
        reports(&effects),
        vec![
            Failure::EventDecode {
                chain: "Y".to_string(),
                height: 9,
                index: 6,
                position: 1,
                detail: "truncated".to_string(),
            },
            Failure::EventDecode {
                chain: "Y".to_string(),
                height: 9,
                index: 6,
                position: 2,
                detail: "unknown type".to_string(),
            },
        ]
    );
    assert_eq!(lines(&effects, SinkKind::Pallets).len(), 1);
}

#[test]
fn events_that_cannot_be_fetched_are_reported_after_the_pallet_line() {
    let failing = Extrinsic {
        index: 0,
        pallet: Ok("Balances".to_string()),
        variant: Ok("transfer".to_string()),
        events: Err("timeout".to_string()),
    };
    let effects = extract_block(
        "X",
        &block(3, Ok(vec![failing, extrinsic(1, "System", "remark", Vec::new())])),
    );
    assert_eq!(
        effects,
        vec![
            append(SinkKind::Blocks, "Chain: X, Hash: 0xabcd, Height: 3"),
            append(
                SinkKind::Pallets,
                "Extrinsic ID: 0, Pallet Name: Balances, Pallet Function: transfer"
            ),
            Effect::Report {
                failure: Failure::EventsFetch {
                    chain: "X".to_string(),
                    height: 3,
                    index: 0,
                    detail: "timeout".to_string(),
                },
            },
            append(
                SinkKind::Pallets,
                "Extrinsic ID: 1, Pallet Name: System, Pallet Function: remark"
            ),
        ]
    );
}

#[test]
fn a_block_whose_extrinsics_cannot_be_fetched_keeps_its_line() {
    let effects = extract_block("X", &block(8, Err("connection reset".to_string())));
    assert_eq!(
        effects,
        vec![
            append(SinkKind::Blocks, "Chain: X, Hash: 0xabcd, Height: 8"),
            Effect::Report {
                failure: Failure::BlockFetch {
                    chain: "X".to_string(),
                    height: 8,
                    detail: "connection reset".to_string(),
                },
            },
        ]
    );
}

#[test]
fn an_arrival_is_a_block_or_a_failed_source() {
    let arrived = extract_arrival("X", &Ok(block(2, Ok(Vec::new()))));
    assert_eq!(arrived, vec![append(SinkKind::Blocks, "Chain: X, Hash: 0xabcd, Height: 2")]);
    let failed = extract_arrival("X", &Err("subscription dropped".to_string()));
    assert_eq!(
        failed,
        vec![Effect::Report {
            failure: Failure::Connection {
                chain: "X".to_string(),
                detail: "subscription dropped".to_string(),
            },
        }]
    );
}
