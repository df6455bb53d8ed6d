use txflow::proxy::{BlackholeHandler, ChainHandler, DebugHandler, ProxyHandler};
use txflow::types::Package;

fn package(source: u64, destination: u64, body: Vec<u8>) -> Package {
    Package { source, destination, body }
}

#[test]
fn debug_stage_forwards_the_stream_unchanged() {
    let input = vec![
        package(1, 2, vec![0xAA, 0xBB]),
        package(2, 3, vec![]),
        package(3, 1, vec![0x01]),
    ];
    let expected = input.clone();
    let stage = DebugHandler::new();
    let out = stage.pipe_stream(input);
    assert_eq!(out, expected);
}

#[test]
fn debug_stage_forwards_an_empty_stream() {
    let stage = DebugHandler::new();
    let out = stage.pipe_stream(Vec::new());
    assert!(out.is_empty());
}

#[test]
fn chain_of_debug_stages_is_still_the_identity() {
    let input = vec![package(7, 8, vec![1, 2, 3]), package(8, 9, vec![4])];
    let expected = input.clone();
    let chain = ChainHandler::new(DebugHandler::new(), DebugHandler::new());
    let out = chain.pipe_stream(input);
    assert_eq!(out, expected);
}

#[test]
fn blackhole_stage_drops_only_its_destination() {
    let input = vec![
        package(1, 5, vec![1]),
        package(2, 6, vec![2]),
        package(3, 5, vec![3]),
        package(4, 7, vec![4]),
    ];
    let stage = BlackholeHandler::new(5);
    let out = stage.pipe_stream(input);
    assert_eq!(out, vec![package(2, 6, vec![2]), package(4, 7, vec![4])]);
}

#[test]
fn observation_and_loss_compose_into_one_stage() {
    let input = vec![package(1, 5, vec![1]), package(2, 6, vec![2])];
    let chain = ChainHandler::new(DebugHandler::new(), BlackholeHandler::new(5));
    let out = chain.pipe_stream(input);
    assert_eq!(out, vec![package(2, 6, vec![2])]);
}

#[test]
fn chains_nest_transparently() {
    let input = vec![package(1, 1, vec![9])];
    let expected = input.clone();
    let inner = ChainHandler::new(DebugHandler::new(), DebugHandler::new());
    let outer = ChainHandler::new(inner, DebugHandler::new());
    let out = outer.pipe_stream(input);
    assert_eq!(out, expected);
}
