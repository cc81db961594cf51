use redstone_java::compiled::network::{identify_kind, is_signal_source, NetworkNodeKind};
use redstone_java::registry::BlockBehavior;

#[test]
fn dense_frontend_classifies_runtime_nodes() {
    let cases = [
        (BlockBehavior::RedstoneBlock, Some(NetworkNodeKind::Constant)),
        (BlockBehavior::Torch { wall: false }, Some(NetworkNodeKind::Torch)),
        (BlockBehavior::Repeater, Some(NetworkNodeKind::Repeater)),
        (BlockBehavior::Comparator, Some(NetworkNodeKind::Comparator)),
        (BlockBehavior::Lever, Some(NetworkNodeKind::Lever)),
        (BlockBehavior::Button { wooden: false }, Some(NetworkNodeKind::Button)),
        (
            BlockBehavior::PressurePlate { max_weight: None, detects_items: false },
            Some(NetworkNodeKind::PressurePlate),
        ),
        (BlockBehavior::Target, Some(NetworkNodeKind::Target)),
        (BlockBehavior::Observer, Some(NetworkNodeKind::DynamicSource)),
        (BlockBehavior::TrappedChest, Some(NetworkNodeKind::DynamicSource)),
        (BlockBehavior::Lamp, Some(NetworkNodeKind::Consumer)),
        (BlockBehavior::Piston { sticky: false }, None),
        (BlockBehavior::Static, None),
    ];
    for (behavior, expected) in cases {
        assert_eq!(identify_kind(&behavior), expected, "{behavior:?}");
    }
}

#[test]
fn only_consumers_are_not_signal_sources() {
    assert!(!is_signal_source(NetworkNodeKind::Consumer));
    assert!(is_signal_source(NetworkNodeKind::Lever));
    assert!(is_signal_source(NetworkNodeKind::DynamicSource));
}
