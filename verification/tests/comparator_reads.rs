use redstone_java::compiled::frontend::shape_hash;
use redstone_java::rules::comparator::{analog_output, AnalogReads};

fn reads() -> AnalogReads {
    AnalogReads {
        comparator_output: None,
        last_interacted_slot: None,
        success_count: None,
        output_signal: None,
        recorded_output: None,
        last_vibration_frequency: None,
        crafter: 0,
        detector_rail: 0,
        jukebox: 0,
        lectern: 0,
        shelf: 0,
        decorated_pot: 0,
        chest: 0,
        container: None,
    }
}

#[test]
fn state_blocks_give_their_own_analog_output() {
    let none = reads();
    assert_eq!(analog_output("minecraft:water_cauldron", &[("level", "3")], &none), Some(3));
    assert_eq!(analog_output("minecraft:lava_cauldron", &[], &none), Some(3));
    assert_eq!(analog_output("minecraft:cauldron", &[], &none), Some(0));
    assert_eq!(analog_output("minecraft:cake", &[("bites", "2")], &none), Some(10));
    assert_eq!(analog_output("minecraft:cake", &[], &none), Some(14));
    assert_eq!(analog_output("minecraft:red_candle_cake", &[], &none), Some(14));
    assert_eq!(analog_output("minecraft:beehive", &[("honey_level", "5")], &none), Some(5));
    assert_eq!(analog_output("minecraft:end_portal_frame", &[("eye", "true")], &none), Some(15));
    assert_eq!(analog_output("minecraft:respawn_anchor", &[("charges", "3")], &none), Some(11));
    assert_eq!(analog_output("minecraft:copper_bulb", &[("lit", "true")], &none), Some(15));
    assert_eq!(analog_output("minecraft:copper_golem_statue", &[], &none), Some(1));
    assert_eq!(
        analog_output("minecraft:oxidized_copper_golem_statue", &[("copper_golem_pose", "star")], &none),
        Some(4)
    );
    assert_eq!(analog_output("minecraft:stone", &[], &none), None);
}

#[test]
fn recorded_comparator_output_comes_first() {
    let mut recorded = reads();
    recorded.comparator_output = Some(40);
    assert_eq!(analog_output("minecraft:cake", &[("bites", "2")], &recorded), Some(15));
    assert_eq!(analog_output("minecraft:stone", &[], &recorded), Some(15));
}

#[test]
fn world_blocks_read_what_the_world_holds() {
    let mut world = reads();
    world.last_interacted_slot = Some(20);
    world.success_count = Some(-2);
    world.output_signal = Some(9);
    world.last_vibration_frequency = Some(7);
    world.crafter = 6;
    world.detector_rail = 4;
    world.jukebox = 8;
    world.lectern = 5;
    world.shelf = 2;
    world.decorated_pot = 1;
    world.chest = 12;
    world.container = Some(13);
    assert_eq!(analog_output("minecraft:chiseled_bookshelf", &[], &world), Some(15));
    assert_eq!(analog_output("minecraft:chiseled_bookshelf", &[], &reads()), Some(0));
    assert_eq!(analog_output("minecraft:command_block", &[], &world), Some(0));
    assert_eq!(analog_output("minecraft:crafter", &[], &world), Some(6));
    assert_eq!(analog_output("minecraft:creaking_heart", &[], &world), Some(9));
    assert_eq!(
        analog_output("minecraft:creaking_heart", &[("creaking_heart_state", "uprooted")], &world),
        Some(0)
    );
    assert_eq!(analog_output("minecraft:detector_rail", &[], &world), Some(4));
    assert_eq!(analog_output("minecraft:jukebox", &[], &world), Some(8));
    world.recorded_output = Some(3);
    assert_eq!(analog_output("minecraft:jukebox", &[], &world), Some(3));
    assert_eq!(analog_output("minecraft:lectern", &[], &world), Some(5));
    assert_eq!(
        analog_output("minecraft:sculk_sensor", &[("sculk_sensor_phase", "active")], &world),
        Some(7)
    );
    assert_eq!(
        analog_output("minecraft:sculk_sensor", &[("sculk_sensor_phase", "cooldown")], &world),
        Some(0)
    );
    assert_eq!(analog_output("minecraft:oak_shelf", &[], &world), Some(2));
    assert_eq!(analog_output("minecraft:decorated_pot", &[], &world), Some(1));
    assert_eq!(analog_output("minecraft:trapped_chest", &[], &world), Some(12));
    assert_eq!(analog_output("minecraft:hopper", &[], &world), Some(13));
    assert_eq!(analog_output("minecraft:red_shulker_box", &[], &reads()), Some(0));
}

#[test]
fn shape_hash_skips_power_properties() {
    assert_eq!(shape_hash(&[]), 0xcbf2_9ce4_8422_2325);
    assert_eq!(
        shape_hash(&[("facing", "north"), ("powered", "true")]),
        0xf9c3_e33b_aeb1_a499
    );
    assert_eq!(
        shape_hash(&[("facing", "north"), ("powered", "true")]),
        shape_hash(&[("facing", "north"), ("powered", "false")])
    );
    assert_ne!(shape_hash(&[("facing", "north")]), shape_hash(&[("facing", "south")]));
}
