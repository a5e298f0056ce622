use ctrmml_lang_core::psg_parser::{
    compute_timeline, node_effective_length, node_start_frame, parse_psg_mml, serialize_psg_mml, total_duration,
    PsgEnvelope, PsgNode, TimePoint,
};

#[test]
fn parses_simple_envelope() {
    let env = parse_psg_mml("@5 psg 15 10 5 0").unwrap();
    assert_eq!(env.instrument_number, 5);
    assert_eq!(env.nodes.len(), 4);
    assert_eq!(
        env.nodes[0],
        PsgNode {
            value: 15,
            target: None,
            length: None
        }
    );
    assert_eq!(env.sustain_pos, None);
    assert_eq!(env.loop_pos, None);
    assert_eq!(env.default_length, 1);
}

#[test]
fn parses_slide() {
    let env = parse_psg_mml("@1 psg 15>0").unwrap();
    assert_eq!(env.nodes[0].value, 15);
    assert_eq!(env.nodes[0].target, Some(0));
    assert_eq!(env.nodes[0].length, None);
}

#[test]
fn parses_explicit_length() {
    let env = parse_psg_mml("@1 psg 10:5").unwrap();
    assert_eq!(env.nodes[0].length, Some(5));
}

#[test]
fn parses_slide_with_explicit_length() {
    let env = parse_psg_mml("@1 psg 15>0:20").unwrap();
    assert_eq!(env.nodes[0].value, 15);
    assert_eq!(env.nodes[0].target, Some(0));
    assert_eq!(env.nodes[0].length, Some(20));
}

#[test]
fn parses_sustain_marker() {
    let env = parse_psg_mml("@1 psg 15 10 / 5 0").unwrap();
    assert_eq!(env.sustain_pos, Some(2));
    assert_eq!(env.nodes.len(), 4);
}

#[test]
fn parses_loop_marker() {
    let env = parse_psg_mml("@1 psg 15 | 10 0").unwrap();
    assert_eq!(env.loop_pos, Some(1));
}

#[test]
fn parses_default_length_directive() {
    let env = parse_psg_mml("@1 psg l:3 15 10").unwrap();
    assert_eq!(env.default_length, 3);
    assert_eq!(env.nodes.len(), 2);
}

#[test]
fn clamps_value_to_15() {
    let env = parse_psg_mml("@1 psg 99").unwrap();
    assert_eq!(env.nodes[0].value, 15);
}

#[test]
fn clamps_target_to_15() {
    let env = parse_psg_mml("@1 psg 0>99").unwrap();
    assert_eq!(env.nodes[0].target, Some(15));
}

#[test]
fn returns_none_when_no_psg_keyword() {
    assert!(parse_psg_mml("@1 fm 1 1 1 1").is_none());
    assert!(parse_psg_mml("").is_none());
}

#[test]
fn parses_across_multiple_lines() {
    let env = parse_psg_mml("@1 psg\n15 10 5 0\n").unwrap();
    assert_eq!(env.nodes.len(), 4);
}

#[test]
fn strips_inline_comments() {
    let env = parse_psg_mml("@1 psg 15 10 ; release follows\n5 0").unwrap();
    assert_eq!(env.nodes.len(), 4);
}

#[test]
fn permissive_trailing_garbage_on_value() {
    let env = parse_psg_mml("@1 psg 15/ 10").unwrap();
    assert_eq!(env.nodes.len(), 2);
    assert_eq!(env.nodes[0].value, 15);
}

#[test]
fn skips_unknown_tokens() {
    let env = parse_psg_mml("@1 psg 15 foo 10").unwrap();
    assert_eq!(env.nodes.len(), 2);
}

#[test]
fn serializes_simple_envelope() {
    let env = PsgEnvelope {
        instrument_number: 5,
        nodes: vec![
            PsgNode {
                value: 15,
                target: None,
                length: None,
            },
            PsgNode {
                value: 0,
                target: None,
                length: None,
            },
        ],
        sustain_pos: None,
        loop_pos: None,
        default_length: 1,
    };
    assert_eq!(serialize_psg_mml(&env, 5), "@5 psg 15 0");
}

#[test]
fn serializes_slide_and_length() {
    let env = PsgEnvelope {
        instrument_number: 5,
        nodes: vec![PsgNode {
            value: 15,
            target: Some(0),
            length: Some(20),
        }],
        sustain_pos: None,
        loop_pos: None,
        default_length: 1,
    };
    assert_eq!(serialize_psg_mml(&env, 5), "@5 psg 15>0:20");
}

#[test]
fn serializes_with_sustain_and_loop() {
    let env = PsgEnvelope {
        instrument_number: 5,
        nodes: vec![
            PsgNode {
                value: 15,
                target: None,
                length: None,
            },
            PsgNode {
                value: 8,
                target: None,
                length: None,
            },
            PsgNode {
                value: 0,
                target: None,
                length: None,
            },
        ],
        sustain_pos: Some(2),
        loop_pos: Some(0),
        default_length: 1,
    };
    assert_eq!(serialize_psg_mml(&env, 5), "@5 psg | 15 8 / 0");
}

#[test]
fn parse_serialize_roundtrip() {
    let input = "@7 psg 15>10:5 / 8 8 | 4 0";
    let env = parse_psg_mml(input).unwrap();
    let out = serialize_psg_mml(&env, env.instrument_number);
    let env2 = parse_psg_mml(&out).unwrap();
    assert_eq!(env, env2);
}

#[test]
fn effective_length_explicit_wins() {
    let n = PsgNode {
        value: 5,
        target: Some(10),
        length: Some(20),
    };
    assert_eq!(node_effective_length(&n, 1), 20);
}

#[test]
fn effective_length_slide_distance_plus_one() {
    let n = PsgNode {
        value: 5,
        target: Some(10),
        length: None,
    };
    assert_eq!(node_effective_length(&n, 1), 6);
}

#[test]
fn effective_length_slide_to_same_value_uses_default() {
    let n = PsgNode {
        value: 5,
        target: Some(5),
        length: None,
    };
    assert_eq!(node_effective_length(&n, 3), 3);
}

#[test]
fn effective_length_default_when_hold() {
    let n = PsgNode {
        value: 5,
        target: None,
        length: None,
    };
    assert_eq!(node_effective_length(&n, 7), 7);
}

#[test]
fn timeline_two_points_per_node() {
    let env = parse_psg_mml("@1 psg 15:2 10:3").unwrap();
    let pts = compute_timeline(&env);
    assert_eq!(pts.len(), 4);
    assert_eq!(pts[0], TimePoint { frame: 0, volume: 15 });
    assert_eq!(pts[1], TimePoint { frame: 2, volume: 15 });
    assert_eq!(pts[2], TimePoint { frame: 2, volume: 10 });
    assert_eq!(pts[3], TimePoint { frame: 5, volume: 10 });
}

#[test]
fn total_duration_sums_segment_lengths() {
    let env = parse_psg_mml("@1 psg 15:2 10:3").unwrap();
    assert_eq!(total_duration(&env), 5);
}

#[test]
fn node_start_frame_zero_for_first_index() {
    let env = parse_psg_mml("@1 psg 15:2 10:3").unwrap();
    assert_eq!(node_start_frame(&env, 0), 0);
    assert_eq!(node_start_frame(&env, 1), 2);
    assert_eq!(node_start_frame(&env, 2), 5);
    assert_eq!(node_start_frame(&env, 99), 5);
}
