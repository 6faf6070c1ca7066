//! Encoding, decoding and validating patches.
use sonido::binary::{decode, encode, PatchError};
use sonido::cycle_table::{
    effect_cycles, effect_sdram, CYCLE_BUDGET_PER_BLOCK, EFFECT_CYCLES, EFFECT_SDRAM,
};
use sonido::patch::{
    GlobalControls, GlobalParam, MacroMappingSpec, MacroTarget, MorphConfig, MorphCurve, MorphMode,
    Patch, PatchEdge, PatchEndpoint, PatchNode, MAX_NODES, MAX_PARAMS, NUM_MACROS, PATCH_MAGIC, SECTOR_SIZE,
};
use sonido::validate::{
    estimated_cycles, has_errors, validate_for_pedal, validate_structure, CpuShare, Finding,
    PedalLimits, Severity,
};

const HEADER: usize = 16;

fn b(x: f32) -> u32 {
    x.to_bits()
}

fn bs(xs: &[f32]) -> Vec<u32> {
    xs.iter().map(|x| x.to_bits()).collect()
}

fn chain(name: &str, nodes: Vec<PatchNode>) -> Patch {
    Patch::linear_chain(name.to_string(), nodes)
}

fn node(uid: u16, params: &[f32]) -> PatchNode {
    PatchNode::new(uid, bs(params))
}

fn sample_patch() -> Patch {
    let mut p = chain(
        "Test Rig",
        vec![node(1, &[8.0, 0.0, 0.0]), node(11, &[0.5, 0.7, 0.3, 0.0])],
    );
    p.nodes[0].params_b = bs(&[20.0, 3.0, -2.0]);
    p.nodes[1].bypassed = true;
    p.morph.mode = MorphMode::Momentary;
    p.morph.speed = b(3.5);
    p.morph.set_locked(1, true);
    p.globals.input_gain_db = b(-1.5);
    p.globals.master_volume_db = b(-3.0);
    p.macros[0].name = "Drive".into();
    p.macros[0].mappings.push(MacroMappingSpec {
        target: MacroTarget::Slot { slot: 0, param: 0 },
        min: b(0.0),
        max: b(40.0),
        curve: MorphCurve::Linear,
    });
    p.macros[1].name = "Space".into();
    p.macros[1].mappings.push(MacroMappingSpec {
        target: MacroTarget::Global(GlobalParam::MorphPosition),
        min: b(0.0),
        max: b(1.0),
        curve: MorphCurve::Logarithmic,
    });
    p
}

#[test]
fn roundtrip_binary() {
    let p = sample_patch();
    let mut buf = [0u8; SECTOR_SIZE];
    let len = encode(&p, &mut buf).unwrap();
    assert!(len < SECTOR_SIZE);
    let back = decode(&buf[..len]).unwrap();
    assert_eq!(p, back);
    // Decoding the full padded sector also works.
    let back_full = decode(&buf).unwrap();
    assert_eq!(p, back_full);
}

#[test]
fn bad_magic_rejected() {
    let p = sample_patch();
    let mut buf = [0u8; SECTOR_SIZE];
    let len = encode(&p, &mut buf).unwrap();
    buf[0] ^= 0xFF;
    assert!(matches!(decode(&buf[..len]), Err(PatchError::BadMagic(_))));
}

#[test]
fn corrupt_payload_caught_by_crc() {
    let p = sample_patch();
    let mut buf = [0u8; SECTOR_SIZE];
    let len = encode(&p, &mut buf).unwrap();
    buf[HEADER + 30] ^= 0x01;
    assert!(matches!(decode(&buf[..len]), Err(PatchError::BadCrc { .. })));
}

#[test]
fn truncated_rejected() {
    let p = sample_patch();
    let mut buf = [0u8; SECTOR_SIZE];
    let len = encode(&p, &mut buf).unwrap();
    assert_eq!(decode(&buf[..len - 1]), Err(PatchError::Truncated));
    assert_eq!(decode(&buf[..8]), Err(PatchError::Truncated));
}

#[test]
fn too_many_nodes_rejected_on_encode() {
    let mut p = Patch::new("big".to_string());
    p.nodes = (0..MAX_NODES + 1).map(|_| node(1, &[0.0])).collect();
    let mut buf = [0u8; SECTOR_SIZE];
    assert_eq!(encode(&p, &mut buf), Err(PatchError::TooManyNodes(MAX_NODES + 1)));
}

#[test]
fn empty_patch_roundtrips() {
    let p = Patch::new("empty".to_string());
    let mut buf = [0u8; SECTOR_SIZE];
    let len = encode(&p, &mut buf).unwrap();
    let back = decode(&buf[..len]).unwrap();
    assert_eq!(p, back);
    assert_eq!(back.edges.len(), 0);
    assert_eq!(back.nodes.len(), 0);
}

#[test]
fn split_merge_endpoints_roundtrip() {
    let mut p = Patch::new("parallel".to_string());
    p.nodes = vec![node(6, &[0.3]), node(11, &[0.5])];
    p.edges = vec![
        PatchEdge::new(PatchEndpoint::Input, PatchEndpoint::Split(0)),
        PatchEdge::new(PatchEndpoint::Split(0), PatchEndpoint::Node(0)),
        PatchEdge::new(PatchEndpoint::Split(0), PatchEndpoint::Node(1)),
        PatchEdge::new(PatchEndpoint::Node(0), PatchEndpoint::Merge(0)),
        PatchEdge::new(PatchEndpoint::Node(1), PatchEndpoint::Merge(0)),
        PatchEdge::new(PatchEndpoint::Merge(0), PatchEndpoint::Output),
    ];
    let mut buf = [0u8; SECTOR_SIZE];
    let len = encode(&p, &mut buf).unwrap();
    assert_eq!(decode(&buf[..len]).unwrap(), p);
}

#[test]
fn worst_case_patch_fits_one_sector() {
    let nodes: Vec<PatchNode> = (0..MAX_NODES)
        .map(|i| {
            let mut n = PatchNode::new((i as u16) + 1, vec![b(0.5); MAX_PARAMS]);
            n.params_b = vec![b(0.7); MAX_PARAMS];
            n
        })
        .collect();
    let mut p = chain("Worst Case Patch Name 24c", nodes);
    for mi in 0..NUM_MACROS {
        p.macros[mi].name = "MacroNameSixteenC".into();
        for _ in 0..8 {
            p.macros[mi].mappings.push(MacroMappingSpec {
                target: MacroTarget::Slot { slot: 0, param: 0 },
                min: b(0.0),
                max: b(1.0),
                curve: MorphCurve::Logarithmic,
            });
        }
    }
    for i in 0..(MAX_NODES - 1) {
        p.edges.push(PatchEdge::new(PatchEndpoint::Node(i as u8), PatchEndpoint::Split(0)));
    }
    let mut buf = [0u8; SECTOR_SIZE];
    let len = encode(&p, &mut buf).expect("worst case must fit a sector");
    assert!(len <= SECTOR_SIZE, "len {len} exceeds sector");
    assert!(len < 2048, "worst-case patch is {len} bytes, expected < 2048");
}

#[test]
fn many_patches_survive_the_sector() {
    // A spread of shapes: every node count, parameter count, mode and curve.
    let modes = [MorphMode::Ramp, MorphMode::Momentary, MorphMode::Latch];
    let curves = [MorphCurve::Linear, MorphCurve::Logarithmic, MorphCurve::Snap];
    for n in 0..=MAX_NODES {
        for pc in [0usize, 1, 7, MAX_PARAMS] {
            let nodes: Vec<PatchNode> = (0..n)
                .map(|i| {
                    let a: Vec<u32> = (0..pc).map(|k| b(k as f32 * 1.5 - i as f32)).collect();
                    let mut node = PatchNode::new(i as u16 + 1, a);
                    node.params_b = (0..pc).map(|k| b(-(k as f32) * 100.0)).collect();
                    node.bypassed = i % 2 == 0;
                    node
                })
                .collect();
            let mut p = chain("Rig ~ 24 characters long", nodes);
            p.morph = MorphConfig {
                speed: b(0.1 + n as f32),
                mode: modes[(n + pc) % 3],
                slot_locks: (n * 37) as u8,
            };
            p.globals = GlobalControls { input_gain_db: b(-24.0), master_volume_db: b(6.0) };
            let target = if n == 0 {
                MacroTarget::Global(GlobalParam::MorphPosition)
            } else {
                MacroTarget::Slot { slot: n as u8 - 1, param: 0 }
            };
            p.macros[0].name = "M1".into();
            p.macros[0].mappings.push(MacroMappingSpec {
                target,
                min: b(0.0),
                max: b(1.0),
                curve: curves[n % 3],
            });
            let mut buf = [0u8; SECTOR_SIZE];
            let len = encode(&p, &mut buf).unwrap();
            assert_eq!(decode(&buf[..len]).unwrap(), p);
        }
    }
}

#[test]
fn noise_never_decodes_to_something_unencodable() {
    let mut seed: u32 = 12345;
    for len in 0..400usize {
        let bytes: Vec<u8> = (0..len)
            .map(|_| {
                seed = seed.wrapping_mul(1664525).wrapping_add(1013904223);
                (seed >> 24) as u8
            })
            .collect();
        if let Ok(p) = decode(&bytes) {
            let mut buf = [0u8; SECTOR_SIZE];
            assert!(encode(&p, &mut buf).is_ok());
        }
    }
}

fn crc32(bytes: &[u8]) -> u32 {
    let mut crc = !0u32;
    for byte in bytes {
        crc ^= *byte as u32;
        for _ in 0..8 {
            crc = if crc & 1 == 1 { (crc >> 1) ^ 0xEDB8_8320 } else { crc >> 1 };
        }
    }
    !crc
}

#[test]
fn header_carries_the_usual_checksum() {
    assert_eq!(crc32(b"123456789"), 0xCBF4_3926);
    let p = sample_patch();
    let mut buf = [0u8; SECTOR_SIZE];
    let len = encode(&p, &mut buf).unwrap();
    let magic = u32::from_le_bytes([buf[0], buf[1], buf[2], buf[3]]);
    assert_eq!(magic, PATCH_MAGIC);
    let stored = u32::from_le_bytes([buf[8], buf[9], buf[10], buf[11]]);
    assert_eq!(stored, crc32(&buf[HEADER..len]));
    let payload = u16::from_le_bytes([buf[12], buf[13]]) as usize;
    assert_eq!(payload + HEADER, len);
    assert!(buf[len..].iter().all(|x| *x == 0));
}

#[test]
fn long_names_are_cut_at_a_character() {
    // Twelve two-byte characters fill the 24 bytes; with one byte in front, the
    // last one no longer fits whole.
    let whole = "é".repeat(12);
    let mut p = Patch::new(whole.clone());
    let mut buf = [0u8; SECTOR_SIZE];
    encode(&p, &mut buf).unwrap();
    assert_eq!(decode(&buf).unwrap().name, whole);
    p.name = format!("x{}", "é".repeat(12));
    encode(&p, &mut buf).unwrap();
    assert_eq!(decode(&buf).unwrap().name, format!("x{}", "é".repeat(11)));
}

#[test]
fn damaged_text_decodes_with_replacement() {
    let mut p = Patch::new("abc".to_string());
    let mut buf = [0u8; SECTOR_SIZE];
    let len = encode(&p, &mut buf).unwrap();
    let at = buf.windows(3).position(|w| w == b"abc").unwrap();
    buf[at + 1] = 0xFF;
    let crc = crc32(&buf[HEADER..len]);
    let old = u32::from_le_bytes([buf[8], buf[9], buf[10], buf[11]]);
    assert_ne!(crc, old);
    buf[8..12].copy_from_slice(&crc.to_le_bytes());
    p.name = "a\u{fffd}c".to_string();
    assert_eq!(decode(&buf[..len]).unwrap(), p);
}

#[test]
fn encode_refuses_what_does_not_fit() {
    let mut tiny = [0u8; 10];
    let p = sample_patch();
    assert_eq!(encode(&p, &mut tiny), Err(PatchError::BufferTooSmall));
    assert!(tiny.iter().all(|x| *x == 0));
    let mut big = chain("p", vec![PatchNode::new(1, vec![b(0.0); MAX_PARAMS + 1])]);
    let mut buf = [0u8; SECTOR_SIZE];
    assert_eq!(encode(&big, &mut buf), Err(PatchError::TooManyParams(MAX_PARAMS + 1)));
    big.nodes[0].params_a = bs(&[1.0]);
    big.nodes[0].params_b = bs(&[1.0, 2.0]);
    assert_eq!(encode(&big, &mut buf), Err(PatchError::SnapshotLenMismatch));
    let mut long = Patch::new("long".to_string());
    long.edges = vec![PatchEdge::new(PatchEndpoint::Input, PatchEndpoint::Output); 200];
    for m in 0..NUM_MACROS {
        long.macros[m].mappings = vec![
            MacroMappingSpec {
                target: MacroTarget::Slot { slot: 0, param: 0 },
                min: 0,
                max: 0,
                curve: MorphCurve::Linear,
            };
            200
        ];
    }
    assert_eq!(encode(&long, &mut buf), Err(PatchError::BufferTooSmall));
    let mut wide = vec![0u8; 40_000];
    assert!(matches!(encode(&long, &mut wide), Err(PatchError::TooLarge(_))));
}

#[test]
fn a_small_buffer_takes_whole_fields() {
    let mut p = sample_patch();
    p.globals.input_gain_db = 0xAABB_CCDD;
    let mut whole = [0u8; SECTOR_SIZE];
    let len = encode(&p, &mut whole).unwrap();
    let left_in = |size: usize| {
        let mut buf = vec![0xEE; size];
        assert_eq!(encode(&p, &mut buf), Err(PatchError::BufferTooSmall));
        assert!(buf[..HEADER].iter().all(|x| *x == 0xEE));
        let put = (HEADER..size).take_while(|i| buf[*i] == whole[*i]).count();
        assert!(buf[HEADER + put..].iter().all(|x| *x == 0xEE));
        put
    };
    // The name goes byte by byte, the gain behind it as one word.
    assert_eq!(left_in(HEADER + 5), 5);
    for short in 0..4 {
        assert_eq!(left_in(HEADER + 24 + short), 24);
    }
    assert_eq!(left_in(HEADER + 28), 28);
    // A macro target goes byte by byte, its range word by word.
    let target = HEADER + 24 + 12 + 2 + 16 + 1;
    assert_eq!(left_in(target + 2), target + 2 - HEADER);
    assert_eq!(left_in(target + 5), target + 3 - HEADER);
    assert!(len > target + 12);
}

#[test]
fn every_endpoint_has_bytes_of_its_own() {
    let cases = [
        (PatchEndpoint::Input, [0, 0]),
        (PatchEndpoint::Output, [1, 0]),
        (PatchEndpoint::Node(0), [2, 0]),
        (PatchEndpoint::Node(255), [2, 255]),
        (PatchEndpoint::Split(7), [3, 7]),
        (PatchEndpoint::Merge(7), [4, 7]),
    ];
    for (from, from_bytes) in cases {
        for (to, to_bytes) in cases {
            let mut p = Patch::new("wire".to_string());
            p.edges = vec![PatchEdge::new(from, to)];
            let mut buf = [0xEEu8; SECTOR_SIZE];
            let len = encode(&p, &mut buf).unwrap();
            assert_eq!(buf[len - 4..len - 2], from_bytes);
            assert_eq!(buf[len - 2..len], to_bytes);
            assert!(buf[len..].iter().all(|x| *x == 0xEE));
            assert_eq!(decode(&buf[..len]).unwrap().edges, p.edges);
            // One byte short: the wire is written as far as it goes.
            let mut short = vec![0xEE; len - 1];
            assert_eq!(encode(&p, &mut short), Err(PatchError::BufferTooSmall));
            assert_eq!(short[len - 4..], buf[len - 4..len - 1]);
        }
    }
}

#[test]
fn decode_refuses_newer_versions() {
    let p = sample_patch();
    let mut buf = [0u8; SECTOR_SIZE];
    encode(&p, &mut buf).unwrap();
    buf[4] = 0xFF;
    assert!(matches!(decode(&buf), Err(PatchError::UnsupportedVersion(_))));
}

#[test]
fn decode_refuses_unknown_tags() {
    let mut p = Patch::new("tags".to_string());
    p.edges = vec![PatchEdge::new(PatchEndpoint::Split(7), PatchEndpoint::Merge(9))];
    let mut buf = [0u8; SECTOR_SIZE];
    let len = encode(&p, &mut buf).unwrap();
    let mut refused = 0;
    for at in HEADER..len {
        let mut copy = buf;
        copy[at] = 0xEE;
        let crc = crc32(&copy[HEADER..len]);
        copy[8..12].copy_from_slice(&crc.to_le_bytes());
        if let Err(PatchError::BadTag { tag: 0xEE, .. }) = decode(&copy[..len]) {
            refused += 1;
        }
    }
    assert!(refused >= 2);
}

#[test]
fn error_messages_name_the_trouble() {
    assert_eq!(
        PatchError::BadTag { what: "edge", tag: 7 }.message(),
        "invalid edge tag 7"
    );
    assert_eq!(
        PatchError::BadCrc { expected: 1, actual: 0xAB }.message(),
        "crc mismatch: header 0x00000001 \u{2260} computed 0x000000ab"
    );
    assert_eq!(PatchError::TooLarge(5000).message(), "payload 5000 bytes exceeds 4 KB sector");
    assert_eq!(PatchError::Truncated.message(), "patch data truncated");
    assert_eq!(PatchError::BufferTooSmall.message(), "output buffer too small for patch");
    assert_eq!(PatchError::BadMagic(0xDEAD_BEEF).message(), "bad magic 0xDEADBEEF (expected SNDP)");
    assert_eq!(PatchError::TooManyNodes(9).message(), "9 nodes exceeds max 8");
}

fn two_node() -> Patch {
    chain("t", vec![node(1, &[8.0]), node(11, &[0.5])])
}

fn share_of(p: &Patch, table: &[(u16, u32)], budget: u32, warn: f32) -> CpuShare {
    let cycles = estimated_cycles(p, table) as f32;
    let budget = budget as f32;
    CpuShare {
        over_warning: cycles > budget * warn,
        percent: (100.0 * cycles / budget).round_ties_even() as u64,
    }
}

fn check(p: &Patch, limits: &PedalLimits) -> Vec<Finding> {
    let share = share_of(p, limits.cycle_table, limits.cycle_budget.max(1), 0.7);
    validate_for_pedal(p, limits, share)
}

#[test]
fn clean_patch_has_no_errors() {
    assert!(!has_errors(&validate_structure(&two_node())));
}

#[test]
fn dangling_edge_is_error() {
    let mut p = two_node();
    p.edges.push(PatchEdge::new(PatchEndpoint::Node(9), PatchEndpoint::Output));
    assert!(has_errors(&validate_structure(&p)));
}

#[test]
fn edges_are_held_against_all_nodes() {
    let mut p = Patch::new("many".to_string());
    p.nodes = (0..256).map(|_| node(1, &[0.0])).collect();
    p.edges = vec![PatchEdge::new(PatchEndpoint::Node(255), PatchEndpoint::Node(0))];
    let findings = validate_structure(&p);
    assert_eq!(findings.len(), 1);
    assert_eq!(findings[0].message, "256 effect nodes exceeds the 8-node maximum");
    assert!(findings.iter().all(|f| f.severity == Severity::Error));
}

#[test]
fn macro_targeting_missing_slot_is_error() {
    let mut p = two_node();
    p.macros[0].mappings.push(MacroMappingSpec {
        target: MacroTarget::Slot { slot: 5, param: 0 },
        min: b(0.0),
        max: b(1.0),
        curve: MorphCurve::Linear,
    });
    assert!(has_errors(&validate_structure(&p)));
}

#[test]
fn effect_not_on_pedal_is_error() {
    let p = two_node();
    let limits = PedalLimits {
        allowed_uids: &[1],
        cycle_table: &[(1, 1000), (11, 1000)],
        sdram_table: &[],
        cycle_budget: 320_000,
        warn_fraction: b(0.7),
        sdram_budget: 64 * 1024 * 1024,
    };
    assert!(has_errors(&check(&p, &limits)));
}

#[test]
fn over_cpu_budget_is_error() {
    let p = two_node();
    let limits = PedalLimits {
        allowed_uids: &[1, 11],
        cycle_table: &[(1, 200_000), (11, 200_000)],
        sdram_table: &[],
        cycle_budget: 320_000,
        warn_fraction: b(0.7),
        sdram_budget: 0,
    };
    assert!(has_errors(&check(&p, &limits)));
}

#[test]
fn near_budget_warns_but_allows() {
    let p = two_node();
    let limits = PedalLimits {
        allowed_uids: &[1, 11],
        cycle_table: &[(1, 130_000), (11, 110_000)],
        sdram_table: &[],
        cycle_budget: 320_000,
        warn_fraction: b(0.7),
        sdram_budget: 0,
    };
    let findings = check(&p, &limits);
    assert!(!has_errors(&findings));
    assert!(findings.iter().any(|f| f.severity == Severity::Warning));
    assert_eq!(findings[0].message, "estimated 240800 cycles/block is 75% of the budget");
}

#[test]
fn too_much_memory_only_warns() {
    let p = two_node();
    let limits = PedalLimits {
        allowed_uids: &[1, 11],
        cycle_table: &[(1, 1000), (11, 1000)],
        sdram_table: &[(1, 600), (11, 600)],
        cycle_budget: 320_000,
        warn_fraction: b(0.7),
        sdram_budget: 1000,
    };
    let findings = check(&p, &limits);
    assert!(!has_errors(&findings));
    assert_eq!(findings.len(), 1);
    assert_eq!(findings[0].message, "estimated 1200 bytes SDRAM exceeds the 1000 budget");
}

#[test]
fn tables_cover_the_same_uids() {
    for (uid, _) in EFFECT_CYCLES.iter() {
        assert!(effect_sdram(*uid).is_some(), "uid {uid} missing SDRAM entry");
    }
    assert_eq!(EFFECT_CYCLES.len(), EFFECT_SDRAM.len());
}

#[test]
fn a_single_effect_fits_the_budget() {
    for (uid, cycles) in EFFECT_CYCLES.iter() {
        assert!(*cycles < CYCLE_BUDGET_PER_BLOCK, "uid {uid} alone exceeds the block budget");
    }
}

#[test]
fn reverb_is_the_heaviest() {
    let max = EFFECT_CYCLES.iter().map(|(_, c)| *c).max().unwrap();
    assert_eq!(effect_cycles(11), Some(max));
    assert_eq!(effect_cycles(60000), None);
}
