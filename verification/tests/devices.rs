//! Exporting to the pedal and to files.
use sonido::binary::decode;
use sonido::dfu::{
    bootloader_present, download_args, flash_firmware, flash_patch, parse_dfu_list,
    patch_slot_addr, pedal_in_bootloader, run_outcome, spawn_error, DfuError,
};
use sonido::export::{
    can_export_to_pedal, clap_data_home, clap_file_name, encode_patch_sector, pedal_allowed_uids,
    safe_file_stem, slot_file_name, validate_patch_for_pedal, DataHome,
};
use sonido::info::{InfoPayload, EFFECT_SHORTCUTS, GENERAL_SHORTCUTS};
use sonido::patch::{Patch, PatchNode, SECTOR_SIZE};
use sonido::validate::{CpuShare, Severity};

const SAMPLE: &str = r#"
dfu-util 0.11

Copyright 2005-2009 Weston Schmidt, Harald Welte and OpenMoko Inc.
Found DFU: [0483:df11] ver=2200, devnum=12, cfg=1, intf=0, path="1-2", alt=0, name="@Internal Flash  /0x08000000/16*128Kg", serial="200364500000"
Found DFU: [0483:df11] ver=2200, devnum=12, cfg=1, intf=0, path="1-2", alt=1, name="@QSPI Flash  /0x90000000/512*4Kg", serial="200364500000"
"#;

#[test]
fn parses_bootloader_devices() {
    let devices = parse_dfu_list(SAMPLE);
    assert_eq!(devices.len(), 2);
    assert_eq!(devices[0].id, "0483:df11");
    assert_eq!(devices[0].alt, Some(0));
    assert!(devices[0].name.contains("Internal Flash"));
    assert_eq!(devices[1].alt, Some(1));
    assert!(bootloader_present(&devices));
    assert!(devices[0].is_bootloader());
}

#[test]
fn no_bootloader_when_absent() {
    let devices = parse_dfu_list("Found DFU: [1234:5678] alt=0, name=\"x\"");
    assert!(!bootloader_present(&devices));
}

#[test]
fn empty_output_yields_nothing() {
    assert!(parse_dfu_list("no devices found").is_empty());
}

#[test]
fn patch_slot_addresses() {
    assert_eq!(patch_slot_addr(0), 0x907F_0000);
    assert_eq!(patch_slot_addr(1), 0x907F_1000);
    assert_eq!(patch_slot_addr(7), 0x907F_7000);
}

#[test]
fn download_args_are_dfuse_leave() {
    let args = download_args(0, 0x907F_1000, "/tmp/p.bin");
    assert_eq!(args, vec!["-a", "0", "-s", "0x907F1000:leave", "-D", "/tmp/p.bin"]);
}

#[test]
fn flashing_needs_a_sector_and_a_pedal() {
    let sector = [0u8; SECTOR_SIZE];
    assert_eq!(
        flash_patch(1, &sector, Some(SAMPLE), "/tmp/s.bin").unwrap(),
        vec!["-a", "0", "-s", "0x907F1000:leave", "-D", "/tmp/s.bin"]
    );
    assert_eq!(flash_patch(0, &sector[1..], Some(SAMPLE), "p"), Err(DfuError::BadPayload));
    assert_eq!(flash_patch(0, &sector, None, "p"), Err(DfuError::NoDevice));
    assert_eq!(flash_patch(0, &sector, Some("nothing"), "p"), Err(DfuError::NoDevice));
    assert!(pedal_in_bootloader(Some(SAMPLE)));
    assert!(!pedal_in_bootloader(None));
    assert!(flash_firmware("fw.bin", Some(SAMPLE)).is_ok());
    assert_eq!(flash_firmware("fw.bin", None), Err(DfuError::NoDevice));
}

#[test]
fn running_the_tool_can_fail() {
    assert_eq!(run_outcome(true, "ignored"), Ok(()));
    assert_eq!(
        run_outcome(false, "  no such device\n"),
        Err(DfuError::Failed("no such device".to_string()))
    );
    assert_eq!(spawn_error(true, "x".to_string()), DfuError::NotInstalled);
    assert_eq!(spawn_error(false, "x".to_string()), DfuError::Io("x".to_string()));
    assert_eq!(DfuError::Failed("e".to_string()).message(), "dfu-util failed: e");
    assert_eq!(
        DfuError::BadPayload.message(),
        "patch payload must be exactly one 4096-byte sector"
    );
}

fn dist_uid() -> u16 {
    1
}

fn chain(name: &str, nodes: Vec<PatchNode>) -> Patch {
    Patch::linear_chain(name.to_string(), nodes)
}

#[test]
fn clean_pedal_patch_validates() {
    let patch = chain("ok", vec![PatchNode::new(dist_uid(), vec![8.0f32.to_bits()])]);
    assert!(can_export_to_pedal(&patch));
}

#[test]
fn non_pedal_effect_blocks_pedal_export() {
    let patch = chain("nope", vec![PatchNode::new(9, vec![])]);
    assert!(!can_export_to_pedal(&patch));
    assert!(!pedal_allowed_uids().contains(&9));
}

#[test]
fn heavy_chain_warns_or_blocks() {
    let patch = chain("stack", (0..5).map(|_| PatchNode::new(11, vec![])).collect());
    let share = CpuShare { over_warning: true, percent: 101 };
    let findings = validate_patch_for_pedal(&patch, share);
    assert!(findings.iter().any(|f| f.severity == Severity::Error));
}

#[test]
fn encode_sector_is_full_size() {
    let patch = chain("x", vec![PatchNode::new(dist_uid(), vec![8.0f32.to_bits()])]);
    let sector = encode_patch_sector(&patch).unwrap();
    assert_eq!(sector.len(), SECTOR_SIZE);
    assert_eq!(decode(&sector).unwrap(), patch);
}

#[test]
fn file_stem_is_sanitized() {
    assert_eq!(safe_file_stem("My Rig! v2"), "My_Rig__v2");
    assert_eq!(safe_file_stem("///"), "patch");
    assert_eq!(safe_file_stem("clean"), "clean");
}

#[test]
fn files_are_named_after_the_patch() {
    assert!(clap_file_name("My Rig").starts_with("My_Rig"));
    assert_eq!(slot_file_name(3), "sonido_patch_slot3.bin");
    assert_eq!(safe_file_stem(&safe_file_stem("a b/c")), safe_file_stem("a b/c"));
}

#[test]
fn plugin_folder_follows_the_environment() {
    assert!(matches!(clap_data_home(Some("/data"), Some("/home/x")), Some(DataHome::Xdg)));
    assert!(matches!(clap_data_home(None, Some("/home/x")), Some(DataHome::HomeShare)));
    assert!(matches!(clap_data_home(Some(""), Some("/home/x")), Some(DataHome::HomeShare)));
    assert!(clap_data_home(None, None).is_none());
}

#[test]
fn empty_state_uses_general_shortcuts() {
    let p = InfoPayload::empty_state();
    assert!(p.params.is_empty());
    assert_eq!(p.shortcuts, GENERAL_SHORTCUTS);
    assert!(p.description.is_some());
}

#[test]
fn for_effect_carries_name_prose_and_live_params() {
    let p = InfoPayload::for_effect(
        "Compressor".to_string(),
        "Dynamics compressor with program-dependent release".to_string(),
        vec![
            ("Threshold".to_string(), "-18.0 dB".to_string()),
            ("Ratio".to_string(), "4.0:1".to_string()),
        ],
    );
    assert_eq!(p.title, "Compressor");
    assert_eq!(
        p.description.as_deref(),
        Some("Dynamics compressor with program-dependent release")
    );
    assert_eq!(p.params.len(), 2);
    assert_eq!(p.params[0], ("Threshold".to_string(), "-18.0 dB".to_string()));
    assert_eq!(p.shortcuts, EFFECT_SHORTCUTS);
}

#[test]
fn effect_and_general_shortcut_sets_differ() {
    assert_ne!(EFFECT_SHORTCUTS.to_vec(), GENERAL_SHORTCUTS.to_vec());
    assert!(EFFECT_SHORTCUTS.iter().any(|s| s.contains("reset peak")));
}
