use grimoire::hardware::{
    bytes_text_to_mb, classify, cpu_display_name, dedup_gpus, detection_answer, drm_card_name,
    dxgi_gpus, dxgi_gpus_checked, force_enabled, group_memory_mb, is_apple_chip, is_drm_card,
    is_software_adapter, llm_enabled, luid_prefix, parse_nvidia_smi, parse_vram_field,
    parse_vram_usage, parse_wmic_gpus, registry_adapter_vram, registry_gpus, registry_vram_mb,
    running_model, wmic_adapter_ram_to_mb, DxgiAdapter, GpuInfo, LlmCapability,
};

fn gpu(name: &str, total: Option<u64>, used: Option<u64>, unified: bool) -> GpuInfo {
    GpuInfo { name: name.to_string(), vram_total_mb: total, vram_used_mb: used, is_unified_memory: unified }
}

#[test]
fn little_memory_is_insufficient() {
    assert_eq!(classify(2048, &[gpu("big", Some(24576), None, false)]), LlmCapability::Insufficient);
    assert_eq!(classify(4095, &[]), LlmCapability::Insufficient);
}

#[test]
fn capable_gpu_and_memory_give_full() {
    assert_eq!(classify(8192, &[gpu("a", Some(2048), None, false), gpu("b", Some(4096), None, false)]), LlmCapability::Full);
    assert_eq!(classify(16384, &[gpu("m", Some(16384), None, true)]), LlmCapability::Full);
}

#[test]
fn otherwise_embedding_only() {
    assert_eq!(classify(8192, &[gpu("m", Some(8192), None, true)]), LlmCapability::EmbeddingOnly);
    assert_eq!(classify(6000, &[gpu("b", Some(8192), None, false)]), LlmCapability::EmbeddingOnly);
    assert_eq!(classify(32768, &[gpu("u", None, None, false)]), LlmCapability::EmbeddingOnly);
    assert_eq!(classify(4096, &[]), LlmCapability::EmbeddingOnly);
}

#[test]
fn adapter_ram_overflow_reads_as_4096() {
    assert_eq!(wmic_adapter_ram_to_mb(4_293_918_720), 4096);
    assert_eq!(wmic_adapter_ram_to_mb(4_000_000_000), 4096);
    assert_eq!(wmic_adapter_ram_to_mb(2_147_483_648), 2048);
    assert_eq!(wmic_adapter_ram_to_mb(0), 0);
}

#[test]
fn llm_switch_follows_capability_or_override() {
    assert!(llm_enabled(LlmCapability::Full, None));
    assert!(llm_enabled(LlmCapability::EmbeddingOnly, Some("true".to_string())));
    assert!(!llm_enabled(LlmCapability::Insufficient, Some("false".to_string())));
    assert!(!force_enabled(Some("TRUE".to_string())));
    assert!(!force_enabled(None));
}

#[test]
fn running_models_report_memory_and_pinning() {
    let m = running_model("llama3".to_string(), 5 * 1048576 + 7, "0001-01-01T00:00:00Z");
    assert_eq!((m.name.as_str(), m.vram_mb, m.pinned), ("llama3", Some(5), true));
    let n = running_model("x".to_string(), 0, "2024-06-01T10:00:00Z");
    assert_eq!((n.vram_mb, n.pinned), (None, false));
}

#[test]
fn cpu_names_and_process_memory() {
    assert_eq!(cpu_display_name(Some("  AMD Ryzen 7  ")), "AMD Ryzen 7".to_string());
    assert_eq!(cpu_display_name(None), "Unknown CPU".to_string());
    assert_eq!(group_memory_mb(&[1048576, 2097152, 10]), 3);
}

#[test]
fn nvidia_smi_lines_become_gpus() {
    let out = "NVIDIA GeForce RTX 3060, 12288, 512\n\n  \nA,1\nB, x, 7, extra\n";
    let gpus = parse_nvidia_smi(out);
    assert_eq!(gpus.len(), 2);
    assert_eq!((gpus[0].name.as_str(), gpus[0].vram_total_mb, gpus[0].vram_used_mb), ("NVIDIA GeForce RTX 3060", Some(12288), Some(512)));
    assert_eq!((gpus[1].name.as_str(), gpus[1].vram_total_mb, gpus[1].vram_used_mb), ("B", None, None));
    assert!(!gpus[0].is_unified_memory);
}

#[test]
fn wmic_blocks_become_gpus() {
    let out = "\r\n\r\nAdapterRAM=4293918720\r\nName=NVIDIA GeForce RTX 3060\r\n\r\nAdapterRAM=1073741824\r\nName=Intel UHD\r\n";
    let gpus = parse_wmic_gpus(out);
    assert_eq!(gpus.len(), 2);
    assert_eq!((gpus[0].name.as_str(), gpus[0].vram_total_mb), ("NVIDIA GeForce RTX 3060", Some(4096)));
    assert_eq!((gpus[1].name.as_str(), gpus[1].vram_total_mb), ("Intel UHD", Some(1024)));
    let none = parse_wmic_gpus("AdapterRAM=5\n\nName=\n");
    assert_eq!(none.len(), 0);
    let unparsed = parse_wmic_gpus("Name=X\nAdapterRAM=lots\n");
    assert_eq!((unparsed[0].name.as_str(), unparsed[0].vram_total_mb), ("X", None));
}

#[test]
fn memory_counters_become_usage_pairs() {
    let out = "DedicatedUsage=1048576000\nName=luid_0x00000000_0x0000C5F4_phys_0\n\nDedicatedUsage=5\nName=x\n";
    assert_eq!(
        parse_vram_usage(out),
        vec![("luid_0x00000000_0x0000C5F4_phys_0".to_string(), 1000), ("x".to_string(), 0)]
    );
    assert_eq!(parse_vram_usage("Name=only\n\n"), Vec::<(String, u64)>::new());
}

#[test]
fn display_memory_fields_are_read() {
    assert_eq!(parse_vram_field("4096 MB"), Some(4096));
    assert_eq!(parse_vram_field(" 1 gb "), Some(1024));
    assert_eq!(parse_vram_field("weird"), None);
    assert_eq!(bytes_text_to_mb("17179869184\n"), Some(16384));
    assert_eq!(bytes_text_to_mb("n/a"), None);
    assert!(is_apple_chip("Apple M2 Pro"));
    assert!(!is_apple_chip("Intel Core i7"));
}

#[test]
fn registry_values_are_little_endian() {
    assert_eq!(registry_vram_mb(&[0, 0, 0, 0, 2, 0, 0, 0], false), Some(8192));
    assert_eq!(registry_vram_mb(&[0, 0, 0, 0, 2, 0, 0, 0, 9], true), Some(8192));
    assert_eq!(registry_vram_mb(&[0, 0, 0, 0], true), None);
    assert_eq!(registry_vram_mb(&[0xff, 0xff, 0xff, 0xff], true), Some(4096));
    assert_eq!(registry_vram_mb(&[0xff, 0xff, 0xff, 0xff], false), Some(4095));
    assert_eq!(registry_vram_mb(&[1, 2, 3], false), None);
    assert_eq!(registry_adapter_vram(None, Some(vec![0, 0, 0, 0x40])), Some(1024));
    assert_eq!(registry_adapter_vram(Some(vec![0; 8]), Some(vec![0, 0, 0, 0x40])), Some(1024));
    assert_eq!(registry_adapter_vram(Some(vec![0, 0, 0, 0, 1, 0, 0, 0]), None), Some(4096));
}

#[test]
fn registry_list_needs_some_known_memory() {
    let g = registry_gpus(vec![("GPU".to_string(), Some(8192)), ("  ".to_string(), Some(1)), ("Other".to_string(), None)]).unwrap();
    assert_eq!(g.iter().map(|x| x.name.clone()).collect::<Vec<_>>(), vec!["GPU".to_string(), "Other".to_string()]);
    assert!(registry_gpus(vec![("A".to_string(), None)]).is_none());
}

#[test]
fn drm_cards_and_names() {
    assert!(is_drm_card("card0"));
    assert!(!is_drm_card("card0-HDMI-A-1"));
    assert!(!is_drm_card("renderD128"));
    assert_eq!(drm_card_name(Some("  Radeon RX  ".to_string()), None), Some("Radeon RX".to_string()));
    assert_eq!(
        drm_card_name(Some("  ".to_string()), Some("MAJOR=226\nDRIVER=amdgpu \nDRIVER=other".to_string())),
        Some("amdgpu".to_string())
    );
    assert_eq!(drm_card_name(None, Some("MAJOR=1".to_string())), None);
}

#[test]
fn dxgi_adapters_with_counter_usage() {
    assert!(is_software_adapter("Microsoft Basic Render Driver"));
    assert!(!is_software_adapter("NVIDIA GeForce RTX 4090"));
    assert_eq!(luid_prefix(0, 0xC5F4), "luid_0x00000000_0x0000c5f4".to_string());
    let adapters = vec![
        DxgiAdapter { name: "RTX".to_string(), total_mb: 8192, luid_prefix: "luid_0x00000000_0x0000C5F4".to_string() },
        DxgiAdapter { name: "iGPU".to_string(), total_mb: 512, luid_prefix: "luid_x".to_string() },
        DxgiAdapter { name: "Zero".to_string(), total_mb: 0, luid_prefix: "luid_b".to_string() },
    ];
    let usage = vec![
        ("luid_0x00000000_0x0000c5f4_phys_0".to_string(), 1000),
        ("LUID_0x00000000_0x0000C5F4_phys_1".to_string(), 24),
        ("other".to_string(), 5),
    ];
    let gpus = dxgi_gpus(&adapters, &usage);
    assert_eq!(gpus.len(), 2);
    assert_eq!((gpus[0].name.as_str(), gpus[0].vram_total_mb, gpus[0].vram_used_mb), ("RTX", Some(8192), Some(1024)));
    assert_eq!((gpus[1].name.as_str(), gpus[1].vram_total_mb, gpus[1].vram_used_mb), ("Zero", None, Some(0)));
    let no_counters = dxgi_gpus_checked(&adapters, &Vec::new()).unwrap();
    assert_eq!(no_counters[0].vram_used_mb, None);
    let huge = vec![("luid_b1".to_string(), u64::MAX), ("luid_b2".to_string(), 1)];
    assert!(dxgi_gpus_checked(&adapters, &huge).is_none());
}

#[test]
fn duplicate_adapters_are_merged() {
    let gpus = vec![
        gpu("A", Some(8), None, false),
        gpu("A", Some(16), Some(3), false),
        gpu("B", None, Some(1), false),
        gpu("A", None, None, false),
    ];
    let out = dedup_gpus(gpus);
    assert_eq!(out.len(), 3);
    assert_eq!((out[0].name.as_str(), out[0].vram_total_mb, out[0].vram_used_mb), ("A", Some(16), Some(3)));
    assert_eq!(out[1].name, "B".to_string());
    assert_eq!(out[2].name, "A".to_string());
}

#[test]
fn detection_answers_need_gpus_when_asked() {
    assert!(detection_answer(Some(Vec::new()), true).is_none());
    assert_eq!(detection_answer(Some(Vec::new()), false).map(|v| v.len()), Some(0));
    assert!(detection_answer(None, false).is_none());
    assert_eq!(detection_answer(Some(vec![gpu("x", None, None, false)]), true).map(|v| v.len()), Some(1));
}
