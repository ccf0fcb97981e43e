use ignite::memory::map::MemoryDescriptor;
use ignite::os::uefi::acpi::{find_acpi_table_pointers, validate_rsdp, ConfigTable, ConfigTableKind, Invalid};
use ignite::os::uefi::device::{
    device_path_len, device_path_relation, device_path_text, disk_priority_order, live_image_partition_offset, partition_offset,
    DevicePathRelation, PathNode,
};
use ignite::os::uefi::disk::{block_to_lba, file_read_at};
use ignite::os::uefi::display::best_resolution;
use ignite::os::uefi::memory_map::MemoryMapIter;
use ignite::os::uefi::{firmware_path, page_size, pages_for, translate_key, TextInputKey};
use ignite::os::{OsKey, OsMemoryKind};

fn rsdp(revision: u8, length: u32) -> Vec<u8> {
    let mut r = vec![0u8; 36];
    r[..8].copy_from_slice(b"RSD PTR ");
    r[15] = revision;
    r[20..24].copy_from_slice(&length.to_le_bytes());
    let s: u8 = r[..20].iter().fold(0u8, |a, b| a.wrapping_add(*b));
    r[8] = 0u8.wrapping_sub(s);
    let e: u8 = r.iter().fold(0u8, |a, b| a.wrapping_add(*b));
    r[32] = 0u8.wrapping_sub(e);
    r
}

#[test]
fn rsdp_validation() {
    assert_eq!(validate_rsdp(&rsdp(0, 0)), Ok(36));
    assert_eq!(validate_rsdp(&rsdp(2, 36)), Ok(36));
    assert_eq!(validate_rsdp(&rsdp(2, 40)), Ok(40));
    let mut bad = rsdp(0, 0);
    bad[0] = b'X';
    assert_eq!(validate_rsdp(&bad), Err(Invalid));
    let mut bad = rsdp(0, 0);
    bad[9] = bad[9].wrapping_add(1);
    assert_eq!(validate_rsdp(&bad), Err(Invalid));
    let mut bad = rsdp(2, 36);
    bad[33] = 1;
    assert_eq!(validate_rsdp(&bad), Err(Invalid));
}

#[test]
fn acpi2_preferred() {
    let tables = vec![
        ConfigTable { kind: ConfigTableKind::Acpi1, address: 0x1000, header: rsdp(0, 0) },
        ConfigTable { kind: ConfigTableKind::Acpi2, address: 0x2000, header: rsdp(2, 36) },
        ConfigTable { kind: ConfigTableKind::Other, address: 0x3000, header: vec![0; 36] },
    ];
    assert_eq!(find_acpi_table_pointers(&tables), Some((0x2000, 36)));
    let mut bad = rsdp(2, 36);
    bad[0] = 0;
    let tables = vec![
        ConfigTable { kind: ConfigTableKind::Acpi1, address: 0x1000, header: rsdp(0, 0) },
        ConfigTable { kind: ConfigTableKind::Acpi2, address: 0x2000, header: bad },
    ];
    assert_eq!(find_acpi_table_pointers(&tables), Some((0x1000, 36)));
    assert_eq!(find_acpi_table_pointers(&[]), None);
    let zero = vec![ConfigTable { kind: ConfigTableKind::Acpi2, address: 0x2000, header: rsdp(2, 0) }];
    assert_eq!(find_acpi_table_pointers(&zero), None);
}

#[test]
fn device_paths() {
    let n = |t, s| PathNode { device_type: t, sub_type: s };
    let disk = [n(2, 1), n(1, 1)];
    let part = [n(2, 1), n(1, 1), n(4, 1)];
    assert_eq!(device_path_relation(&disk, &part), DevicePathRelation::Parent(2));
    assert_eq!(device_path_relation(&part, &disk), DevicePathRelation::Child(2));
    assert_eq!(device_path_relation(&disk, &disk), DevicePathRelation::This);
    assert_eq!(device_path_relation(&[n(2, 1), n(1, 2)], &part), DevicePathRelation::Unrelated);
}

#[test]
fn device_path_lengths() {
    // a 6-byte node then the end node
    let bytes = [0x02, 0x01, 0x06, 0x00, 0xAA, 0xBB, 0x7F, 0xFF, 0x04, 0x00];
    assert_eq!(device_path_len(&bytes), Some(10));
    assert_eq!(device_path_len(&bytes[..8]), None);
    // a node shorter than 4 bytes stops the walk
    assert_eq!(device_path_len(&[0x01, 0x01, 0x02, 0x00]), Some(2));
}

#[test]
fn disk_order_puts_boot_disk_first() {
    let rel = [DevicePathRelation::Unrelated, DevicePathRelation::Parent(2), DevicePathRelation::This, DevicePathRelation::Parent(1)];
    assert_eq!(disk_priority_order(&rel), vec![1, 3, 0, 2]);
    assert_eq!(partition_offset(true), 0);
    assert_eq!(partition_offset(false), 0x20_0000);
    let mut iso = vec![0u8; 1024];
    assert_eq!(live_image_partition_offset(&iso), 0);
    iso[512..520].copy_from_slice(b"EFI PART");
    assert_eq!(live_image_partition_offset(&iso), 0x20_0000);
}

#[test]
fn edid_resolution() {
    let mut edid = vec![0u8; 128];
    edid[0x38] = 0x80;
    edid[0x3A] = 0x70;
    edid[0x3B] = 0x38;
    edid[0x3D] = 0x40;
    assert_eq!(best_resolution(Some(&edid), (800, 600)), (1920, 1080));
    assert_eq!(best_resolution(Some(&edid[..0x3D]), (800, 600)), (800, 600));
    assert_eq!(best_resolution(None, (640, 480)), (640, 480));
}

#[test]
fn keys() {
    assert_eq!(translate_key(TextInputKey::Printable('\u{8}')), OsKey::Backspace);
    assert_eq!(translate_key(TextInputKey::Printable('\r')), OsKey::Enter);
    assert_eq!(translate_key(TextInputKey::Printable('a')), OsKey::Char('a'));
    assert_eq!(translate_key(TextInputKey::Special(1)), OsKey::Up);
    assert_eq!(translate_key(TextInputKey::Special(2)), OsKey::Down);
    assert_eq!(translate_key(TextInputKey::Special(3)), OsKey::Right);
    assert_eq!(translate_key(TextInputKey::Special(4)), OsKey::Left);
    assert_eq!(translate_key(TextInputKey::Special(8)), OsKey::Delete);
    assert_eq!(translate_key(TextInputKey::Special(0x17)), OsKey::Other);
}

#[test]
fn pages() {
    assert_eq!(page_size(), 4096);
    assert_eq!(pages_for(0), 0);
    assert_eq!(pages_for(1), 1);
    assert_eq!(pages_for(4096), 1);
    assert_eq!(pages_for(4097), 2);
    assert_eq!(pages_for(usize::MAX), usize::MAX / 4096 + 1);
}

#[test]
fn os_memory_map() {
    let descs = [
        MemoryDescriptor { ty: 7, physical_start: 0x1000, page_count: 2 },
        MemoryDescriptor { ty: 3, physical_start: 0x3000, page_count: 1 },
        MemoryDescriptor { ty: 5, physical_start: 0x4000, page_count: 0 },
        MemoryDescriptor { ty: 9, physical_start: 0x5000, page_count: 1 },
    ];
    let mut it = MemoryMapIter::new(&descs);
    let e = it.next().unwrap();
    assert_eq!((e.base, e.size, e.kind), (0x1000, 0x2000, OsMemoryKind::Free));
    assert_eq!(it.next().unwrap().kind, OsMemoryKind::Reclaim);
    let e = it.next().unwrap();
    assert_eq!((e.size, e.kind), (0, OsMemoryKind::Reserved));
    assert_eq!(it.next().unwrap().kind, OsMemoryKind::Reclaim);
    assert!(it.next().is_none());
}

#[test]
fn disk_blocks() {
    let data: Vec<u8> = (0..3 * 4096).map(|i| (i % 251) as u8).collect();
    let mut buf = vec![0u8; 8];
    assert_eq!(file_read_at(&data, 2, &mut buf), 8);
    assert_eq!(buf, data[8192..8200].to_vec());
    assert_eq!(block_to_lba(3, 512), 24);
    assert_eq!(block_to_lba(3, 4096), 3);
}

#[test]
fn firmware_paths_use_backslashes() {
    let p: String = firmware_path("/boot/kernel").into_iter().collect();
    assert_eq!(p, "\\boot\\kernel");
    let p: String = firmware_path("initfs").into_iter().collect();
    assert_eq!(p, "initfs");
    assert!(firmware_path("").is_empty());
}

#[test]
fn disk_order_keeps_every_disk_once() {
    let rel = vec![
        DevicePathRelation::Unrelated,
        DevicePathRelation::Parent(2),
        DevicePathRelation::This,
        DevicePathRelation::Parent(1),
        DevicePathRelation::Child(1),
    ];
    let mut order = disk_priority_order(&rel);
    assert_eq!(order, vec![1, 3, 0, 2, 4]);
    order.sort();
    assert_eq!(order, vec![0, 1, 2, 3, 4]);
    assert!(disk_priority_order(&[]).is_empty());
}

#[test]
fn device_path_text_joins_nodes() {
    let parts = vec!["Acpi(1)".to_string(), "Hardware(2)".to_string(), "Media(3)".to_string(), String::new()];
    assert_eq!(device_path_text(&parts), "Acpi(1)/Hardware(2)/Media(3)/");
    assert_eq!(device_path_text(&vec![]), "");
    assert_eq!(device_path_text(&vec![String::new(), "Media(3)".to_string()]), "Media(3)");
}
