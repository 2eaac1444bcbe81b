use metadata_generater::{
    add_archive, find_entry_size, is_zip_name, open_archive, os_entry, ArchiveError, OsEntry,
    Settings,
};

/// A zip archive whose directory lists the given entries with the given uncompressed
/// sizes; entries of 4 GiB or more get a zip64 record. No entry holds any data.
fn archive_bytes(entries: &[(&str, u64)]) -> Vec<u8> {
    let mut out: Vec<u8> = Vec::new();
    let mut central: Vec<u8> = Vec::new();
    for (name, size) in entries {
        let offset = out.len() as u32;
        let name = name.as_bytes();
        out.extend_from_slice(&0x04034b50u32.to_le_bytes());
        out.extend_from_slice(&20u16.to_le_bytes());
        out.extend_from_slice(&0u16.to_le_bytes());
        out.extend_from_slice(&0u16.to_le_bytes());
        out.extend_from_slice(&0u16.to_le_bytes());
        out.extend_from_slice(&0x21u16.to_le_bytes());
        out.extend_from_slice(&0u32.to_le_bytes());
        out.extend_from_slice(&0u32.to_le_bytes());
        out.extend_from_slice(&0u32.to_le_bytes());
        out.extend_from_slice(&(name.len() as u16).to_le_bytes());
        out.extend_from_slice(&0u16.to_le_bytes());
        out.extend_from_slice(name);

        let big = *size >= 0xFFFF_FFFF;
        central.extend_from_slice(&0x02014b50u32.to_le_bytes());
        central.extend_from_slice(&45u16.to_le_bytes());
        central.extend_from_slice(&45u16.to_le_bytes());
        central.extend_from_slice(&0u16.to_le_bytes());
        central.extend_from_slice(&0u16.to_le_bytes());
        central.extend_from_slice(&0u16.to_le_bytes());
        central.extend_from_slice(&0x21u16.to_le_bytes());
        central.extend_from_slice(&0u32.to_le_bytes());
        central.extend_from_slice(&0u32.to_le_bytes());
        let small: u32 = if big { 0xFFFF_FFFF } else { *size as u32 };
        central.extend_from_slice(&small.to_le_bytes());
        central.extend_from_slice(&(name.len() as u16).to_le_bytes());
        let extra: u16 = if big { 12 } else { 0 };
        central.extend_from_slice(&extra.to_le_bytes());
        central.extend_from_slice(&0u16.to_le_bytes());
        central.extend_from_slice(&0u16.to_le_bytes());
        central.extend_from_slice(&0u16.to_le_bytes());
        central.extend_from_slice(&0u32.to_le_bytes());
        central.extend_from_slice(&offset.to_le_bytes());
        central.extend_from_slice(name);
        if big {
            central.extend_from_slice(&1u16.to_le_bytes());
            central.extend_from_slice(&8u16.to_le_bytes());
            central.extend_from_slice(&size.to_le_bytes());
        }
    }
    let cd_offset = out.len() as u32;
    let cd_size = central.len() as u32;
    out.extend_from_slice(&central);
    out.extend_from_slice(&0x06054b50u32.to_le_bytes());
    out.extend_from_slice(&0u16.to_le_bytes());
    out.extend_from_slice(&0u16.to_le_bytes());
    out.extend_from_slice(&(entries.len() as u16).to_le_bytes());
    out.extend_from_slice(&(entries.len() as u16).to_le_bytes());
    out.extend_from_slice(&cd_size.to_le_bytes());
    out.extend_from_slice(&cd_offset.to_le_bytes());
    out.extend_from_slice(&0u16.to_le_bytes());
    out
}

fn settings() -> Settings {
    Settings {
        os_name: "Asahi Linux".to_string(),
        efi_size: 500,
        image_name: "media".to_string(),
        icon: Some("asahi.icns".to_string()),
    }
}

/// Runs the per-file part of a build over an in-memory directory listing.
fn build(files: &[(&str, Vec<u8>)], s: &Settings) -> Result<Vec<OsEntry>, ArchiveError> {
    let mut list: Vec<OsEntry> = Vec::new();
    for (name, bytes) in files {
        if !is_zip_name(name) {
            continue;
        }
        let mut zip = open_archive(bytes.clone())?;
        add_archive(&mut list, name, &mut zip, s)?;
    }
    Ok(list)
}

#[test]
fn entry_size_is_read_from_the_directory() {
    let bytes = archive_bytes(&[("boot.img", 10), ("media", 2_000_000_000), ("other", 5)]);
    let mut zip = open_archive(bytes).unwrap();
    assert_eq!(find_entry_size(&mut zip, "media").ok(), Some(2_000_000_000));
    assert_eq!(find_entry_size(&mut zip, "other").ok(), Some(5));
}

#[test]
fn zip64_entry_size_is_read() {
    let bytes = archive_bytes(&[("media", 9_000_000_000)]);
    let mut zip = open_archive(bytes).unwrap();
    assert_eq!(find_entry_size(&mut zip, "media").ok(), Some(9_000_000_000));
}

#[test]
fn entry_name_match_is_exact() {
    let bytes = archive_bytes(&[("Media", 1), ("media/", 2), ("./media", 3)]);
    let mut zip = open_archive(bytes).unwrap();
    match find_entry_size(&mut zip, "media") {
        Err(ArchiveError::EntryNotFound { entry_name }) => assert_eq!(entry_name, "media"),
        _ => panic!("expected EntryNotFound"),
    }
}

#[test]
fn garbage_is_not_an_archive() {
    assert!(open_archive(b"this is not a zip archive".to_vec()).is_err());
}

#[test]
fn two_archives_sorted_with_rounded_sizes() {
    let s = settings();
    let files = vec![
        ("b.zip", archive_bytes(&[("media", 9_000_000_000)])),
        ("a.zip", archive_bytes(&[("media", 2_000_000_000)])),
    ];
    let list = build(&files, &s).ok().unwrap();
    assert_eq!(list.len(), 2);
    assert_eq!(list[0].name, "a");
    assert_eq!(list[0].package, "a.zip");
    assert_eq!(list[0].partitions[1].size, "2GB");
    assert_eq!(list[1].name, "b");
    assert_eq!(list[1].package, "b.zip");
    assert_eq!(list[1].partitions[1].size, "8GB");
}

#[test]
fn non_zip_files_are_left_out() {
    let s = settings();
    let files = vec![
        ("notes.txt", archive_bytes(&[("media", 1)])),
        ("image.ZIP", archive_bytes(&[("media", 1)])),
        ("fedora-asahi_Remix_40.zip", archive_bytes(&[("media", 1)])),
        ("README", b"not an archive".to_vec()),
    ];
    let list = build(&files, &s).ok().unwrap();
    assert_eq!(list.len(), 1);
    assert_eq!(list[0].name, "FEDORA ASAHI Remix (40)");
    assert_eq!(list[0].package, "fedora-asahi_Remix_40.zip");
}

#[test]
fn missing_entry_fails_the_run() {
    let s = settings();
    let files = vec![
        ("a.zip", archive_bytes(&[("media", 1)])),
        ("b.zip", archive_bytes(&[("rootfs.img", 1)])),
    ];
    match build(&files, &s) {
        Err(ArchiveError::EntryNotFound { entry_name }) => assert_eq!(entry_name, "media"),
        _ => panic!("expected EntryNotFound"),
    }
}

#[test]
fn missing_entry_leaves_the_list_unchanged() {
    let s = settings();
    let mut list: Vec<OsEntry> = Vec::new();
    let mut zip = open_archive(archive_bytes(&[("media", 7)])).unwrap();
    assert!(add_archive(&mut list, "a.zip", &mut zip, &s).is_ok());
    let mut bad = open_archive(archive_bytes(&[("boot", 7)])).unwrap();
    assert!(add_archive(&mut list, "b.zip", &mut bad, &s).is_err());
    assert_eq!(list.len(), 1);
    assert_eq!(list[0].name, "a");
}

#[test]
fn unreadable_archive_fails_the_run() {
    let s = settings();
    let files = vec![("a.zip", b"broken".to_vec())];
    assert!(matches!(build(&files, &s), Err(ArchiveError::Unreadable(_))));
}

#[test]
fn entry_fields() {
    let s = settings();
    let e = os_entry("fedora-asahi_Remix_40.zip", &s, 3 * 1024 * 1024 * 1024);
    assert_eq!(e.name, "FEDORA ASAHI Remix (40)");
    assert_eq!(e.default_os_name, "Asahi Linux");
    assert_eq!(e.boot_object, "m1n1.bin");
    assert_eq!(e.next_object, "m1n1/boot.bin");
    assert_eq!(e.package, "fedora-asahi_Remix_40.zip");
    assert_eq!(e.icon.as_deref(), Some("asahi.icns"));
    assert_eq!(e.supported_fw, vec!["13.5".to_string()]);
    assert_eq!(e.partitions[0].size, "500MB");
    assert_eq!(e.partitions[1].size, "3GB");
    assert_eq!(e.partitions[1].image.as_deref(), Some("media"));
}

#[test]
fn entry_without_icon() {
    let mut s = settings();
    s.icon = None;
    let e = os_entry("plain.zip", &s, 0);
    assert_eq!(e.name, "plain");
    assert!(e.icon.is_none());
    assert_eq!(e.partitions[1].size, "0GB");
}

#[test]
fn partitions_have_the_standard_layout() {
    let s = settings();
    let e = os_entry("x.zip", &s, 1);
    assert_eq!(e.partitions.len(), 2);
    let efi = &e.partitions[0];
    assert_eq!(efi.name, "EFI");
    assert_eq!(efi.part_type, "EFI");
    assert_eq!(efi.format.as_deref(), Some("fat"));
    assert_eq!(efi.copy_firmware, Some(true));
    assert_eq!(efi.copy_installer_data, Some(true));
    assert_eq!(efi.source.as_deref(), Some("esp"));
    assert!(efi.expand.is_none() && efi.image.is_none());
    let root = &e.partitions[1];
    assert_eq!(root.name, "Root");
    assert_eq!(root.part_type, "Linux");
    assert_eq!(root.expand, Some(true));
    assert_eq!(root.image.as_deref(), Some("media"));
    assert!(root.format.is_none() && root.copy_firmware.is_none());
    assert!(root.copy_installer_data.is_none() && root.source.is_none());
}

/// Like `archive_bytes`, with the local header of entry `broken` made unreadable.
fn archive_bytes_broken_at(entries: &[(&str, u64)], broken: usize) -> Vec<u8> {
    let mut bytes = archive_bytes(entries);
    let offset: usize = entries[..broken].iter().map(|(n, _)| 30 + n.len()).sum();
    bytes[offset] = 0;
    bytes
}

#[test]
fn unreadable_record_before_the_match_fails() {
    let bytes = archive_bytes_broken_at(&[("boot", 1), ("media", 2)], 0);
    let mut zip = open_archive(bytes).unwrap();
    assert!(matches!(find_entry_size(&mut zip, "media"), Err(ArchiveError::Unreadable(_))));
}

#[test]
fn unreadable_record_after_the_match_is_not_read() {
    let bytes = archive_bytes_broken_at(&[("media", 2), ("boot", 1)], 1);
    let mut zip = open_archive(bytes).unwrap();
    assert_eq!(find_entry_size(&mut zip, "media").ok(), Some(2));
}

#[test]
fn unreadable_record_without_a_match_fails() {
    let bytes = archive_bytes_broken_at(&[("boot", 1), ("other", 2)], 1);
    let mut zip = open_archive(bytes).unwrap();
    assert!(matches!(find_entry_size(&mut zip, "media"), Err(ArchiveError::Unreadable(_))));
}

#[test]
fn empty_archive_has_no_entry() {
    let mut zip = open_archive(archive_bytes(&[])).unwrap();
    assert!(matches!(
        find_entry_size(&mut zip, "media"),
        Err(ArchiveError::EntryNotFound { .. })
    ));
}
