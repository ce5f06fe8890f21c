use eidos_service::device_topology::{
    check_drive_kind, check_returned, local_drive, nul_terminated, parse_extents, probe_root,
    volume_handle_name, EXTENTS_OFFSET, EXTENT_SIZE, LENGTH_AT, MAX_BYTES, MAX_EXTENTS, START_AT,
};

fn wide(s: &str) -> Vec<u16> {
    s.encode_utf16().collect()
}

fn fixture(numbers: &[u32]) -> Vec<u8> {
    let mut bytes = vec![0; EXTENTS_OFFSET + numbers.len() * EXTENT_SIZE];
    bytes[..4].copy_from_slice(&(numbers.len() as u32).to_le_bytes());
    for (i, number) in numbers.iter().enumerate() {
        let offset = EXTENTS_OFFSET + i * EXTENT_SIZE;
        bytes[offset..offset + 4].copy_from_slice(&number.to_le_bytes());
        let length_at = offset + LENGTH_AT;
        bytes[length_at..length_at + 8].copy_from_slice(&4096i64.to_le_bytes());
    }
    bytes
}

#[test]
fn all_backing_disks_are_deduplicated_without_dropping_overlap() {
    assert_eq!(
        parse_extents(&fixture(&[7, 2, 7])).unwrap(),
        vec!["windows-disk-2", "windows-disk-7"]
    );
}

#[test]
fn partial_excessive_and_invalid_driver_results_stay_unknown() {
    let bytes = fixture(&[1, 2]);
    for len in 0..bytes.len() {
        assert!(
            parse_extents(&bytes[..len]).is_err(),
            "accepted {len} bytes"
        );
    }
    assert!(parse_extents(&fixture(&[])).is_err());
    assert!(parse_extents(&fixture(&[1; MAX_EXTENTS + 1])).is_err());
    let mut bytes = fixture(&[1]);
    let length_at = EXTENTS_OFFSET + LENGTH_AT;
    bytes[length_at..length_at + 8].copy_from_slice(&(-1i64).to_le_bytes());
    assert!(parse_extents(&bytes).is_err());
    bytes[length_at..length_at + 8].copy_from_slice(&i64::MAX.to_le_bytes());
    let start_at = EXTENTS_OFFSET + START_AT;
    bytes[start_at..start_at + 8].copy_from_slice(&1i64.to_le_bytes());
    assert!(parse_extents(&bytes).is_err());
}

#[test]
fn network_relative_and_device_namespaces_do_not_reach_the_os_probe() {
    for root in [
        r"\\fileserver\share\fixture",
        r"\\?\UNC\fileserver\share\fixture",
        r"\\.\PhysicalDrive0",
        r"\Device\HarddiskVolume1",
        r"C:relative",
        r"relative",
    ] {
        assert!(local_drive(root).is_err(), "accepted {root}");
        assert!(probe_root(root, &wide(root)).is_err());
    }
    assert!(local_drive(r"C:\fixture").is_ok());
    assert!(local_drive(r"\\?\C:\fixture").is_ok());
    assert!(nul_terminated(&wide("C:\\fixture\0hidden")).is_err());
}

#[test]
fn each_root_form_has_its_own_answer() {
    assert_eq!(
        local_drive(r"c:/data"),
        Ok([u16::from(b'C'), u16::from(b':'), u16::from(b'\\'), 0])
    );
    assert_eq!(
        local_drive("C:data"),
        Err("backing-device lookup requires an absolute local path")
    );
    assert_eq!(
        local_drive(r"\data"),
        Err("backing-device lookup requires a local drive qualifier")
    );
    assert_eq!(
        local_drive("//server/share"),
        Err("network storage has no supported local backing-device identity")
    );
    assert_eq!(
        local_drive(r"\\?\Volume{0}\x"),
        Err("unsupported path namespace for backing-device lookup")
    );
    // A server without a share names no network location.
    assert_eq!(
        local_drive(r"\\server"),
        Err("backing-device lookup requires a local drive qualifier")
    );
}

#[test]
fn paths_are_bounded_and_terminated() {
    assert_eq!(nul_terminated(&wide("C:\\")), Ok(wide("C:\\\0")));
    assert!(nul_terminated(&vec![65; 32_766]).is_ok());
    assert!(nul_terminated(&vec![65; 32_767]).is_err());
    let q = probe_root(r"D:\x", &wide(r"D:\x")).unwrap();
    assert_eq!(q.drive, [68, 58, 92, 0]);
    assert_eq!(q.path, wide("D:\\x\0"));
}

#[test]
fn only_local_drives_and_mount_roots_go_on() {
    assert!(check_drive_kind(2).is_ok());
    assert!(check_drive_kind(3).is_ok());
    assert_eq!(
        check_drive_kind(4),
        Err("root is not on an available local fixed/removable drive")
    );
    assert_eq!(
        volume_handle_name(&wide("\\\\?\\Volume{1}\\\0\0")),
        Ok(wide("\\\\?\\Volume{1}\0"))
    );
    assert_eq!(
        volume_handle_name(&wide("abc")),
        Err("volume path was not terminated")
    );
    assert_eq!(
        volume_handle_name(&wide("abc\0")),
        Err("volume path did not end at a mount root")
    );
    assert_eq!(
        volume_handle_name(&wide("\0")),
        Err("volume path did not end at a mount root")
    );
    assert_eq!(check_returned(MAX_BYTES as u32), Ok(1544));
    assert!(check_returned(MAX_BYTES as u32 + 1).is_err());
}
