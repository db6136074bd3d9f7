use oxidedisk::disk::pick_disk;
use oxidedisk::models::DiskInfo;

fn disk(mount: &str, total: u64) -> DiskInfo {
    DiskInfo { mount: mount.to_string(), total, available: total / 2 }
}

#[test]
fn longest_mount_point_holding_the_folder_wins() {
    let disks = vec![disk(r"C:\", 100), disk(r"D:\", 200), disk(r"C:\mnt\big", 300)];
    let d = pick_disk(r"C:\mnt\big\photos", &disks).unwrap();
    assert_eq!(d.mount, r"C:\mnt\big");
    assert_eq!(d.total, 300);
    assert_eq!(d.available, 150);
    let c = pick_disk(r"C:\Users", &disks).unwrap();
    assert_eq!(c.mount, r"C:\");
    let e = pick_disk(r"D:\", &disks).unwrap();
    assert_eq!(e.total, 200);
}

#[test]
fn mount_points_match_by_component() {
    let disks = vec![disk(r"C:\", 100), disk(r"C:\mnt\big", 300)];
    // `C:\mnt\bigger` does not lie under `C:\mnt\big`.
    assert_eq!(pick_disk(r"C:\mnt\bigger", &disks).unwrap().total, 100);
    // Drive letters compare without regard to case.
    assert_eq!(pick_disk(r"c:\x", &disks).unwrap().total, 100);
}

#[test]
fn no_disk_holds_the_folder() {
    let disks = vec![disk(r"C:\", 100)];
    assert!(pick_disk(r"E:\x", &disks).is_none());
    assert!(pick_disk(r"E:\x", &[]).is_none());
}

#[test]
fn equal_mount_points_prefer_the_later_disk() {
    let disks = vec![disk(r"C:\", 100), disk(r"C:\", 400)];
    assert_eq!(pick_disk(r"C:\x", &disks).unwrap().total, 400);
}
