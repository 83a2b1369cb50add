use geminus::error::{FailureKind, Fault, IoFailure};
use geminus::sys::linux::{holds_home, is_system_mount, whole_disk};
use geminus::sys::{crumbs, in_path, is_system_dir, join_rel, linux, parent_of, rel_from_os, windows, System};
use geminus::text::utf16::{narrow, wide};
use geminus::CmdError;

fn says(e: &CmdError, code: &str, detail: &str) -> bool {
    e.code == code && e.detail == detail
}

fn fault(text: &str) -> Fault<String> {
    Fault { failure: IoFailure { kind: FailureKind::Other, raw: None }, text: text.to_string() }
}

fn pairs(list: &[(&str, &str)]) -> Vec<(String, String)> {
    list.iter().map(|(a, b)| (a.to_string(), b.to_string())).collect()
}

#[test]
fn system_mounts_are_matched_by_segment() {
    for m in ["/boot", "/boot/efi", "/dev", "/proc", "/sys", "/snap", "/run/user/1000"] {
        assert!(is_system_mount(m), "{} should be kept out", m);
    }
    for m in ["/", "/home", "/development", "/bootcamp", "/snapshots", "/run/media/luca/USB",
              "/media/luca/Backup", "/mnt/dischi/devices"] {
        assert!(!is_system_mount(m), "{} should be shown", m);
    }
}

#[test]
fn the_machines_own_mounts_stay_out_of_the_device_list() {
    let home = "/home/lucix";
    assert!(holds_home("/", home));
    assert!(holds_home("/home", home));
    assert!(holds_home("/home/lucix", home));
    assert!(!holds_home("/media/lucix/USB", home));
    assert!(!holds_home("/home2", home));
    assert!(!holds_home("/mnt/dati", home));
}

#[test]
fn a_partition_resolves_to_the_whole_disk() {
    assert_eq!(whole_disk("/dev/sda1"), "/dev/sda");
    assert_eq!(whole_disk("/dev/sda"), "/dev/sda");
    assert_eq!(whole_disk("/dev/nvme0n1p2"), "/dev/nvme0n1");
    assert_eq!(whole_disk("/dev/nvme0n1"), "/dev/nvme0n1");
    assert_eq!(whole_disk("/dev/mmcblk0p1"), "/dev/mmcblk0");
    assert_eq!(whole_disk("/dev/mapper/casa"), "/dev/mapper/casa");
}

#[test]
fn partitions_of_other_kinds() {
    assert_eq!(whole_disk("/dev/hdb12"), "/dev/hdb");
    assert_eq!(whole_disk("/dev/mmcblk0px"), "/dev/mmcblk0px");
    assert_eq!(whole_disk("tmpfs"), "tmpfs");
}

const MOUNTS: &str = "\
/dev/sda2 / ext4 rw 0 0
/dev/sda3 /home ext4 rw 0 0
/dev/sdb1 /media/lucix/USB vfat rw 0 0
/dev/sdb1 /media/lucix/again vfat rw 0 0
/dev/loop0 /snap/core squashfs ro 0 0
/dev/loop1 /mnt/image squashfs ro 0 0
tmpfs /tmp tmpfs rw 0 0
/dev/sdc1 /boot/efi vfat rw 0 0
short line
/dev/nvme0n1p2 /mnt/dati/ btrfs rw 0 0
";

#[test]
fn the_devices_that_somebody_plugged_in() {
    let list = linux::list_devices(Ok(MOUNTS.to_string()), "/home/lucix").unwrap();
    assert_eq!(list, pairs(&[("USB", "/media/lucix/USB"), ("dati", "/mnt/dati/")]));
    let e = linux::list_devices(Err(fault("no (os error 2)")), "/").unwrap_err();
    assert!(says(&e, "devices_not_listed", "no"));
}

#[test]
fn the_machines_own_disk_stays_out_wherever_it_is_mounted() {
    let table = "/dev/sda2 / btrfs rw 0 0\n/dev/sda2 /var btrfs rw 0 0\n";
    assert_eq!(linux::list_devices(Ok(table.to_string()), "/home/luca").unwrap(), pairs(&[]));
    let table = "/dev/sda3 /data btrfs rw 0 0\n/dev/sda3 /home btrfs rw 0 0\n/dev/sdb1 /mnt/x ext4 rw 0 0\n";
    let list = linux::list_devices(Ok(table.to_string()), "/home/luca").unwrap();
    assert_eq!(list, pairs(&[("x", "/mnt/x")]));
}

#[test]
fn mount_points_are_read_without_their_escapes() {
    let table = "/dev/sda2 / ext4 rw 0 0\n/dev/sdb1 /media/luca/Backup\\0404T ext4 rw 0 0\n";
    let disk = linux::device_for_path(Ok(table.to_string()), "/media/luca/Backup 4T/x");
    assert_eq!(disk.unwrap(), "/dev/sdb");
    let list = linux::list_devices(Ok(table.to_string()), "/home/luca").unwrap();
    assert_eq!(list, pairs(&[("Backup 4T", "/media/luca/Backup 4T")]));
    let table = "/dev/sdc1 /a\\011b\\012c\\134d\\043e\\999\\04 ext4 rw 0 0\n";
    let list = linux::list_devices(Ok(table.to_string()), "/home/luca").unwrap();
    assert_eq!(list[0].1, "/a\tb\nc\\d#e\\999\\04");
}

#[test]
fn positions_lead_back_to_the_paths_they_came_from() {
    for (root, rest, path) in [
        ("/r", "a/b c/d", "/r/a/b c/d"),
        ("/", "a", "/a"),
        ("/r", "", "/r"),
        ("/r", "odd\\name", "/r/odd\\name"),
        ("/r", "../s/./t", "/r/../s/./t"),
        ("/r", "a//b", "/r/a//b"),
    ] {
        assert_eq!(join_rel(System::Linux, root, &rel_from_os(System::Linux, rest)), path);
    }
    for (root, rest, path) in [
        ("C:\\r", "a\\b", "C:\\r\\a\\b"),
        ("C:\\", "a\\b", "C:\\a\\b"),
        ("\\\\server\\share\\r", "a", "\\\\server\\share\\r\\a"),
        ("\\\\?\\C:\\r", "a\\b", "\\\\?\\C:\\r\\a\\b"),
        ("C:\\r", "", "C:\\r"),
        ("C:\\r", "..\\s\\.\\t", "C:\\r\\..\\s\\.\\t"),
        ("C:\\r", "a\\\\b", "C:\\r\\a\\\\b"),
        ("C:\\r", "a/b", "C:\\r\\a\\b"),
    ] {
        assert_eq!(join_rel(System::Windows, root, &rel_from_os(System::Windows, rest)), path);
    }
}

#[test]
fn below_a_path_taken_to_the_letter_only_names_lead_back() {
    let again = |root: &str, rest: &str| {
        join_rel(System::Windows, root, &rel_from_os(System::Windows, rest))
    };
    assert_eq!(again("\\\\?\\C:\\\\r\\", "a\\\\b"), "\\\\?\\C:\\r\\a\\b");
    assert_eq!(again("\\\\?\\UNC\\s\\h\\r", "a"), "\\\\?\\UNC\\s\\h\\r\\a");
    assert_eq!(again("\\\\?\\C:\\r", "..\\a"), "\\\\?\\C:\\a");
    assert_eq!(again("\\\\?\\C:\\r", "a/b"), "\\\\?\\C:\\r\\a\\b");
}

#[test]
fn along_the_search_path_the_first_place_counts() {
    let place = |p: &str, there| (p.to_string(), there);
    let found = in_path(vec![place("/a/x", false), place("/b/x", true), place("/c/x", true)]);
    assert_eq!(found, Some("/b/x".to_string()));
    assert_eq!(in_path(vec![place("/a/x", false)]), None);
    assert_eq!(in_path(Vec::new()), None);
}

#[test]
fn the_disk_behind_a_path() {
    let disk = |p: &str| linux::device_for_path(Ok(MOUNTS.to_string()), p);
    assert_eq!(disk("/home/lucix/x").unwrap(), "/dev/sda");
    assert_eq!(disk("/media/lucix/USB/dir").unwrap(), "/dev/sdb");
    assert_eq!(disk("/media/lucix/USB2").unwrap(), "/dev/sda");
    assert_eq!(disk("/mnt/dati/").unwrap(), "/dev/nvme0n1");
    let e = linux::device_for_path(Ok("tmpfs / tmpfs\n".to_string()), "/x").unwrap_err();
    assert!(says(&e, "disk_not_resolved", "/x"));
    let e = linux::device_for_path(Err(fault("no (os error 2)")), "/x").unwrap_err();
    assert!(says(&e, "disk_not_resolved", "no"));
}

#[test]
fn positions_and_paths() {
    assert_eq!(rel_from_os(System::Linux, "a/b\\c"), "a/b\\c");
    assert_eq!(rel_from_os(System::Windows, "a\\b"), "a/b");
    assert_eq!(join_rel(System::Linux, "/root", ""), "/root");
    assert_eq!(join_rel(System::Linux, "/root", "a/b"), "/root/a/b");
    assert_eq!(join_rel(System::Linux, "/", "a"), "/a");
    assert_eq!(join_rel(System::Linux, "/root", "/abs"), "/abs");
    assert_eq!(join_rel(System::Windows, "C:\\x", "a/b"), "C:\\x\\a\\b");
    assert_eq!(join_rel(System::Windows, "C:\\", "a"), "C:\\a");
    assert_eq!(join_rel(System::Windows, "C:", "a"), "C:a");
    assert_eq!(join_rel(System::Windows, "C:\\x", ""), "C:\\x");
    assert_eq!(join_rel(System::Windows, "C:\\x", "/a"), "C:\\a");
    assert_eq!(join_rel(System::Windows, "C:\\x", "D:/a"), "D:\\a");
    assert_eq!(join_rel(System::Windows, "\\\\?\\C:\\x\\y", "../z/./w"), "\\\\?\\C:\\x\\z\\w");
    assert_eq!(join_rel(System::Windows, "\\\\?\\C:\\", ".."), "\\\\?\\C:\\");
}

fn std_parent(path: &str) -> Option<String> {
    std::path::Path::new(path).parent().map(|p| p.to_string_lossy().into_owned())
}

fn std_crumbs(path: &str) -> Vec<(String, String)> {
    let mut out: Vec<(String, String)> = std::path::Path::new(path)
        .ancestors()
        .map(|anc| {
            let label = match anc.file_name() {
                Some(n) => n.to_string_lossy().into_owned(),
                None => "/".to_string(),
            };
            (label, anc.to_string_lossy().into_owned())
        })
        .collect();
    out.reverse();
    out
}

#[test]
fn going_up_agrees_with_the_standard_library() {
    for p in [
        "", "/", "//", ".", "./", "..", "../..", "a", "a/", "a//b", "/a", "/a/", "/a/b/c", "/a/./b",
        "/a/.", "a/.", "./a", "./a/./", "a/..", "/..", "///a///b///", ".a", "..a", "/a/../b", "//a",
        "./.", "././a", "a/./.", "/./a",
    ] {
        assert_eq!(parent_of(System::Linux, p), std_parent(p), "parent of {:?}", p);
        assert_eq!(crumbs(System::Linux, p), std_crumbs(p), "trail of {:?}", p);
        for rel in ["x", "x/y", "/x"] {
            let joined = std::path::Path::new(p).join(rel).to_string_lossy().into_owned();
            assert_eq!(join_rel(System::Linux, p, rel), joined, "{:?} and {:?}", p, rel);
        }
    }
}

#[test]
fn the_trail_behind_a_path() {
    assert_eq!(
        crumbs(System::Linux, "/home/lucix"),
        pairs(&[("/", "/"), ("home", "/home"), ("lucix", "/home/lucix")])
    );
    assert_eq!(
        crumbs(System::Windows, "C:\\Users\\me"),
        pairs(&[("C:", "C:\\"), ("Users", "C:\\Users"), ("me", "C:\\Users\\me")])
    );
    assert_eq!(
        crumbs(System::Windows, "\\\\server\\share\\dir"),
        pairs(&[("\\\\server\\share", "\\\\server\\share\\"), ("dir", "\\\\server\\share\\dir")])
    );
    assert_eq!(parent_of(System::Windows, "C:\\"), None);
    assert_eq!(parent_of(System::Windows, "C:\\a"), Some("C:\\".to_string()));
    assert_eq!(parent_of(System::Windows, "C:/a/b"), Some("C:/a".to_string()));
    assert_eq!(parent_of(System::Windows, "a"), Some(String::new()));
    assert_eq!(parent_of(System::Windows, "\\\\server\\share"), None);
}

#[test]
fn the_volume_that_a_path_starts_from() {
    let id = |p: &str| windows::device_id(p);
    assert_eq!(id("c:\\x"), Some("C".to_string()));
    assert_eq!(id("D:rel"), Some("D".to_string()));
    assert_eq!(id("\\\\?\\e:\\x"), Some("E".to_string()));
    assert_eq!(id("\\\\server\\share\\x"), Some("\\\\server\\share".to_string()));
    assert_eq!(id("\\\\?\\UNC\\server\\share\\x"), Some("\\\\?\\UNC\\server\\share".to_string()));
    assert_eq!(id("\\\\.\\COM42"), Some("\\\\.\\COM42".to_string()));
    assert_eq!(id("\\\\?\\pictures\\x"), Some("\\\\?\\pictures".to_string()));
    assert_eq!(id("rel\\x"), None);
    assert_eq!(id("\\x"), None);
    assert_eq!(id("\\\\server"), None);
    assert_eq!(linux::device_id(Some(2049)), Some("2049".to_string()));
    assert_eq!(linux::device_id(None), None);
}

#[test]
fn what_each_system_keeps_and_hides() {
    assert!(is_system_dir(System::Windows, "$Recycle.Bin"));
    assert!(is_system_dir(System::Windows, "system volume information"));
    assert!(is_system_dir(System::Windows, "CONFIG.MSI"));
    assert!(!is_system_dir(System::Windows, "Documents"));
    assert!(!is_system_dir(System::Linux, "$RECYCLE.BIN"));
    assert!(linux::is_hidden("/home/lucix/.config"));
    assert!(!linux::is_hidden("/home/.x/y"));
    assert!(!linux::is_hidden("/"));
    assert!(windows::is_hidden(0x22));
    assert!(!windows::is_hidden(0x20));
    assert!(windows::link_goes_as_folder(0x410));
    assert!(!windows::link_goes_as_folder(0x400));
    assert_eq!(linux::clear_write_protection(0o444), 0o644);
    assert_eq!(linux::root_path(), Some("/".to_string()));
    assert_eq!(windows::root_path(), None);
    assert_eq!(linux::home_dir(Some("/home/ann".to_string())), "/home/ann");
    assert_eq!(linux::home_dir(None), "/");
    assert_eq!(windows::home_dir(Some("D:\\ann".to_string())), "D:\\ann");
    assert_eq!(windows::home_dir(None), "C:\\");
}

#[test]
fn handing_an_item_to_its_program() {
    assert!(linux::open_with_default(Ok((true, Vec::new()))).is_ok());
    let e = linux::open_with_default(Ok((false, b" none \n".to_vec()))).unwrap_err();
    assert!(says(&e, "no_app_for_type", " none"));
    let e = linux::open_with_default(Err(fault("gone (os error 2)"))).unwrap_err();
    assert!(says(&e, "open_failed", "gone"));
    assert!(linux::open_url(Ok(())).is_ok());
    assert!(says(&linux::open_url(Err(fault("x"))).unwrap_err(), "no_browser", "x"));
    assert!(windows::open_with_default(33).is_ok());
    assert!(says(&windows::open_with_default(31).unwrap_err(), "no_app_for_type", ""));
    assert!(says(&windows::open_with_default(5).unwrap_err(), "permission", ""));
    assert!(says(&windows::open_with_default(2).unwrap_err(), "item_missing", ""));
    assert!(says(&windows::open_with_default(3).unwrap_err(), "item_missing", ""));
    assert!(says(&windows::open_with_default(-1).unwrap_err(), "open_failed", "Windows error -1"));
    assert!(windows::open_url(42).is_ok());
    assert!(says(&windows::open_url(0).unwrap_err(), "no_browser", "Windows error 0"));
}

#[test]
fn the_drives_that_are_there() {
    assert_eq!(
        windows::list_devices(0b1100, 0).unwrap(),
        pairs(&[("C:", "C:\\"), ("D:", "D:\\")])
    );
    assert_eq!(windows::list_devices(1 << 25, 0).unwrap(), pairs(&[("Z:", "Z:\\")]));
    assert_eq!(windows::list_devices(u32::MAX, 0).unwrap().len(), 26);
    let e = windows::list_devices(0, 5).unwrap_err();
    assert!(says(&e, "devices_not_listed", "Windows error 5"));
}

#[test]
fn the_physical_drive_behind_a_path() {
    let buf = |s: &str| {
        let mut v = wide(s);
        v.push(0x41);
        v
    };
    assert_eq!(windows::volume_root("D:\\x", Some(buf("D:\\"))).unwrap(), "D:\\");
    assert_eq!(windows::volume_device("D:\\").unwrap(), "\\\\.\\D:");
    assert_eq!(
        windows::device_for_path("D:\\x", Some(buf("D:\\")), Some(vec![2, 3])).unwrap(),
        "\\\\.\\PhysicalDrive2"
    );
    let e = windows::device_for_path("D:\\x", None, None).unwrap_err();
    assert!(says(&e, "disk_not_resolved", "D:\\x"));
    let e = windows::device_for_path("x", Some(buf("\\\\server\\share\\")), Some(vec![1])).unwrap_err();
    assert!(says(&e, "no_physical_disk", ""));
    let e = windows::device_for_path("x", Some(buf("\\")), None).unwrap_err();
    assert!(says(&e, "no_physical_disk", ""));
    let e = windows::device_for_path("x", Some(buf("D:\\")), Some(Vec::new())).unwrap_err();
    assert!(says(&e, "disk_not_resolved", "D:"));
    let e = windows::physical_drive_number("D:\\", None).unwrap_err();
    assert!(says(&e, "disk_not_resolved", "D:"));
}

#[test]
fn where_the_health_tool_is() {
    let there = |a, b, c| linux::smartctl_path(None, a, b, c);
    assert_eq!(linux::smartctl_path(Some("/opt/s".to_string()), true, true, true), Some("/opt/s".to_string()));
    assert_eq!(there(true, true, true), Some("/usr/sbin/smartctl".to_string()));
    assert_eq!(there(false, true, true), Some("/sbin/smartctl".to_string()));
    assert_eq!(there(false, false, true), Some("/usr/local/sbin/smartctl".to_string()));
    assert_eq!(there(false, false, false), None);
    assert_eq!(
        windows::smartctl_candidate("C:\\Program Files"),
        "C:\\Program Files\\smartmontools\\bin\\smartctl.exe"
    );
    let roots = vec![("C:\\A".to_string(), false), ("C:\\B".to_string(), true)];
    assert_eq!(
        windows::smartctl_path(None, roots),
        Some("C:\\B\\smartmontools\\bin\\smartctl.exe".to_string())
    );
    assert_eq!(windows::smartctl_path(None, Vec::new()), None);
    assert_eq!(windows::smartctl_path(Some("x".to_string()), Vec::new()), Some("x".to_string()));
}

#[test]
fn text_in_sixteen_bit_units() {
    let text = "a\u{e9}\u{20ac}\u{1f600}z";
    let mut expected: Vec<u16> = text.encode_utf16().collect();
    expected.push(0);
    assert_eq!(wide(text), expected);
    assert_eq!(narrow(&expected[..expected.len() - 1]), text);
    let odd = [0xd800u16, 0x41, 0xdc00, 0xd83d, 0xde00, 0xdbff];
    assert_eq!(narrow(&odd), String::from_utf16_lossy(&odd));
}
