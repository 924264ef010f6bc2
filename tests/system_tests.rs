use horizonfetch::system::{
    board_name, cpu_label, desktop_name, gpu_list, os_name, screen_resolution, shell_name, summarize_disks,
    uptime_text,
};
use horizonfetch::text::trimmed;
use horizonfetch::DiskSpace;

const GB: u64 = 1_073_741_824;

fn space(name: &str, total: u64, available: u64) -> DiskSpace {
    DiskSpace { name: name.to_string(), total_bytes: total, available_bytes: available }
}

#[test]
fn disk_percent_truncates() {
    let d = summarize_disks(&vec![space("/", 7 * GB, 2 * GB)]);
    assert_eq!(d.len(), 1);
    assert_eq!(d[0].name, "/");
    assert_eq!(d[0].used_gb, 5);
    assert_eq!(d[0].total_gb, 7);
    assert_eq!(d[0].percent, 71);
}

#[test]
fn disk_sizes_round_down_to_whole_gigabytes() {
    let d = summarize_disks(&vec![space("/home", 10 * GB + GB / 2, 3 * GB + 5)]);
    assert_eq!(d[0].total_gb, 10);
    assert_eq!(d[0].used_gb, 7);
    assert_eq!(d[0].percent, 70);
    let full = summarize_disks(&vec![space("/x", 4 * GB, 9 * GB)]);
    assert_eq!(full[0].used_gb, 0);
    assert_eq!(full[0].percent, 0);
}

#[test]
fn small_disks_are_left_out() {
    let d = summarize_disks(&vec![
        space("/proc", 0, 0),
        space("/a", 2 * GB, GB),
        space("/tiny", GB - 1, 0),
        space("/b", 100 * GB, 60 * GB),
    ]);
    assert_eq!(d.len(), 2);
    assert_eq!(d[0].name, "/a");
    assert_eq!(d[1].name, "/b");
    assert_eq!(d[1].percent, 40);
    assert!(summarize_disks(&vec![]).is_empty());
}

#[test]
fn gpu_unknown_when_none_listed() {
    assert_eq!(gpu_list(""), vec!["Unknown".to_string()]);
    assert_eq!(gpu_list("00:1f.3 Audio device: Intel Corporation\n"), vec!["Unknown".to_string()]);
    assert_eq!(gpu_list("VGA without fields\n"), vec!["Unknown".to_string()]);
}

#[test]
fn gpu_names_from_listing() {
    let listing = "00:00.0 Host bridge: Intel\n00:02.0 VGA compatible controller: Intel Corporation UHD 630 (rev 02)\n01:00.0 3D controller: NVIDIA Corporation GA107M: extra\n";
    assert_eq!(
        gpu_list(listing),
        vec!["Intel Corporation UHD 630 (rev 02)".to_string(), "NVIDIA Corporation GA107M".to_string()]
    );
}

#[test]
fn uptime_formats() {
    assert_eq!(uptime_text(90061), "1d 1h 1m");
    assert_eq!(uptime_text(3599), "0h 59m");
    assert_eq!(uptime_text(0), "0h 0m");
    assert_eq!(uptime_text(2 * 86400 + 23 * 3600 + 59 * 60 + 59), "2d 23h 59m");
}

#[test]
fn screen_from_active_mode() {
    let listing = "Screen 0: minimum 8 x 8\nHDMI-1 connected\n   1920x1080     60.00*+  50.00\n   1280x720      60.00*\n";
    assert_eq!(screen_resolution(listing), Some("1920x1080".to_string()));
    assert_eq!(screen_resolution("no modes\n"), None);
    assert_eq!(screen_resolution(""), None);
}

#[test]
fn shell_is_last_segment() {
    assert_eq!(shell_name("/usr/bin/zsh"), "zsh");
    assert_eq!(shell_name("bash"), "bash");
    assert_eq!(shell_name("/bin/"), "");
}

#[test]
fn board_placeholder_is_absent() {
    assert_eq!(board_name("Default string\n"), None);
    assert_eq!(board_name("  \n"), None);
    assert_eq!(board_name(" B450 TOMAHAWK\n"), Some("B450 TOMAHAWK".to_string()));
}

#[test]
fn cpu_labels() {
    assert_eq!(cpu_label("  AMD Ryzen 5 ", 12), "AMD Ryzen 5 (12 threads)");
    assert_eq!(cpu_label("Cortex", 1), "Cortex");
    assert_eq!(cpu_label("ignored", 0), "Unknown");
}

#[test]
fn os_name_from_release() {
    assert_eq!(os_name("NAME=Arch\nPRETTY_NAME=\"Arch Linux\"\nID=arch\n"), "Arch Linux");
    assert_eq!(os_name("PRETTY_NAME=\"Debian\"\r\n"), "Debian");
    assert_eq!(os_name("NAME=x\n"), "Linux");
    assert_eq!(os_name(""), "Linux");
}

#[test]
fn trimmed_text() {
    assert_eq!(trimmed("  myhost\n"), "myhost");
    assert_eq!(trimmed("\u{3000}x\t"), "x");
}

#[test]
fn desktop_precedence() {
    let s = |x: &str| Some(x.to_string());
    assert_eq!(desktop_name(s("GNOME"), s("gnome-xorg"), s("ubuntu")), "GNOME");
    assert_eq!(desktop_name(None, s("plasma"), s("KDE")), "plasma");
    assert_eq!(desktop_name(None, None, s("sway")), "sway");
    assert_eq!(desktop_name(None, None, None), "Unknown");
}
