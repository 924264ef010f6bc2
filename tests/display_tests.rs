use horizonfetch::{Config, DiskInfo, Display, Frame, SystemInfo};

const GB: u64 = 1_073_741_824;

fn info() -> SystemInfo {
    SystemInfo {
        username: "ann".to_string(),
        hostname: "box".to_string(),
        os_name: "Arch Linux".to_string(),
        kernel: "6.9.1".to_string(),
        uptime: "1h 2m".to_string(),
        shell: "zsh".to_string(),
        de: "GNOME".to_string(),
        screen: None,
        motherboard: None,
        cpu: "Ryzen (8 threads)".to_string(),
        gpu: vec!["Intel UHD".to_string(), "NVIDIA GA107".to_string()],
        ram_used_bytes: 3 * GB,
        ram_total_bytes: 16 * GB,
        swap_total_bytes: 2 * GB + GB / 2,
        locale: "en_US.UTF-8".to_string(),
        disks: vec![DiskInfo { name: "/".to_string(), used_gb: 40, total_gb: 100, percent: 40 }],
    }
}

fn hidden(art: &str) -> Config {
    let mut c = Config::default();
    c.ascii_art = art.to_string();
    c.show_user = false;
    c.show_os = false;
    c.show_uptime = false;
    c.show_shell = false;
    c.show_de = false;
    c.show_screen = false;
    c.show_motherboard = false;
    c.show_cpu = false;
    c.show_gpu = false;
    c.show_ram = false;
    c.show_swap = false;
    c.show_locale = false;
    c.show_disk = false;
    c.show_color_scheme = false;
    c
}

fn rows(f: &Frame, col: usize) -> Vec<(usize, String)> {
    f.writes.iter().filter(|p| p.col == col).map(|p| (p.row, p.text.clone())).collect()
}

#[test]
fn all_hidden_prints_art_only() {
    let f = Display::new(hidden("ab\n\n  \ncd  \n"), info()).render();
    assert_eq!(f.writes.len(), 2);
    assert_eq!((f.writes[0].col, f.writes[0].row), (0, 0));
    assert_eq!(f.writes[0].text, "\x1b[34mab\x1b[0m");
    assert_eq!((f.writes[1].col, f.writes[1].row), (0, 1));
    assert_eq!(f.writes[1].text, "\x1b[34mcd\x1b[0m");
    assert_eq!(f.end_row, 3);
}

#[test]
fn disk_row_end_to_end() {
    let mut c = Config::parse("{|XY|}\nshow_user=false\nshow_disk=true\nshow_os=false\nshow_uptime=false\nshow_shell=false\nshow_de=false\nshow_screen=false\nshow_motherboard=false\nshow_cpu=false\nshow_gpu=false\nshow_ram=false\nshow_swap=false\nshow_locale=false\nshow_color_scheme=false\n");
    assert!(c.show_disk && !c.show_user);
    c.color = "nonsense".to_string();
    let f = Display::new(c, info()).render();
    // "XY" is two wide, so the facts start at column 5
    let info_rows = rows(&f, 5);
    assert_eq!(info_rows.len(), 1);
    assert_eq!(info_rows[0].0, 0);
    assert_eq!(
        info_rows[0].1,
        "\x1b[38;5;110mDisk:\x1b[0m \x1b[97m/\x1b[0m \x1b[38;5;117m 40gb\x1b[0m \x1b[97m/\x1b[0m \x1b[38;5;117m100gb (40%)\x1b[0m"
    );
    assert_eq!(rows(&f, 0), vec![(0, "\x1b[34mXY\x1b[0m".to_string())]);
    assert_eq!(f.end_row, 2);
}

#[test]
fn full_layout_rows_in_order() {
    let mut c = Config::default();
    c.ascii_art = "\x1b[31mlong art\x1b[0m\nx".to_string();
    c.info_color = "32".to_string();
    c.title_color = "38;2;1;2;3".to_string();
    let f = Display::new(c, info()).render();
    // the escapes do not count toward the width: "long art" is eight wide
    let col = 11;
    let r = rows(&f, col);
    let texts: Vec<&str> = r.iter().map(|p| p.1.as_str()).collect();
    assert_eq!(texts[0], "\x1b[32mann@box\x1b[0m");
    assert_eq!(texts[1], "\x1b[97m-------\x1b[0m");
    assert_eq!(texts[2], "\x1b[38;2;1;2;3mOS:\x1b[0m \x1b[32mArch Linux\x1b[0m");
    assert_eq!(texts[3], "\x1b[38;2;1;2;3mUptime:\x1b[0m \x1b[32m1h 2m\x1b[0m");
    assert_eq!(texts[4], "\x1b[38;2;1;2;3mShell:\x1b[0m \x1b[32mzsh\x1b[0m");
    assert_eq!(texts[5], "\x1b[38;2;1;2;3mDE:\x1b[0m \x1b[32mGNOME\x1b[0m");
    assert_eq!(texts[6], "\x1b[38;2;1;2;3mMotherboard:\x1b[0m \x1b[32mUnknown\x1b[0m");
    assert_eq!(texts[7], "\x1b[38;2;1;2;3mCpu:\x1b[0m \x1b[32mRyzen (8 threads)\x1b[0m");
    assert_eq!(texts[8], "\x1b[38;2;1;2;3mGpu:\x1b[0m \x1b[32mIntel UHD\x1b[0m");
    assert_eq!(texts[9], "\x1b[38;2;1;2;3m    \x1b[0m \x1b[32mNVIDIA GA107\x1b[0m");
    assert_eq!(texts[10], "\x1b[38;2;1;2;3mRam:\x1b[0m \x1b[32m3.00 / 16.00gb (19%)\x1b[0m");
    assert_eq!(texts[11], "\x1b[38;2;1;2;3mSwap:\x1b[0m \x1b[32m2.50gb\x1b[0m");
    assert_eq!(texts[12], "\x1b[38;2;1;2;3mLocale:\x1b[0m \x1b[32men_US.UTF-8\x1b[0m");
    assert!(texts[13].contains(" 40gb"));
    assert_eq!(texts.len(), 16);
    for (k, p) in r.iter().take(14).enumerate() {
        assert_eq!(p.0, k);
    }
    // the color scheme skips one row
    assert_eq!(r[14].0, 15);
    assert_eq!(r[15].0, 16);
    assert!(r[14].1.starts_with("   \x1b[91m"));
    assert!(r[15].1.starts_with("\x1b[30m"));
    assert_eq!(f.end_row, 18);
}

#[test]
fn ram_percent_of_small_and_empty_totals() {
    let mut c = hidden("a");
    c.show_ram = true;
    let mut i = info();
    i.ram_used_bytes = 50;
    i.ram_total_bytes = 200;
    let f = Display::new(c, i).render();
    assert_eq!(rows(&f, 4)[0].1, "\x1b[38;5;110mRam:\x1b[0m \x1b[38;5;117m0.00 / 0.00gb (25%)\x1b[0m");
    let mut c2 = hidden("a");
    c2.show_ram = true;
    let mut j = info();
    j.ram_used_bytes = 0;
    j.ram_total_bytes = 0;
    let g = Display::new(c2, j).render();
    assert_eq!(rows(&g, 4)[0].1, "\x1b[38;5;110mRam:\x1b[0m \x1b[38;5;117m0.00 / 0.00gb (0%)\x1b[0m");
}

#[test]
fn screen_row_only_when_known() {
    let mut c = hidden("a");
    c.show_screen = true;
    let f = Display::new(c, info()).render();
    assert!(f.writes.len() == 1);
    let mut c2 = hidden("a");
    c2.show_screen = true;
    let mut i = info();
    i.screen = Some("1920x1080".to_string());
    let g = Display::new(c2, i).render();
    assert_eq!(rows(&g, 4)[0].1, "\x1b[38;5;110mScreen:\x1b[0m \x1b[38;5;117m1920x1080\x1b[0m");
}

#[test]
fn disk_names_padded_to_widest() {
    let mut c = hidden("a");
    c.show_disk = true;
    let mut i = info();
    i.disks = vec![
        DiskInfo { name: "/".to_string(), used_gb: 5, total_gb: 7, percent: 71 },
        DiskInfo { name: "/home".to_string(), used_gb: 1234, total_gb: 2000, percent: 61 },
    ];
    let f = Display::new(c, i).render();
    let r = rows(&f, 4);
    assert_eq!(r[0].1, "\x1b[38;5;110mDisk:\x1b[0m \x1b[97m/    \x1b[0m \x1b[38;5;117m  5gb\x1b[0m \x1b[97m/\x1b[0m \x1b[38;5;117m  7gb (71%)\x1b[0m");
    assert_eq!(r[1].1, "\x1b[38;5;110mDisk:\x1b[0m \x1b[97m/home\x1b[0m \x1b[38;5;117m1234gb\x1b[0m \x1b[97m/\x1b[0m \x1b[38;5;117m2000gb (61%)\x1b[0m");
}
