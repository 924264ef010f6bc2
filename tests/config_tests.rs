use horizonfetch::config::{DEFAULT_ASCII, DEFAULT_COLOR, DEFAULT_INFO_COLOR, DEFAULT_TITLE_COLOR};
use horizonfetch::{extract_ascii_art, extract_bool, extract_param, is_valid_ansi_code, Config};

#[test]
fn valid_ansi_codes_accepted() {
    assert!(is_valid_ansi_code("34"));
    assert!(is_valid_ansi_code("97"));
    assert!(is_valid_ansi_code("38;5;200"));
    assert!(is_valid_ansi_code("38;2;10;20;30"));
    assert!(is_valid_ansi_code("107"));
    assert!(is_valid_ansi_code("+31"));
}

#[test]
fn invalid_ansi_codes_rejected() {
    assert!(!is_valid_ansi_code(""));
    assert!(!is_valid_ansi_code("99"));
    assert!(!is_valid_ansi_code("38;5;300"));
    assert!(!is_valid_ansi_code("38;2;1;2"));
    assert!(!is_valid_ansi_code("abc"));
    assert!(!is_valid_ansi_code("256"));
    assert!(!is_valid_ansi_code("38;5;"));
    assert!(!is_valid_ansi_code("38;2;1;2;3;4"));
    assert!(!is_valid_ansi_code(" 34"));
}

#[test]
fn text_without_block_keeps_default_art() {
    let c = Config::parse("ascii_color = 31\nshow_os = false\n{| no close");
    assert_eq!(c.ascii_art, DEFAULT_ASCII);
    let d = Config::parse("");
    assert_eq!(d.ascii_art, DEFAULT_ASCII);
    assert_eq!(extract_ascii_art("|} before {|"), None);
}

#[test]
fn block_gives_art_verbatim() {
    let text = "show_os = false\n{|  /\\\n \x1b[31m|\x1b[0m\n|}\nshow_cpu = false\n";
    let c = Config::parse(text);
    assert_eq!(c.ascii_art, "  /\\\n \x1b[31m|\x1b[0m\n");
    assert!(!c.show_os);
    assert!(!c.show_cpu);
    assert_eq!(extract_ascii_art("a{|}b|}c"), Some("}b"));
    assert_eq!(extract_ascii_art("{||}"), Some(""));
}

#[test]
fn absent_flags_keep_defaults() {
    let c = Config::parse("# nothing here\n");
    assert!(c.show_user && c.show_os && c.show_uptime && c.show_shell && c.show_de);
    assert!(c.show_screen && c.show_motherboard && c.show_cpu && c.show_gpu);
    assert!(c.show_ram && c.show_swap && c.show_locale && c.show_disk && c.show_color_scheme);
    assert!(!c.show_ram_ext_info);
    assert_eq!(c.color, DEFAULT_COLOR);
    assert_eq!(c.info_color, DEFAULT_INFO_COLOR);
    assert_eq!(c.title_color, DEFAULT_TITLE_COLOR);
    let d = Config::default();
    assert_eq!(d.ascii_art, DEFAULT_ASCII);
    assert!(d.show_user && !d.show_ram_ext_info);
}

#[test]
fn flag_values() {
    assert!(extract_bool("show_ram_ext_info = true", "show_ram_ext_info", false));
    assert!(!extract_bool("show_cpu = false", "show_cpu", true));
    assert!(!extract_bool("show_cpu = 1", "show_cpu", true));
    assert!(!extract_bool("show_cpu = \"\"", "show_cpu", true));
    assert!(!extract_bool("show_cpu = True", "show_cpu", true));
    assert!(extract_bool("show_cpu = \"true\"", "show_cpu", false));
    assert!(!extract_bool("show_cpu =   ", "show_cpu", true));
    assert!(!extract_bool("k =", "k", true));
    assert!(!extract_bool("k =\nk = true", "k", true));
    assert!(extract_bool("other = false", "show_cpu", true));
}

#[test]
fn param_lines() {
    let text = "  # ascii_color = 35\n\nascii_color\nascii_color = \"31\"\nascii_color = 32\n";
    assert_eq!(extract_param(text, "ascii_color"), Some("31"));
    assert_eq!(extract_param("info_color=  38;5;1  \r\n", "info_color"), Some("38;5;1"));
    assert_eq!(extract_param("info_color = \"\"", "info_color"), Some("\"\""));
    assert_eq!(extract_param("info_color = \"x", "info_color"), Some("\"x"));
    assert_eq!(extract_param("info_color = a=b", "info_color"), Some("a=b"));
    assert_eq!(extract_param("info_color =\ninfo_color = 7", "info_color"), Some(""));
    assert_eq!(extract_param("k =\nk = 1", "k"), Some(""));
    assert_eq!(extract_param("title_color = 1", "info_color"), None);
    // a line whose key only begins with the name still matches it
    assert_eq!(extract_param("show_ram_ext_info = true\nshow_ram = false", "show_ram"), Some("true"));
}

#[test]
fn parse_reads_colors_and_flags() {
    let c = Config::parse("ascii_color = 91\ninfo_color = \"38;5;20\"\ntitle_color = bad\nshow_de = false\nshow_ram_ext_info = true\n");
    assert_eq!(c.color, "91");
    assert_eq!(c.info_color, "38;5;20");
    assert_eq!(c.title_color, "bad");
    assert!(!c.show_de);
    assert!(c.show_ram_ext_info);
    assert!(c.show_os);
}

#[test]
fn empty_value_on_first_line_decides() {
    let c = Config::parse("show_user =\nshow_os = \nshow_os = true\n");
    assert!(!c.show_user);
    assert!(!c.show_os);
    let d = Config::parse("ascii_color =\nascii_color = 31\ninfo_color = \"\"\n");
    assert_eq!(d.color, DEFAULT_COLOR);
    assert_eq!(d.info_color, "\"\"");
    let e = Config::parse("show_ram_ext_info =\n");
    assert!(!e.show_ram_ext_info);
}
