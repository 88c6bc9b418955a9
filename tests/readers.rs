use hostfetch::cpu::{shorten_model_name, Cpu};
use hostfetch::info::cpu::parse_proc_cpuinfo;
use hostfetch::info::memory::memory_usage_text;
use hostfetch::info::os::os_description;
use hostfetch::kv::{parse_key_values, parse_string_to_hashmap};
use hostfetch::memory::{parse_mem_value, used_percent, Memory, MemoryUnit};
use hostfetch::os::{kernel_release, Architechture, Distro, Kernel};
use hostfetch::packages::{count_lines, package_managers, PackageCount, PackageManager, Packages};
use hostfetch::shell::{file_name, Shell};
use hostfetch::text::chars_of;
use hostfetch::title::Title;
use hostfetch::uptime::{parse_uptime, Duration, Uptime};

const SMALL_MEMINFO: &str = "MemTotal:       16333740 kB
MemFree:         8542972 kB
MemAvailable:   11875280 kB
HugePages_Total:       0
";

const CPUINFO: &str = "processor\t: 0
vendor_id\t: GenuineIntel
model name\t: Intel(R) Core(TM) i7-9700K CPU @ 3.60GHz
cpu cores\t: 8

processor\t: 1
model name\t: Intel(R) Core(TM) i7-9700K CPU @ 3.60GHz
cpu cores\t: 8
";

#[test]
fn long_form_boundaries() {
    assert_eq!(Duration::from_secs(86400).to_string(false), "1 day");
    assert_eq!(Duration::from_secs(33).to_string(false), "33 secs");
    assert_eq!(
        Duration::from_secs(888888).to_string(false),
        "10 days, 6 hours, 54 mins"
    );
    assert_eq!(Duration::from_secs(888888).to_string(true), "10d 6h 54m");
}

#[test]
fn long_and_short_forms_of_small_spans() {
    assert_eq!(Duration::from_secs(0).to_string(false), "0 secs");
    assert_eq!(Duration::from_secs(0).to_string(true), "0s");
    assert_eq!(Duration::from_secs(60).to_string(false), "1 min");
    assert_eq!(Duration::from_secs(60).to_string(true), "1m");
    assert_eq!(Duration::from_secs(3661).to_string(false), "1 hour, 1 min");
    assert_eq!(Duration::from_secs(3661).to_string(true), "1h 1m");
    assert_eq!(Duration::from_secs(90000).to_string(false), "1 day, 1 hour");
    assert_eq!(Duration::from_secs(90000).to_string(true), "1d 1h");
    assert_eq!(Duration::from_secs(7200).to_string(false), "2 hours");
}

#[test]
fn abbreviating_the_long_form_gives_the_short_form() {
    let abbreviate = |s: String| {
        s.replace(" days,", "d")
            .replace(" day,", "d")
            .replace(" hours,", "h")
            .replace(" hour,", "h")
            .replace(" mins", "m")
            .replace(" min", "m")
            .replace(" secs", "s")
    };
    for secs in [33u32, 59, 60, 3661, 199980, 888888, 4000000] {
        let d = Duration::from_secs(secs);
        assert_eq!(abbreviate(d.to_string(false)), d.to_string(true));
    }
}

#[test]
fn duration_fields() {
    let d = Duration::from_secs(199980);
    assert_eq!((d.days, d.hours, d.mins, d.secs), (2, 7, 33, 199980));
    let d = Duration::from_secs(u32::MAX);
    assert_eq!((d.days, d.hours, d.mins), (49710, 6, 28));
}

#[test]
fn uptime_file() {
    assert_eq!(parse_uptime("12345.67 54321.00\n"), Some(12345));
    assert_eq!(parse_uptime("86400.00 1.00"), Some(86400));
    assert_eq!(parse_uptime("99999999999.5 1.0"), Some(u32::MAX));
    assert_eq!(parse_uptime("abc 1.0"), None);
    assert_eq!(parse_uptime(""), None);
    assert_eq!(parse_uptime(".5 1.0"), Some(0));
    assert_eq!(parse_uptime("+5.25 1.0"), Some(5));
    assert_eq!(parse_uptime("5. 1.0"), Some(5));
    assert_eq!(parse_uptime(". 1.0"), None);
    assert_eq!(parse_uptime("+ 1.0"), None);
    assert_eq!(parse_uptime("1.2.3 1.0"), None);
    assert_eq!(parse_uptime("5"), None);
    assert_eq!(parse_uptime("5\n"), None);
    let up = Uptime::from_contents(Some("90061.20 10.00\n")).unwrap();
    assert_eq!(up.header, "Uptime");
    assert_eq!(up.value(), "1 day, 1 hour, 1 min");
    let mut short = Uptime::new(90061);
    short.short_output = true;
    assert_eq!(short.value(), "1d 1h 1m");
}

#[test]
fn memory_value_parsing() {
    assert_eq!(parse_mem_value("   16333740 kB"), 16333740);
    assert_eq!(parse_mem_value("       0"), 0);
    assert_eq!(parse_mem_value(" 34359738367 kB"), 0);
    assert_eq!(parse_mem_value(" abc kB"), 0);
    assert_eq!(hostfetch::info::memory::parse_mem_value("   16333740 kB"), 15950);
}

#[test]
fn memory_map_holds_each_line() {
    let m = hostfetch::memory::parse(SMALL_MEMINFO);
    assert_eq!(m.len(), 4);
    assert_eq!(m.get("MemTotal"), Some(&16333740));
    assert_eq!(m.get("HugePages_Total"), Some(&0));
    assert_eq!(m.get("Missing"), None);
}

#[test]
fn memory_units() {
    assert_eq!(MemoryUnit::KiB.to_unit_str(16333740), "16333740 KiB");
    assert_eq!(MemoryUnit::MiB.to_unit_str(16333740), "15951 MiB");
    assert_eq!(MemoryUnit::GiB.to_unit_str(16333740), "15.58 GiB");
    assert_eq!(MemoryUnit::GiB.to_unit_str(52429), "0.05 GiB");
    assert_eq!(MemoryUnit::GiB.to_unit_str(10), "0.00 GiB");
    assert_eq!(MemoryUnit::MiB.to_unit_str(1536), "2 MiB");
    assert_eq!(MemoryUnit::MiB.to_unit_str(2560), "2 MiB");
}

#[test]
fn memory_percentage() {
    assert_eq!(used_percent(4458460, 16333740), 27);
    assert_eq!(used_percent(0, 100), 0);
    assert_eq!(used_percent(100, 100), 100);
    assert_eq!(used_percent(1, 3), 33);
    assert_eq!(used_percent(0, 0), 0);
    for (used, total) in [(1u32, 7u32), (5, 8), (u32::MAX, u32::MAX), (u32::MAX - 1, u32::MAX)] {
        assert!(used_percent(used, total) <= 100);
    }
}

#[test]
fn memory_line() {
    let mem = Memory::from_contents(Some(SMALL_MEMINFO)).unwrap();
    assert_eq!(mem.usage, (4458460, 16333740));
    assert_eq!(mem.header, "Memory");
    assert_eq!(mem.value(), "4.25 GiB / 15.58 GiB (27%)");
    let mut kib = Memory::new(4458460, 16333740);
    kib.unit = MemoryUnit::KiB;
    kib.show_percentage = false;
    assert_eq!(kib.value(), "4458460 KiB / 16333740 KiB");
    assert!(Memory::from_contents(Some("MemTotal: 10 kB\n")).is_none());
    assert!(Memory::from_contents(Some("MemTotal: 10 kB\nMemAvailable: 20 kB\n")).is_none());
}

#[test]
fn memory_usage_in_mib() {
    assert_eq!(
        memory_usage_text(SMALL_MEMINFO),
        Some("4354MiB / 15950MiB".to_string())
    );
    assert_eq!(memory_usage_text("MemTotal 10 kB\n"), None);
}

#[test]
fn key_values_split_at_first_delimiter() {
    let m = parse_key_values("HOME_URL : https://example.org/ \n", ':', false, false).unwrap();
    assert_eq!(m.get("HOME_URL"), Some(&"https://example.org/".to_string()));
    let m = parse_key_values("a=1\na=2\nb=\n", '=', false, true).unwrap();
    assert_eq!(m.len(), 2);
    assert_eq!(m.get("a"), Some(&"2".to_string()));
    assert_eq!(m.get("b"), Some(&String::new()));
}

#[test]
fn strict_parse_fails_on_line_without_delimiter() {
    assert!(parse_string_to_hashmap("a=1\nnot a pair\n", '=').is_none());
    assert!(parse_key_values("a=1\nnot a pair\n", '=', false, false).is_some());
    let m = parse_string_to_hashmap("a=1\r\nb=2\n", '=').unwrap();
    assert_eq!(m.get("b"), Some(&"2".to_string()));
    assert_eq!(m.get("a"), Some(&"1".to_string()));
    assert_eq!(parse_string_to_hashmap("", '=').unwrap().len(), 0);
}

#[test]
fn os_release_quotes() {
    let m = hostfetch::os::parse("NAME=\"Arch Linux\"\nID=arch\n# comment\n");
    assert_eq!(m.len(), 2);
    assert_eq!(m.get("NAME"), Some(&"Arch Linux".to_string()));
    assert_eq!(m.get("ID"), Some(&"arch".to_string()));
}

#[test]
fn distro_with_and_without_version() {
    assert_eq!(
        os_description("NAME=\"Arch Linux\"\nVERSION=\"2024.01.01\"\n"),
        Some("Arch Linux 2024.01.01".to_string())
    );
    assert_eq!(
        os_description("NAME=\"Arch Linux\"\nID=arch\n"),
        Some("Arch Linux".to_string())
    );
    assert_eq!(os_description("ID=arch\n"), None);
    let d = Distro::from_contents(Some("NAME=\"Arch Linux\"\nVERSION=\"2024.01.01\"\n"));
    assert_eq!(d.header, "OS");
    assert_eq!(d.value(), Some("Arch Linux 2024.01.01".to_string()));
}

#[test]
fn kernel_and_architecture() {
    assert_eq!(kernel_release("6.7.4-arch1-1\n"), "6.7.4-arch1-1");
    let k = Kernel::from_contents(Some("  6.1.0 \n"));
    assert_eq!(k.header, "Kernel");
    assert_eq!(k.value(), Some("  6.1.0".to_string()));
    let a = Architechture::new("x86_64");
    assert_eq!(a.header, "Arch");
    assert_eq!(a.value(), "x86_64");
}

#[test]
fn cpu_model_shortened() {
    let short = shorten_model_name("Intel(R) Core(TM) i7-9700K CPU @ 3.60GHz".to_string());
    assert!(!short.contains("(R)"));
    assert!(!short.contains("(TM)"));
    assert!(!short.contains(" CPU"));
    assert_eq!(short, "Intel i7-9700K @ 3.60GHz");
    assert_eq!(
        shorten_model_name("AMD Ryzen 7 5800X 8-Core Processor".to_string()),
        "AMD Ryzen 7 5800X 8-Core"
    );
}

#[test]
fn cpu_line() {
    let cpu = Cpu::from_contents(Some(CPUINFO)).unwrap();
    assert_eq!(cpu.header, "CPU");
    assert_eq!(cpu.cores, Some(8));
    assert_eq!(cpu.value(), "Intel i7-9700K @ 3.60GHz (8)");
    let mut plain = Cpu::new("Intel(R) Xeon(R)".to_string(), None);
    plain.shorten_model = false;
    assert_eq!(plain.value(), "Intel(R) Xeon(R)");
    let no_cores = Cpu::from_contents(Some("model name : X\ncpu cores : many\n")).unwrap();
    assert_eq!(no_cores.cores, None);
    assert_eq!(no_cores.value(), "X");
    assert!(Cpu::from_contents(Some("processor : 0\n")).is_none());
}

#[test]
fn first_model_line() {
    assert_eq!(
        parse_proc_cpuinfo(CPUINFO),
        Some("Intel(R) Core(TM) i7-9700K CPU @ 3.60GHz".to_string())
    );
    assert_eq!(parse_proc_cpuinfo("processor : 0\n"), None);
}

#[test]
fn missing_files_give_absence() {
    assert!(Cpu::from_contents(None).is_none());
    assert!(Memory::from_contents(None).is_none());
    assert!(Uptime::from_contents(None).is_none());
    assert_eq!(Distro::from_contents(None).name, None);
    assert_eq!(Kernel::from_contents(None).version, None);
    assert_eq!(Shell::new(None).value(), None);
    // the others still read their own files
    assert!(Uptime::from_contents(Some("5.0 1.0")).is_some());
}

#[test]
fn shell_file_names() {
    assert_eq!(file_name("/bin/zsh"), Some("zsh".to_string()));
    assert_eq!(file_name("/usr/bin/fish/"), Some("fish".to_string()));
    assert_eq!(file_name("/usr/bin/bash/."), Some("bash".to_string()));
    assert_eq!(file_name("zsh"), Some("zsh".to_string()));
    assert_eq!(file_name("/"), None);
    assert_eq!(file_name("/bin/.."), None);
    assert_eq!(file_name(""), None);
    let mut sh = Shell::new(Some("/usr/bin/zsh".to_string()));
    assert_eq!(sh.header, "Shell");
    assert_eq!(sh.value(), Some("zsh".to_string()));
    sh.show_path = true;
    assert_eq!(sh.value(), Some("/usr/bin/zsh".to_string()));
}

#[test]
fn title_rule() {
    let t = Title::new(Some("alice".to_string()), Some("box\n".to_string()));
    assert_eq!(t.separator(), Some("---------".to_string()));
    let t = Title::new(Some("zoë".to_string()), Some("h".to_string()));
    assert_eq!(t.separator(), Some("-----".to_string()));
    assert_eq!(Title::new(None, Some("h".to_string())).separator(), None);
}

#[test]
fn package_listing_lines() {
    assert_eq!(count_lines(b"a\nb\nc"), 3);
    assert_eq!(count_lines(b"a\nb\n"), 2);
    assert_eq!(count_lines(b""), 0);
    assert_eq!(count_lines(b"\n\n"), 2);
}

#[test]
fn package_line() {
    let counts = vec![
        PackageCount { count: 1200, package_manager: "pacman".to_string() },
        PackageCount { count: 30, package_manager: "flatpak".to_string() },
    ];
    let mut p = Packages::new(counts);
    assert_eq!(p.header, "Packages");
    assert_eq!(p.value(), Some("1200 (pacman), 30 (flatpak)".to_string()));
    p.show_package_managers = false;
    assert_eq!(p.value(), Some("1230".to_string()));
    assert_eq!(Packages::new(Vec::new()).value(), None);
}

#[test]
fn known_package_managers() {
    let pms = package_managers();
    let names: Vec<&str> = pms.iter().map(|p| p.name.as_str()).collect();
    assert_eq!(names, ["pacman", "dpkg", "rpm", "apk", "xbps-query", "flatpak"]);
    assert_eq!(pms[0].args, vec!["--query".to_string(), "--quiet".to_string()]);
    let pm = PackageManager::new("apk", &["info"]);
    assert_eq!(pm.args, vec!["info".to_string()]);
}

#[test]
fn chars_round_trip() {
    assert_eq!(chars_of("zoë"), vec!['z', 'o', 'ë']);
}

#[test]
fn info_readers_skip_lines_without_delimiter() {
    let m = hostfetch::info::memory::parse_proc_meminfo("MemTotal: 2048 kB\n\nbad line\n").unwrap();
    assert_eq!(m.len(), 1);
    assert_eq!(m.get("MemTotal"), Some(&2));
    let r = hostfetch::info::os::parse_os_release("# comment\nNAME=\"Arch Linux\"\n\n").unwrap();
    assert_eq!(r.len(), 1);
    assert_eq!(r.get("NAME"), Some(&"Arch Linux".to_string()));
    assert_eq!(
        os_description("NAME=\"Arch Linux\"\n# comment\nVERSION=\"2024.01.01\"\n\n"),
        Some("Arch Linux 2024.01.01".to_string())
    );
    assert_eq!(
        os_description("\nNAME=\"Arch Linux\"\n"),
        Some("Arch Linux".to_string())
    );
    assert_eq!(
        memory_usage_text("MemTotal: 2048 kB\nMemAvailable: 1024 kB\nno colon\n"),
        Some("1MiB / 2MiB".to_string())
    );
}

#[test]
fn memtotal_among_other_lines() {
    let m = hostfetch::memory::parse("garbage\nMemFree: 1 kB\nMemTotal:     16333740 kB\nX: y\n");
    assert_eq!(m.get("MemTotal"), Some(&16333740));
    assert_eq!(m.get("X"), Some(&0));
}
