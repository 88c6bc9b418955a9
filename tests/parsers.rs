use hostfetch::info::memory::parse_proc_meminfo;
use hostfetch::info::os::parse_os_release;
use hostfetch::memory::parse;
use hostfetch::os;
use hostfetch::uptime::Duration;

const MEMINFO: &str = "MemTotal:       16333740 kB
MemFree:         8542972 kB
MemAvailable:   11875280 kB
Buffers:          194000 kB
Cached:          3742856 kB
SwapCached:            0 kB
Active:          1697548 kB
Inactive:        5577196 kB
Active(anon):      33452 kB
Inactive(anon):  3717896 kB
Active(file):    1664096 kB
Inactive(file):  1859300 kB
Unevictable:          16 kB
Mlocked:              16 kB
SwapTotal:             0 kB
SwapFree:              0 kB
Dirty:               132 kB
Writeback:             0 kB
AnonPages:       3337928 kB
Mapped:          1285136 kB
Shmem:            423092 kB
KReclaimable:     131000 kB
Slab:             236936 kB
SReclaimable:     131000 kB
SUnreclaim:       105936 kB
KernelStack:       16896 kB
PageTables:        39732 kB
NFS_Unstable:          0 kB
Bounce:                0 kB
WritebackTmp:          0 kB
CommitLimit:     8166868 kB
Committed_AS:   10551436 kB
VmallocTotal:   34359738367 kB
VmallocUsed:       77072 kB
VmallocChunk:          0 kB
Percpu:             5952 kB
HardwareCorrupted:     0 kB
AnonHugePages:         0 kB
ShmemHugePages:        0 kB
ShmemPmdMapped:        0 kB
FileHugePages:         0 kB
FilePmdMapped:         0 kB
CmaTotal:              0 kB
CmaFree:               0 kB
HugePages_Total:       0
HugePages_Free:        0
HugePages_Rsvd:        0
HugePages_Surp:        0
Hugepagesize:       2048 kB
Hugetlb:               0 kB
DirectMap4k:      465568 kB
DirectMap2M:     9965568 kB
DirectMap1G:     6291456 kB
";

const OS_RELEASE: &str = "NAME=\"Arch Linux\"
PRETTY_NAME=\"Arch Linux\"
ID=arch
BUILD_ID=rolling
ANSI_COLOR=\"38;2;23;147;209\"
HOME_URL=\"https://www.archlinux.org/\"
DOCUMENTATION_URL=\"https://wiki.archlinux.org/\"
SUPPORT_URL=\"https://bbs.archlinux.org/\"
BUG_REPORT_URL=\"https://bugs.archlinux.org/\"
LOGO=archlinux
";

#[test]
fn test_parse_proc_meminfo() {
    let meminfo_map = parse_proc_meminfo(MEMINFO).unwrap();
    assert_eq!(meminfo_map.len(), 53);
    assert_eq!(meminfo_map.get("MemTotal"), Some(&15950));
    assert_eq!(meminfo_map.get("PageTables"), Some(&38));
}

#[test]
fn test_parse_os_release() {
    let release_map = parse_os_release(OS_RELEASE).unwrap();
    assert_eq!(release_map.get("NAME"), Some(&"Arch Linux".to_string()));
    assert_eq!(release_map.get("BUILD_ID"), Some(&"rolling".to_string()));
}

#[test]
fn test_parse() {
    let meminfo_map = parse(MEMINFO);
    assert_eq!(meminfo_map.len(), 53);
    assert_eq!(meminfo_map.get("MemTotal"), Some(&16333740));
    assert_eq!(meminfo_map.get("PageTables"), Some(&39732));
}

#[test]
fn os_test_parse_os_release() {
    let release_map = os::parse(OS_RELEASE);
    assert_eq!(release_map.get("NAME"), Some(&"Arch Linux".to_string()));
    assert_eq!(release_map.get("BUILD_ID"), Some(&"rolling".to_string()));
}

#[test]
fn test_duration_to_string() {
    let duration = Duration::from_secs(199980);
    assert_eq!(
        duration.to_string(false),
        String::from("2 days, 7 hours, 33 mins")
    );
    // Exactly 1 day
    let duration = Duration::from_secs(86400);
    assert_eq!(duration.to_string(false), String::from("1 day"));
    // Only seconds
    let duration = Duration::from_secs(33);
    assert_eq!(duration.to_string(false), String::from("33 secs"));
    // Short output
    let duration = Duration::from_secs(888888);
    assert_eq!(duration.to_string(true), String::from("10d 6h 54m"));
}
