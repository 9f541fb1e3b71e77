use cosmicfetch::gpu::GpuReading;
use cosmicfetch::model::{core_label, cpu_name, file_name, frequency_text, nav_pages, shell_name, window_title, AppModel,
    HostReadings, Message, Page};
use cosmicfetch::processes::ProcessSort;
use cosmicfetch::usage::{disk_totals, disk_unit, network_totals, network_unit, process_memory_unit, ByteUnit,
    DiskSpace, InterfaceTraffic};

fn readings() -> HostReadings {
    HostReadings {
        hostname: Some("box".to_string()),
        username: Some("ana".to_string()),
        shell: Some("/usr/bin/zsh".to_string()),
        current_desktop: None,
        desktop_session: Some("cosmic".to_string()),
        kernel: None,
        os_release: Some("PRETTY_NAME=\"Pop!_OS 24.04\"\n".to_string()),
        memory_total: 16,
        uptime: 3600,
    }
}

#[test]
fn startup_state() {
    let m = AppModel::new(readings());
    assert_eq!(m.hostname, "box");
    assert_eq!(m.username, "ana");
    assert_eq!(m.shell, "zsh");
    assert_eq!(m.de_wm, "cosmic");
    assert_eq!(m.kernel, "Unknown");
    assert_eq!(m.os_name, "Pop!_OS 24.04");
    assert_eq!(m.memory_total, 16);
    assert_eq!(m.memory_used, 0);
    assert_eq!(m.process_sort, ProcessSort::Cpu);
    assert_eq!(m.page, Page::Overview);
    assert_eq!(m.gpu_name, "");
    assert_eq!(m.user_at_host(), "ana@box");
}

#[test]
fn startup_fallbacks() {
    let m = AppModel::new(HostReadings {
        hostname: None,
        username: None,
        shell: None,
        current_desktop: Some("GNOME".to_string()),
        desktop_session: Some("ignored".to_string()),
        kernel: Some("6.9.1".to_string()),
        os_release: None,
        memory_total: 0,
        uptime: 0,
    });
    assert_eq!(m.hostname, "Unknown");
    assert_eq!(m.username, "Unknown");
    assert_eq!(m.shell, "sh");
    assert_eq!(m.de_wm, "GNOME");
    assert_eq!(m.kernel, "6.9.1");
    assert_eq!(m.os_name, "Linux");
}

#[test]
fn shell_names() {
    assert_eq!(shell_name("/bin/bash".to_string()), "bash");
    assert_eq!(shell_name("fish".to_string()), "fish");
    assert_eq!(shell_name("/".to_string()), "/");
    assert_eq!(shell_name("/usr/bin/".to_string()), "bin");
}

#[test]
fn sort_message_changes_only_the_order() {
    let mut m = AppModel::new(readings());
    assert!(!m.update(Message::SortProcesses(ProcessSort::Memory)));
    assert_eq!(m.process_sort, ProcessSort::Memory);
    assert_eq!(m.hostname, "box");
    assert!(m.update(Message::RefreshSystemInfo));
    assert_eq!(m.process_sort, ProcessSort::Memory);
}

#[test]
fn refresh_readings() {
    let mut m = AppModel::new(readings());
    m.apply_readings(4, 8, 90);
    assert_eq!((m.memory_used, m.memory_total, m.uptime), (4, 8, 90));
    assert_eq!(m.memory_available(), 4);
}

#[test]
fn gpu_refresh() {
    let mut m = AppModel::new(readings());
    m.refresh_gpu(None);
    assert_eq!(m.gpu_name, "No GPU detected");
    m.refresh_gpu(Some(GpuReading {
        name: "RTX".to_string(),
        usage_text: "3".to_string(),
        memory_used: 10,
        memory_total: 20,
    }));
    assert_eq!(m.gpu_name, "RTX");
    assert_eq!((m.gpu_memory_used, m.gpu_memory_total), (10, 20));
    m.refresh_gpu(None);
    assert_eq!(m.gpu_name, "RTX");
    m.refresh_gpu(Some(GpuReading { name: String::new(), usage_text: String::new(), memory_used: 1, memory_total: 2 }));
    assert_eq!(m.gpu_name, "No GPU detected");
    assert_eq!(m.gpu_memory_total, 2);
}

#[test]
fn titles_and_pages() {
    let mut m = AppModel::new(readings());
    assert_eq!(m.title(), "System Monitor — Overview");
    m.on_nav_select(Page::Processes);
    assert_eq!(m.title(), "System Monitor — Processes");
    assert_eq!(window_title(None), "System Monitor");
    let pages = nav_pages();
    assert_eq!(pages.len(), 7);
    assert_eq!(pages[0], Page::Overview);
    assert_eq!(pages[2].label(), "GPU");
    assert_eq!(Page::Memory.icon_name(), "drive-harddisk-symbolic");
}

#[test]
fn cpu_texts() {
    assert_eq!(cpu_name(Some("AMD Ryzen 7")), "AMD Ryzen 7");
    assert_eq!(cpu_name(None), "Unknown CPU");
    assert_eq!(frequency_text(Some(3600)), "3600 MHz");
    assert_eq!(frequency_text(None), "0 MHz");
    assert_eq!(core_label(11), "Core 11");
}

#[test]
fn units() {
    assert_eq!(network_unit(0), ByteUnit::KB);
    assert_eq!(network_unit(1048575), ByteUnit::KB);
    assert_eq!(network_unit(1048576), ByteUnit::MB);
    assert_eq!(network_unit(1 << 30), ByteUnit::GB);
    assert_eq!(disk_unit((1 << 40) - 1), ByteUnit::GB);
    assert_eq!(disk_unit(1 << 40), ByteUnit::TB);
    assert_eq!(process_memory_unit((1 << 30) - 1), ByteUnit::MB);
    assert_eq!(process_memory_unit(1 << 30), ByteUnit::GB);
    assert_eq!(ByteUnit::TB.shift(), 40);
    assert_eq!(ByteUnit::MB.suffix(), "MB");
}

#[test]
fn units_agree_with_float_thresholds() {
    for bytes in [0u64, 1023, 1 << 20, (1 << 20) - 1, (1 << 30) - 1, 1 << 30, (1 << 40) - 1, 1 << 40, u64::MAX] {
        let gb = bytes as f64 / 1024.0 / 1024.0 / 1024.0;
        let mb = bytes as f64 / 1024.0 / 1024.0;
        let expected = if gb >= 1.0 { ByteUnit::GB } else if mb >= 1.0 { ByteUnit::MB } else { ByteUnit::KB };
        assert_eq!(network_unit(bytes), expected);
        let tb = bytes as f64 / 1_073_741_824.0 / 1024.0;
        assert_eq!(disk_unit(bytes), if tb >= 1.0 { ByteUnit::TB } else { ByteUnit::GB });
    }
}

#[test]
fn network_sums() {
    let v = vec![
        InterfaceTraffic { received: 10, transmitted: 1 },
        InterfaceTraffic { received: 5, transmitted: 2 },
    ];
    assert_eq!(network_totals(&v), Some((15, 3)));
    assert_eq!(network_totals(&Vec::new()), Some((0, 0)));
    let big = vec![
        InterfaceTraffic { received: u64::MAX, transmitted: 0 },
        InterfaceTraffic { received: 1, transmitted: 0 },
    ];
    assert_eq!(network_totals(&big), None);
}

#[test]
fn disk_sums() {
    let v = vec![DiskSpace { total: 100, available: 40 }, DiskSpace { total: 50, available: 50 }];
    assert_eq!(disk_totals(&v), Some((150, 60)));
    let odd = vec![DiskSpace { total: 10, available: 11 }];
    assert_eq!(disk_totals(&odd), None);
    assert_eq!(odd[0].used(), 0);
    assert_eq!(v[0].used(), 60);
    let big = vec![DiskSpace { total: u64::MAX, available: 0 }, DiskSpace { total: 1, available: 1 }];
    assert_eq!(disk_totals(&big), None);
}

#[test]
fn file_names_of_paths() {
    assert_eq!(file_name("/usr/bin/zsh"), Some("zsh".to_string()));
    assert_eq!(file_name("/usr/bin/"), Some("bin".to_string()));
    assert_eq!(file_name("a/./"), Some("a".to_string()));
    assert_eq!(file_name("a//b//"), Some("b".to_string()));
    assert_eq!(file_name("a/.."), None);
    assert_eq!(file_name(".."), None);
    assert_eq!(file_name("."), None);
    assert_eq!(file_name("/"), None);
    assert_eq!(file_name(""), None);
    assert_eq!(file_name("./x"), Some("x".to_string()));
    assert_eq!(file_name(".hidden"), Some(".hidden".to_string()));
    assert_eq!(file_name("..."), Some("...".to_string()));
}

#[test]
fn file_names_agree_with_std() {
    let samples = [
        "", "/", "//", ".", "..", "./", "../", "./.", "a", "a/", "a/.", "a/..", "/a/b", "/a/b/", "/a/b/.",
        "/a/./b", "a//b", "./a", "../a", ".a", "a.", "..a", "/usr/bin/fish", "/bin/sh", "x/y/z/./.",
    ];
    for s in samples {
        let expected = std::path::Path::new(s).file_name().map(|n| n.to_string_lossy().into_owned());
        assert_eq!(file_name(s), expected, "path {:?}", s);
    }
}
