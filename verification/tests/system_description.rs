use system_agent::sysinfo::{
    extract_cpu_cores, extract_cpu_model, extract_memory_value, extract_os_release_value,
    find_mount_point, get_system_info, SystemSources,
};

fn sources() -> SystemSources {
    SystemSources {
        hostname: "myhost\n".to_string(),
        os_release: "NAME=\"Ubuntu\"\nVERSION=\"22.04.3 LTS (Jammy Jellyfish)\"\nVERSION_ID=\"22.04\"\n".to_string(),
        kernel_release: "5.15.0-91-generic\n".to_string(),
        machine: "x86_64\n".to_string(),
        cpuinfo: "processor\t: 0\nmodel name\t: Intel(R) Xeon(R) CPU\nprocessor\t: 1\nmodel name\t: Intel(R) Xeon(R) CPU\n".to_string(),
        meminfo: "MemTotal:       16000 kB\nMemFree:         4000 kB\n".to_string(),
        boot_time: 1_700_000_000,
    }
}

#[test]
fn system_description_is_assembled() {
    let info = get_system_info(&sources());
    assert_eq!(info.hostname, "myhost");
    assert_eq!(info.os_name, "Ubuntu");
    assert_eq!(info.os_version, "22.04");
    assert_eq!(info.kernel_version, "5.15.0-91-generic");
    assert_eq!(info.architecture, "x86_64");
    assert_eq!(info.cpu_model, "Intel(R) Xeon(R) CPU");
    assert_eq!(info.cpu_cores, 2);
    assert_eq!(info.cpu_count, 2);
    assert_eq!(info.total_memory, 16000);
    assert_eq!(info.boot_time, 1_700_000_000);
}

#[test]
fn missing_values_take_their_defaults() {
    let empty = SystemSources {
        hostname: String::new(),
        os_release: String::new(),
        kernel_release: String::new(),
        machine: String::new(),
        cpuinfo: String::new(),
        meminfo: String::new(),
        boot_time: 0,
    };
    let info = get_system_info(&empty);
    assert_eq!(info.os_name, "Unknown");
    assert_eq!(info.os_version, "Unknown");
    assert_eq!(info.cpu_model, "Unknown CPU");
    assert_eq!(info.cpu_cores, 1);
    assert_eq!(info.total_memory, 0);
}

#[test]
fn os_release_values() {
    let text = "ID=debian\nVERSION_ID=12\nNAME='Debian'\nPRETTY_NAME=\"Debian GNU/Linux 12\"\n";
    assert_eq!(extract_os_release_value(text, "ID"), Some("debian".to_string()));
    assert_eq!(extract_os_release_value(text, "PRETTY_NAME"), Some("Debian GNU/Linux 12".to_string()));
    assert_eq!(extract_os_release_value(text, "NAME"), Some("'Debian'".to_string()));
    assert_eq!(extract_os_release_value(text, "HOME_URL"), None);
}

#[test]
fn cpu_model_and_cores() {
    assert_eq!(extract_cpu_model("Model\t\t: Raspberry Pi 4\n"), Some("Raspberry Pi 4".to_string()));
    assert_eq!(extract_cpu_model("model name\n"), None);
    assert_eq!(extract_cpu_cores("processor : 0\nprocessor : 1\nprocessor : 2\n"), Some(3));
    assert_eq!(extract_cpu_cores("flags : fpu\n"), None);
}

#[test]
fn memory_value_in_kilobytes() {
    assert_eq!(extract_memory_value("MemTotal:  2048 kB\n", "MemTotal"), Some(2048));
    assert_eq!(extract_memory_value("MemTotal: abc kB\nMemTotal: 5 kB\n", "MemTotal"), None);
    assert_eq!(extract_memory_value("MemFree: 1 kB\n", "MemTotal"), None);
}

#[test]
fn mount_points() {
    let mounts = "/dev/sda1 / ext4 rw 0 0\n/dev/sdb1 /data xfs rw 0 0\n";
    assert_eq!(find_mount_point(mounts, "sdb1"), "/data");
    assert_eq!(find_mount_point(mounts, "sdc"), "");
}
