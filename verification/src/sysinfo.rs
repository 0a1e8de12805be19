//! System description read from `/etc/os-release`, `/proc/cpuinfo`,
//! `/proc/meminfo` and `/proc/mounts`.

use vstd::prelude::*;
use crate::models::opt_view;
use crate::text::{
    chars_eq, chars_of, lines, lines_of, parse_uint, parse_unsigned, split_once, split_once_char,
    split_whitespace, split_ws, starts_with, starts_with_chars, starts_with_str, string_of, trim,
    trim_char, trim_chars, trim_matches_chars, views,
};

verus! {

/// The value of `key=` in `/etc/os-release` lines from `i` on: the text after
/// the first `=` of the first line that starts with `key=`, without quotes.
pub open spec fn os_release_value(ls: Seq<Seq<char>>, key: Seq<char>, i: int) -> Option<Seq<char>>
    decreases ls.len() - i,
{
    if i < 0 || i >= ls.len() {
        None
    } else if starts_with(ls[i], key + seq!['=']) {
        match split_once(ls[i], '=') {
            Some((_, v)) => Some(trim_char(v, '"')),
            None => None,
        }
    } else {
        os_release_value(ls, key, i + 1)
    }
}

/// The CPU model in `/proc/cpuinfo` lines from `i` on: from the first line
/// that starts with `model name` or `Model`, the trimmed text after its first
/// `:`, or `None` when that line has no `:`.
pub open spec fn cpu_model(ls: Seq<Seq<char>>, i: int) -> Option<Seq<char>>
    decreases ls.len() - i,
{
    if i < 0 || i >= ls.len() {
        None
    } else if starts_with(ls[i], "model name"@) || starts_with(ls[i], "Model"@) {
        match split_once(ls[i], ':') {
            Some((_, v)) => Some(trim(v)),
            None => None,
        }
    } else {
        cpu_model(ls, i + 1)
    }
}

/// The number of lines that start with `processor`.
pub open spec fn processor_count(ls: Seq<Seq<char>>) -> nat
    decreases ls.len(),
{
    if ls.len() == 0 {
        0
    } else {
        processor_count(ls.drop_last()) + if starts_with(ls.last(), "processor"@) {
            1nat
        } else {
            0nat
        }
    }
}

/// The value of `key` in `/proc/meminfo` lines from `i` on: the second word
/// of the first line that starts with `key` and has two words, as a `u64`
/// (`None` when it is not one).
pub open spec fn meminfo_value(ls: Seq<Seq<char>>, key: Seq<char>, i: int) -> Option<nat>
    decreases ls.len() - i,
{
    if i < 0 || i >= ls.len() {
        None
    } else if starts_with(ls[i], key) && split_ws(ls[i]).len() >= 2 {
        parse_uint(split_ws(ls[i])[1], u64::MAX as nat)
    } else {
        meminfo_value(ls, key, i + 1)
    }
}

/// The mount point of `/dev/<device>` in `/proc/mounts` lines from `i` on:
/// the second word of the first line whose first word is that path, or
/// nothing.
pub open spec fn mount_point(ls: Seq<Seq<char>>, device_path: Seq<char>, i: int) -> Seq<char>
    decreases ls.len() - i,
{
    if i < 0 || i >= ls.len() {
        Seq::empty()
    } else if split_ws(ls[i]).len() >= 2 && split_ws(ls[i])[0] == device_path {
        split_ws(ls[i])[1]
    } else {
        mount_point(ls, device_path, i + 1)
    }
}

/// A value of `/etc/os-release`.
pub fn extract_os_release_value(content: &str, key: &str) -> (r: Option<String>)
    ensures
        match r {
            Some(v) => os_release_value(lines(content@), key@, 0) == Some(v@),
            None => os_release_value(lines(content@), key@, 0) is None,
        },
{
    let text = chars_of(content);
    let ls = lines_of(&text);
    let ghost lv = views(ls@);
    let mut prefix = chars_of(key);
    prefix.push('=');
    let mut i: usize = 0;
    while i < ls.len()
        invariant
            lv == views(ls@),
            lv == lines(content@),
            prefix@ == key@ + seq!['='],
            i <= lv.len(),
            os_release_value(lv, key@, 0) == os_release_value(lv, key@, i as int),
        decreases lv.len() - i,
    {
        assert(lv[i as int] == ls@[i as int]@);
        if starts_with_chars(&ls[i], &prefix) {
            return match split_once_char(&ls[i], '=') {
                Some((_, v)) => Some(string_of(&trim_matches_chars(&v, '"'))),
                None => None,
            };
        }
        i = i + 1;
    }
    None
}

/// The CPU model of `/proc/cpuinfo`.
pub fn extract_cpu_model(content: &str) -> (r: Option<String>)
    ensures
        match r {
            Some(v) => cpu_model(lines(content@), 0) == Some(v@),
            None => cpu_model(lines(content@), 0) is None,
        },
{
    let text = chars_of(content);
    let ls = lines_of(&text);
    let ghost lv = views(ls@);
    let mut i: usize = 0;
    while i < ls.len()
        invariant
            lv == views(ls@),
            lv == lines(content@),
            i <= lv.len(),
            cpu_model(lv, 0) == cpu_model(lv, i as int),
        decreases lv.len() - i,
    {
        assert(lv[i as int] == ls@[i as int]@);
        if starts_with_str(&ls[i], "model name") || starts_with_str(&ls[i], "Model") {
            return match split_once_char(&ls[i], ':') {
                Some((_, v)) => Some(string_of(&trim_chars(&v))),
                None => None,
            };
        }
        i = i + 1;
    }
    None
}

/// The number of processors that `/proc/cpuinfo` lists, `None` for none.
pub fn extract_cpu_cores(content: &str) -> (r: Option<u32>)
    requires
        lines(content@).len() <= u32::MAX,
    ensures
        match r {
            Some(n) => n > 0 && n == processor_count(lines(content@)),
            None => processor_count(lines(content@)) == 0,
        },
{
    let text = chars_of(content);
    let ls = lines_of(&text);
    let ghost lv = views(ls@);
    let mut count: u32 = 0;
    let mut i: usize = 0;
    assert(lv.take(0) =~= Seq::<Seq<char>>::empty());
    while i < ls.len()
        invariant
            lv == views(ls@),
            lv.len() <= u32::MAX,
            i <= lv.len(),
            count <= i,
            count == processor_count(lv.take(i as int)),
        decreases lv.len() - i,
    {
        assert(lv.take(i + 1).drop_last() =~= lv.take(i as int));
        assert(lv.take(i + 1).last() == ls@[i as int]@);
        if starts_with_str(&ls[i], "processor") {
            count = count + 1;
        }
        i = i + 1;
    }
    assert(lv.take(lv.len() as int) =~= lv);
    if count > 0 {
        Some(count)
    } else {
        None
    }
}

/// A value of `/proc/meminfo`, in the unit it is written in.
pub fn extract_memory_value(content: &str, key: &str) -> (r: Option<u64>)
    ensures
        match r {
            Some(v) => meminfo_value(lines(content@), key@, 0) == Some(v as nat),
            None => meminfo_value(lines(content@), key@, 0) is None,
        },
{
    let text = chars_of(content);
    let ls = lines_of(&text);
    let ghost lv = views(ls@);
    let k = chars_of(key);
    let mut i: usize = 0;
    while i < ls.len()
        invariant
            lv == views(ls@),
            lv == lines(content@),
            k@ == key@,
            i <= lv.len(),
            meminfo_value(lv, key@, 0) == meminfo_value(lv, key@, i as int),
        decreases lv.len() - i,
    {
        assert(lv[i as int] == ls@[i as int]@);
        if starts_with_chars(&ls[i], &k) {
            let parts = split_whitespace(&ls[i]);
            if parts.len() >= 2 {
                assert(views(parts@)[1] == parts@[1]@);
                return parse_unsigned(&parts[1], u64::MAX);
            }
        }
        i = i + 1;
    }
    None
}

/// The mount point of a device in `/proc/mounts`, empty when it is not
/// mounted.
pub fn find_mount_point(mounts: &str, device: &str) -> (r: String)
    ensures
        r@ == mount_point(lines(mounts@), "/dev/"@ + device@, 0),
{
    let mut device_path = chars_of("/dev/");
    let mut d = chars_of(device);
    device_path.append(&mut d);
    assert(device_path@ =~= "/dev/"@ + device@);
    let text = chars_of(mounts);
    let ls = lines_of(&text);
    let ghost lv = views(ls@);
    let mut i: usize = 0;
    while i < ls.len()
        invariant
            lv == views(ls@),
            lv == lines(mounts@),
            device_path@ == "/dev/"@ + device@,
            i <= lv.len(),
            mount_point(lv, device_path@, 0) == mount_point(lv, device_path@, i as int),
        decreases lv.len() - i,
    {
        assert(lv[i as int] == ls@[i as int]@);
        let parts = split_whitespace(&ls[i]);
        if parts.len() >= 2 && chars_eq(&parts[0], &device_path) {
            assert(views(parts@)[0] == parts@[0]@ && views(parts@)[1] == parts@[1]@);
            return string_of(&parts[1]);
        }
        proof {
            if parts@.len() >= 2 {
                assert(views(parts@)[0] == parts@[0]@);
            }
        }
        i = i + 1;
    }
    String::new()
}


/// A description of the system.
pub struct SystemInfo {
    pub hostname: String,
    pub os_name: String,
    pub cpu_model: String,
    pub cpu_cores: u32,
    /// Boot time, in seconds since the Unix epoch.
    pub boot_time: u64,
    pub os_version: String,
    pub kernel_version: String,
    pub architecture: String,
    /// `MemTotal` of `/proc/meminfo`, in kB.
    pub total_memory: u64,
    pub cpu_count: u32,
}

/// What the system description is read from.
pub struct SystemSources {
    /// Contents of `/etc/hostname`.
    pub hostname: String,
    /// Contents of `/etc/os-release`.
    pub os_release: String,
    /// Output of `uname -r`.
    pub kernel_release: String,
    /// Output of `uname -m`.
    pub machine: String,
    /// Contents of `/proc/cpuinfo`.
    pub cpuinfo: String,
    /// Contents of `/proc/meminfo`.
    pub meminfo: String,
    /// Boot time, in seconds since the Unix epoch.
    pub boot_time: u64,
}

/// A value, or a default when it is missing.
pub open spec fn text_or(o: Option<Seq<char>>, default: Seq<char>) -> Seq<char> {
    match o {
        Some(v) => v,
        None => default,
    }
}

/// The number of processors, at least 1.
pub open spec fn core_count(cpuinfo: Seq<char>) -> nat {
    let n = processor_count(lines(cpuinfo));
    if n > 0 { n } else { 1 }
}

/// A value, or a default text.
fn string_or(o: Option<String>, default: &str) -> (r: String)
    ensures
        r@ == text_or(opt_view(o), default@),
{
    match o {
        Some(v) => v,
        None => String::from_str(default),
    }
}

/// The system description: host name, kernel release and architecture
/// trimmed; the OS name and version from `NAME` and `VERSION_ID` of
/// os-release (`Unknown` when missing); the CPU model (`Unknown CPU` when
/// missing) and its number of processors (1 when none is listed); the total
/// memory (0 when missing).
pub fn get_system_info(sources: &SystemSources) -> (r: SystemInfo)
    requires
        lines(sources.cpuinfo@).len() <= u32::MAX,
    ensures
        r.hostname@ == trim(sources.hostname@),
        r.os_name@ == text_or(os_release_value(lines(sources.os_release@), "NAME"@, 0), "Unknown"@),
        r.os_version@ == text_or(
            os_release_value(lines(sources.os_release@), "VERSION_ID"@, 0),
            "Unknown"@,
        ),
        r.kernel_version@ == trim(sources.kernel_release@),
        r.architecture@ == trim(sources.machine@),
        r.cpu_model@ == text_or(cpu_model(lines(sources.cpuinfo@), 0), "Unknown CPU"@),
        r.cpu_cores as nat == core_count(sources.cpuinfo@),
        r.cpu_count == r.cpu_cores,
        r.total_memory as nat == match meminfo_value(lines(sources.meminfo@), "MemTotal"@, 0) {
            Some(v) => v,
            None => 0,
        },
        r.boot_time == sources.boot_time,
{
    let hostname = string_of(&trim_chars(&chars_of(sources.hostname.as_str())));
    let os_name = string_or(extract_os_release_value(sources.os_release.as_str(), "NAME"), "Unknown");
    let os_version = string_or(
        extract_os_release_value(sources.os_release.as_str(), "VERSION_ID"),
        "Unknown",
    );
    let kernel_version = string_of(&trim_chars(&chars_of(sources.kernel_release.as_str())));
    let architecture = string_of(&trim_chars(&chars_of(sources.machine.as_str())));
    let cpu_model = string_or(extract_cpu_model(sources.cpuinfo.as_str()), "Unknown CPU");
    let cpu_cores: u32 = match extract_cpu_cores(sources.cpuinfo.as_str()) {
        Some(n) => n,
        None => 1,
    };
    let total_memory: u64 = match extract_memory_value(sources.meminfo.as_str(), "MemTotal") {
        Some(v) => v,
        None => 0,
    };
    SystemInfo {
        hostname,
        os_name,
        cpu_model,
        cpu_cores,
        boot_time: sources.boot_time,
        os_version,
        kernel_version,
        architecture,
        total_memory,
        cpu_count: cpu_cores,
    }
}

} // verus!
