//! Records that the analyzers produce: firewall rules, systemd units,
//! container definitions, network and disk statistics.

use vstd::prelude::*;

verus! {

/// The view of an optional text.
pub open spec fn opt_view(o: Option<String>) -> Option<Seq<char>> {
    match o {
        Some(s) => Some(s@),
        None => None,
    }
}

/// The views of a sequence of texts.
pub open spec fn strings_view(v: Seq<String>) -> Seq<Seq<char>> {
    v.map_values(|s: String| s@)
}

/// A copy of an optional text.
pub fn copy_opt(o: &Option<String>) -> (r: Option<String>)
    ensures
        opt_view(r) == opt_view(*o),
{
    match o {
        Some(s) => Some(s.clone()),
        None => None,
    }
}

/// A copy of a list of texts.
pub fn copy_strings(v: &Vec<String>) -> (r: Vec<String>)
    ensures
        strings_view(r@) == strings_view(v@),
{
    let mut r: Vec<String> = Vec::new();
    let mut i: usize = 0;
    while i < v.len()
        invariant
            i <= v@.len(),
            r@.len() == i,
            strings_view(r@) == strings_view(v@.take(i as int)),
        decreases v@.len() - i,
    {
        let ghost old_r = r@;
        let c = v[i].clone();
        assert(c@ == v@[i as int]@);
        r.push(c);
        assert(r@ == old_r.push(c));
        assert forall|j: int| 0 <= j < i + 1 implies #[trigger] strings_view(r@)[j]
            == strings_view(v@.take(i + 1))[j] by {
            if j < i {
                assert(strings_view(old_r)[j] == strings_view(v@.take(i as int))[j]);
            }
        }
        i = i + 1;
        assert(strings_view(r@) =~= strings_view(v@.take(i as int)));
    }
    assert(v@.take(v@.len() as int) =~= v@);
    r
}

/// What a command printed on its standard output, and whether it exited
/// successfully.
pub struct CommandOutput {
    pub success: bool,
    pub stdout: String,
}

/// Failures of the analyzers.
#[derive(Debug, PartialEq, Eq)]
pub enum AgentError {
    /// A command that the analysis needs could not be started.
    CommandUnavailable,
    /// A command that the analysis needs exited with a failure status.
    CommandFailed,
    /// A file that the analysis needs does not exist or cannot be read.
    FileUnavailable,
}

/// A firewall rule, as one of the supported firewalls lists it.
pub struct FirewallRule {
    /// `iptables`, `nftables` or `ufw`.
    pub firewall_type: String,
    /// Table (`filter`, `nat`, ...).
    pub table: String,
    /// Chain (`INPUT`, `OUTPUT`, ...).
    pub chain: String,
    /// Position of the rule in its chain.
    pub priority: i32,
    /// Verdict (`ACCEPT`, `DROP`, ...).
    pub action: String,
    pub protocol: Option<String>,
    pub source: Option<String>,
    pub destination: Option<String>,
    pub source_port: Option<String>,
    pub destination_port: Option<String>,
    pub interface: Option<String>,
    /// The rule's text as it was read.
    pub raw_rule: String,
}

/// The mathematical content of a [`FirewallRule`].
pub struct FirewallRuleView {
    pub firewall_type: Seq<char>,
    pub table: Seq<char>,
    pub chain: Seq<char>,
    pub priority: i32,
    pub action: Seq<char>,
    pub protocol: Option<Seq<char>>,
    pub source: Option<Seq<char>>,
    pub destination: Option<Seq<char>>,
    pub source_port: Option<Seq<char>>,
    pub destination_port: Option<Seq<char>>,
    pub interface: Option<Seq<char>>,
    pub raw_rule: Seq<char>,
}

impl View for FirewallRule {
    type V = FirewallRuleView;

    open spec fn view(&self) -> FirewallRuleView {
        FirewallRuleView {
            firewall_type: self.firewall_type@,
            table: self.table@,
            chain: self.chain@,
            priority: self.priority,
            action: self.action@,
            protocol: opt_view(self.protocol),
            source: opt_view(self.source),
            destination: opt_view(self.destination),
            source_port: opt_view(self.source_port),
            destination_port: opt_view(self.destination_port),
            interface: opt_view(self.interface),
            raw_rule: self.raw_rule@,
        }
    }
}

/// The views of a sequence of firewall rules.
pub open spec fn rules_view(v: Seq<FirewallRule>) -> Seq<FirewallRuleView> {
    v.map_values(|r: FirewallRule| r@)
}

/// A systemd unit and how it is run.
pub struct SystemdUnit {
    /// Unit name, such as `sshd.service`.
    pub name: String,
    pub description: String,
    /// `service`, `socket`, `timer`, ... or `unknown`.
    pub unit_type: String,
    /// Executable that the service starts.
    pub exec_path: Option<String>,
    /// Its arguments.
    pub exec_args: Vec<String>,
    pub user: String,
    pub group: String,
    pub working_directory: Option<String>,
    /// Units this one requires or orders itself after.
    pub dependencies: Vec<String>,
    /// `active`, `inactive`, `failed`, ...
    pub state: String,
    /// Whether the unit starts at boot.
    pub enabled: bool,
    pub unit_file_path: String,
}

/// The mathematical content of a [`SystemdUnit`].
pub struct SystemdUnitView {
    pub name: Seq<char>,
    pub description: Seq<char>,
    pub unit_type: Seq<char>,
    pub exec_path: Option<Seq<char>>,
    pub exec_args: Seq<Seq<char>>,
    pub user: Seq<char>,
    pub group: Seq<char>,
    pub working_directory: Option<Seq<char>>,
    pub dependencies: Seq<Seq<char>>,
    pub state: Seq<char>,
    pub enabled: bool,
    pub unit_file_path: Seq<char>,
}

impl View for SystemdUnit {
    type V = SystemdUnitView;

    open spec fn view(&self) -> SystemdUnitView {
        SystemdUnitView {
            name: self.name@,
            description: self.description@,
            unit_type: self.unit_type@,
            exec_path: opt_view(self.exec_path),
            exec_args: strings_view(self.exec_args@),
            user: self.user@,
            group: self.group@,
            working_directory: opt_view(self.working_directory),
            dependencies: strings_view(self.dependencies@),
            state: self.state@,
            enabled: self.enabled,
            unit_file_path: self.unit_file_path@,
        }
    }
}

impl SystemdUnit {
    /// A copy of the unit.
    pub fn clone_unit(&self) -> (r: SystemdUnit)
        ensures
            r@ == self@,
    {
        SystemdUnit {
            name: self.name.clone(),
            description: self.description.clone(),
            unit_type: self.unit_type.clone(),
            exec_path: copy_opt(&self.exec_path),
            exec_args: copy_strings(&self.exec_args),
            user: self.user.clone(),
            group: self.group.clone(),
            working_directory: copy_opt(&self.working_directory),
            dependencies: copy_strings(&self.dependencies),
            state: self.state.clone(),
            enabled: self.enabled,
            unit_file_path: self.unit_file_path.clone(),
        }
    }
}

/// The views of a sequence of units.
pub open spec fn units_view(v: Seq<SystemdUnit>) -> Seq<SystemdUnitView> {
    v.map_values(|u: SystemdUnit| u@)
}

/// A published container port.
pub struct PortMapping {
    pub host_port: u16,
    pub container_port: u16,
    /// `tcp` unless stated.
    pub protocol: String,
}

/// The mathematical content of a [`PortMapping`].
pub struct PortMappingView {
    pub host_port: u16,
    pub container_port: u16,
    pub protocol: Seq<char>,
}

impl View for PortMapping {
    type V = PortMappingView;

    open spec fn view(&self) -> PortMappingView {
        PortMappingView {
            host_port: self.host_port,
            container_port: self.container_port,
            protocol: self.protocol@,
        }
    }
}

/// A volume mounted into a container.
pub struct VolumeMount {
    /// Empty where the host side is chosen at run time.
    pub host_path: String,
    pub container_path: String,
    pub read_only: bool,
}

/// The mathematical content of a [`VolumeMount`].
pub struct VolumeMountView {
    pub host_path: Seq<char>,
    pub container_path: Seq<char>,
    pub read_only: bool,
}

impl View for VolumeMount {
    type V = VolumeMountView;

    open spec fn view(&self) -> VolumeMountView {
        VolumeMountView {
            host_path: self.host_path@,
            container_path: self.container_path@,
            read_only: self.read_only,
        }
    }
}

/// A CPU limit as written in a compose file: a string, or a YAML number in
/// its textual form. Its numeric value is read where the limit is used.
pub enum CpuLimit {
    Text(String),
    Number(String),
}

/// The mathematical content of a [`CpuLimit`].
pub enum CpuLimitView {
    Text(Seq<char>),
    Number(Seq<char>),
}

impl View for CpuLimit {
    type V = CpuLimitView;

    open spec fn view(&self) -> CpuLimitView {
        match self {
            CpuLimit::Text(s) => CpuLimitView::Text(s@),
            CpuLimit::Number(s) => CpuLimitView::Number(s@),
        }
    }
}

/// A memory size such as `512m`: its numeric part, and the number of bytes
/// in one unit of its suffix.
pub struct MemorySpec {
    pub number: String,
    pub multiplier: u64,
}

/// The mathematical content of a [`MemorySpec`].
pub struct MemorySpecView {
    pub number: Seq<char>,
    pub multiplier: u64,
}

impl View for MemorySpec {
    type V = MemorySpecView;

    open spec fn view(&self) -> MemorySpecView {
        MemorySpecView { number: self.number@, multiplier: self.multiplier }
    }
}

/// The resource limits that a compose service declares.
pub struct ResourceLimits {
    pub cpu: Option<CpuLimit>,
    pub memory: Option<MemorySpec>,
}

/// The mathematical content of [`ResourceLimits`].
pub struct ResourceLimitsView {
    pub cpu: Option<CpuLimitView>,
    pub memory: Option<MemorySpecView>,
}

impl View for ResourceLimits {
    type V = ResourceLimitsView;

    open spec fn view(&self) -> ResourceLimitsView {
        ResourceLimitsView {
            cpu: match self.cpu {
                Some(c) => Some(c@),
                None => None,
            },
            memory: match self.memory {
                Some(m) => Some(m@),
                None => None,
            },
        }
    }
}

/// A container definition found in a compose file or a Dockerfile.
pub struct ContainerConfig {
    pub id: String,
    pub name: String,
    pub image: String,
    pub image_version: String,
    pub ports: Vec<PortMapping>,
    pub volumes: Vec<VolumeMount>,
    /// Environment variables, each name once, in the order first set.
    pub environment: Vec<(String, String)>,
    pub network_mode: String,
    pub resource_limits: Option<ResourceLimits>,
    /// The file the definition was read from.
    pub config_path: String,
}

/// The mathematical content of a [`ContainerConfig`].
pub struct ContainerConfigView {
    pub id: Seq<char>,
    pub name: Seq<char>,
    pub image: Seq<char>,
    pub image_version: Seq<char>,
    pub ports: Seq<PortMappingView>,
    pub volumes: Seq<VolumeMountView>,
    pub environment: Seq<(Seq<char>, Seq<char>)>,
    pub network_mode: Seq<char>,
    pub resource_limits: Option<ResourceLimitsView>,
    pub config_path: Seq<char>,
}

/// The views of ports.
pub open spec fn ports_view(v: Seq<PortMapping>) -> Seq<PortMappingView> {
    v.map_values(|p: PortMapping| p@)
}

/// The views of volumes.
pub open spec fn volumes_view(v: Seq<VolumeMount>) -> Seq<VolumeMountView> {
    v.map_values(|m: VolumeMount| m@)
}

/// The views of environment pairs.
pub open spec fn env_view(v: Seq<(String, String)>) -> Seq<(Seq<char>, Seq<char>)> {
    v.map_values(|p: (String, String)| (p.0@, p.1@))
}

impl View for ContainerConfig {
    type V = ContainerConfigView;

    open spec fn view(&self) -> ContainerConfigView {
        ContainerConfigView {
            id: self.id@,
            name: self.name@,
            image: self.image@,
            image_version: self.image_version@,
            ports: ports_view(self.ports@),
            volumes: volumes_view(self.volumes@),
            environment: env_view(self.environment@),
            network_mode: self.network_mode@,
            resource_limits: match self.resource_limits {
                Some(l) => Some(l@),
                None => None,
            },
            config_path: self.config_path@,
        }
    }
}

/// The views of container definitions.
pub open spec fn configs_view(v: Seq<ContainerConfig>) -> Seq<ContainerConfigView> {
    v.map_values(|c: ContainerConfig| c@)
}

/// Position of the variable `key` among the pairs.
pub open spec fn env_index(env: Seq<(Seq<char>, Seq<char>)>, key: Seq<char>) -> Option<int>
    decreases env.len(),
{
    if env.len() == 0 {
        None
    } else if env.last().0 == key {
        Some(env.len() - 1)
    } else {
        env_index(env.drop_last(), key)
    }
}

/// Setting a variable, as `HashMap::insert` does: the value of an existing
/// variable is replaced, a new variable is added at the end.
pub open spec fn env_insert(
    env: Seq<(Seq<char>, Seq<char>)>,
    key: Seq<char>,
    value: Seq<char>,
) -> Seq<(Seq<char>, Seq<char>)> {
    match env_index(env, key) {
        Some(i) => env.update(i, (key, value)),
        None => env.push((key, value)),
    }
}

/// The value of the variable `key`, as `HashMap::get` gives it.
pub open spec fn env_lookup(env: Seq<(Seq<char>, Seq<char>)>, key: Seq<char>) -> Option<Seq<char>> {
    match env_index(env, key) {
        Some(i) => Some(env[i].1),
        None => None,
    }
}

/// `env_index` finds the last pair that names `key`, and nothing when no
/// pair does.
pub proof fn lemma_env_index(env: Seq<(Seq<char>, Seq<char>)>, key: Seq<char>)
    ensures
        match env_index(env, key) {
            Some(i) => 0 <= i < env.len() && env[i].0 == key && forall|j: int|
                i < j < env.len() ==> (#[trigger] env[j]).0 != key,
            None => forall|j: int| 0 <= j < env.len() ==> (#[trigger] env[j]).0 != key,
        },
    decreases env.len(),
{
    if env.len() > 0 && env.last().0 != key {
        lemma_env_index(env.drop_last(), key);
        assert forall|j: int| 0 <= j < env.len() - 1 implies #[trigger] env[j] == env.drop_last()[j] by {}
    }
}

/// A pair sequence whose last pair naming `key` is at `i` has `env_index` `i`.
proof fn lemma_env_index_at(env: Seq<(Seq<char>, Seq<char>)>, key: Seq<char>, i: int)
    requires
        0 <= i < env.len(),
        env[i].0 == key,
        forall|j: int| i < j < env.len() ==> (#[trigger] env[j]).0 != key,
    ensures
        env_index(env, key) == Some(i),
    decreases env.len(),
{
    if i < env.len() - 1 {
        assert(env.last() == env[env.len() - 1]);
        lemma_env_index_at(env.drop_last(), key, i);
    }
}

/// A pair sequence where no pair names `key` has no `env_index` for it.
proof fn lemma_env_index_none(env: Seq<(Seq<char>, Seq<char>)>, key: Seq<char>)
    requires
        forall|j: int| 0 <= j < env.len() ==> (#[trigger] env[j]).0 != key,
    ensures
        env_index(env, key) is None,
    decreases env.len(),
{
    if env.len() > 0 {
        assert(env.last() == env[env.len() - 1]);
        assert forall|j: int| 0 <= j < env.len() - 1 implies (#[trigger] env.drop_last()[j]).0
            != key by {
            assert(env.drop_last()[j] == env[j]);
        }
        lemma_env_index_none(env.drop_last(), key);
    }
}

/// Reading a variable after setting it gives the value it was set to, and
/// setting a variable leaves every other variable as it was.
pub proof fn law_env_read_after_write(
    env: Seq<(Seq<char>, Seq<char>)>,
    key: Seq<char>,
    value: Seq<char>,
    other: Seq<char>,
)
    ensures
        env_lookup(env_insert(env, key, value), key) == Some(value),
        other != key ==> env_lookup(env_insert(env, key, value), other) == env_lookup(env, other),
{
    lemma_env_index(env, key);
    lemma_env_index(env, other);
    let e2 = env_insert(env, key, value);
    match env_index(env, key) {
        Some(i) => {
            assert(e2 == env.update(i, (key, value)));
            assert forall|j: int| i < j < e2.len() implies (#[trigger] e2[j]).0 != key by {
                assert(e2[j] == env[j]);
            }
            lemma_env_index_at(e2, key, i);
            if other != key {
                match env_index(env, other) {
                    Some(k) => {
                        assert(k != i);
                        assert forall|j: int| k < j < e2.len() implies (#[trigger] e2[j]).0
                            != other by {
                            if j != i {
                                assert(e2[j] == env[j]);
                            }
                        }
                        assert(e2[k] == env[k]);
                        lemma_env_index_at(e2, other, k);
                    },
                    None => {
                        assert forall|j: int| 0 <= j < e2.len() implies (#[trigger] e2[j]).0
                            != other by {
                            if j != i {
                                assert(e2[j] == env[j]);
                            }
                        }
                        lemma_env_index_none(e2, other);
                    },
                }
            }
        },
        None => {
            assert(e2 == env.push((key, value)));
            lemma_env_index_at(e2, key, env.len() as int);
            if other != key {
                assert(e2.drop_last() =~= env);
            }
        },
    }
}

/// Sets a variable.
pub fn set_env(env: &mut Vec<(String, String)>, key: String, value: String)
    ensures
        env_view(final(env)@) == env_insert(env_view(old(env)@), key@, value@),
{
    let ghost ev = env_view(env@);
    let mut i = env.len();
    assert(ev.take(i as int) =~= ev);
    while i > 0
        invariant
            ev == env_view(env@),
            env@ == old(env)@,
            i <= ev.len(),
            env_index(ev, key@) == env_index(ev.take(i as int), key@),
        decreases i,
    {
        let ghost t = ev.take(i as int);
        assert(t.last() == (env@[i - 1].0@, env@[i - 1].1@));
        assert(t.drop_last() =~= ev.take(i - 1));
        if env[i - 1].0 == key {
            env.set(i - 1, (key, value));
            assert(env_view(env@) =~= ev.update(i - 1, (key@, value@)));
            return;
        }
        i = i - 1;
    }
    env.push((key, value));
    assert(env_view(env@) =~= ev.push((key@, value@)));
}


/// A socket and the process that holds it.
pub struct NetworkConnection {
    /// `TCP` or `UDP`.
    pub protocol: String,
    pub local_address: String,
    pub local_port: u16,
    pub remote_address: String,
    pub remote_port: u16,
    /// `ESTABLISHED`, `LISTEN`, ...
    pub state: String,
    pub pid: Option<i32>,
    pub process_name: Option<String>,
    pub container_id: Option<String>,
    pub interface: Option<String>,
}

/// The mathematical content of a [`NetworkConnection`].
pub struct NetworkConnectionView {
    pub protocol: Seq<char>,
    pub local_address: Seq<char>,
    pub local_port: u16,
    pub remote_address: Seq<char>,
    pub remote_port: u16,
    pub state: Seq<char>,
    pub pid: Option<i32>,
    pub process_name: Option<Seq<char>>,
    pub container_id: Option<Seq<char>>,
    pub interface: Option<Seq<char>>,
}

impl View for NetworkConnection {
    type V = NetworkConnectionView;

    open spec fn view(&self) -> NetworkConnectionView {
        NetworkConnectionView {
            protocol: self.protocol@,
            local_address: self.local_address@,
            local_port: self.local_port,
            remote_address: self.remote_address@,
            remote_port: self.remote_port,
            state: self.state@,
            pid: self.pid,
            process_name: opt_view(self.process_name),
            container_id: opt_view(self.container_id),
            interface: opt_view(self.interface),
        }
    }
}

/// The views of a sequence of connections.
pub open spec fn network_connections_view(v: Seq<NetworkConnection>) -> Seq<NetworkConnectionView> {
    v.map_values(|c: NetworkConnection| c@)
}

/// Space on a mounted file system, in kB.
pub struct DiskUsage {
    pub total: u64,
    pub used: u64,
    pub free: u64,
    pub mount_point: String,
    pub fs_type: String,
}

/// Traffic counters of a network interface.
pub struct NetworkStats {
    pub rx_bytes: u64,
    pub tx_bytes: u64,
    pub rx_packets: u64,
    pub tx_packets: u64,
    pub rx_errors: u64,
    pub tx_errors: u64,
    pub rx_dropped: u64,
    pub tx_dropped: u64,
}

} // verus!
