//! The inventory report that the agent sends: the host, its containers, its
//! services and its network connections.

use vstd::prelude::*;
use crate::models::{opt_view, strings_view};

verus! {

/// Addresses of the host.
pub struct HostInfo {
    pub mac_address: String,
    pub ip_address: String,
}

/// The mathematical content of a [`HostInfo`].
pub struct HostInfoView {
    pub mac_address: Seq<char>,
    pub ip_address: Seq<char>,
}

impl View for HostInfo {
    type V = HostInfoView;

    open spec fn view(&self) -> HostInfoView {
        HostInfoView { mac_address: self.mac_address@, ip_address: self.ip_address@ }
    }
}

/// A running or stopped container, as its runtime lists it.
pub struct ContainerInfo {
    pub id: String,
    pub name: String,
    pub image: String,
    /// Published ports, as `public:private` or as the runtime writes them.
    pub ports: Vec<String>,
    pub status: String,
    /// `docker` or `podman`.
    pub orchestrator: String,
}

/// The mathematical content of a [`ContainerInfo`].
pub struct ContainerInfoView {
    pub id: Seq<char>,
    pub name: Seq<char>,
    pub image: Seq<char>,
    pub ports: Seq<Seq<char>>,
    pub status: Seq<char>,
    pub orchestrator: Seq<char>,
}

impl View for ContainerInfo {
    type V = ContainerInfoView;

    open spec fn view(&self) -> ContainerInfoView {
        ContainerInfoView {
            id: self.id@,
            name: self.name@,
            image: self.image@,
            ports: strings_view(self.ports@),
            status: self.status@,
            orchestrator: self.orchestrator@,
        }
    }
}

/// The views of a sequence of containers.
pub open spec fn containers_view(v: Seq<ContainerInfo>) -> Seq<ContainerInfoView> {
    v.map_values(|c: ContainerInfo| c@)
}

/// A systemd service as `systemctl list-units` shows it.
pub struct ServiceInfo {
    pub name: String,
    /// The sub-state column (`running`, `exited`, `dead`, ...).
    pub status: String,
    /// The load-state column (`loaded`, `not-found`, ...).
    pub unit_file: String,
}

/// The mathematical content of a [`ServiceInfo`].
pub struct ServiceInfoView {
    pub name: Seq<char>,
    pub status: Seq<char>,
    pub unit_file: Seq<char>,
}

impl View for ServiceInfo {
    type V = ServiceInfoView;

    open spec fn view(&self) -> ServiceInfoView {
        ServiceInfoView { name: self.name@, status: self.status@, unit_file: self.unit_file@ }
    }
}

/// The views of a sequence of services.
pub open spec fn services_view(v: Seq<ServiceInfo>) -> Seq<ServiceInfoView> {
    v.map_values(|s: ServiceInfo| s@)
}

/// A socket as `ss -tunap` shows it.
pub struct ConnectionInfo {
    pub src_ip: String,
    pub src_port: u16,
    pub dst_ip: String,
    pub dst_port: u16,
    /// `tcp` or `udp`.
    pub protocol: String,
    pub process_id: Option<u32>,
    pub container_id: Option<String>,
}

/// The mathematical content of a [`ConnectionInfo`].
pub struct ConnectionInfoView {
    pub src_ip: Seq<char>,
    pub src_port: u16,
    pub dst_ip: Seq<char>,
    pub dst_port: u16,
    pub protocol: Seq<char>,
    pub process_id: Option<u32>,
    pub container_id: Option<Seq<char>>,
}

impl View for ConnectionInfo {
    type V = ConnectionInfoView;

    open spec fn view(&self) -> ConnectionInfoView {
        ConnectionInfoView {
            src_ip: self.src_ip@,
            src_port: self.src_port,
            dst_ip: self.dst_ip@,
            dst_port: self.dst_port,
            protocol: self.protocol@,
            process_id: self.process_id,
            container_id: opt_view(self.container_id),
        }
    }
}

/// The views of a sequence of connections.
pub open spec fn connections_view(v: Seq<ConnectionInfo>) -> Seq<ConnectionInfoView> {
    v.map_values(|c: ConnectionInfo| c@)
}

/// One inventory report.
pub struct Report {
    pub host: HostInfo,
    /// RFC 3339 time at which the report was made.
    pub timestamp: String,
    pub containers: Vec<ContainerInfo>,
    pub services: Vec<ServiceInfo>,
    pub connections: Vec<ConnectionInfo>,
}

} // verus!
