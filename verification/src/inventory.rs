//! Readers of the inventory agent: the host's addresses, the services that
//! `systemctl` lists, the sockets that `ss` lists, and the containers of
//! Docker and Podman.

use vstd::prelude::*;
use crate::models::{opt_view, strings_view};
use crate::report::{
    connections_view, containers_view, services_view, ConnectionInfo, ConnectionInfoView,
    ContainerInfo, ContainerInfoView, HostInfo, ServiceInfo, ServiceInfoView,
};
use crate::text::{
    chars_of, contains, contains_str, decimal, join, join_strings, lines, lines_of, parse_uint,
    parse_unsigned, push_decimal, slice_of, split, split_char, split_whitespace, split_ws,
    starts_with, starts_with_str, string_of, trim, trim_chars, trim_start_char,
    trim_start_matches_chars, views,
};

verus! {

// ---------------------------------------------------------------------------
// Host addresses
// ---------------------------------------------------------------------------

/// The first of the lines from `i` on that contains `p`.
pub open spec fn first_containing(ls: Seq<Seq<char>>, p: Seq<char>, i: int) -> Option<Seq<char>>
    decreases ls.len() - i,
{
    if i < 0 || i >= ls.len() {
        None
    } else if contains(ls[i], p) {
        Some(ls[i])
    } else {
        first_containing(ls, p, i + 1)
    }
}

/// The IPv4 address in the output of `ip -4 addr show`: the second word of
/// the first line that contains `inet`, up to its `/`; `unknown` when there
/// is no such line or it has a single word.
pub open spec fn host_ip(out: Seq<char>) -> Seq<char> {
    match first_containing(lines(out), "inet"@, 0) {
        Some(l) => if split_ws(l).len() >= 2 {
            split(split_ws(l)[1], '/')[0]
        } else {
            "unknown"@
        },
        None => "unknown"@,
    }
}

/// The address that `host_ip` describes.
fn ip_of_output(ip_output: &str) -> (r: String)
    ensures
        r@ == host_ip(ip_output@),
{
    let text = chars_of(ip_output);
    let ls = lines_of(&text);
    let ghost lv = views(ls@);
    proof {
        reveal_strlit("unknown");
    }
    let mut i: usize = 0;
    while i < ls.len()
        invariant
            lv == views(ls@),
            lv == lines(ip_output@),
            i <= lv.len(),
            first_containing(lv, "inet"@, 0) == first_containing(lv, "inet"@, i as int),
        decreases lv.len() - i,
    {
        assert(lv[i as int] == ls@[i as int]@);
        if contains_str(&ls[i], "inet") {
            let words = split_whitespace(&ls[i]);
            if words.len() >= 2 {
                assert(views(words@)[1] == words@[1]@);
                let pieces = split_char(&words[1], '/');
                assert(views(pieces@)[0] == pieces@[0]@);
                return string_of(&pieces[0]);
            }
            return String::from_str("unknown");
        }
        i = i + 1;
    }
    String::from_str("unknown")
}

/// The host's addresses, from the output of `ip -4 addr show` and the
/// contents of the interface's `address` file.
pub fn get_host_info(ip_output: &str, mac_output: &str) -> (h: HostInfo)
    ensures
        h@.ip_address == host_ip(ip_output@),
        h@.mac_address == trim(mac_output@),
{
    let ip = ip_of_output(ip_output);
    let mac_chars = chars_of(mac_output);
    let mac = string_of(&trim_chars(&mac_chars));
    HostInfo { mac_address: mac, ip_address: ip }
}

// ---------------------------------------------------------------------------
// Services
// ---------------------------------------------------------------------------

/// The service that one line of `systemctl list-units --type=service`
/// describes: a line that mentions `.service` and has at least four words
/// gives its first word as the name, its second as the unit file state and
/// its fourth as the status.
pub open spec fn service_of_line(l: Seq<char>) -> Option<ServiceInfoView> {
    let f = split_ws(l);
    if contains(l, ".service"@) && f.len() >= 4 {
        Some(ServiceInfoView { name: f[0], status: f[3], unit_file: f[1] })
    } else {
        None
    }
}

/// The services that the lines describe, in order.
pub open spec fn services_of(ls: Seq<Seq<char>>) -> Seq<ServiceInfoView>
    decreases ls.len(),
{
    if ls.len() == 0 {
        seq![]
    } else {
        services_of(ls.drop_last()) + match service_of_line(ls.last()) {
            Some(s) => seq![s],
            None => seq![],
        }
    }
}

/// The services listed in the output of
/// `systemctl list-units --type=service --all --no-pager`.
pub fn scan_services(output: &str) -> (r: Vec<ServiceInfo>)
    ensures
        services_view(r@) == services_of(lines(output@)),
{
    let text = chars_of(output);
    let ls = lines_of(&text);
    let ghost lv = views(ls@);
    let mut r: Vec<ServiceInfo> = Vec::new();
    let mut i: usize = 0;
    assert(lv.take(0) =~= Seq::<Seq<char>>::empty());
    while i < ls.len()
        invariant
            lv == views(ls@),
            i <= lv.len(),
            services_view(r@) == services_of(lv.take(i as int)),
        decreases lv.len() - i,
    {
        let ghost t = lv.take(i + 1);
        assert(t.drop_last() =~= lv.take(i as int));
        assert(t.last() == ls@[i as int]@);
        let ghost before = r@;
        if contains_str(&ls[i], ".service") {
            let f = split_whitespace(&ls[i]);
            if f.len() >= 4 {
                assert(views(f@)[0] == f@[0]@ && views(f@)[1] == f@[1]@ && views(f@)[3]
                    == f@[3]@);
                let s = ServiceInfo {
                    name: string_of(&f[0]),
                    status: string_of(&f[3]),
                    unit_file: string_of(&f[1]),
                };
                r.push(s);
                assert(services_view(r@) =~= services_view(before) + seq![s@]);
            } else {
                assert(services_view(r@) =~= services_view(before) + Seq::<
                    ServiceInfoView,
                >::empty());
            }
        } else {
            assert(services_view(r@) =~= services_view(before) + Seq::<
                ServiceInfoView,
            >::empty());
        }
        i = i + 1;
    }
    assert(lv.take(lv.len() as int) =~= lv);
    r
}

// ---------------------------------------------------------------------------
// Network connections
// ---------------------------------------------------------------------------

/// The first of the pieces from `i` on that starts with `p`.
pub open spec fn first_with_prefix(ps: Seq<Seq<char>>, p: Seq<char>, i: int) -> Option<
    Seq<char>,
>
    decreases ps.len() - i,
{
    if i < 0 || i >= ps.len() {
        None
    } else if starts_with(ps[i], p) {
        Some(ps[i])
    } else {
        first_with_prefix(ps, p, i + 1)
    }
}

/// The process id in the process column of `ss -p`: from the first
/// comma-separated piece that starts with `pid=`, the number after it, or
/// nothing when that is not a `u32`.
pub open spec fn pid_of(process: Seq<char>) -> Option<u32> {
    match first_with_prefix(split(process, ','), "pid="@, 0) {
        Some(p) => match parse_uint(p.skip(4), u32::MAX as nat) {
            Some(n) => Some(n as u32),
            None => None,
        },
        None => None,
    }
}

/// A port number, or 0 when the text is not one.
pub open spec fn port_or_zero(s: Seq<char>) -> u16 {
    match parse_uint(s, u16::MAX as nat) {
        Some(n) => n as u16,
        None => 0,
    }
}

/// The connection that one line of `ss -tunap` describes, when it has at
/// least seven columns: the protocol from the first, the local and peer
/// addresses from the fifth and sixth (the address up to the first `:`, the
/// port after the last), the process id from the seventh.
pub open spec fn connection_of_line(l: Seq<char>) -> Option<ConnectionInfoView> {
    let f = split_ws(l);
    if f.len() >= 7 {
        Some(
            ConnectionInfoView {
                src_ip: split(f[4], ':')[0],
                src_port: port_or_zero(split(f[4], ':').last()),
                dst_ip: split(f[5], ':')[0],
                dst_port: port_or_zero(split(f[5], ':').last()),
                protocol: f[0],
                process_id: pid_of(f[6]),
                container_id: None,
            },
        )
    } else {
        None
    }
}

/// The connections that the lines describe, in order.
pub open spec fn connections_of(ls: Seq<Seq<char>>) -> Seq<ConnectionInfoView>
    decreases ls.len(),
{
    if ls.len() == 0 {
        seq![]
    } else {
        connections_of(ls.drop_last()) + match connection_of_line(ls.last()) {
            Some(c) => seq![c],
            None => seq![],
        }
    }
}

/// The connections of an `ss -tunap` listing: its lines after the header.
pub open spec fn listed_connections(out: Seq<char>) -> Seq<ConnectionInfoView> {
    let ls = lines(out);
    if ls.len() == 0 {
        seq![]
    } else {
        connections_of(ls.drop_first())
    }
}

/// The process id of a process column.
fn parse_pid(process: &Vec<char>) -> (r: Option<u32>)
    ensures
        r == pid_of(process@),
{
    let pieces = split_char(process, ',');
    let ghost pv = views(pieces@);
    let mut i: usize = 0;
    while i < pieces.len()
        invariant
            pv == views(pieces@),
            pv == split(process@, ','),
            i <= pv.len(),
            first_with_prefix(pv, "pid="@, 0) == first_with_prefix(pv, "pid="@, i as int),
        decreases pv.len() - i,
    {
        assert(pv[i as int] == pieces@[i as int]@);
        if starts_with_str(&pieces[i], "pid=") {
            proof {
                reveal_strlit("pid=");
            }
            let number = slice_of(&pieces[i], 4, pieces[i].len());
            assert(number@ =~= pv[i as int].skip(4));
            return match parse_unsigned(&number, 4294967295u64) {
                Some(n) => Some(n as u32),
                None => None,
            };
        }
        i = i + 1;
    }
    None
}

/// A port number, or 0.
fn parse_port(v: &Vec<char>) -> (r: u16)
    ensures
        r == port_or_zero(v@),
{
    match parse_unsigned(v, 65535u64) {
        Some(n) => n as u16,
        None => 0,
    }
}

/// Address and port of an `address:port` column.
fn address_and_port(v: &Vec<char>) -> (r: (String, u16))
    ensures
        r.0@ == split(v@, ':')[0],
        r.1 == port_or_zero(split(v@, ':').last()),
{
    let pieces = split_char(v, ':');
    assert(views(pieces@)[0] == pieces@[0]@);
    let last = pieces.len() - 1;
    assert(views(pieces@)[last as int] == pieces@[last as int]@);
    (string_of(&pieces[0]), parse_port(&pieces[last]))
}

/// The connection of one listing line.
fn connection_from_line(l: &Vec<char>) -> (r: Option<ConnectionInfo>)
    ensures
        match r {
            Some(c) => connection_of_line(l@) == Some(c@),
            None => connection_of_line(l@) is None,
        },
{
    let f = split_whitespace(l);
    if f.len() < 7 {
        return None;
    }
    assert(views(f@)[0] == f@[0]@ && views(f@)[4] == f@[4]@ && views(f@)[5] == f@[5]@
        && views(f@)[6] == f@[6]@);
    let (src_ip, src_port) = address_and_port(&f[4]);
    let (dst_ip, dst_port) = address_and_port(&f[5]);
    let c = ConnectionInfo {
        src_ip,
        src_port,
        dst_ip,
        dst_port,
        protocol: string_of(&f[0]),
        process_id: parse_pid(&f[6]),
        container_id: None,
    };
    Some(c)
}

/// The TCP and UDP sockets listed in the output of `ss -tunap`.
pub fn scan_network_connections(output: &str) -> (r: Vec<ConnectionInfo>)
    ensures
        connections_view(r@) == listed_connections(output@),
{
    let text = chars_of(output);
    let ls = lines_of(&text);
    let ghost lv = views(ls@);
    let mut r: Vec<ConnectionInfo> = Vec::new();
    if ls.len() == 0 {
        assert(connections_view(r@) =~= Seq::<ConnectionInfoView>::empty());
        return r;
    }
    let ghost body = lv.drop_first();
    let mut i: usize = 1;
    assert(body.take(0) =~= Seq::<Seq<char>>::empty());
    while i < ls.len()
        invariant
            lv == views(ls@),
            lv.len() >= 1,
            body == lv.drop_first(),
            1 <= i <= lv.len(),
            connections_view(r@) == connections_of(body.take(i - 1)),
        decreases lv.len() - i,
    {
        let ghost t = body.take(i as int);
        assert(t.drop_last() =~= body.take(i - 1));
        assert(t.last() == ls@[i as int]@);
        let ghost before = r@;
        match connection_from_line(&ls[i]) {
            Some(c) => {
                r.push(c);
                assert(connections_view(r@) =~= connections_view(before) + seq![c@]);
            },
            None => {
                assert(connections_view(r@) =~= connections_view(before) + Seq::<
                    ConnectionInfoView,
                >::empty());
            },
        }
        i = i + 1;
    }
    assert(body.take(body.len() as int) =~= body);
    r
}

// ---------------------------------------------------------------------------
// Containers
// ---------------------------------------------------------------------------

/// The trimmed pieces that are not empty, in order.
pub open spec fn nonempty_trimmed(ps: Seq<Seq<char>>) -> Seq<Seq<char>>
    decreases ps.len(),
{
    if ps.len() == 0 {
        seq![]
    } else {
        nonempty_trimmed(ps.drop_last()) + if trim(ps.last()).len() > 0 {
            seq![trim(ps.last())]
        } else {
            seq![]
        }
    }
}

/// The ports of a Podman listing are not empty and carry no surrounding
/// whitespace: each is a trimmed piece of the column.
pub proof fn law_podman_ports_trimmed(ps: Seq<Seq<char>>)
    ensures
        forall|k: int|
            0 <= k < nonempty_trimmed(ps).len() ==> (#[trigger] nonempty_trimmed(ps)[k]).len() > 0
                && exists|j: int| 0 <= j < ps.len() && nonempty_trimmed(ps)[k] == trim(ps[j]),
    decreases ps.len(),
{
    if ps.len() > 0 {
        let rest = ps.drop_last();
        law_podman_ports_trimmed(rest);
        let a = nonempty_trimmed(rest);
        let b = nonempty_trimmed(ps);
        assert forall|k: int| 0 <= k < b.len() implies (#[trigger] b[k]).len() > 0 && exists|j: int|
            0 <= j < ps.len() && b[k] == trim(ps[j]) by {
            if k < a.len() {
                assert(b[k] == a[k]);
                let j = choose|j: int| 0 <= j < rest.len() && a[k] == trim(rest[j]);
                assert(ps[j] == rest[j]);
            } else {
                assert(b[k] == trim(ps.last()));
                assert(ps[ps.len() - 1] == ps.last());
            }
        }
    }
}

/// The container that one line of
/// `podman ps -a --format "{{.ID}}\t{{.Names}}\t{{.Image}}\t{{.Ports}}\t{{.Status}}"`
/// describes, when it has at least five tab-separated fields.
pub open spec fn podman_container(l: Seq<char>) -> Option<ContainerInfoView> {
    let f = split(l, '\t');
    if f.len() >= 5 {
        Some(
            ContainerInfoView {
                id: f[0],
                name: trim_start_char(f[1], '/'),
                image: f[2],
                ports: nonempty_trimmed(split(f[3], ',')),
                status: f[4],
                orchestrator: "podman"@,
            },
        )
    } else {
        None
    }
}

/// The containers that the lines describe, in order.
pub open spec fn podman_containers(ls: Seq<Seq<char>>) -> Seq<ContainerInfoView>
    decreases ls.len(),
{
    if ls.len() == 0 {
        seq![]
    } else {
        podman_containers(ls.drop_last()) + match podman_container(ls.last()) {
            Some(c) => seq![c],
            None => seq![],
        }
    }
}

/// The ports column of a Podman listing.
fn podman_ports(v: &Vec<char>) -> (r: Vec<String>)
    ensures
        strings_view(r@) == nonempty_trimmed(split(v@, ',')),
{
    let pieces = split_char(v, ',');
    let ghost pv = views(pieces@);
    let mut r: Vec<String> = Vec::new();
    let mut i: usize = 0;
    assert(pv.take(0) =~= Seq::<Seq<char>>::empty());
    while i < pieces.len()
        invariant
            pv == views(pieces@),
            i <= pv.len(),
            strings_view(r@) == nonempty_trimmed(pv.take(i as int)),
        decreases pv.len() - i,
    {
        let ghost t = pv.take(i + 1);
        assert(t.drop_last() =~= pv.take(i as int));
        assert(t.last() == pieces@[i as int]@);
        let ghost before = r@;
        let p = trim_chars(&pieces[i]);
        if p.len() > 0 {
            let s = string_of(&p);
            r.push(s);
            assert(strings_view(r@) =~= strings_view(before) + seq![s@]);
        } else {
            assert(strings_view(r@) =~= strings_view(before) + Seq::<Seq<char>>::empty());
        }
        i = i + 1;
    }
    assert(pv.take(pv.len() as int) =~= pv);
    r
}

/// The container of one Podman listing line.
fn podman_container_from_line(l: &Vec<char>) -> (r: Option<ContainerInfo>)
    ensures
        match r {
            Some(c) => podman_container(l@) == Some(c@),
            None => podman_container(l@) is None,
        },
{
    let f = split_char(l, '\t');
    if f.len() < 5 {
        return None;
    }
    assert(views(f@)[0] == f@[0]@ && views(f@)[1] == f@[1]@ && views(f@)[2] == f@[2]@
        && views(f@)[3] == f@[3]@ && views(f@)[4] == f@[4]@);
    let orchestrator = String::from_str("podman");
    proof {
        reveal_strlit("podman");
    }
    Some(
        ContainerInfo {
            id: string_of(&f[0]),
            name: string_of(&trim_start_matches_chars(&f[1], '/')),
            image: string_of(&f[2]),
            ports: podman_ports(&f[3]),
            status: string_of(&f[4]),
            orchestrator,
        },
    )
}

/// The containers listed by
/// `podman ps -a --format "{{.ID}}\t{{.Names}}\t{{.Image}}\t{{.Ports}}\t{{.Status}}"`.
pub fn parse_podman_containers(output: &str) -> (r: Vec<ContainerInfo>)
    ensures
        containers_view(r@) == podman_containers(lines(output@)),
{
    let text = chars_of(output);
    let ls = lines_of(&text);
    let ghost lv = views(ls@);
    let mut r: Vec<ContainerInfo> = Vec::new();
    let mut i: usize = 0;
    assert(lv.take(0) =~= Seq::<Seq<char>>::empty());
    while i < ls.len()
        invariant
            lv == views(ls@),
            i <= lv.len(),
            containers_view(r@) == podman_containers(lv.take(i as int)),
        decreases lv.len() - i,
    {
        let ghost t = lv.take(i + 1);
        assert(t.drop_last() =~= lv.take(i as int));
        assert(t.last() == ls@[i as int]@);
        let ghost before = r@;
        match podman_container_from_line(&ls[i]) {
            Some(c) => {
                r.push(c);
                assert(containers_view(r@) =~= containers_view(before) + seq![c@]);
            },
            None => {
                assert(containers_view(r@) =~= containers_view(before) + Seq::<
                    ContainerInfoView,
                >::empty());
            },
        }
        i = i + 1;
    }
    assert(lv.take(lv.len() as int) =~= lv);
    r
}

/// A published port of a container that the Docker daemon lists.
pub struct DockerPort {
    pub public_port: Option<u16>,
    pub private_port: u16,
}

/// What the Docker daemon reports of one container, as far as the
/// inventory reads it.
pub struct DockerContainerSummary {
    pub id: Option<String>,
    pub names: Option<Vec<String>>,
    pub image: Option<String>,
    pub ports: Option<Vec<DockerPort>>,
    pub status: Option<String>,
}

/// The mathematical content of a [`DockerContainerSummary`].
pub struct DockerContainerSummaryView {
    pub id: Option<Seq<char>>,
    pub names: Option<Seq<Seq<char>>>,
    pub image: Option<Seq<char>>,
    pub ports: Option<Seq<(Option<u16>, u16)>>,
    pub status: Option<Seq<char>>,
}

impl View for DockerContainerSummary {
    type V = DockerContainerSummaryView;

    open spec fn view(&self) -> DockerContainerSummaryView {
        DockerContainerSummaryView {
            id: opt_view(self.id),
            names: match self.names {
                Some(v) => Some(strings_view(v@)),
                None => None,
            },
            image: opt_view(self.image),
            ports: match self.ports {
                Some(v) => Some(v@.map_values(|p: DockerPort| (p.public_port, p.private_port))),
                None => None,
            },
            status: opt_view(self.status),
        }
    }
}

/// The views of a sequence of summaries.
pub open spec fn summaries_view(v: Seq<DockerContainerSummary>) -> Seq<
    DockerContainerSummaryView,
> {
    v.map_values(|s: DockerContainerSummary| s@)
}

/// A text, or the empty text.
pub open spec fn text_or_empty(o: Option<Seq<char>>) -> Seq<char> {
    match o {
        Some(s) => s,
        None => seq![],
    }
}

/// A published port as `public:private`, with 0 for an unpublished side.
pub open spec fn port_text(p: (Option<u16>, u16)) -> Seq<char> {
    let public: u16 = match p.0 {
        Some(n) => n,
        None => 0,
    };
    decimal(public as nat) + seq![':'] + decimal(p.1 as nat)
}

/// The inventory record of a container that the Docker daemon lists: its
/// names joined by `, ` without leading `/`, its ports as `public:private`,
/// absent fields empty.
pub open spec fn docker_container(s: DockerContainerSummaryView) -> ContainerInfoView {
    ContainerInfoView {
        id: text_or_empty(s.id),
        name: trim_start_char(
            join(
                match s.names {
                    Some(n) => n,
                    None => seq![],
                },
                ", "@,
            ),
            '/',
        ),
        image: text_or_empty(s.image),
        ports: match s.ports {
            Some(ps) => ps.map_values(|p: (Option<u16>, u16)| port_text(p)),
            None => seq![],
        },
        status: text_or_empty(s.status),
        orchestrator: "docker"@,
    }
}

/// A copy of an optional text, empty when absent.
fn text_or_default(o: &Option<String>) -> (r: String)
    ensures
        r@ == text_or_empty(opt_view(*o)),
{
    match o {
        Some(s) => s.clone(),
        None => String::new(),
    }
}

/// A port as `public:private`.
fn port_string(p: &DockerPort) -> (r: String)
    ensures
        r@ == port_text((p.public_port, p.private_port)),
{
    let mut s = String::new();
    let public: u16 = match p.public_port {
        Some(n) => n,
        None => 0,
    };
    push_decimal(&mut s, public as u64);
    s.push(':');
    push_decimal(&mut s, p.private_port as u64);
    s
}

/// The inventory record of a container that the Docker daemon lists.
pub fn container_from_docker(s: &DockerContainerSummary) -> (r: ContainerInfo)
    ensures
        r@ == docker_container(s@),
{
    let joined = match &s.names {
        Some(n) => join_strings(n, ", "),
        None => {
            let e = String::new();
            assert(e@ =~= join(Seq::<Seq<char>>::empty(), ", "@));
            e
        },
    };
    let jc = chars_of(joined.as_str());
    let name = string_of(&trim_start_matches_chars(&jc, '/'));
    let mut ports: Vec<String> = Vec::new();
    match &s.ports {
        Some(ps) => {
            let ghost pv = ps@.map_values(|p: DockerPort| (p.public_port, p.private_port));
            let mut i: usize = 0;
            while i < ps.len()
                invariant
                    pv == ps@.map_values(|p: DockerPort| (p.public_port, p.private_port)),
                    i <= ps@.len(),
                    strings_view(ports@) == pv.take(i as int).map_values(
                        |p: (Option<u16>, u16)| port_text(p),
                    ),
                decreases ps@.len() - i,
            {
                let t = port_string(&ps[i]);
                assert(pv[i as int] == (ps@[i as int].public_port, ps@[i as int].private_port));
                let ghost before = ports@;
                ports.push(t);
                assert(strings_view(ports@) =~= strings_view(before).push(t@));
                assert(pv.take(i + 1).map_values(|p: (Option<u16>, u16)| port_text(p))
                    =~= pv.take(i as int).map_values(|p: (Option<u16>, u16)| port_text(p)).push(
                    port_text(pv[i as int]),
                ));
                assert(strings_view(ports@) =~= pv.take(i + 1).map_values(
                    |p: (Option<u16>, u16)| port_text(p),
                ));
                i = i + 1;
            }
            assert(pv.take(pv.len() as int) =~= pv);
        },
        None => {
            assert(strings_view(ports@) =~= Seq::<Seq<char>>::empty());
        },
    }
    let orchestrator = String::from_str("docker");
    proof {
        reveal_strlit("docker");
    }
    ContainerInfo {
        id: text_or_default(&s.id),
        name,
        image: text_or_default(&s.image),
        ports,
        status: text_or_default(&s.status),
        orchestrator,
    }
}

/// The containers of the inventory: first those the Docker daemon listed,
/// when it could be reached, then those of the Podman listing, when
/// `podman` could be run.
pub fn scan_containers(
    docker: &Option<Vec<DockerContainerSummary>>,
    podman_output: &Option<String>,
) -> (r: Vec<ContainerInfo>)
    ensures
        containers_view(r@) == (match docker {
            Some(d) => summaries_view(d@).map_values(
                |s: DockerContainerSummaryView| docker_container(s),
            ),
            None => seq![],
        }) + (match podman_output {
            Some(o) => podman_containers(lines(o@)),
            None => seq![],
        }),
{
    let mut r: Vec<ContainerInfo> = Vec::new();
    let ghost first: Seq<ContainerInfoView> = seq![];
    match docker {
        Some(d) => {
            let ghost dv = summaries_view(d@).map_values(
                |s: DockerContainerSummaryView| docker_container(s),
            );
            let mut i: usize = 0;
            while i < d.len()
                invariant
                    dv == summaries_view(d@).map_values(
                        |s: DockerContainerSummaryView| docker_container(s),
                    ),
                    i <= d@.len(),
                    containers_view(r@) == dv.take(i as int),
                decreases d@.len() - i,
            {
                let c = container_from_docker(&d[i]);
                assert(summaries_view(d@)[i as int] == d@[i as int]@);
                assert(dv[i as int] == c@);
                let ghost before = r@;
                r.push(c);
                assert(containers_view(r@) =~= containers_view(before).push(c@));
                assert(dv.take(i + 1) =~= dv.take(i as int).push(dv[i as int]));
                assert(containers_view(r@) =~= dv.take(i + 1));
                i = i + 1;
            }
            assert(dv.take(dv.len() as int) =~= dv);
            proof {
                first = dv;
            }
        },
        None => {
            assert(containers_view(r@) =~= Seq::<ContainerInfoView>::empty());
        },
    }
    assert(containers_view(r@) == first);
    match podman_output {
        Some(o) => {
            let mut p = parse_podman_containers(o.as_str());
            let ghost before = r@;
            r.append(&mut p);
            assert(containers_view(r@) =~= containers_view(before) + podman_containers(
                lines(o@),
            ));
        },
        None => {
            assert(containers_view(r@) =~= first + Seq::<ContainerInfoView>::empty());
        },
    }
    r
}

} // verus!

verus! {

/// A `systemctl list-units` line describes a service exactly when it
/// mentions `.service` and has at least four words: the first is the name,
/// the second the load state and the fourth the sub-state.
pub proof fn law_service_lines(l: Seq<char>)
    ensures
        (contains(l, ".service"@) && split_ws(l).len() >= 4) ==> service_of_line(l) == Some(
            ServiceInfoView {
                name: split_ws(l)[0],
                unit_file: split_ws(l)[1],
                status: split_ws(l)[3],
            },
        ),
        !(contains(l, ".service"@) && split_ws(l).len() >= 4) ==> service_of_line(l) is None,
{
}

/// An `ss -tunap` line of at least seven columns is a connection: the
/// protocol is the first column, the local address the fifth and the peer
/// the sixth (the address up to the first `:`, the port after the last,
/// 0 when that is not a port number), and no container is known yet.
pub proof fn law_connection_lines(l: Seq<char>)
    ensures
        split_ws(l).len() >= 7 ==> (connection_of_line(l) matches Some(c) && c.protocol == split_ws(
            l,
        )[0] && c.src_ip == split(split_ws(l)[4], ':')[0] && c.dst_ip == split(split_ws(l)[5], ':')[0]
            && c.src_port == (match parse_uint(split(split_ws(l)[4], ':').last(), 65535) {
            Some(n) => n as u16,
            None => 0u16,
        }) && c.dst_port == (match parse_uint(split(split_ws(l)[5], ':').last(), 65535) {
            Some(n) => n as u16,
            None => 0u16,
        }) && c.process_id == pid_of(split_ws(l)[6]) && c.container_id is None),
        split_ws(l).len() < 7 ==> connection_of_line(l) is None,
{
}

/// The records of the containers say which runtime listed them: `docker`
/// for those of the Docker daemon, `podman` for those of the Podman
/// listing.
pub proof fn law_container_runtime_is_recorded(s: DockerContainerSummaryView, l: Seq<char>)
    ensures
        docker_container(s).orchestrator == "docker"@,
        podman_container(l) matches Some(c) ==> c.orchestrator == "podman"@,
        docker_container(s).id == text_or_empty(s.id),
        split(l, '\t').len() >= 5 ==> (podman_container(l) matches Some(c) && c.id == split(
            l,
            '\t',
        )[0] && c.image == split(l, '\t')[2] && c.status == split(l, '\t')[4]),
{
}

} // verus!
