//! Container definitions: compose services and the fields they declare, and
//! the analyzer that gathers the definitions of a directory tree.

use vstd::prelude::*;
use crate::models::{
    strings_view, configs_view, env_insert, env_view, ports_view, set_env, volumes_view, ContainerConfig,
    ContainerConfigView, CpuLimit, CpuLimitView, MemorySpec, MemorySpecView, PortMapping,
    PortMappingView, ResourceLimits, ResourceLimitsView, VolumeMount, VolumeMountView,
};
use crate::text::{
    chars_eq_str, chars_of, contains, contains_str, find_char, find_char_pos, is_digit,
    lemma_find_bounds, lemma_find_first, lemma_split_contains, matches_at, lowercase, lowercase_chars, parse_uint,
    parse_unsigned, split, split_char, split_once, split_once_char, string_of, string_of_range,
    views,
};
use crate::dockerfile::{dockerfile_config, parse_dockerfile};
use crate::text::{join_path, join_path_string};
use crate::yaml::{
    parse_yaml, yaml_document, value_get_key, as_map, as_number, as_seq, as_str, map_get, mapping_get, value_as_map, value_as_number,
    value_as_seq, value_as_str, YamlValue,
};

verus! {

/// The name and version of an image reference: the text before and after
/// the first `:`, or the whole reference and `latest`.
pub open spec fn image_parts(image: Seq<char>) -> (Seq<char>, Seq<char>) {
    match find_char(image, ':') {
        Some(i) => (image.take(i), image.skip(i + 1)),
        None => (image, "latest"@),
    }
}

/// An image reference with a `:` is its name, a `:` and its version; one
/// without is its name alone, with version `latest`.
pub proof fn law_image_reference_roundtrip(image: Seq<char>)
    ensures
        (exists|i: int| 0 <= i < image.len() && image[i] == ':') ==> image_parts(image).0 + seq![
            ':',
        ] + image_parts(image).1 == image,
        !(exists|i: int| 0 <= i < image.len() && image[i] == ':') ==> image_parts(image).0 == image
            && image_parts(image).1 == "latest"@,
{
    lemma_find_bounds(image, seq![':']);
    lemma_find_first(image, seq![':']);
    match find_char(image, ':') {
        Some(i) => {
            assert(image.subrange(i, i + 1) == seq![':']);
            assert(image[i] == image.subrange(i, i + 1)[0]);
            assert(image.take(i) + seq![':'] + image.skip(i + 1) =~= image);
        },
        None => {
            assert forall|i: int| 0 <= i < image.len() implies image[i] != ':' by {
                assert(!matches_at(image, seq![':'], i));
                if image[i] == ':' {
                    assert(image.subrange(i, i + 1) =~= seq![':']);
                }
            }
        },
    }
}

/// A port mapping such as `8080:80/udp`: host and container port (one port
/// stands for both) and the protocol after `/`, `tcp` when there is none.
pub open spec fn port_mapping(s: Seq<char>) -> Option<PortMappingView> {
    let (port_part, protocol) = if contains(s, "/"@) {
        let parts = split(s, '/');
        (parts[0], parts[1])
    } else {
        (s, "tcp"@)
    };
    let pp = split(port_part, ':');
    if pp.len() == 1 {
        match parse_uint(pp[0], 65535) {
            Some(p) => Some(
                PortMappingView { host_port: p as u16, container_port: p as u16, protocol },
            ),
            None => None,
        }
    } else if pp.len() == 2 {
        match (parse_uint(pp[0], 65535), parse_uint(pp[1], 65535)) {
            (Some(h), Some(c)) => Some(
                PortMappingView { host_port: h as u16, container_port: c as u16, protocol },
            ),
            _ => None,
        }
    } else {
        None
    }
}

/// A volume such as `/host:/container:ro`: two or three `:`-separated parts,
/// read-only when the third is `ro`.
pub open spec fn volume_mount(s: Seq<char>) -> Option<VolumeMountView> {
    let parts = split(s, ':');
    if parts.len() == 2 {
        Some(VolumeMountView { host_path: parts[0], container_path: parts[1], read_only: false })
    } else if parts.len() == 3 {
        Some(
            VolumeMountView {
                host_path: parts[0],
                container_path: parts[1],
                read_only: parts[2] == "ro"@,
            },
        )
    } else {
        None
    }
}

/// Whether a character belongs to the number of a memory size.
pub open spec fn is_number_char(c: char) -> bool {
    is_digit(c) || c == '.'
}

/// The characters of `s` that belong to the number, in order.
pub open spec fn number_chars(s: Seq<char>) -> Seq<char>
    decreases s.len(),
{
    if s.len() == 0 {
        Seq::empty()
    } else if is_number_char(s.last()) {
        number_chars(s.drop_last()).push(s.last())
    } else {
        number_chars(s.drop_last())
    }
}

/// The other characters of `s`, in order.
pub open spec fn unit_chars(s: Seq<char>) -> Seq<char>
    decreases s.len(),
{
    if s.len() == 0 {
        Seq::empty()
    } else if is_number_char(s.last()) {
        unit_chars(s.drop_last())
    } else {
        unit_chars(s.drop_last()).push(s.last())
    }
}

/// Bytes per unit: `b`, `k`/`kb`, `m`/`mb`, `g`/`gb`; bytes for anything else.
pub open spec fn unit_multiplier(u: Seq<char>) -> u64 {
    if u == "k"@ || u == "kb"@ {
        1024
    } else if u == "m"@ || u == "mb"@ {
        1048576
    } else if u == "g"@ || u == "gb"@ {
        1073741824
    } else {
        1
    }
}

/// A memory size such as `512m` or `1.5G`: the number and the unit of the
/// lowercased text; `None` when there is no number.
pub open spec fn memory_spec(s: Seq<char>) -> Option<MemorySpecView> {
    let l = lowercase(s);
    let n = number_chars(l);
    if n.len() == 0 {
        None
    } else {
        Some(MemorySpecView { number: n, multiplier: unit_multiplier(unit_chars(l)) })
    }
}

/// The texts among the items, in order.
pub open spec fn text_items(items: Seq<YamlValue>) -> Seq<Seq<char>>
    decreases items.len(),
{
    if items.len() == 0 {
        Seq::empty()
    } else {
        let prev = text_items(items.drop_last());
        match as_str(items.last()) {
            Some(s) => prev.push(s),
            None => prev,
        }
    }
}

/// The port mappings among the texts, in order.
pub open spec fn port_list(ts: Seq<Seq<char>>) -> Seq<PortMappingView>
    decreases ts.len(),
{
    if ts.len() == 0 {
        Seq::empty()
    } else {
        let prev = port_list(ts.drop_last());
        match port_mapping(ts.last()) {
            Some(p) => prev.push(p),
            None => prev,
        }
    }
}

/// The volumes among the texts, in order.
pub open spec fn volume_list(ts: Seq<Seq<char>>) -> Seq<VolumeMountView>
    decreases ts.len(),
{
    if ts.len() == 0 {
        Seq::empty()
    } else {
        let prev = volume_list(ts.drop_last());
        match volume_mount(ts.last()) {
            Some(v) => prev.push(v),
            None => prev,
        }
    }
}

/// The texts listed under `key` of a service.
pub open spec fn listed_texts(cfg: Seq<(YamlValue, YamlValue)>, key: Seq<char>) -> Seq<Seq<char>> {
    match map_get(cfg, key) {
        Some(v) => match as_seq(v) {
            Some(items) => text_items(items),
            None => Seq::empty(),
        },
        None => Seq::empty(),
    }
}

/// The ports of a service.
pub open spec fn service_ports(cfg: Seq<(YamlValue, YamlValue)>) -> Seq<PortMappingView> {
    port_list(listed_texts(cfg, "ports"@))
}

/// The volumes of a service.
pub open spec fn service_volumes(cfg: Seq<(YamlValue, YamlValue)>) -> Seq<VolumeMountView> {
    volume_list(listed_texts(cfg, "volumes"@))
}

/// Variables of an `environment:` mapping whose name and value are texts.
pub open spec fn env_from_mapping(es: Seq<(YamlValue, YamlValue)>) -> Seq<(Seq<char>, Seq<char>)>
    decreases es.len(),
{
    if es.len() == 0 {
        Seq::empty()
    } else {
        let prev = env_from_mapping(es.drop_last());
        match (as_str(es.last().0), as_str(es.last().1)) {
            (Some(k), Some(v)) => env_insert(prev, k, v),
            _ => prev,
        }
    }
}

/// Variables of an `environment:` list of `NAME=value` texts.
pub open spec fn env_from_list(ts: Seq<Seq<char>>) -> Seq<(Seq<char>, Seq<char>)>
    decreases ts.len(),
{
    if ts.len() == 0 {
        Seq::empty()
    } else {
        let prev = env_from_list(ts.drop_last());
        match split_once(ts.last(), '=') {
            Some((k, v)) => env_insert(prev, k, v),
            None => prev,
        }
    }
}

/// The environment of a service, given as a mapping or as a list.
pub open spec fn service_environment(cfg: Seq<(YamlValue, YamlValue)>) -> Seq<(Seq<char>, Seq<char>)> {
    match map_get(cfg, "environment"@) {
        Some(v) => match as_map(v) {
            Some(es) => env_from_mapping(es),
            None => match as_seq(v) {
                Some(items) => env_from_list(text_items(items)),
                None => Seq::empty(),
            },
        },
        None => Seq::empty(),
    }
}

/// The network mode of a service, `bridge` unless it names one.
pub open spec fn service_network(cfg: Seq<(YamlValue, YamlValue)>) -> Seq<char> {
    match map_get(cfg, "network_mode"@) {
        Some(v) => match as_str(v) {
            Some(s) => s,
            None => "bridge"@,
        },
        None => "bridge"@,
    }
}

/// The CPU limit of a service: `cpu_limit` as a text or a number.
pub open spec fn service_cpu(cfg: Seq<(YamlValue, YamlValue)>) -> Option<CpuLimitView> {
    match map_get(cfg, "cpu_limit"@) {
        Some(v) => match as_str(v) {
            Some(s) => Some(CpuLimitView::Text(s)),
            None => match as_number(v) {
                Some(n) => Some(CpuLimitView::Number(n)),
                None => None,
            },
        },
        None => None,
    }
}

/// The memory limit of a service: `mem_limit` as a memory size.
pub open spec fn service_memory(cfg: Seq<(YamlValue, YamlValue)>) -> Option<MemorySpecView> {
    match map_get(cfg, "mem_limit"@) {
        Some(v) => match as_str(v) {
            Some(s) => memory_spec(s),
            None => None,
        },
        None => None,
    }
}

/// The limits of a service, when it declares either.
pub open spec fn service_limits(cfg: Seq<(YamlValue, YamlValue)>) -> Option<ResourceLimitsView> {
    let cpu = service_cpu(cfg);
    let memory = service_memory(cfg);
    if cpu is Some || memory is Some {
        Some(ResourceLimitsView { cpu, memory })
    } else {
        None
    }
}

/// The container definition of the compose service `name` with image
/// reference `image`, read from the file at `path`.
pub open spec fn service_config(
    name: Seq<char>,
    image: Seq<char>,
    cfg: Seq<(YamlValue, YamlValue)>,
    path: Seq<char>,
) -> ContainerConfigView {
    ContainerConfigView {
        id: "docker_"@ + name,
        name,
        image: image_parts(image).0,
        image_version: image_parts(image).1,
        ports: service_ports(cfg),
        volumes: service_volumes(cfg),
        environment: service_environment(cfg),
        network_mode: service_network(cfg),
        resource_limits: service_limits(cfg),
        config_path: path,
    }
}

/// The definitions of the services, in order: those whose name is a text,
/// whose body is a mapping and that name an image as a text.
pub open spec fn services_configs(es: Seq<(YamlValue, YamlValue)>, path: Seq<char>) -> Seq<
    ContainerConfigView,
>
    decreases es.len(),
{
    if es.len() == 0 {
        Seq::empty()
    } else {
        let prev = services_configs(es.drop_last(), path);
        let (k, v) = es.last();
        match (as_str(k), as_map(v)) {
            (Some(name), Some(cfg)) => match map_get(cfg, "image"@) {
                Some(img) => match as_str(img) {
                    Some(image) => prev.push(service_config(name, image, cfg, path)),
                    None => prev,
                },
                None => prev,
            },
            _ => prev,
        }
    }
}

/// The container definitions of a compose document read from `path`.
pub open spec fn compose_configs(doc: YamlValue, path: Seq<char>) -> Seq<ContainerConfigView> {
    match as_map(doc) {
        Some(top) => match map_get(top, "services"@) {
            Some(services) => match as_map(services) {
                Some(es) => services_configs(es, path),
                None => Seq::empty(),
            },
            None => Seq::empty(),
        },
        None => Seq::empty(),
    }
}

/// Container definitions with their first definition of each id kept.
pub open spec fn dedup_by_id(cs: Seq<ContainerConfigView>) -> Seq<ContainerConfigView>
    decreases cs.len(),
{
    if cs.len() == 0 {
        Seq::empty()
    } else {
        let prev = dedup_by_id(cs.drop_last());
        if exists|j: int| 0 <= j < cs.len() - 1 && (#[trigger] cs[j]).id == cs.last().id {
            prev
        } else {
            prev.push(cs.last())
        }
    }
}

/// Every definition kept is one of the definitions given.
pub proof fn lemma_dedup_members(cs: Seq<ContainerConfigView>)
    ensures
        forall|k: int|
            0 <= k < dedup_by_id(cs).len() ==> exists|j: int|
                0 <= j < cs.len() && #[trigger] cs[j] == #[trigger] dedup_by_id(cs)[k],
        dedup_by_id(cs).len() <= cs.len(),
    decreases cs.len(),
{
    if cs.len() > 0 {
        let rest = cs.drop_last();
        lemma_dedup_members(rest);
        let d = dedup_by_id(cs);
        let prev = dedup_by_id(rest);
        assert forall|k: int| 0 <= k < d.len() implies exists|j: int|
            0 <= j < cs.len() && #[trigger] cs[j] == #[trigger] d[k] by {
            if k < prev.len() {
                assert(d[k] == prev[k]);
                let j = choose|j: int| 0 <= j < rest.len() && #[trigger] rest[j] == #[trigger] prev[k];
                assert(cs[j] == rest[j]);
            } else {
                assert(d[k] == cs.last());
                assert(cs[cs.len() - 1] == cs.last());
            }
        }
    }
}

/// After de-duplication no two definitions share an id.
pub proof fn law_dedup_ids_distinct(cs: Seq<ContainerConfigView>)
    ensures
        forall|i: int, j: int|
            0 <= i < j < dedup_by_id(cs).len() ==> (#[trigger] dedup_by_id(cs)[i]).id != (
            #[trigger] dedup_by_id(cs)[j]).id,
    decreases cs.len(),
{
    if cs.len() > 0 {
        let rest = cs.drop_last();
        law_dedup_ids_distinct(rest);
        lemma_dedup_members(rest);
        let d = dedup_by_id(cs);
        let prev = dedup_by_id(rest);
        if !(exists|j: int| 0 <= j < cs.len() - 1 && (#[trigger] cs[j]).id == cs.last().id) {
            assert forall|i: int, j: int| 0 <= i < j < d.len() implies (#[trigger] d[i]).id != (
            #[trigger] d[j]).id by {
                if j < prev.len() {
                    assert(d[i] == prev[i] && d[j] == prev[j]);
                } else {
                    assert(d[j] == cs.last());
                    assert(d[i] == prev[i]);
                    let m = choose|m: int| 0 <= m < rest.len() && #[trigger] rest[m] == #[trigger] prev[i];
                    assert(cs[m] == rest[m]);
                }
            }
        }
    }
}

/// Every id of the given definitions is the id of a kept definition.
pub proof fn law_dedup_keeps_every_id(cs: Seq<ContainerConfigView>)
    ensures
        forall|i: int|
            0 <= i < cs.len() ==> exists|k: int|
                0 <= k < dedup_by_id(cs).len() && (#[trigger] dedup_by_id(cs)[k]).id == (
                #[trigger] cs[i]).id,
    decreases cs.len(),
{
    if cs.len() > 0 {
        let rest = cs.drop_last();
        law_dedup_keeps_every_id(rest);
        let d = dedup_by_id(cs);
        let prev = dedup_by_id(rest);
        assert forall|i: int| 0 <= i < cs.len() implies exists|k: int|
            0 <= k < d.len() && (#[trigger] d[k]).id == (#[trigger] cs[i]).id by {
            let target = if i < cs.len() - 1 {
                i
            } else if exists|j: int| 0 <= j < cs.len() - 1 && (#[trigger] cs[j]).id == cs.last().id {
                choose|j: int| 0 <= j < cs.len() - 1 && (#[trigger] cs[j]).id == cs.last().id
            } else {
                -1
            };
            if target >= 0 {
                assert(rest[target] == cs[target]);
                let k = choose|k: int| 0 <= k < prev.len() && (#[trigger] prev[k]).id == (
                #[trigger] rest[target]).id;
                assert(d[k] == prev[k]);
            } else {
                assert(d[d.len() - 1] == cs.last());
            }
        }
    }
}

/// Definitions whose ids are distinct are kept as they are.
proof fn lemma_dedup_of_distinct(cs: Seq<ContainerConfigView>)
    requires
        forall|i: int, j: int| 0 <= i < j < cs.len() ==> (#[trigger] cs[i]).id != (#[trigger] cs[j]).id,
    ensures
        dedup_by_id(cs) == cs,
    decreases cs.len(),
{
    if cs.len() > 0 {
        let rest = cs.drop_last();
        assert forall|i: int, j: int| 0 <= i < j < rest.len() implies (#[trigger] rest[i]).id != (
        #[trigger] rest[j]).id by {
            assert(rest[i] == cs[i] && rest[j] == cs[j]);
        }
        lemma_dedup_of_distinct(rest);
        assert forall|j: int| 0 <= j < cs.len() - 1 implies (#[trigger] cs[j]).id != cs.last().id by {
            assert(cs.last() == cs[cs.len() - 1]);
        }
        assert(rest.push(cs.last()) =~= cs);
    }
}

/// De-duplicating twice keeps what de-duplicating once kept.
pub proof fn law_dedup_idempotent(cs: Seq<ContainerConfigView>)
    ensures
        dedup_by_id(dedup_by_id(cs)) == dedup_by_id(cs),
{
    law_dedup_ids_distinct(cs);
    lemma_dedup_of_distinct(dedup_by_id(cs));
}

/// The definitions of the readable compose files (path and text; `None`
/// where the file could not be read) that are YAML documents, in order.
pub open spec fn compose_file_configs(files: Seq<(String, Option<String>)>) -> Seq<
    ContainerConfigView,
>
    decreases files.len(),
{
    if files.len() == 0 {
        Seq::empty()
    } else {
        let prev = compose_file_configs(files.drop_last());
        match files.last().1 {
            Some(t) => match yaml_document(t@) {
                Some(doc) => prev + compose_configs(doc, files.last().0@),
                None => prev,
            },
            None => prev,
        }
    }
}

/// The definitions of the readable Dockerfiles, in order.
pub open spec fn dockerfile_file_configs(files: Seq<(String, Option<String>)>) -> Seq<
    ContainerConfigView,
>
    decreases files.len(),
{
    if files.len() == 0 {
        Seq::empty()
    } else {
        let prev = dockerfile_file_configs(files.drop_last());
        match files.last().1 {
            Some(t) => prev.push(dockerfile_config(files.last().0@, t@)),
            None => prev,
        }
    }
}

/// The names under which compose files are looked for.
pub open spec fn compose_file_names() -> Seq<Seq<char>> {
    seq!["docker-compose.yml"@, "docker-compose.yaml"@, "compose.yml"@, "compose.yaml"@]
}

/// Analyzer of the container definitions under a directory.
pub struct DockerAnalyzer {
    root_path: String,
}

impl DockerAnalyzer {
    /// The directory that the analyzer scans.
    pub closed spec fn root(&self) -> Seq<char> {
        self.root_path@
    }

    /// An analyzer of the definitions under `root_path`.
    pub fn new(root_path: &str) -> (a: Self)
        ensures
            a.root() == root_path@,
    {
        DockerAnalyzer { root_path: root_path.to_string() }
    }

    /// Where compose files are looked for: the root joined with each of
    /// [`compose_file_names`].
    pub fn compose_file_candidates(&self) -> (r: Vec<String>)
        ensures
            strings_view(r@) == compose_file_names().map_values(
                |n: Seq<char>| join_path(self.root(), n),
            ),
    {
        let mut r: Vec<String> = Vec::new();
        r.push(join_path_string(self.root_path.as_str(), "docker-compose.yml"));
        r.push(join_path_string(self.root_path.as_str(), "docker-compose.yaml"));
        r.push(join_path_string(self.root_path.as_str(), "compose.yml"));
        r.push(join_path_string(self.root_path.as_str(), "compose.yaml"));
        assert(strings_view(r@) =~= compose_file_names().map_values(
            |n: Seq<char>| join_path(self.root(), n),
        ));
        r
    }

    /// Where a Dockerfile is looked for: `Dockerfile` under the root.
    pub fn dockerfile_candidates(&self) -> (r: Vec<String>)
        ensures
            strings_view(r@) == seq![join_path(self.root(), "Dockerfile"@)],
    {
        let mut r: Vec<String> = Vec::new();
        r.push(join_path_string(self.root_path.as_str(), "Dockerfile"));
        assert(strings_view(r@) =~= seq![join_path(self.root(), "Dockerfile"@)]);
        r
    }

    /// The container definitions of a compose document read from
    /// `file_path`.
    pub fn parse_compose_file(&self, file_path: &str, doc: &YamlValue) -> (r: Vec<ContainerConfig>)
        ensures
            configs_view(r@) == compose_configs(*doc, file_path@),
    {
        let mut r: Vec<ContainerConfig> = Vec::new();
        assert(configs_view(r@) =~= Seq::<ContainerConfigView>::empty());
        let top = match value_as_map(doc) {
            Some(t) => t,
            None => return r,
        };
        let services = match mapping_get(top, "services") {
            Some(v) => v,
            None => return r,
        };
        let es = match value_as_map(services) {
            Some(e) => e,
            None => return r,
        };
        let mut i: usize = 0;
        assert(es@.take(0) =~= Seq::<(YamlValue, YamlValue)>::empty());
        while i < es.len()
            invariant
                i <= es@.len(),
                configs_view(r@) == services_configs(es@.take(i as int), file_path@),
            decreases es@.len() - i,
        {
            assert(es@.take(i + 1).drop_last() =~= es@.take(i as int));
            assert(es@.take(i + 1).last() == es@[i as int]);
            let (k, v) = &es[i];
            match (value_as_str(k), value_as_map(v)) {
                (Some(name), Some(cfg)) => match mapping_get(cfg, "image") {
                    Some(img) => match value_as_str(img) {
                        Some(image) => {
                            let c = service_container(name.as_str(), image.as_str(), cfg, file_path);
                            let ghost old_r = r@;
                            r.push(c);
                            assert(configs_view(r@) =~= configs_view(old_r).push(c@));
                        },
                        None => {},
                    },
                    None => {},
                },
                _ => {},
            }
            i = i + 1;
        }
        assert(es@.take(es@.len() as int) =~= es@);
        r
    }

    /// Keeps the first definition of each id.
    pub fn deduplicate_and_normalize(&self, configs: &mut Vec<ContainerConfig>)
        ensures
            configs_view(final(configs)@) == dedup_by_id(configs_view(old(configs)@)),
    {
        let mut rest: Vec<ContainerConfig> = Vec::new();
        std::mem::swap(&mut rest, configs);
        let ghost orig = configs_view(rest@);
        let ghost orig_raw = rest@;
        let mut seen: Vec<Vec<char>> = Vec::new();
        let mut k: usize = 0;
        assert(orig.take(0) =~= Seq::<ContainerConfigView>::empty());
        assert(configs_view(configs@) =~= Seq::<ContainerConfigView>::empty());
        assert(rest@ =~= orig_raw.skip(0));
        let total = rest.len();
        assert(orig_raw.len() == total);
        while rest.len() > 0
            invariant
                orig_raw.len() <= usize::MAX,
                orig == configs_view(orig_raw),
                k <= orig.len(),
                rest@ == orig_raw.skip(k as int),
                configs_view(configs@) == dedup_by_id(orig.take(k as int)),
                forall|x: Seq<char>| (exists|j: int| 0 <= j < k && (#[trigger] orig[j]).id == x)
                    <==> views(seen@).contains(x),
            decreases rest@.len(),
        {
            assert(orig_raw.skip(k as int)[0] == orig_raw[k as int]);
            let c = rest.remove(0);
            assert(rest@ =~= orig_raw.skip(k + 1));
            assert(c@ == orig[k as int]);
            let ghost pre = orig.take(k + 1);
            assert(pre.drop_last() =~= orig.take(k as int));
            assert(pre.last() == orig[k as int]);
            let ghost sb = views(seen@);
            let id = chars_of(c.id.as_str());
            let known = contains_chars(&seen, &id);
            assert((exists|j: int| 0 <= j < pre.len() - 1 && (#[trigger] pre[j]).id == pre.last().id)
                == sb.contains(id@)) by {
                if sb.contains(id@) {
                    let j = choose|j: int| 0 <= j < k && (#[trigger] orig[j]).id == id@;
                    assert(pre[j] == orig[j]);
                }
                if exists|j: int| 0 <= j < pre.len() - 1 && (#[trigger] pre[j]).id == pre.last().id {
                    let j = choose|j: int| 0 <= j < pre.len() - 1 && (#[trigger] pre[j]).id == pre.last().id;
                    assert(pre[j] == orig[j]);
                }
            }
            let ghost kv = id@;
            if !known {
                let ghost old_c = configs@;
                configs.push(c);
                assert(configs_view(configs@) =~= configs_view(old_c).push(orig[k as int]));
                seen.push(id);
                assert(views(seen@) =~= sb.push(kv));
            }
            assert(views(seen@) == if known { sb } else { sb.push(kv) });
            assert(views(seen@).contains(kv)) by {
                if !known {
                    assert(views(seen@)[sb.len() as int] == kv);
                }
            }
            assert forall|x: Seq<char>| (exists|j: int| 0 <= j < k + 1 && (#[trigger] orig[j]).id == x)
                implies views(seen@).contains(x) by {
                let j = choose|j: int| 0 <= j < k + 1 && (#[trigger] orig[j]).id == x;
                if j < k {
                    assert(sb.contains(x));
                    let m = choose|m: int| 0 <= m < sb.len() && sb[m] == x;
                    assert(views(seen@)[m] == x);
                }
            }
            assert forall|x: Seq<char>| views(seen@).contains(x) implies (exists|j: int|
                0 <= j < k + 1 && (#[trigger] orig[j]).id == x) by {
                let m = choose|m: int| 0 <= m < views(seen@).len() && views(seen@)[m] == x;
                if m < sb.len() {
                    assert(sb[m] == x);
                    assert(sb.contains(x));
                } else {
                    assert(orig[k as int].id == x);
                }
            }
            k = k + 1;
        }
        assert(orig.take(k as int) =~= orig);
    }

    /// Gathers the container definitions: `compose_files` are the compose
    /// files found (path and text, `None` where a file could not be read),
    /// `dockerfiles` the Dockerfiles found. Unreadable files and compose files
    /// that are not YAML are skipped; the first definition of each id is kept.
    pub fn scan_containers(
        &self,
        compose_files: &Vec<(String, Option<String>)>,
        dockerfiles: &Vec<(String, Option<String>)>,
    ) -> (r: Vec<ContainerConfig>)
        ensures
            configs_view(r@) == dedup_by_id(
                compose_file_configs(compose_files@) + dockerfile_file_configs(dockerfiles@),
            ),
    {
        let mut configs: Vec<ContainerConfig> = Vec::new();
        let mut i: usize = 0;
        assert(compose_files@.take(0) =~= Seq::<(String, Option<String>)>::empty());
        assert(configs_view(configs@) =~= Seq::<ContainerConfigView>::empty());
        while i < compose_files.len()
            invariant
                i <= compose_files@.len(),
                configs_view(configs@) == compose_file_configs(compose_files@.take(i as int)),
            decreases compose_files@.len() - i,
        {
            assert(compose_files@.take(i + 1).drop_last() =~= compose_files@.take(i as int));
            assert(compose_files@.take(i + 1).last() == compose_files@[i as int]);
            let (path, content) = &compose_files[i];
            match content {
                Some(text) => match parse_yaml(text.as_str()) {
                    Some(doc) => {
                        let mut found = self.parse_compose_file(path.as_str(), &doc);
                        let ghost a = configs@;
                        let ghost b = found@;
                        configs.append(&mut found);
                        assert(configs_view(configs@) =~= configs_view(a) + configs_view(b));
                    },
                    None => {},
                },
                None => {},
            }
            i = i + 1;
        }
        assert(compose_files@.take(compose_files@.len() as int) =~= compose_files@);
        let ghost head = configs_view(configs@);
        let mut j: usize = 0;
        assert(dockerfiles@.take(0) =~= Seq::<(String, Option<String>)>::empty());
        assert(head + dockerfile_file_configs(dockerfiles@.take(0)) =~= head);
        while j < dockerfiles.len()
            invariant
                j <= dockerfiles@.len(),
                configs_view(configs@) == head + dockerfile_file_configs(dockerfiles@.take(j as int)),
            decreases dockerfiles@.len() - j,
        {
            assert(dockerfiles@.take(j + 1).drop_last() =~= dockerfiles@.take(j as int));
            assert(dockerfiles@.take(j + 1).last() == dockerfiles@[j as int]);
            let (path, content) = &dockerfiles[j];
            match content {
                Some(text) => {
                    let c = parse_dockerfile(path.as_str(), text.as_str());
                    let ghost old_c = configs@;
                    configs.push(c);
                    assert(configs_view(configs@) =~= configs_view(old_c).push(c@));
                },
                None => {},
            }
            j = j + 1;
        }
        assert(dockerfiles@.take(dockerfiles@.len() as int) =~= dockerfiles@);
        self.deduplicate_and_normalize(&mut configs);
        configs
    }
}

/// The container definition of a compose service.
fn service_container(
    name: &str,
    image: &str,
    cfg: &Vec<(YamlValue, YamlValue)>,
    path: &str,
) -> (c: ContainerConfig)
    ensures
        c@ == service_config(name@, image@, cfg@, path@),
{
    let (image_name, image_version) = parse_image_string(image);
    let mut id = "docker_".to_string();
    id.append(name);
    ContainerConfig {
        id,
        name: name.to_string(),
        image: image_name,
        image_version,
        ports: extract_ports(cfg),
        volumes: extract_volumes(cfg),
        environment: extract_environment(cfg),
        network_mode: extract_network_mode(cfg),
        resource_limits: extract_resource_limits(cfg),
        config_path: path.to_string(),
    }
}

/// Whether `key` is among `seen`.
fn contains_chars(seen: &Vec<Vec<char>>, key: &Vec<char>) -> (r: bool)
    ensures
        r == views(seen@).contains(key@),
{
    let mut i: usize = 0;
    while i < seen.len()
        invariant
            i <= seen@.len(),
            forall|j: int| 0 <= j < i ==> views(seen@)[j] != key@,
        decreases seen@.len() - i,
    {
        if crate::text::chars_eq(&seen[i], key) {
            assert(views(seen@)[i as int] == key@);
            return true;
        }
        i = i + 1;
    }
    false
}

/// Splits an image reference into name and version.
pub fn parse_image_string(image: &str) -> (r: (String, String))
    ensures
        (r.0@, r.1@) == image_parts(image@),
{
    let v = chars_of(image);
    match find_char_pos(&v, ':') {
        Some(i) => {
            proof {
                lemma_find_bounds(image@, seq![':']);
                assert(seq![':'].len() == 1);
            }
            assert(i + 1 <= v.len());
            let a = string_of_range(&v, 0, i);
            let b = string_of_range(&v, i + 1, v.len());
            assert(a@ =~= image@.take(i as int));
            assert(b@ =~= image@.skip(i + 1));
            (a, b)
        },
        None => (image.to_string(), "latest".to_string()),
    }
}

/// Reads a port mapping.
pub fn parse_port_mapping(port_str: &str) -> (r: Option<PortMapping>)
    ensures
        match r {
            Some(p) => port_mapping(port_str@) == Some(p@),
            None => port_mapping(port_str@) is None,
        },
{
    let s = chars_of(port_str);
    let (port_part, protocol) = if contains_str(&s, "/") {
        let parts = split_char(&s, '/');
        proof {
            reveal_strlit("/");
            assert("/"@ =~= seq!['/']);
            lemma_split_contains(s@, '/');
        }
        assert(views(parts@)[0] == parts@[0]@ && views(parts@)[1] == parts@[1]@);
        (slice_chars(&parts[0]), string_of(&parts[1]))
    } else {
        (s, "tcp".to_string())
    };
    let pp = split_char(&port_part, ':');
    assert(forall|i: int| 0 <= i < pp@.len() ==> views(pp@)[i] == pp@[i]@);
    if pp.len() == 1 {
        match parse_unsigned(&pp[0], 65535) {
            Some(p) => Some(
                PortMapping { host_port: p as u16, container_port: p as u16, protocol },
            ),
            None => None,
        }
    } else if pp.len() == 2 {
        match (parse_unsigned(&pp[0], 65535), parse_unsigned(&pp[1], 65535)) {
            (Some(h), Some(c)) => Some(
                PortMapping { host_port: h as u16, container_port: c as u16, protocol },
            ),
            _ => None,
        }
    } else {
        None
    }
}

/// A copy of characters.
fn slice_chars(v: &Vec<char>) -> (r: Vec<char>)
    ensures
        r@ == v@,
{
    crate::text::copy_chars(v)
}

/// Reads a volume.
pub fn parse_volume_mount(volume_str: &str) -> (r: Option<VolumeMount>)
    ensures
        match r {
            Some(m) => volume_mount(volume_str@) == Some(m@),
            None => volume_mount(volume_str@) is None,
        },
{
    let s = chars_of(volume_str);
    let parts = split_char(&s, ':');
    assert(forall|i: int| 0 <= i < parts@.len() ==> views(parts@)[i] == parts@[i]@);
    if parts.len() == 2 {
        Some(
            VolumeMount {
                host_path: string_of(&parts[0]),
                container_path: string_of(&parts[1]),
                read_only: false,
            },
        )
    } else if parts.len() == 3 {
        Some(
            VolumeMount {
                host_path: string_of(&parts[0]),
                container_path: string_of(&parts[1]),
                read_only: chars_eq_str(&parts[2], "ro"),
            },
        )
    } else {
        None
    }
}

/// Reads a memory size.
pub fn parse_memory_string(memory_str: &str) -> (r: Option<MemorySpec>)
    ensures
        match r {
            Some(m) => memory_spec(memory_str@) == Some(m@),
            None => memory_spec(memory_str@) is None,
        },
{
    let raw = chars_of(memory_str);
    let l = lowercase_chars(&raw);
    let mut num: Vec<char> = Vec::new();
    let mut unit: Vec<char> = Vec::new();
    let mut i: usize = 0;
    assert(l@.take(0) =~= Seq::<char>::empty());
    while i < l.len()
        invariant
            i <= l@.len(),
            num@ == number_chars(l@.take(i as int)),
            unit@ == unit_chars(l@.take(i as int)),
        decreases l@.len() - i,
    {
        assert(l@.take(i + 1).drop_last() =~= l@.take(i as int));
        assert(l@.take(i + 1).last() == l@[i as int]);
        let c = l[i];
        if ('0' <= c && c <= '9') || c == '.' {
            num.push(c);
        } else {
            unit.push(c);
        }
        i = i + 1;
    }
    assert(l@.take(l@.len() as int) =~= l@);
    if num.len() == 0 {
        return None;
    }
    let multiplier: u64 = if chars_eq_str(&unit, "k") || chars_eq_str(&unit, "kb") {
        1024
    } else if chars_eq_str(&unit, "m") || chars_eq_str(&unit, "mb") {
        1048576
    } else if chars_eq_str(&unit, "g") || chars_eq_str(&unit, "gb") {
        1073741824
    } else {
        1
    };
    Some(MemorySpec { number: string_of(&num), multiplier })
}

/// The texts among the items.
fn text_items_of(items: &Vec<YamlValue>) -> (r: Vec<String>)
    ensures
        strings_view(r@) == text_items(items@),
{
    let mut r: Vec<String> = Vec::new();
    let mut i: usize = 0;
    assert(items@.take(0) =~= Seq::<YamlValue>::empty());
    while i < items.len()
        invariant
            i <= items@.len(),
            strings_view(r@) == text_items(items@.take(i as int)),
        decreases items@.len() - i,
    {
        assert(items@.take(i + 1).drop_last() =~= items@.take(i as int));
        assert(items@.take(i + 1).last() == items@[i as int]);
        match value_as_str(&items[i]) {
            Some(s) => {
                let ghost old_r = r@;
                let c = s.clone();
                r.push(c);
                assert(strings_view(r@) =~= strings_view(old_r).push(c@));
            },
            None => {},
        }
        i = i + 1;
    }
    assert(items@.take(items@.len() as int) =~= items@);
    r
}

/// The texts listed under `key` of a service.
fn listed_texts_of(cfg: &Vec<(YamlValue, YamlValue)>, key: &str) -> (r: Vec<String>)
    ensures
        strings_view(r@) == listed_texts(cfg@, key@),
{
    match mapping_get(cfg, key) {
        Some(v) => match value_as_seq(v) {
            Some(items) => text_items_of(items),
            None => {
                let r: Vec<String> = Vec::new();
                assert(strings_view(r@) =~= Seq::<Seq<char>>::empty());
                r
            },
        },
        None => {
            let r: Vec<String> = Vec::new();
            assert(strings_view(r@) =~= Seq::<Seq<char>>::empty());
            r
        },
    }
}

/// The ports that a compose service publishes.
pub fn extract_ports(service_config: &Vec<(YamlValue, YamlValue)>) -> (r: Vec<PortMapping>)
    ensures
        ports_view(r@) == service_ports(service_config@),
{
    let ts = listed_texts_of(service_config, "ports");
    let ghost tv = strings_view(ts@);
    let mut r: Vec<PortMapping> = Vec::new();
    let mut i: usize = 0;
    assert(tv.take(0) =~= Seq::<Seq<char>>::empty());
    while i < ts.len()
        invariant
            tv == strings_view(ts@),
            i <= tv.len(),
            ports_view(r@) == port_list(tv.take(i as int)),
        decreases tv.len() - i,
    {
        assert(tv.take(i + 1).drop_last() =~= tv.take(i as int));
        assert(tv.take(i + 1).last() == ts@[i as int]@);
        match parse_port_mapping(ts[i].as_str()) {
            Some(p) => {
                let ghost old_r = r@;
                r.push(p);
                assert(ports_view(r@) =~= ports_view(old_r).push(p@));
            },
            None => {},
        }
        i = i + 1;
    }
    assert(tv.take(tv.len() as int) =~= tv);
    r
}

/// The volumes that a compose service mounts.
pub fn extract_volumes(service_config: &Vec<(YamlValue, YamlValue)>) -> (r: Vec<VolumeMount>)
    ensures
        volumes_view(r@) == service_volumes(service_config@),
{
    let ts = listed_texts_of(service_config, "volumes");
    let ghost tv = strings_view(ts@);
    let mut r: Vec<VolumeMount> = Vec::new();
    let mut i: usize = 0;
    assert(tv.take(0) =~= Seq::<Seq<char>>::empty());
    while i < ts.len()
        invariant
            tv == strings_view(ts@),
            i <= tv.len(),
            volumes_view(r@) == volume_list(tv.take(i as int)),
        decreases tv.len() - i,
    {
        assert(tv.take(i + 1).drop_last() =~= tv.take(i as int));
        assert(tv.take(i + 1).last() == ts@[i as int]@);
        match parse_volume_mount(ts[i].as_str()) {
            Some(m) => {
                let ghost old_r = r@;
                r.push(m);
                assert(volumes_view(r@) =~= volumes_view(old_r).push(m@));
            },
            None => {},
        }
        i = i + 1;
    }
    assert(tv.take(tv.len() as int) =~= tv);
    r
}

/// The environment that a compose service sets.
pub fn extract_environment(service_config: &Vec<(YamlValue, YamlValue)>) -> (r: Vec<
    (String, String),
>)
    ensures
        env_view(r@) == service_environment(service_config@),
{
    let mut env: Vec<(String, String)> = Vec::new();
    assert(env_view(env@) =~= Seq::<(Seq<char>, Seq<char>)>::empty());
    match mapping_get(service_config, "environment") {
        Some(v) => match value_as_map(v) {
            Some(es) => {
                let mut i: usize = 0;
                assert(es@.take(0) =~= Seq::<(YamlValue, YamlValue)>::empty());
                while i < es.len()
                    invariant
                        i <= es@.len(),
                        env_view(env@) == env_from_mapping(es@.take(i as int)),
                    decreases es@.len() - i,
                {
                    assert(es@.take(i + 1).drop_last() =~= es@.take(i as int));
                    assert(es@.take(i + 1).last() == es@[i as int]);
                    match (value_as_str(&es[i].0), value_as_str(&es[i].1)) {
                        (Some(k), Some(x)) => set_env(&mut env, k.clone(), x.clone()),
                        _ => {},
                    }
                    i = i + 1;
                }
                assert(es@.take(es@.len() as int) =~= es@);
            },
            None => match value_as_seq(v) {
                Some(items) => {
                    let ts = text_items_of(items);
                    let ghost tv = strings_view(ts@);
                    let mut i: usize = 0;
                    assert(tv.take(0) =~= Seq::<Seq<char>>::empty());
                    while i < ts.len()
                        invariant
                            tv == strings_view(ts@),
                            i <= tv.len(),
                            env_view(env@) == env_from_list(tv.take(i as int)),
                        decreases tv.len() - i,
                    {
                        assert(tv.take(i + 1).drop_last() =~= tv.take(i as int));
                        assert(tv.take(i + 1).last() == ts@[i as int]@);
                        let t = chars_of(ts[i].as_str());
                        match split_once_char(&t, '=') {
                            Some((k, x)) => set_env(&mut env, string_of(&k), string_of(&x)),
                            None => {},
                        }
                        i = i + 1;
                    }
                    assert(tv.take(tv.len() as int) =~= tv);
                },
                None => {},
            },
        },
        None => {},
    }
    env
}

/// The network mode of a compose service.
pub fn extract_network_mode(service_config: &Vec<(YamlValue, YamlValue)>) -> (r: String)
    ensures
        r@ == service_network(service_config@),
{
    match mapping_get(service_config, "network_mode") {
        Some(v) => match value_as_str(v) {
            Some(s) => s.clone(),
            None => "bridge".to_string(),
        },
        None => "bridge".to_string(),
    }
}

/// The resource limits of a compose service.
pub fn extract_resource_limits(service_config: &Vec<(YamlValue, YamlValue)>) -> (r: Option<
    ResourceLimits,
>)
    ensures
        match r {
            Some(l) => service_limits(service_config@) == Some(l@),
            None => service_limits(service_config@) is None,
        },
{
    let cpu = match mapping_get(service_config, "cpu_limit") {
        Some(v) => match value_as_str(v) {
            Some(s) => Some(CpuLimit::Text(s.clone())),
            None => match value_as_number(v) {
                Some(n) => Some(CpuLimit::Number(n.clone())),
                None => None,
            },
        },
        None => None,
    };
    let memory = match mapping_get(service_config, "mem_limit") {
        Some(v) => match value_as_str(v) {
            Some(s) => parse_memory_string(s.as_str()),
            None => None,
        },
        None => None,
    };
    if cpu.is_some() || memory.is_some() {
        Some(ResourceLimits { cpu, memory })
    } else {
        None
    }
}

/// `String`s holding the given words.
pub fn strings_of_chars(ws: &Vec<Vec<char>>) -> (r: Vec<String>)
    ensures
        strings_view(r@) == views(ws@),
{
    crate::systemd::strings_of(ws)
}

} // verus!

verus! {

/// A volume is `host:container` or `host:container:mode`; it is read-only
/// exactly when the mode is `ro`, so a two-part volume is read-write.
pub proof fn law_volume_read_only_only_with_ro(s: Seq<char>)
    ensures
        volume_mount(s) is Some <==> (split(s, ':').len() == 2 || split(s, ':').len() == 3),
        volume_mount(s) matches Some(m) ==> m.host_path == split(s, ':')[0] && m.container_path
            == split(s, ':')[1] && (m.read_only <==> (split(s, ':').len() == 3 && split(s, ':')[2]
            == "ro"@)),
        split(s, ':').len() == 2 ==> (volume_mount(s) matches Some(m) && !m.read_only),
{
}

} // verus!

verus! {

/// A port mapping is `port`, `host:container`, either with `/protocol`;
/// a single port is both the host and the container port, the host port
/// comes first, and the protocol is `tcp` unless one is given.
pub proof fn law_port_mapping_reading(s: Seq<char>)
    ensures
        !contains(s, "/"@) ==> (port_mapping(s) matches Some(p) ==> p.protocol == "tcp"@),
        (!contains(s, "/"@) && split(s, ':').len() == 1) ==> port_mapping(s) == match parse_uint(
            split(s, ':')[0],
            65535,
        ) {
            Some(n) => Some(
                PortMappingView { host_port: n as u16, container_port: n as u16, protocol: "tcp"@ },
            ),
            None => None,
        },
        (!contains(s, "/"@) && split(s, ':').len() == 2) ==> port_mapping(s) == match (
            parse_uint(split(s, ':')[0], 65535),
            parse_uint(split(s, ':')[1], 65535),
        ) {
            (Some(h), Some(c)) => Some(
                PortMappingView { host_port: h as u16, container_port: c as u16, protocol: "tcp"@ },
            ),
            _ => None,
        },
        split(s, ':').len() > 2 && !contains(s, "/"@) ==> port_mapping(s) is None,
{
}

/// Bytes per unit of a memory size: 1024 for `k`/`kb`, 1024² for `m`/`mb`,
/// 1024³ for `g`/`gb`, 1 otherwise.
pub proof fn law_memory_units(u: Seq<char>)
    ensures
        (u == "k"@ || u == "kb"@) ==> unit_multiplier(u) == 1024,
        (u == "m"@ || u == "mb"@) ==> unit_multiplier(u) == 1024 * 1024,
        (u == "g"@ || u == "gb"@) ==> unit_multiplier(u) == 1024 * 1024 * 1024,
        (u != "k"@ && u != "kb"@ && u != "m"@ && u != "mb"@ && u != "g"@ && u != "gb"@)
            ==> unit_multiplier(u) == 1,
{
    reveal_strlit("k");
    reveal_strlit("kb");
    reveal_strlit("m");
    reveal_strlit("mb");
    reveal_strlit("g");
    reveal_strlit("gb");
    assert("k"@[0] != "m"@[0] && "k"@[0] != "mb"@[0] && "kb"@[0] != "m"@[0] && "kb"@[0] != "mb"@[0]);
    assert("k"@[0] != "g"@[0] && "k"@[0] != "gb"@[0] && "kb"@[0] != "g"@[0] && "kb"@[0] != "gb"@[0]);
    assert("m"@[0] != "g"@[0] && "m"@[0] != "gb"@[0] && "mb"@[0] != "g"@[0] && "mb"@[0] != "gb"@[0]);
}

/// The service of a compose file becomes the container `docker_<name>` with
/// the image's name and version, read from that file; the network mode is
/// `bridge` unless the service names one.
pub proof fn law_service_config_identity(
    name: Seq<char>,
    image: Seq<char>,
    cfg: Seq<(YamlValue, YamlValue)>,
    path: Seq<char>,
)
    ensures
        service_config(name, image, cfg, path).id == "docker_"@ + name,
        service_config(name, image, cfg, path).name == name,
        service_config(name, image, cfg, path).image == image_parts(image).0,
        service_config(name, image, cfg, path).image_version == image_parts(image).1,
        service_config(name, image, cfg, path).config_path == path,
        map_get(cfg, "network_mode"@) is None ==> service_config(name, image, cfg, path).network_mode
            == "bridge"@,
{
}

} // verus!
