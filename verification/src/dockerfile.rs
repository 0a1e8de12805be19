//! Dockerfiles: the container definition that a Dockerfile's `FROM`,
//! `EXPOSE`, `ENV` and `VOLUME` instructions describe.

use vstd::prelude::*;
use crate::docker::{strings_of_chars};
use crate::models::{
    env_insert, env_view, ports_view, set_env, strings_view, volumes_view, ContainerConfig,
    ContainerConfigView, PortMapping, PortMappingView, VolumeMount, VolumeMountView,
};
use crate::systemd::{clean_arg, clean_args};
use crate::text::{
    chars_eq_str, chars_of, contains, contains_str, ends_with, ends_with_str, lines, lines_of,
    lowercase, lowercase_chars, parse_uint, parse_unsigned, slice_of, split, split_char,
    split_once, split_once_char, split_whitespace, split_ws, splitn2, starts_with,
    starts_with_str, string_of, trim, trim_chars, trim_matches_chars, uppercase, uppercase_chars,
    views,
};

verus! {

/// What `serde_json::from_str::<Vec<String>>` yields for a text: the strings
/// of a JSON array of strings, `None` for any other text.
pub uninterp spec fn json_string_list(text: Seq<char>) -> Option<Seq<Seq<char>>>;

/// Calls `serde_json::from_str::<Vec<String>>`; the contract names the result
/// and claims nothing of JSON syntax.
#[verifier::external_body]
fn parse_json_string_list(text: &str) -> (r: Option<Vec<String>>)
    ensures
        match r {
            Some(v) => json_string_list(text@) == Some(strings_view(v@)),
            None => json_string_list(text@) is None,
        },
{
    serde_json::from_str::<Vec<String>>(text).ok()
}

/// The path components that name something: pieces between `/` that are
/// neither empty nor `.`.
pub open spec fn named_components(pieces: Seq<Seq<char>>) -> Seq<Seq<char>>
    decreases pieces.len(),
{
    if pieces.len() == 0 {
        Seq::empty()
    } else {
        let prev = named_components(pieces.drop_last());
        if pieces.last().len() == 0 || pieces.last() == "."@ {
            prev
        } else {
            prev.push(pieces.last())
        }
    }
}

/// The name of the directory that holds the file at `path`
/// (`Path::parent` then `Path::file_name`), `unnamed` when there is none.
pub open spec fn parent_dir_name(path: Seq<char>) -> Seq<char> {
    let comps = named_components(split(path, '/'));
    if comps.len() >= 2 && comps[comps.len() - 2] != ".."@ {
        comps[comps.len() - 2]
    } else {
        "unnamed"@
    }
}

/// The logical instructions of a Dockerfile, from line `i` on: blank lines
/// and `#` comments are skipped, and a line ending in `\` is joined with the
/// next one. `pending` is the instruction being continued.
pub open spec fn instructions_from(ls: Seq<Seq<char>>, i: int, pending: Option<Seq<char>>) -> Seq<
    Seq<char>,
>
    decreases ls.len() - i,
{
    if i < 0 || i >= ls.len() {
        match pending {
            Some(f) => seq![f],
            None => Seq::empty(),
        }
    } else {
        let line = trim(ls[i]);
        match pending {
            Some(full) => {
                let f2 = full.drop_last() + line;
                if ends_with(line, "\\"@) && i + 1 < ls.len() {
                    instructions_from(ls, i + 1, Some(f2))
                } else {
                    seq![f2] + instructions_from(ls, i + 1, None)
                }
            },
            None => if line.len() == 0 || starts_with(line, "#"@) {
                instructions_from(ls, i + 1, None)
            } else if ends_with(line, "\\"@) && i + 1 < ls.len() {
                instructions_from(ls, i + 1, Some(line))
            } else {
                seq![line] + instructions_from(ls, i + 1, None)
            },
        }
    }
}

/// The effect of `FROM image[:version]`.
pub open spec fn from_effect(args: Seq<char>, c: ContainerConfigView) -> ContainerConfigView {
    let ip = split(args, ':');
    ContainerConfigView {
        image: ip[0],
        image_version: if ip.len() > 1 { ip[1] } else { "latest"@ },
        ..c
    }
}

/// The ports of `EXPOSE`, one for each word that starts with a port number.
pub open spec fn exposed_ports(ws: Seq<Seq<char>>) -> Seq<PortMappingView>
    decreases ws.len(),
{
    if ws.len() == 0 {
        Seq::empty()
    } else {
        let prev = exposed_ports(ws.drop_last());
        let pp = split(ws.last(), '/');
        match parse_uint(pp[0], 65535) {
            Some(p) => prev.push(
                PortMappingView {
                    host_port: p as u16,
                    container_port: p as u16,
                    protocol: if pp.len() > 1 { lowercase(pp[1]) } else { "tcp"@ },
                },
            ),
            None => prev,
        }
    }
}

/// The effect of `ENV NAME=value` or `ENV NAME value`.
pub open spec fn env_effect(args: Seq<char>, c: ContainerConfigView) -> ContainerConfigView {
    if contains(args, "="@) {
        match split_once(args, '=') {
            Some((k, v)) => ContainerConfigView {
                environment: env_insert(c.environment, trim(k), trim(v)),
                ..c
            },
            None => c,
        }
    } else {
        let parts = splitn2(args, ' ');
        if parts.len() == 2 {
            ContainerConfigView { environment: env_insert(c.environment, parts[0], parts[1]), ..c }
        } else {
            c
        }
    }
}

/// The paths of `VOLUME`: a JSON array (read leniently when it is not valid
/// JSON) or whitespace-separated paths.
pub open spec fn volume_paths(args: Seq<char>) -> Seq<Seq<char>> {
    let a = trim(args);
    if starts_with(a, "["@) && ends_with(a, "]"@) {
        match json_string_list(a) {
            Some(ps) => ps,
            None => clean_args(split(a.subrange(1, a.len() - 1), ',')),
        }
    } else {
        split_ws(a)
    }
}

/// Container-side volumes at the given paths.
pub open spec fn path_volumes(ps: Seq<Seq<char>>) -> Seq<VolumeMountView> {
    ps.map_values(|p: Seq<char>| VolumeMountView { host_path: Seq::empty(), container_path: p, read_only: false })
}

/// The effect of one instruction on the definition read so far.
pub open spec fn instruction_effect(instr: Seq<char>, c: ContainerConfigView) -> ContainerConfigView {
    let parts = splitn2(instr, ' ');
    if parts.len() < 2 {
        c
    } else {
        let cmd = uppercase(parts[0]);
        let args = trim(parts[1]);
        if cmd == "FROM"@ {
            from_effect(args, c)
        } else if cmd == "EXPOSE"@ {
            ContainerConfigView { ports: c.ports + exposed_ports(split_ws(args)), ..c }
        } else if cmd == "ENV"@ {
            env_effect(args, c)
        } else if cmd == "VOLUME"@ {
            ContainerConfigView { volumes: c.volumes + path_volumes(volume_paths(args)), ..c }
        } else {
            c
        }
    }
}

/// The instructions applied in order.
pub open spec fn apply_instructions(instrs: Seq<Seq<char>>, c: ContainerConfigView) -> ContainerConfigView
    decreases instrs.len(),
{
    if instrs.len() == 0 {
        c
    } else {
        instruction_effect(instrs.last(), apply_instructions(instrs.drop_last(), c))
    }
}

/// The definition before any instruction.
pub open spec fn dockerfile_start(path: Seq<char>) -> ContainerConfigView {
    ContainerConfigView {
        id: "dockerfile_"@ + parent_dir_name(path),
        name: parent_dir_name(path),
        image: Seq::empty(),
        image_version: "latest"@,
        ports: Seq::empty(),
        volumes: Seq::empty(),
        environment: Seq::empty(),
        network_mode: "bridge"@,
        resource_limits: None,
        config_path: path,
    }
}

/// The container definition of the Dockerfile at `path` with text `content`.
pub open spec fn dockerfile_config(path: Seq<char>, content: Seq<char>) -> ContainerConfigView {
    apply_instructions(instructions_from(lines(content), 0, None), dockerfile_start(path))
}

/// The instruction being continued, as characters.
pub open spec fn pending_view(p: Option<Vec<char>>) -> Option<Seq<char>> {
    match p {
        Some(v) => Some(v@),
        None => None,
    }
}

/// The name of the directory that holds the file at `path`.
pub fn parent_dir_name_of(path: &str) -> (r: String)
    ensures
        r@ == parent_dir_name(path@),
{
    let pv = chars_of(path);
    let pieces = split_char(&pv, '/');
    let ghost sv = views(pieces@);
    let mut comps: Vec<Vec<char>> = Vec::new();
    let mut i: usize = 0;
    assert(sv.take(0) =~= Seq::<Seq<char>>::empty());
    while i < pieces.len()
        invariant
            sv == views(pieces@),
            i <= sv.len(),
            views(comps@) == named_components(sv.take(i as int)),
        decreases sv.len() - i,
    {
        assert(sv.take(i + 1).drop_last() =~= sv.take(i as int));
        assert(sv.take(i + 1).last() == pieces@[i as int]@);
        if pieces[i].len() == 0 || chars_eq_str(&pieces[i], ".") {
        } else {
            let ghost old_c = comps@;
            let c = crate::text::copy_chars(&pieces[i]);
            comps.push(c);
            assert(views(comps@) =~= views(old_c).push(c@));
        }
        i = i + 1;
    }
    assert(sv.take(sv.len() as int) =~= sv);
    let n = comps.len();
    if n >= 2 && !chars_eq_str(&comps[n - 2], "..") {
        assert(views(comps@)[n - 2] == comps@[n - 2]@);
        string_of(&comps[n - 2])
    } else {
        "unnamed".to_string()
    }
}

/// Reads a Dockerfile: `file_path` is where it was found and `content` its
/// text.
pub fn parse_dockerfile(file_path: &str, content: &str) -> (c: ContainerConfig)
    ensures
        c@ == dockerfile_config(file_path@, content@),
{
    let name = parent_dir_name_of(file_path);
    let mut id = "dockerfile_".to_string();
    id.append(name.as_str());
    let mut config = ContainerConfig {
        id,
        name,
        image: String::new(),
        image_version: "latest".to_string(),
        ports: Vec::new(),
        volumes: Vec::new(),
        environment: Vec::new(),
        network_mode: "bridge".to_string(),
        resource_limits: None,
        config_path: file_path.to_string(),
    };
    proof {
        assert(ports_view(config.ports@) =~= Seq::<PortMappingView>::empty());
        assert(volumes_view(config.volumes@) =~= Seq::<VolumeMountView>::empty());
        assert(env_view(config.environment@) =~= Seq::<(Seq<char>, Seq<char>)>::empty());
        assert(config@ =~= dockerfile_start(file_path@));
    }
    let text = chars_of(content);
    let ls = lines_of(&text);
    let ghost lv = views(ls@);
    let ghost start = config@;
    let ghost mut emitted: Seq<Seq<char>> = Seq::empty();
    let mut pending: Option<Vec<char>> = None;
    let mut i: usize = 0;
    while i < ls.len()
        invariant
            lv == views(ls@),
            i <= lv.len(),
            pending is Some ==> i < lv.len(),
            pending_view(pending) matches Some(p) ==> p.len() > 0,
            emitted + instructions_from(lv, i as int, pending_view(pending)) == instructions_from(
                lv,
                0,
                None,
            ),
            config@ == apply_instructions(emitted, start),
        decreases lv.len() - i,
    {
        assert(lv[i as int] == ls@[i as int]@);
        let ghost pv = pending_view(pending);
        let line = trim_chars(&ls[i]);
        let more = ends_with_str(&line, "\\") && i + 1 < ls.len();
        assert(line@ == trim(lv[i as int]));
        proof {
            reveal_strlit("\\");
        }
        match pending {
            Some(full) => {
                let mut f2 = full;
                f2.pop();
                let ghost fd = f2@;
                let mut l2 = crate::text::copy_chars(&line);
                f2.append(&mut l2);
                assert(f2@ =~= fd + line@);
                assert(f2@ == pv->0.drop_last() + line@);
                if more {
                    assert(instructions_from(lv, i as int, pv) == instructions_from(lv, i + 1, Some(f2@)));
                    pending = Some(f2);
                } else {
                    let ghost before = emitted;
                    parse_instruction(&f2, &mut config);
                    proof {
                        emitted = emitted.push(f2@);
                        assert(emitted.drop_last() =~= before);
                        assert(before + (seq![f2@] + instructions_from(lv, i + 1, None))
                            =~= emitted + instructions_from(lv, i + 1, None));
                    }
                    pending = None;
                }
            },
            None => {
                if line.len() == 0 || starts_with_str(&line, "#") {
                    assert(instructions_from(lv, i as int, pv) == instructions_from(lv, i + 1, None));
                } else if more {
                    assert(instructions_from(lv, i as int, pv) == instructions_from(lv, i + 1, Some(line@)));
                    pending = Some(line);
                } else {
                    let ghost before = emitted;
                    parse_instruction(&line, &mut config);
                    proof {
                        emitted = emitted.push(line@);
                        assert(emitted.drop_last() =~= before);
                        assert(before + (seq![line@] + instructions_from(lv, i + 1, None))
                            =~= emitted + instructions_from(lv, i + 1, None));
                    }
                }
            },
        }
        i = i + 1;
    }
    assert(emitted + Seq::<Seq<char>>::empty() =~= emitted);
    config
}

/// Applies one Dockerfile instruction.
fn parse_instruction(instruction: &Vec<char>, config: &mut ContainerConfig)
    ensures
        final(config)@ == instruction_effect(instruction@, old(config)@),
{
    match split_once_char(instruction, ' ') {
        None => {},
        Some((cmd0, rest)) => {
            let cmd = uppercase_chars(&cmd0);
            let args = trim_chars(&rest);
            if chars_eq_str(&cmd, "FROM") {
                parse_from(&args, config);
            } else if chars_eq_str(&cmd, "EXPOSE") {
                parse_expose(&args, config);
            } else if chars_eq_str(&cmd, "ENV") {
                parse_env(&args, config);
            } else if chars_eq_str(&cmd, "VOLUME") {
                parse_volume(&args, config);
            }
        },
    }
}

/// Applies `FROM`.
fn parse_from(args: &Vec<char>, config: &mut ContainerConfig)
    ensures
        final(config)@ == from_effect(args@, old(config)@),
{
    let ip = split_char(args, ':');
    assert(views(ip@)[0] == ip@[0]@);
    config.image = string_of(&ip[0]);
    if ip.len() > 1 {
        assert(views(ip@)[1] == ip@[1]@);
        config.image_version = string_of(&ip[1]);
    } else {
        config.image_version = "latest".to_string();
    }
}

/// Applies `EXPOSE`.
fn parse_expose(args: &Vec<char>, config: &mut ContainerConfig)
    ensures
        final(config)@ == (ContainerConfigView {
            ports: old(config)@.ports + exposed_ports(split_ws(args@)),
            ..old(config)@
        }),
{
    let ws = split_whitespace(args);
    let ghost wv = views(ws@);
    let ghost base = ports_view(config.ports@);
    let mut i: usize = 0;
    assert(wv.take(0) =~= Seq::<Seq<char>>::empty());
    assert(base + exposed_ports(wv.take(0)) =~= base);
    while i < ws.len()
        invariant
            wv == views(ws@),
            i <= wv.len(),
            ports_view(config.ports@) == base + exposed_ports(wv.take(i as int)),
            config.id == old(config).id,
            config.name == old(config).name,
            config.image == old(config).image,
            config.image_version == old(config).image_version,
            config.volumes == old(config).volumes,
            config.environment == old(config).environment,
            config.network_mode == old(config).network_mode,
            config.resource_limits == old(config).resource_limits,
            config.config_path == old(config).config_path,
            base == ports_view(old(config).ports@),
        decreases wv.len() - i,
    {
        assert(wv.take(i + 1).drop_last() =~= wv.take(i as int));
        assert(wv.take(i + 1).last() == ws@[i as int]@);
        let pp = split_char(&ws[i], '/');
        assert(forall|j: int| 0 <= j < pp@.len() ==> views(pp@)[j] == pp@[j]@);
        match parse_unsigned(&pp[0], 65535) {
            Some(p) => {
                let protocol = if pp.len() > 1 {
                    string_of(&lowercase_chars(&pp[1]))
                } else {
                    "tcp".to_string()
                };
                let m = PortMapping { host_port: p as u16, container_port: p as u16, protocol };
                let ghost old_p = config.ports@;
                config.ports.push(m);
                assert(ports_view(config.ports@) =~= ports_view(old_p).push(m@));
            },
            None => {},
        }
        i = i + 1;
    }
    assert(wv.take(wv.len() as int) =~= wv);
}

/// Applies `ENV`.
fn parse_env(args: &Vec<char>, config: &mut ContainerConfig)
    ensures
        final(config)@ == env_effect(args@, old(config)@),
{
    if contains_str(args, "=") {
        match split_once_char(args, '=') {
            Some((k, v)) => {
                let key = trim_chars(&k);
                let value = trim_chars(&v);
                set_env(&mut config.environment, string_of(&key), string_of(&value));
            },
            None => {},
        }
    } else {
        match split_once_char(args, ' ') {
            Some((k, v)) => {
                set_env(&mut config.environment, string_of(&k), string_of(&v));
            },
            None => {},
        }
    }
}

/// Applies `VOLUME`.
fn parse_volume(args: &Vec<char>, config: &mut ContainerConfig)
    ensures
        final(config)@ == (ContainerConfigView {
            volumes: old(config)@.volumes + path_volumes(volume_paths(args@)),
            ..old(config)@
        }),
{
    let a = trim_chars(args);
    let paths: Vec<String> = if starts_with_str(&a, "[") && ends_with_str(&a, "]") {
        let text = string_of(&a);
        match parse_json_string_list(text.as_str()) {
            Some(ps) => ps,
            None => {
                proof {
                    reveal_strlit("[");
                    reveal_strlit("]");
                    assert(a@.take(1)[0] == a@[0]);
                    assert(a@.skip(a@.len() - 1)[0] == a@[a@.len() - 1]);
                    assert(a@[0] == '[');
                    assert(a@[a@.len() - 1] == ']');
                }
                let inner = slice_of(&a, 1, a.len() - 1);
                let pieces = split_char(&inner, ',');
                unquoted(&pieces)
            },
        }
    } else {
        strings_of_chars(&split_whitespace(&a))
    };
    let ghost pv = strings_view(paths@);
    let ghost base = volumes_view(config.volumes@);
    let mut i: usize = 0;
    assert(base + path_volumes(pv.take(0)) =~= base);
    while i < paths.len()
        invariant
            pv == strings_view(paths@),
            pv == volume_paths(args@),
            i <= pv.len(),
            volumes_view(config.volumes@) == base + path_volumes(pv.take(i as int)),
            config.id == old(config).id,
            config.name == old(config).name,
            config.image == old(config).image,
            config.image_version == old(config).image_version,
            config.ports == old(config).ports,
            config.environment == old(config).environment,
            config.network_mode == old(config).network_mode,
            config.resource_limits == old(config).resource_limits,
            config.config_path == old(config).config_path,
            base == volumes_view(old(config).volumes@),
        decreases pv.len() - i,
    {
        let m = VolumeMount {
            host_path: String::new(),
            container_path: paths[i].clone(),
            read_only: false,
        };
        let ghost old_v = config.volumes@;
        config.volumes.push(m);
        assert(volumes_view(config.volumes@) =~= volumes_view(old_v).push(m@));
        assert(path_volumes(pv.take(i + 1)) =~= path_volumes(pv.take(i as int)).push(m@));
        i = i + 1;
    }
    assert(pv.take(pv.len() as int) =~= pv);
}

/// Each piece trimmed and unquoted.
fn unquoted(pieces: &Vec<Vec<char>>) -> (r: Vec<String>)
    ensures
        strings_view(r@) == clean_args(views(pieces@)),
{
    let ghost pv = views(pieces@);
    let mut r: Vec<String> = Vec::new();
    let mut i: usize = 0;
    while i < pieces.len()
        invariant
            pv == views(pieces@),
            i <= pv.len(),
            r@.len() == i,
            strings_view(r@) == clean_args(pv.take(i as int)),
        decreases pv.len() - i,
    {
        let a = trim_chars(&pieces[i]);
        let b = trim_matches_chars(&a, '"');
        let ghost old_r = r@;
        let sb = string_of(&b);
        r.push(sb);
        assert(pv[i as int] == pieces@[i as int]@);
        assert(sb@ == clean_arg(pv[i as int]));
        assert(pv.take(i + 1)[i as int] == pv[i as int]);
        assert(clean_args(pv.take(i + 1))[i as int] == clean_arg(pv[i as int]));
        assert forall|j: int| 0 <= j < i + 1 implies strings_view(r@)[j] == clean_args(
            pv.take(i + 1),
        )[j] by {
            if j < i {
                assert(strings_view(old_r)[j] == clean_args(pv.take(i as int))[j]);
            }
        }
        assert(strings_view(r@) =~= clean_args(pv.take(i + 1)));
        i = i + 1;
    }
    assert(pv.take(pv.len() as int) =~= pv);
    r
}

} // verus!

verus! {

/// `FROM name:version` sets the image name and version; without a version
/// the version is `latest`. Nothing else of the definition changes.
pub proof fn law_from_sets_the_image(args: Seq<char>, c: ContainerConfigView)
    ensures
        from_effect(args, c).image == split(args, ':')[0],
        split(args, ':').len() > 1 ==> from_effect(args, c).image_version == split(args, ':')[1],
        split(args, ':').len() <= 1 ==> from_effect(args, c).image_version == "latest"@,
        from_effect(args, c).ports == c.ports && from_effect(args, c).volumes == c.volumes
            && from_effect(args, c).environment == c.environment && from_effect(args, c).id == c.id,
{
}

/// Each word of `EXPOSE` that starts with a port number exposes that port
/// on both sides, with the lower-cased protocol after `/`, `tcp` when there
/// is none; the ports come in the order of the words.
pub proof fn law_exposed_ports(ws: Seq<Seq<char>>)
    ensures
        exposed_ports(ws).len() <= ws.len(),
        forall|k: int|
            0 <= k < exposed_ports(ws).len() ==> (#[trigger] exposed_ports(ws)[k]).host_port
                == exposed_ports(ws)[k].container_port,
    decreases ws.len(),
{
    if ws.len() > 0 {
        law_exposed_ports(ws.drop_last());
        let p = exposed_ports(ws.drop_last());
        let e = exposed_ports(ws);
        assert forall|k: int| 0 <= k < e.len() implies (#[trigger] e[k]).host_port
            == e[k].container_port by {
            if k < p.len() {
                assert(e[k] == p[k]);
            }
        }
    }
}

/// A Dockerfile's definition is named after the directory that holds it,
/// with id `dockerfile_<directory>`, read from that file, on the `bridge`
/// network and without resource limits.
pub proof fn law_dockerfile_identity(path: Seq<char>, content: Seq<char>)
    ensures
        dockerfile_config(path, content).id == "dockerfile_"@ + parent_dir_name(path),
        dockerfile_config(path, content).name == parent_dir_name(path),
        dockerfile_config(path, content).config_path == path,
        dockerfile_config(path, content).network_mode == "bridge"@,
        dockerfile_config(path, content).resource_limits is None,
{
    lemma_instructions_keep_identity(
        instructions_from(lines(content), 0, None),
        dockerfile_start(path),
    );
}

/// Instructions change neither the id, name, file, network nor limits.
proof fn lemma_instructions_keep_identity(instrs: Seq<Seq<char>>, c: ContainerConfigView)
    ensures
        apply_instructions(instrs, c).id == c.id,
        apply_instructions(instrs, c).name == c.name,
        apply_instructions(instrs, c).config_path == c.config_path,
        apply_instructions(instrs, c).network_mode == c.network_mode,
        apply_instructions(instrs, c).resource_limits == c.resource_limits,
    decreases instrs.len(),
{
    if instrs.len() > 0 {
        lemma_instructions_keep_identity(instrs.drop_last(), c);
    }
}

} // verus!
