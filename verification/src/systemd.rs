//! Systemd analysis: reading `systemctl` listings and unit descriptions into
//! [`SystemdUnit`]s, and a cache of the units found by the last scan.

use vstd::prelude::*;
use crate::models::{
    copy_opt, copy_strings, opt_view, strings_view, units_view, AgentError, CommandOutput,
    SystemdUnit, SystemdUnitView,
};
use crate::text::{
    chars_eq_str, chars_of, contains, contains_str, copy_chars, ends_with, ends_with_str, find, find_char, find_char_pos,
    find_str, join_path, join_path_string, lemma_find_bounds, lemma_find_first, lines, lines_of,
    matches_at, slice_of, split, split_char, split_once, split_once_char, split_whitespace,
    split_ws, starts_with, starts_with_str, string_of, string_of_range, trim, trim_char,
    trim_chars, trim_matches_chars, views,
};

verus! {

/// The `key=value` lines of `systemctl show` output, in order.
pub open spec fn show_props(ls: Seq<Seq<char>>) -> Seq<(Seq<char>, Seq<char>)>
    decreases ls.len(),
{
    if ls.len() == 0 {
        Seq::empty()
    } else {
        let prev = show_props(ls.drop_last());
        match split_once(ls.last(), '=') {
            Some(kv) => prev.push(kv),
            None => prev,
        }
    }
}

/// The value of `key`: that of its last line.
pub open spec fn property(props: Seq<(Seq<char>, Seq<char>)>, key: Seq<char>) -> Option<Seq<char>>
    decreases props.len(),
{
    if props.len() == 0 {
        None
    } else if props.last().0 == key {
        Some(props.last().1)
    } else {
        property(props.drop_last(), key)
    }
}

/// The value of property `key` in `systemctl show` output.
pub open spec fn show_property(text: Seq<char>, key: Seq<char>) -> Option<Seq<char>> {
    property(show_props(lines(text)), key)
}

/// The words of property `key` in `systemctl show` output, none when it is
/// missing.
pub open spec fn property_words(text: Seq<char>, key: Seq<char>) -> Seq<Seq<char>> {
    match show_property(text, key) {
        Some(d) => split_ws(d),
        None => Seq::empty(),
    }
}

/// A value, or `default` when there is none.
pub open spec fn or_default(o: Option<Seq<char>>, default: Seq<char>) -> Seq<char> {
    match o {
        Some(v) => v,
        None => default,
    }
}

/// The executable of an `ExecStart` property (`{ path=/usr/bin/x ; argv[]=... }`):
/// the text between `path=` and the next `;`, or the whole value.
pub open spec fn exec_path_of(s: Seq<char>) -> Seq<char> {
    match find(s, "path="@) {
        Some(st) => match find_char(s.skip(st), ';') {
            Some(e) => s.subrange(st + 5, st + e),
            None => s,
        },
        None => s,
    }
}

/// An argument as listed in `argv[]={...}`: trimmed, without quotes.
pub open spec fn clean_arg(a: Seq<char>) -> Seq<char> {
    trim_char(trim(a), '"')
}

/// Each argument cleaned.
pub open spec fn clean_args(s: Seq<Seq<char>>) -> Seq<Seq<char>> {
    s.map_values(|a: Seq<char>| clean_arg(a))
}

/// The arguments of an `ExecStart` property: the comma-separated list between
/// `argv[]={` and the next `};`, or none.
pub open spec fn exec_args_of(s: Seq<char>) -> Seq<Seq<char>> {
    match find(s, "argv[]={"@) {
        Some(st) => match find(s.skip(st), "};"@) {
            Some(e) => clean_args(split(s.subrange(st + 8, st + e), ',')),
            None => Seq::empty(),
        },
        None => Seq::empty(),
    }
}

/// The type of a unit from the suffix of its name.
pub open spec fn unit_type_of(name: Seq<char>) -> Seq<char> {
    if ends_with(name, ".service"@) {
        "service"@
    } else if ends_with(name, ".socket"@) {
        "socket"@
    } else if ends_with(name, ".timer"@) {
        "timer"@
    } else if ends_with(name, ".target"@) {
        "target"@
    } else if ends_with(name, ".path"@) {
        "path"@
    } else if ends_with(name, ".device"@) {
        "device"@
    } else if ends_with(name, ".mount"@) {
        "mount"@
    } else if ends_with(name, ".automount"@) {
        "automount"@
    } else if ends_with(name, ".swap"@) {
        "swap"@
    } else if ends_with(name, ".scope"@) {
        "scope"@
    } else if ends_with(name, ".slice"@) {
        "slice"@
    } else {
        "unknown"@
    }
}

/// The unit that `systemctl show <name>` output describes.
pub open spec fn unit_from_show(name: Seq<char>, text: Seq<char>) -> SystemdUnitView {
    let exec = show_property(text, "ExecStart"@);
    SystemdUnitView {
        name,
        description: or_default(show_property(text, "Description"@), name),
        unit_type: unit_type_of(name),
        exec_path: match exec {
            Some(s) => Some(exec_path_of(s)),
            None => None,
        },
        exec_args: match exec {
            Some(s) => exec_args_of(s),
            None => Seq::empty(),
        },
        user: or_default(show_property(text, "User"@), "root"@),
        group: or_default(show_property(text, "Group"@), "root"@),
        working_directory: match show_property(text, "WorkingDirectory"@) {
            Some(d) => if d == "-"@ { None } else { Some(d) },
            None => None,
        },
        dependencies: property_words(text, "Requires"@) + property_words(text, "Wants"@)
            + property_words(text, "After"@),
        state: or_default(show_property(text, "ActiveState"@), "unknown"@),
        enabled: show_property(text, "UnitFileState"@) == Some("enabled"@),
        unit_file_path: or_default(
            show_property(text, "FragmentPath"@),
            "/etc/systemd/system/"@ + name,
        ),
    }
}

/// What querying a unit with `systemctl show` yields: the unit, or `None`
/// when the command could not be started or failed.
pub open spec fn queried_unit(name: Seq<char>, out: Option<CommandOutput>) -> Option<
    SystemdUnitView,
> {
    match out {
        Some(o) => if o.success {
            Some(unit_from_show(name, o.stdout@))
        } else {
            None
        },
        None => None,
    }
}

/// The units that querying the listed units with `systemctl show` yields, in
/// order; a unit whose query failed is left out.
pub open spec fn queried_units(q: Seq<(String, Option<CommandOutput>)>) -> Seq<SystemdUnitView>
    decreases q.len(),
{
    if q.len() == 0 {
        Seq::empty()
    } else {
        let prev = queried_units(q.drop_last());
        match queried_unit(q.last().0@, q.last().1) {
            Some(u) => prev.push(u),
            None => prev,
        }
    }
}

/// The unit of the given name: the last one of that name.
pub open spec fn cached_unit(units: Seq<SystemdUnitView>, name: Seq<char>) -> Option<
    SystemdUnitView,
>
    decreases units.len(),
{
    if units.len() == 0 {
        None
    } else if units.last().name == name {
        Some(units.last())
    } else {
        cached_unit(units.drop_last(), name)
    }
}

/// Looking up a unit by name gives the last unit of that name among the
/// units of the last scan, and nothing when the scan found none of that name.
pub proof fn law_lookup_finds_last_of_name(units: Seq<SystemdUnitView>, name: Seq<char>)
    ensures
        match cached_unit(units, name) {
            Some(u) => exists|i: int|
                0 <= i < units.len() && #[trigger] units[i] == u && u.name == name && forall|j: int|
                    i < j < units.len() ==> (#[trigger] units[j]).name != name,
            None => forall|i: int| 0 <= i < units.len() ==> (#[trigger] units[i]).name != name,
        },
    decreases units.len(),
{
    if units.len() > 0 {
        let last = units.len() - 1;
        assert(units.last() == units[last]);
        if units.last().name != name {
            let rest = units.drop_last();
            law_lookup_finds_last_of_name(rest, name);
            match cached_unit(rest, name) {
                Some(u) => {
                    let i = choose|i: int|
                        0 <= i < rest.len() && #[trigger] rest[i] == u && u.name == name && forall|
                            j: int,
                        | i < j < rest.len() ==> (#[trigger] rest[j]).name != name;
                    assert(units[i] == rest[i]);
                    assert forall|j: int| i < j < units.len() implies (#[trigger] units[j]).name
                        != name by {
                        if j < last {
                            assert(units[j] == rest[j]);
                        }
                    }
                },
                None => {
                    assert forall|i: int| 0 <= i < units.len() implies (#[trigger] units[i]).name
                        != name by {
                        if i < last {
                            assert(units[i] == rest[i]);
                        }
                    }
                },
            }
        }
    }
}

/// The names that a unit listing yields: `None` when `systemctl
/// list-units` could not be started, none when it failed, else the listed
/// units.
pub open spec fn listing_names(output: Option<CommandOutput>) -> Option<Seq<Seq<char>>> {
    match output {
        None => None,
        Some(o) => Some(if o.success { listed_units(lines(o.stdout@)) } else { Seq::empty() }),
    }
}

/// The units that querying the named units yields, each name paired with
/// the output of `systemctl show` for it, in order; a unit whose query
/// failed is left out.
pub open spec fn units_of_names(names: Seq<Seq<char>>, outputs: Seq<Option<CommandOutput>>) -> Seq<
    SystemdUnitView,
>
    decreases names.len(),
{
    if names.len() == 0 || outputs.len() == 0 {
        Seq::empty()
    } else {
        let prev = units_of_names(names.drop_last(), outputs.drop_last());
        match queried_unit(names.last(), outputs.last()) {
            Some(u) => prev.push(u),
            None => prev,
        }
    }
}

/// A scan queries the units its listing named. A listing that could not be
/// started yields an error and no scan, so the cache stays as it was; a
/// listing that failed names no unit, and the scan of those units finds
/// none, so the cache it leaves is empty.
pub proof fn law_failed_listing_empties_cache(
    listing: CommandOutput,
    queried: Seq<(String, Option<CommandOutput>)>,
    outputs: Seq<Option<CommandOutput>>,
)
    requires
        !listing.success,
        queried.map_values(|q: (String, Option<CommandOutput>)| q.0@) == listing_names(
            Some(listing),
        ).unwrap(),
    ensures
        listing_names(None) is None,
        queried_units(queried) == Seq::<SystemdUnitView>::empty(),
        units_of_names(listing_names(Some(listing)).unwrap(), outputs) == Seq::<
            SystemdUnitView,
        >::empty(),
{
    assert(queried.map_values(|q: (String, Option<CommandOutput>)| q.0@).len() == 0);
}

/// The names of the units that `systemctl list-units --no-legend` lists: the
/// first word of each line of at least four words.
pub open spec fn listed_units(ls: Seq<Seq<char>>) -> Seq<Seq<char>>
    decreases ls.len(),
{
    if ls.len() == 0 {
        Seq::empty()
    } else {
        let prev = listed_units(ls.drop_last());
        let parts = split_ws(ls.last());
        if parts.len() >= 4 {
            prev.push(parts[0])
        } else {
            prev
        }
    }
}

/// The unit files where `systemctl list-unit-files --no-legend` lists units:
/// for each line with a word, that unit under `/etc/systemd/system` and under
/// `/usr/lib/systemd/system`.
pub open spec fn unit_file_candidates(ls: Seq<Seq<char>>) -> Seq<(Seq<char>, Seq<char>)>
    decreases ls.len(),
{
    if ls.len() == 0 {
        Seq::empty()
    } else {
        let prev = unit_file_candidates(ls.drop_last());
        let parts = split_ws(ls.last());
        if parts.len() > 0 {
            prev.push(
                (
                    join_path("/etc/systemd/system"@, parts[0]),
                    join_path("/usr/lib/systemd/system"@, parts[0]),
                ),
            )
        } else {
            prev
        }
    }
}

/// The units named in a line of `/proc/<pid>/cgroup`: the path components
/// that end in `.service` or `.scope`, from position `i` on.
pub open spec fn units_in_parts(parts: Seq<Seq<char>>) -> Seq<Seq<char>>
    decreases parts.len(),
{
    if parts.len() == 0 {
        Seq::empty()
    } else {
        let prev = units_in_parts(parts.drop_last());
        if ends_with(parts.last(), ".service"@) || ends_with(parts.last(), ".scope"@) {
            prev.push(parts.last())
        } else {
            prev
        }
    }
}

/// The units that the systemd lines of `/proc/<pid>/cgroup` name.
pub open spec fn cgroup_units(ls: Seq<Seq<char>>) -> Seq<Seq<char>>
    decreases ls.len(),
{
    if ls.len() == 0 {
        Seq::empty()
    } else {
        let prev = cgroup_units(ls.drop_last());
        if contains(ls.last(), "systemd"@) {
            prev + units_in_parts(split(ls.last(), '/'))
        } else {
            prev
        }
    }
}

/// What `systemctl is-active`, `is-failed` and `is-enabled` (each with
/// `--quiet`) reported for a unit: whether each succeeded, `None` where the
/// command could not be started.
pub struct UnitStatus {
    pub active: Option<bool>,
    pub failed: Option<bool>,
    pub enabled: Option<bool>,
}

/// The state of a unit and whether it is enabled, `None` when a command that
/// is needed could not be started. `is-failed` is only consulted for a unit
/// that is not active.
pub open spec fn unit_state(st: UnitStatus) -> Option<(Seq<char>, bool)> {
    let state = match st.active {
        None => None,
        Some(true) => Some("active"@),
        Some(false) => match st.failed {
            None => None,
            Some(true) => Some("failed"@),
            Some(false) => Some("inactive"@),
        },
    };
    match (state, st.enabled) {
        (Some(s), Some(e)) => Some((s, e)),
        _ => None,
    }
}

/// What reading a unit file has found so far.
pub struct UnitFileFields {
    pub section: Seq<char>,
    pub description: Seq<char>,
    pub exec_path: Option<Seq<char>>,
    pub exec_args: Seq<Seq<char>>,
    pub user: Seq<char>,
    pub group: Seq<char>,
    pub working_directory: Option<Seq<char>>,
    pub dependencies: Seq<Seq<char>>,
}

/// The effect of one `key=value` line of section `[Unit]` or `[Service]`.
pub open spec fn unit_file_entry(f: UnitFileFields, key: Seq<char>, value: Seq<char>) -> UnitFileFields {
    if f.section == "[Unit]"@ {
        if key == "Description"@ {
            UnitFileFields { description: value, ..f }
        } else if key == "Requires"@ || key == "Wants"@ || key == "After"@ {
            UnitFileFields { dependencies: f.dependencies + split_ws(value), ..f }
        } else {
            f
        }
    } else if f.section == "[Service]"@ {
        if key == "ExecStart"@ {
            match split_once(value, ' ') {
                Some((cmd, args)) => UnitFileFields {
                    exec_path: Some(cmd),
                    exec_args: split_ws(args),
                    ..f
                },
                None => UnitFileFields { exec_path: Some(value), ..f },
            }
        } else if key == "User"@ {
            UnitFileFields { user: value, ..f }
        } else if key == "Group"@ {
            UnitFileFields { group: value, ..f }
        } else if key == "WorkingDirectory"@ {
            UnitFileFields { working_directory: Some(value), ..f }
        } else {
            f
        }
    } else {
        f
    }
}

/// Reading the lines of a unit file: blank lines and `#` comments skipped,
/// `[...]` lines open a section, `key=value` lines set fields.
pub open spec fn unit_file_scan(name: Seq<char>, ls: Seq<Seq<char>>) -> UnitFileFields
    decreases ls.len(),
{
    if ls.len() == 0 {
        UnitFileFields {
            section: Seq::empty(),
            description: name,
            exec_path: None,
            exec_args: Seq::empty(),
            user: "root"@,
            group: "root"@,
            working_directory: None,
            dependencies: Seq::empty(),
        }
    } else {
        let f = unit_file_scan(name, ls.drop_last());
        let line = trim(ls.last());
        if line.len() == 0 || starts_with(line, "#"@) {
            f
        } else if starts_with(line, "["@) && ends_with(line, "]"@) {
            UnitFileFields { section: line, ..f }
        } else {
            match split_once(line, '=') {
                Some((k, v)) => unit_file_entry(f, trim(k), trim(v)),
                None => f,
            }
        }
    }
}

/// The unit that a unit file describes, with its state and enablement.
pub open spec fn unit_from_file(
    name: Seq<char>,
    path: Seq<char>,
    content: Seq<char>,
    state: Seq<char>,
    enabled: bool,
) -> SystemdUnitView {
    let f = unit_file_scan(name, lines(content));
    SystemdUnitView {
        name,
        description: f.description,
        unit_type: unit_type_of(name),
        exec_path: f.exec_path,
        exec_args: f.exec_args,
        user: f.user,
        group: f.group,
        working_directory: f.working_directory,
        dependencies: f.dependencies,
        state,
        enabled,
        unit_file_path: path,
    }
}

/// The views of property pairs.
pub open spec fn props_view(v: Seq<(Vec<char>, Vec<char>)>) -> Seq<(Seq<char>, Seq<char>)> {
    v.map_values(|p: (Vec<char>, Vec<char>)| (p.0@, p.1@))
}

/// The `key=value` pairs of `systemctl show` output.
fn properties_of(text: &Vec<char>) -> (r: Vec<(Vec<char>, Vec<char>)>)
    ensures
        props_view(r@) == show_props(lines(text@)),
{
    let ls = lines_of(text);
    let ghost lv = views(ls@);
    let mut r: Vec<(Vec<char>, Vec<char>)> = Vec::new();
    let mut k: usize = 0;
    assert(lv.take(0) =~= Seq::<Seq<char>>::empty());
    while k < ls.len()
        invariant
            lv == views(ls@),
            k <= lv.len(),
            props_view(r@) == show_props(lv.take(k as int)),
        decreases lv.len() - k,
    {
        assert(lv.take(k + 1).drop_last() =~= lv.take(k as int));
        assert(lv.take(k + 1).last() == ls@[k as int]@);
        match split_once_char(&ls[k], '=') {
            Some(kv) => {
                let ghost old_r = r@;
                r.push(kv);
                assert(props_view(r@) =~= props_view(old_r).push((kv.0@, kv.1@)));
            },
            None => {},
        }
        k = k + 1;
    }
    assert(lv.take(lv.len() as int) =~= lv);
    r
}

/// The value of `key` among the pairs.
fn lookup(props: &Vec<(Vec<char>, Vec<char>)>, key: &str) -> (r: Option<Vec<char>>)
    ensures
        match r {
            Some(v) => property(props_view(props@), key@) == Some(v@),
            None => property(props_view(props@), key@) is None,
        },
{
    let ghost pv = props_view(props@);
    let mut i = props.len();
    assert(pv.take(i as int) =~= pv);
    while i > 0
        invariant
            pv == props_view(props@),
            i <= pv.len(),
            property(pv, key@) == property(pv.take(i as int), key@),
        decreases i,
    {
        let ghost t = pv.take(i as int);
        assert(t.last() == (props@[i - 1].0@, props@[i - 1].1@));
        assert(t.drop_last() =~= pv.take(i - 1));
        if chars_eq_str(&props[i - 1].0, key) {
            return Some(copy_chars(&props[i - 1].1));
        }
        i = i - 1;
    }
    None
}

/// A value as a `String`, or `default`.
fn value_or(v: Option<Vec<char>>, default: String) -> (r: String)
    ensures
        r@ == or_default(
            match v {
                Some(x) => Some(x@),
                None => None,
            },
            default@,
        ),
{
    match v {
        Some(x) => string_of(&x),
        None => default,
    }
}

/// The executable of an `ExecStart` value.
fn exec_path_from(s: &Vec<char>) -> (r: String)
    ensures
        r@ == exec_path_of(s@),
{
    match find_str(s, "path=") {
        Some(st) => {
            proof {
                lemma_find_bounds(s@, "path="@);
            }
            let t = slice_of(s, st, s.len());
            assert(t@ =~= s@.skip(st as int));
            match find_char_pos(&t, ';') {
                Some(e) => {
                    proof {
                        lemma_find_bounds(t@, seq![';']);
                        reveal_strlit("path=");
                        assert(seq![';'].len() == 1);
                        if e < 5 {
                            assert(t@[e as int] == s@.subrange(st as int, st + 5)[e as int]);
                            assert(t@.subrange(e as int, e + 1)[0] == ';');
                        }
                    }
                    string_of_range(s, st + 5, st + e)
                },
                None => string_of(s),
            }
        },
        None => string_of(s),
    }
}

/// The arguments of an `ExecStart` value.
fn exec_args_from(s: &Vec<char>) -> (r: Vec<String>)
    ensures
        strings_view(r@) == exec_args_of(s@),
{
    match find_str(s, "argv[]={") {
        Some(st) => {
            proof {
                lemma_find_bounds(s@, "argv[]={"@);
            }
            let t = slice_of(s, st, s.len());
            assert(t@ =~= s@.skip(st as int));
            match find_str(&t, "};") {
                Some(e) => {
                    proof {
                        lemma_find_bounds(t@, "};"@);
                        reveal_strlit("argv[]={");
                        reveal_strlit("};");
                        if e < 8 {
                            assert(t@[e as int] == s@.subrange(st as int, st + 8)[e as int]);
                            assert(t@.subrange(e as int, e + 2)[0] == '}');
                        }
                    }
                    let inner = slice_of(s, st + 8, st + e);
                    let pieces = split_char(&inner, ',');
                    let ghost pv = views(pieces@);
                    let mut r: Vec<String> = Vec::new();
                    let mut i: usize = 0;
                    while i < pieces.len()
                        invariant
                            pv == views(pieces@),
                            i <= pv.len(),
                            r@.len() == i,
                            strings_view(r@) == clean_args(pv.take(i as int)),
                        decreases pv.len() - i,
                    {
                        let a = trim_chars(&pieces[i]);
                        let b = trim_matches_chars(&a, '"');
                        let ghost old_r = r@;
                        let sb = string_of(&b);
                        r.push(sb);
                        assert(pv[i as int] == pieces@[i as int]@);
                        assert(strings_view(r@)[i as int] == sb@);
                        assert forall|j: int| 0 <= j < i implies strings_view(r@)[j]
                            == strings_view(old_r)[j] by {}
                        assert(sb@ == clean_arg(pv[i as int]));
                        assert forall|j: int| 0 <= j < i implies clean_args(pv.take(i + 1))[j]
                            == clean_args(pv.take(i as int))[j] by {}
                        assert(pv.take(i + 1)[i as int] == pv[i as int]);
                        assert(clean_args(pv.take(i + 1))[i as int] == clean_arg(pv[i as int]));
                        assert(clean_args(pv.take(i + 1)).len() == i + 1);
                        assert(strings_view(r@).len() == i + 1);
                        assert forall|j: int| 0 <= j < i + 1 implies strings_view(r@)[j]
                            == clean_args(pv.take(i + 1))[j] by {
                            if j < i {
                                assert(strings_view(old_r)[j] == clean_args(pv.take(i as int))[j]);
                            }
                        }
                        assert(strings_view(r@) =~= clean_args(pv.take(i + 1)));
                        i = i + 1;
                    }
                    assert(pv.take(pv.len() as int) =~= pv);
                    assert(views(pieces@) == split(inner@, ','));
                    assert(inner@ =~= s@.subrange(st + 8, st + e));
                    r
                },
                None => {
                    let r: Vec<String> = Vec::new();
                    assert(strings_view(r@) =~= Seq::<Seq<char>>::empty());
                    r
                },
            }
        },
        None => {
            let r: Vec<String> = Vec::new();
            assert(strings_view(r@) =~= Seq::<Seq<char>>::empty());
            r
        },
    }
}

/// The type of a unit from the suffix of its name.
fn unit_type_from(name: &Vec<char>) -> (r: String)
    ensures
        r@ == unit_type_of(name@),
{
    if ends_with_str(name, ".service") {
        "service".to_string()
    } else if ends_with_str(name, ".socket") {
        "socket".to_string()
    } else if ends_with_str(name, ".timer") {
        "timer".to_string()
    } else if ends_with_str(name, ".target") {
        "target".to_string()
    } else if ends_with_str(name, ".path") {
        "path".to_string()
    } else if ends_with_str(name, ".device") {
        "device".to_string()
    } else if ends_with_str(name, ".mount") {
        "mount".to_string()
    } else if ends_with_str(name, ".automount") {
        "automount".to_string()
    } else if ends_with_str(name, ".swap") {
        "swap".to_string()
    } else if ends_with_str(name, ".scope") {
        "scope".to_string()
    } else if ends_with_str(name, ".slice") {
        "slice".to_string()
    } else {
        "unknown".to_string()
    }
}

/// The words of a property, none when it is missing.
fn words_of_property(props: &Vec<(Vec<char>, Vec<char>)>, key: &str) -> (r: Vec<String>)
    ensures
        strings_view(r@) == match property(props_view(props@), key@) {
            Some(d) => split_ws(d),
            None => Seq::<Seq<char>>::empty(),
        },
{
    match lookup(props, key) {
        Some(d) => {
            let ws = split_whitespace(&d);
            strings_of(&ws)
        },
        None => {
            let r: Vec<String> = Vec::new();
            assert(strings_view(r@) =~= Seq::<Seq<char>>::empty());
            r
        },
    }
}

/// The unit that `systemctl show <name>` output describes.
pub fn unit_from_show_output(unit_name: &str, output: &str) -> (u: SystemdUnit)
    ensures
        u@ == unit_from_show(unit_name@, output@),
{
    let name = chars_of(unit_name);
    let text = chars_of(output);
    let props = properties_of(&text);
    let exec = lookup(&props, "ExecStart");
    let exec_path = match &exec {
        Some(s) => Some(exec_path_from(s)),
        None => None,
    };
    let exec_args = match &exec {
        Some(s) => exec_args_from(s),
        None => {
            let r: Vec<String> = Vec::new();
            assert(strings_view(r@) =~= Seq::<Seq<char>>::empty());
            r
        },
    };
    let working_directory = match lookup(&props, "WorkingDirectory") {
        Some(d) => if chars_eq_str(&d, "-") {
            None
        } else {
            Some(string_of(&d))
        },
        None => None,
    };
    let mut dependencies = words_of_property(&props, "Requires");
    let mut wants = words_of_property(&props, "Wants");
    let mut after = words_of_property(&props, "After");
    let ghost (d0, w0, a0) = (dependencies@, wants@, after@);
    dependencies.append(&mut wants);
    dependencies.append(&mut after);
    assert(strings_view(dependencies@) =~= strings_view(d0) + strings_view(w0) + strings_view(a0));
    let enabled = match lookup(&props, "UnitFileState") {
        Some(v) => chars_eq_str(&v, "enabled"),
        None => false,
    };
    let mut default_path = "/etc/systemd/system/".to_string();
    default_path.append(unit_name);
    SystemdUnit {
        name: unit_name.to_string(),
        description: value_or(lookup(&props, "Description"), unit_name.to_string()),
        unit_type: unit_type_from(&name),
        exec_path,
        exec_args,
        user: value_or(lookup(&props, "User"), "root".to_string()),
        group: value_or(lookup(&props, "Group"), "root".to_string()),
        working_directory,
        dependencies,
        state: value_or(lookup(&props, "ActiveState"), "unknown".to_string()),
        enabled,
        unit_file_path: value_or(lookup(&props, "FragmentPath"), default_path),
    }
}

/// Analyzer of systemd units, keeping the units of its last scan.
pub struct SystemdAnalyzer {
    cached_units: Vec<SystemdUnit>,
}

impl SystemdAnalyzer {
    /// The units of the last scan, in the order they were found.
    pub closed spec fn cache(&self) -> Seq<SystemdUnitView> {
        units_view(self.cached_units@)
    }

    /// An analyzer that has not scanned yet.
    pub fn new() -> (a: Self)
        ensures
            a.cache() == Seq::<SystemdUnitView>::empty(),
    {
        let a = SystemdAnalyzer { cached_units: Vec::new() };
        assert(a.cache() =~= Seq::<SystemdUnitView>::empty());
        a
    }

    /// The names of the units that `systemctl list-units --type=service --all
    /// --no-legend` listed: an error when the command could not be started,
    /// none when it failed.
    pub fn list_active_unit_names(output: &Option<CommandOutput>) -> (r: Result<
        Vec<String>,
        AgentError,
    >)
        ensures
            match listing_names(*output) {
                None => r == Err::<Vec<String>, AgentError>(AgentError::CommandUnavailable),
                Some(ns) => r matches Ok(names) && strings_view(names@) == ns,
            },
    {
        match output {
            None => Err(AgentError::CommandUnavailable),
            Some(o) => {
                let mut names: Vec<String> = Vec::new();
                if !o.success {
                    assert(strings_view(names@) =~= Seq::<Seq<char>>::empty());
                    return Ok(names);
                }
                let text = chars_of(o.stdout.as_str());
                let ls = lines_of(&text);
                let ghost lv = views(ls@);
                let mut k: usize = 0;
                assert(lv.take(0) =~= Seq::<Seq<char>>::empty());
                while k < ls.len()
                    invariant
                        lv == views(ls@),
                        k <= lv.len(),
                        names@.len() == strings_view(names@).len(),
                        strings_view(names@) == listed_units(lv.take(k as int)),
                    decreases lv.len() - k,
                {
                    assert(lv.take(k + 1).drop_last() =~= lv.take(k as int));
                    assert(lv.take(k + 1).last() == ls@[k as int]@);
                    let parts = split_whitespace(&ls[k]);
                    if parts.len() >= 4 {
                        let ghost old_n = names@;
                        let w = string_of(&parts[0]);
                        names.push(w);
                        assert(views(parts@)[0] == parts@[0]@);
                        assert(strings_view(names@) =~= strings_view(old_n).push(w@));
                    }
                    k = k + 1;
                }
                assert(lv.take(lv.len() as int) =~= lv);
                Ok(names)
            },
        }
    }

    /// The unit that `systemctl show <unit_name>` describes: an error when the
    /// command could not be started or failed.
    pub fn get_unit_info(unit_name: &str, output: &Option<CommandOutput>) -> (r: Result<
        SystemdUnit,
        AgentError,
    >)
        ensures
            match r {
                Ok(u) => queried_unit(unit_name@, *output) == Some(u@),
                Err(e) => queried_unit(unit_name@, *output) is None && e == (if output.is_none() {
                    AgentError::CommandUnavailable
                } else {
                    AgentError::CommandFailed
                }),
            },
    {
        match output {
            None => Err(AgentError::CommandUnavailable),
            Some(o) => if o.success {
                Ok(unit_from_show_output(unit_name, o.stdout.as_str()))
            } else {
                Err(AgentError::CommandFailed)
            },
        }
    }

    /// Scans the units that a listing names: `outputs` holds the output of
    /// `systemctl show` for each listed unit, in order. When the listing
    /// could not be started the scan is an error and the units of the last
    /// scan are kept; otherwise the units whose query succeeded are returned
    /// and kept, none when the listing failed.
    pub fn scan_listed_units(
        &mut self,
        listing: &Option<CommandOutput>,
        outputs: &Vec<Option<CommandOutput>>,
    ) -> (r: Result<Vec<SystemdUnit>, AgentError>)
        requires
            listing_names(*listing) matches Some(ns) ==> outputs@.len() == ns.len(),
        ensures
            match listing_names(*listing) {
                None => r == Err::<Vec<SystemdUnit>, AgentError>(AgentError::CommandUnavailable)
                    && final(self).cache() == old(self).cache(),
                Some(ns) => r matches Ok(units) && units_view(units@) == units_of_names(
                    ns,
                    outputs@,
                ) && final(self).cache() == units_view(units@),
            },
    {
        let names = match Self::list_active_unit_names(listing) {
            Err(e) => {
                return Err(e);
            },
            Ok(names) => names,
        };
        let ghost ns = strings_view(names@);
        let mut units: Vec<SystemdUnit> = Vec::new();
        let mut cache: Vec<SystemdUnit> = Vec::new();
        let mut k: usize = 0;
        assert(ns.take(0) =~= Seq::<Seq<char>>::empty());
        while k < names.len()
            invariant
                ns == strings_view(names@),
                outputs@.len() == ns.len(),
                k <= ns.len(),
                units_view(units@) == units_of_names(ns.take(k as int), outputs@.take(k as int)),
                units_view(cache@) == units_view(units@),
            decreases ns.len() - k,
        {
            assert(ns.take(k + 1).drop_last() =~= ns.take(k as int));
            assert(outputs@.take(k + 1).drop_last() =~= outputs@.take(k as int));
            assert(ns.take(k + 1).last() == names@[k as int]@);
            assert(outputs@.take(k + 1).last() == outputs@[k as int]);
            match Self::get_unit_info(names[k].as_str(), &outputs[k]) {
                Ok(u) => {
                    let ghost old_u = units@;
                    let ghost old_c = cache@;
                    let copy = u.clone_unit();
                    units.push(u);
                    cache.push(copy);
                    assert(units_view(units@) =~= units_view(old_u).push(u@));
                    assert(units_view(cache@) =~= units_view(old_c).push(u@));
                },
                Err(_) => {},
            }
            k = k + 1;
        }
        assert(ns.take(ns.len() as int) =~= ns);
        assert(outputs@.take(ns.len() as int) =~= outputs@);
        self.cached_units = cache;
        Ok(units)
    }

    /// Scans the units: each listed unit paired with the output of
    /// `systemctl show` for it. The units whose query succeeded are returned
    /// and kept for later lookups.
    pub fn scan_units(&mut self, queried: &Vec<(String, Option<CommandOutput>)>) -> (r: Vec<
        SystemdUnit,
    >)
        ensures
            units_view(r@) == queried_units(queried@),
            final(self).cache() == units_view(r@),
    {
        let mut units: Vec<SystemdUnit> = Vec::new();
        let mut cache: Vec<SystemdUnit> = Vec::new();
        let mut k: usize = 0;
        assert(queried@.take(0) =~= Seq::<(String, Option<CommandOutput>)>::empty());
        while k < queried.len()
            invariant
                k <= queried@.len(),
                units_view(units@) == queried_units(queried@.take(k as int)),
                units_view(cache@) == units_view(units@),
            decreases queried@.len() - k,
        {
            assert(queried@.take(k + 1).drop_last() =~= queried@.take(k as int));
            assert(queried@.take(k + 1).last() == queried@[k as int]);
            let (name, out) = &queried[k];
            match Self::get_unit_info(name.as_str(), out) {
                Ok(u) => {
                    let ghost old_u = units@;
                    let ghost old_c = cache@;
                    let copy = u.clone_unit();
                    units.push(u);
                    cache.push(copy);
                    assert(units_view(units@) =~= units_view(old_u).push(u@));
                    assert(units_view(cache@) =~= units_view(old_c).push(u@));
                },
                Err(_) => {},
            }
            k = k + 1;
        }
        assert(queried@.take(queried@.len() as int) =~= queried@);
        self.cached_units = cache;
        units
    }

    /// The unit of the last scan with the given name.
    pub fn get_unit(&self, unit_name: &str) -> (r: Option<&SystemdUnit>)
        ensures
            match r {
                Some(u) => cached_unit(self.cache(), unit_name@) == Some(u@),
                None => cached_unit(self.cache(), unit_name@) is None,
            },
    {
        let ghost cv = self.cache();
        let mut i = self.cached_units.len();
        assert(cv.take(i as int) =~= cv);
        while i > 0
            invariant
                cv == self.cache(),
                cv == units_view(self.cached_units@),
                i <= cv.len(),
                cached_unit(cv, unit_name@) == cached_unit(cv.take(i as int), unit_name@),
            decreases i,
        {
            let ghost t = cv.take(i as int);
            assert(t.last() == self.cached_units@[i - 1]@);
            assert(t.drop_last() =~= cv.take(i - 1));
            let u = &self.cached_units[i - 1];
            if text_eq(&u.name, unit_name) {
                return Some(u);
            }
            i = i - 1;
        }
        None
    }

    /// Whether the unit is active: its state in the last scan, or, for a unit
    /// that the scan did not find, what `systemctl is-active` reports.
    pub fn is_unit_active<F: FnOnce() -> bool>(&self, unit_name: &str, systemctl_is_active: F) -> (r:
        bool)
        requires
            systemctl_is_active.requires(()),
        ensures
            match cached_unit(self.cache(), unit_name@) {
                Some(u) => r == (u.state == "active"@),
                None => systemctl_is_active.ensures((), r),
            },
    {
        match self.get_unit(unit_name) {
            Some(u) => text_eq(&u.state, "active"),
            None => systemctl_is_active(),
        }
    }

    /// The dependencies of the unit in the last scan; none for a unit that the
    /// scan did not find.
    pub fn get_unit_dependencies(&self, unit_name: &str) -> (r: Vec<String>)
        ensures
            strings_view(r@) == match cached_unit(self.cache(), unit_name@) {
                Some(u) => u.dependencies,
                None => Seq::empty(),
            },
    {
        match self.get_unit(unit_name) {
            Some(u) => copy_strings(&u.dependencies),
            None => {
                let r: Vec<String> = Vec::new();
                assert(strings_view(r@) =~= Seq::<Seq<char>>::empty());
                r
            },
        }
    }

    /// The units that a process belongs to, from the text of its
    /// `/proc/<pid>/cgroup` file (empty when the file cannot be read).
    pub fn find_units_for_process(&self, cgroup: &str) -> (r: Vec<String>)
        ensures
            strings_view(r@) == cgroup_units(lines(cgroup@)),
    {
        let text = chars_of(cgroup);
        let ls = lines_of(&text);
        let ghost lv = views(ls@);
        let mut units: Vec<String> = Vec::new();
        let mut k: usize = 0;
        assert(lv.take(0) =~= Seq::<Seq<char>>::empty());
        while k < ls.len()
            invariant
                lv == views(ls@),
                k <= lv.len(),
                units@.len() == strings_view(units@).len(),
                strings_view(units@) == cgroup_units(lv.take(k as int)),
            decreases lv.len() - k,
        {
            assert(lv.take(k + 1).drop_last() =~= lv.take(k as int));
            assert(lv.take(k + 1).last() == ls@[k as int]@);
            if contains_str(&ls[k], "systemd") {
                let parts = split_char(&ls[k], '/');
                let ghost pv = views(parts@);
                let ghost base = strings_view(units@);
                let mut j: usize = 0;
                assert(pv.take(0) =~= Seq::<Seq<char>>::empty());
                assert(base + units_in_parts(pv.take(0)) =~= base);
                while j < parts.len()
                    invariant
                        pv == views(parts@),
                        j <= pv.len(),
                        strings_view(units@) == base + units_in_parts(pv.take(j as int)),
                    decreases pv.len() - j,
                {
                    assert(pv.take(j + 1).drop_last() =~= pv.take(j as int));
                    assert(pv.take(j + 1).last() == parts@[j as int]@);
                    if ends_with_str(&parts[j], ".service") || ends_with_str(&parts[j], ".scope") {
                        let ghost old_u = units@;
                        let w = string_of(&parts[j]);
                        units.push(w);
                        assert(strings_view(units@) =~= strings_view(old_u).push(w@));
                        assert(base + units_in_parts(pv.take(j + 1)) =~= (base + units_in_parts(
                            pv.take(j as int),
                        )).push(w@));
                    }
                    j = j + 1;
                }
                assert(pv.take(pv.len() as int) =~= pv);
            }
            k = k + 1;
        }
        assert(lv.take(lv.len() as int) =~= lv);
        units
    }

    /// The state of a unit and whether it starts at boot.
    pub fn get_unit_state(&self, status: &UnitStatus) -> (r: Result<(String, bool), AgentError>)
        ensures
            match r {
                Ok((s, e)) => unit_state(*status) == Some((s@, e)),
                Err(err) => unit_state(*status) is None && err == AgentError::CommandUnavailable,
            },
    {
        let state = match status.active {
            None => return Err(AgentError::CommandUnavailable),
            Some(true) => "active".to_string(),
            Some(false) => match status.failed {
                None => return Err(AgentError::CommandUnavailable),
                Some(true) => "failed".to_string(),
                Some(false) => "inactive".to_string(),
            },
        };
        match status.enabled {
            None => Err(AgentError::CommandUnavailable),
            Some(e) => Ok((state, e)),
        }
    }

    /// The unit files that `systemctl list-unit-files --type=service
    /// --no-legend` lists, each as its two candidate locations: an error when
    /// the command could not be started, none when it failed.
    pub fn find_unit_files(&self, output: &Option<CommandOutput>) -> (r: Result<
        Vec<(String, String)>,
        AgentError,
    >)
        ensures
            match output {
                None => r == Err::<Vec<(String, String)>, AgentError>(
                    AgentError::CommandUnavailable,
                ),
                Some(o) => r matches Ok(c) && pairs_view(c@) == if o.success {
                    unit_file_candidates(lines(o.stdout@))
                } else {
                    Seq::empty()
                },
            },
    {
        match output {
            None => Err(AgentError::CommandUnavailable),
            Some(o) => {
                let mut found: Vec<(String, String)> = Vec::new();
                if !o.success {
                    assert(pairs_view(found@) =~= Seq::<(Seq<char>, Seq<char>)>::empty());
                    return Ok(found);
                }
                let text = chars_of(o.stdout.as_str());
                let ls = lines_of(&text);
                let ghost lv = views(ls@);
                let mut k: usize = 0;
                assert(lv.take(0) =~= Seq::<Seq<char>>::empty());
                while k < ls.len()
                    invariant
                        lv == views(ls@),
                        k <= lv.len(),
                        pairs_view(found@) == unit_file_candidates(lv.take(k as int)),
                    decreases lv.len() - k,
                {
                    assert(lv.take(k + 1).drop_last() =~= lv.take(k as int));
                    assert(lv.take(k + 1).last() == ls@[k as int]@);
                    let parts = split_whitespace(&ls[k]);
                    if parts.len() > 0 {
                        let ghost old_f = found@;
                        assert(views(parts@)[0] == parts@[0]@);
                        let name = string_of(&parts[0]);
                        let a = join_path_string("/etc/systemd/system", name.as_str());
                        let b = join_path_string("/usr/lib/systemd/system", name.as_str());
                        found.push((a, b));
                        assert(pairs_view(found@) =~= pairs_view(old_f).push((a@, b@)));
                    }
                    k = k + 1;
                }
                assert(lv.take(lv.len() as int) =~= lv);
                Ok(found)
            },
        }
    }

    /// The unit that a unit file describes: `content` is the file's text
    /// (`None` when it does not exist or cannot be read) and `status` what
    /// `systemctl` reports of the unit.
    pub fn parse_unit_file(
        &self,
        unit_name: &str,
        file_path: &str,
        content: &Option<String>,
        status: &UnitStatus,
    ) -> (r: Result<SystemdUnit, AgentError>)
        ensures
            match content {
                None => r == Err::<SystemdUnit, AgentError>(AgentError::FileUnavailable),
                Some(text) => match unit_state(*status) {
                    None => r == Err::<SystemdUnit, AgentError>(AgentError::CommandUnavailable),
                    Some((s, e)) => r matches Ok(u) && u@ == unit_from_file(
                        unit_name@,
                        file_path@,
                        text@,
                        s,
                        e,
                    ),
                },
            },
    {
        let text = match content {
            None => return Err(AgentError::FileUnavailable),
            Some(t) => t,
        };
        let name = chars_of(unit_name);
        let f = read_unit_file(&name, text.as_str());
        let unit_type = unit_type_from(&name);
        let (state, enabled) = self.get_unit_state(status)?;
        Ok(
            SystemdUnit {
                name: unit_name.to_string(),
                description: f.description,
                unit_type,
                exec_path: f.exec_path,
                exec_args: f.exec_args,
                user: f.user,
                group: f.group,
                working_directory: f.working_directory,
                dependencies: f.dependencies,
                state,
                enabled,
                unit_file_path: file_path.to_string(),
            },
        )
    }
}

/// What reading a unit file has found so far.
struct UnitFileState {
    section: Vec<char>,
    description: String,
    exec_path: Option<String>,
    exec_args: Vec<String>,
    user: String,
    group: String,
    working_directory: Option<String>,
    dependencies: Vec<String>,
}

impl View for UnitFileState {
    type V = UnitFileFields;

    closed spec fn view(&self) -> UnitFileFields {
        UnitFileFields {
            section: self.section@,
            description: self.description@,
            exec_path: opt_view(self.exec_path),
            exec_args: strings_view(self.exec_args@),
            user: self.user@,
            group: self.group@,
            working_directory: opt_view(self.working_directory),
            dependencies: strings_view(self.dependencies@),
        }
    }
}

/// Reads a unit file's lines.
fn read_unit_file(name: &Vec<char>, content: &str) -> (f: UnitFileState)
    ensures
        f@ == unit_file_scan(name@, lines(content@)),
{
    let text = chars_of(content);
    let ls = lines_of(&text);
    let ghost lv = views(ls@);
    let mut f = UnitFileState {
        section: Vec::new(),
        description: string_of(name),
        exec_path: None,
        exec_args: Vec::new(),
        user: "root".to_string(),
        group: "root".to_string(),
        working_directory: None,
        dependencies: Vec::new(),
    };
    assert(lv.take(0) =~= Seq::<Seq<char>>::empty());
    assert(strings_view(f.exec_args@) =~= Seq::<Seq<char>>::empty());
    assert(strings_view(f.dependencies@) =~= Seq::<Seq<char>>::empty());
    assert(f.section@ =~= Seq::<char>::empty());
    assert(f@ =~= unit_file_scan(name@, lv.take(0)));
    let mut k: usize = 0;
    while k < ls.len()
        invariant
            lv == views(ls@),
            k <= lv.len(),
            f@ == unit_file_scan(name@, lv.take(k as int)),
        decreases lv.len() - k,
    {
        assert(lv.take(k + 1).drop_last() =~= lv.take(k as int));
        assert(lv.take(k + 1).last() == ls@[k as int]@);
        let line = trim_chars(&ls[k]);
        if line.len() == 0 || starts_with_str(&line, "#") {
        } else if starts_with_str(&line, "[") && ends_with_str(&line, "]") {
            f.section = line;
        } else {
            match split_once_char(&line, '=') {
                Some((k0, v0)) => {
                    let key = trim_chars(&k0);
                    let value = trim_chars(&v0);
                    apply_unit_entry(&mut f, &key, &value);
                },
                None => {},
            }
        }
        k = k + 1;
    }
    assert(lv.take(lv.len() as int) =~= lv);
    f
}

/// Applies one `key=value` line to what a unit file has given so far.
fn apply_unit_entry(f: &mut UnitFileState, key: &Vec<char>, value: &Vec<char>)
    ensures
        final(f)@ == unit_file_entry(old(f)@, key@, value@),
{
    if chars_eq_str(&f.section, "[Unit]") {
        if chars_eq_str(key, "Description") {
            f.description = string_of(value);
        } else if chars_eq_str(key, "Requires") || chars_eq_str(key, "Wants") || chars_eq_str(
            key,
            "After",
        ) {
            let ws = split_whitespace(value);
            let mut more = strings_of(&ws);
            let ghost a = f.dependencies@;
            let ghost b = more@;
            f.dependencies.append(&mut more);
            assert(strings_view(f.dependencies@) =~= strings_view(a) + strings_view(b));
        }
    } else if chars_eq_str(&f.section, "[Service]") {
        if chars_eq_str(key, "ExecStart") {
            match split_once_char(value, ' ') {
                Some((cmd, args)) => {
                    f.exec_path = Some(string_of(&cmd));
                    let ws = split_whitespace(&args);
                    f.exec_args = strings_of(&ws);
                },
                None => {
                    f.exec_path = Some(string_of(value));
                },
            }
        } else if chars_eq_str(key, "User") {
            f.user = string_of(value);
        } else if chars_eq_str(key, "Group") {
            f.group = string_of(value);
        } else if chars_eq_str(key, "WorkingDirectory") {
            f.working_directory = Some(string_of(value));
        }
    }
}

/// The views of pairs of texts.
pub open spec fn pairs_view(v: Seq<(String, String)>) -> Seq<(Seq<char>, Seq<char>)> {
    v.map_values(|p: (String, String)| (p.0@, p.1@))
}

/// Whether a text is `lit`.
fn text_eq(s: &String, lit: &str) -> (r: bool)
    ensures
        r == (s@ == lit@),
{
    let v = chars_of(s.as_str());
    chars_eq_str(&v, lit)
}

/// `String`s holding the given words.
pub fn strings_of(ws: &Vec<Vec<char>>) -> (r: Vec<String>)
    ensures
        strings_view(r@) == views(ws@),
{
    let mut r: Vec<String> = Vec::new();
    let mut i: usize = 0;
    while i < ws.len()
        invariant
            i <= ws@.len(),
            r@.len() == i,
            strings_view(r@) == views(ws@).take(i as int),
        decreases ws@.len() - i,
    {
        let ghost old_r = r@;
        let s = string_of(&ws[i]);
        r.push(s);
        assert(strings_view(r@)[i as int] == s@);
        assert forall|j: int| 0 <= j < i implies strings_view(r@)[j] == strings_view(old_r)[j] by {}
        assert(strings_view(r@) =~= views(ws@).take(i + 1));
        i = i + 1;
    }
    assert(views(ws@).take(ws@.len() as int) =~= views(ws@));
    r
}

} // verus!

verus! {

/// A unit read from `systemctl show` is enabled exactly when its
/// `UnitFileState` property is the text `enabled`; `disabled`, `static`,
/// `masked` or a missing property leave it disabled.
pub proof fn law_enabled_only_when_unit_file_state_is_enabled(name: Seq<char>, text: Seq<char>)
    ensures
        unit_from_show(name, text).enabled <==> show_property(text, "UnitFileState"@) == Some(
            "enabled"@,
        ),
        show_property(text, "UnitFileState"@) matches Some(v) && v != "enabled"@ ==> !unit_from_show(
            name,
            text,
        ).enabled,
        show_property(text, "UnitFileState"@) is None ==> !unit_from_show(name, text).enabled,
{
}

} // verus!

verus! {

/// The type of a unit is given by the suffix of its name: `.service` gives
/// `service`, `.socket` `socket`, `.timer` `timer`, `.target` `target`,
/// `.mount` `mount`, `.scope` `scope`, `.slice` `slice`; a name with none of
/// the known suffixes gives `unknown`.
pub proof fn law_unit_type_follows_the_suffix(name: Seq<char>)
    ensures
        ends_with(name, ".service"@) ==> unit_type_of(name) == "service"@,
        ends_with(name, ".socket"@) ==> unit_type_of(name) == "socket"@,
        ends_with(name, ".timer"@) ==> unit_type_of(name) == "timer"@,
        ends_with(name, ".target"@) ==> unit_type_of(name) == "target"@,
        ends_with(name, ".mount"@) ==> unit_type_of(name) == "mount"@,
        ends_with(name, ".scope"@) ==> unit_type_of(name) == "scope"@,
        ends_with(name, ".slice"@) ==> unit_type_of(name) == "slice"@,
        !ends_with(name, ".service"@) && !ends_with(name, ".socket"@) && !ends_with(name, ".timer"@)
            && !ends_with(name, ".target"@) && !ends_with(name, ".path"@) && !ends_with(
            name,
            ".device"@,
        ) && !ends_with(name, ".mount"@) && !ends_with(name, ".automount"@) && !ends_with(
            name,
            ".swap"@,
        ) && !ends_with(name, ".scope"@) && !ends_with(name, ".slice"@) ==> unit_type_of(name)
            == "unknown"@,
{
    reveal_strlit(".service");
    reveal_strlit(".socket");
    reveal_strlit(".timer");
    reveal_strlit(".target");
    reveal_strlit(".path");
    reveal_strlit(".device");
    reveal_strlit(".mount");
    reveal_strlit(".automount");
    reveal_strlit(".swap");
    reveal_strlit(".scope");
    reveal_strlit(".slice");
    // Two suffixes that differ in their last characters cannot both end a name.
    assert forall|a: Seq<char>, b: Seq<char>|
        ends_with(name, a) && ends_with(name, b) && a.len() > 0 && b.len() > 0 && a.last()
            != b.last() implies false by {
        assert(name.last() == name.skip(name.len() - a.len()).last());
        assert(name.last() == name.skip(name.len() - b.len()).last());
    }
    assert forall|a: Seq<char>, b: Seq<char>|
        ends_with(name, a) && ends_with(name, b) && a.len() > 1 && b.len() > 1 && a[a.len() - 2]
            != b[b.len() - 2] implies false by {
        assert(name[name.len() - 2] == name.skip(name.len() - a.len())[a.len() - 2]);
        assert(name[name.len() - 2] == name.skip(name.len() - b.len())[b.len() - 2]);
    }
    assert forall|a: Seq<char>, b: Seq<char>|
        ends_with(name, a) && ends_with(name, b) && a.len() > 2 && b.len() > 2 && a[a.len() - 3]
            != b[b.len() - 3] implies false by {
        assert(name[name.len() - 3] == name.skip(name.len() - a.len())[a.len() - 3]);
        assert(name[name.len() - 3] == name.skip(name.len() - b.len())[b.len() - 3]);
    }
    assert forall|a: Seq<char>, b: Seq<char>|
        ends_with(name, a) && ends_with(name, b) && a.len() > 3 && b.len() > 3 && a[a.len() - 4]
            != b[b.len() - 4] implies false by {
        assert(name[name.len() - 4] == name.skip(name.len() - a.len())[a.len() - 4]);
        assert(name[name.len() - 4] == name.skip(name.len() - b.len())[b.len() - 4]);
    }
}

/// What a unit read from `systemctl show` takes when a property is missing:
/// its name as description, `root` as user and group, `unknown` as state,
/// no working directory, and `/etc/systemd/system/<name>` as its file; a
/// working directory of `-` is none.
pub proof fn law_show_defaults(name: Seq<char>, text: Seq<char>)
    ensures
        unit_from_show(name, text).name == name,
        show_property(text, "Description"@) is None ==> unit_from_show(name, text).description
            == name,
        show_property(text, "User"@) is None ==> unit_from_show(name, text).user == "root"@,
        show_property(text, "Group"@) is None ==> unit_from_show(name, text).group == "root"@,
        show_property(text, "ActiveState"@) is None ==> unit_from_show(name, text).state
            == "unknown"@,
        show_property(text, "ActiveState"@) matches Some(st) ==> unit_from_show(name, text).state
            == st,
        show_property(text, "WorkingDirectory"@) == Some("-"@) ==> unit_from_show(
            name,
            text,
        ).working_directory is None,
        show_property(text, "FragmentPath"@) is None ==> unit_from_show(name, text).unit_file_path
            == "/etc/systemd/system/"@ + name,
        show_property(text, "ExecStart"@) is None ==> unit_from_show(name, text).exec_path is None,
{
}

} // verus!

verus! {

/// Every unit named in a cgroup file ends in `.service` or `.scope`.
pub proof fn law_cgroup_units_are_services_or_scopes(ls: Seq<Seq<char>>)
    ensures
        forall|k: int|
            0 <= k < cgroup_units(ls).len() ==> ends_with(#[trigger] cgroup_units(ls)[k], ".service"@)
                || ends_with(cgroup_units(ls)[k], ".scope"@),
    decreases ls.len(),
{
    if ls.len() > 0 {
        law_cgroup_units_are_services_or_scopes(ls.drop_last());
        if contains(ls.last(), "systemd"@) {
            lemma_units_in_parts_suffix(split(ls.last(), '/'));
        }
        let p = cgroup_units(ls.drop_last());
        let c = cgroup_units(ls);
        assert forall|k: int| 0 <= k < c.len() implies ends_with(#[trigger] c[k], ".service"@)
            || ends_with(c[k], ".scope"@) by {
            if k < p.len() {
                assert(c[k] == p[k]);
            } else {
                assert(c[k] == units_in_parts(split(ls.last(), '/'))[k - p.len()]);
            }
        }
    }
}

/// Every unit picked out of the path components ends in `.service` or
/// `.scope`.
proof fn lemma_units_in_parts_suffix(parts: Seq<Seq<char>>)
    ensures
        forall|k: int|
            0 <= k < units_in_parts(parts).len() ==> ends_with(
                #[trigger] units_in_parts(parts)[k],
                ".service"@,
            ) || ends_with(units_in_parts(parts)[k], ".scope"@),
    decreases parts.len(),
{
    if parts.len() > 0 {
        lemma_units_in_parts_suffix(parts.drop_last());
        let p = units_in_parts(parts.drop_last());
        let u = units_in_parts(parts);
        assert forall|k: int| 0 <= k < u.len() implies ends_with(#[trigger] u[k], ".service"@)
            || ends_with(u[k], ".scope"@) by {
            if k < p.len() {
                assert(u[k] == p[k]);
            }
        }
    }
}

/// In a unit file, `Requires`, `Wants` and `After` of the `[Unit]` section
/// add their words to the dependencies; `ExecStart` of the `[Service]`
/// section sets the executable to its first word and the arguments to the
/// words after; keys of any other section change nothing.
pub proof fn law_unit_file_entries(f: UnitFileFields, key: Seq<char>, value: Seq<char>)
    ensures
        (f.section == "[Unit]"@ && (key == "Requires"@ || key == "Wants"@ || key == "After"@))
            ==> unit_file_entry(f, key, value).dependencies == f.dependencies + split_ws(value),
        (f.section == "[Service]"@ && key == "ExecStart"@ && split_once(value, ' ') is Some)
            ==> unit_file_entry(f, key, value).exec_path == Some(split_once(value, ' ').unwrap().0)
            && unit_file_entry(f, key, value).exec_args == split_ws(
            split_once(value, ' ').unwrap().1,
        ),
        (f.section != "[Unit]"@ && f.section != "[Service]"@) ==> unit_file_entry(f, key, value)
            == f,
{
    reveal_strlit("[Unit]");
    reveal_strlit("[Service]");
    assert("[Unit]"@[1] != "[Service]"@[1]);
    reveal_strlit("Description");
    reveal_strlit("Requires");
    reveal_strlit("Wants");
    reveal_strlit("After");
    assert("Description"@[0] != "Requires"@[0] && "Description"@[0] != "Wants"@[0]
        && "Description"@[0] != "After"@[0]);
}

} // verus!
