//! Firewall analysis: reading the rule listings of iptables, nftables and ufw
//! into [`FirewallRule`]s, and checking a rule set for common weaknesses.

use vstd::prelude::*;
use crate::models::{opt_view, rules_view, strings_view, AgentError, CommandOutput, FirewallRule, FirewallRuleView};
use crate::text::{
    chars_eq, chars_eq_str, chars_of, contains, contains_str, find, find_char, find_char_pos, find_chars,
    copy_chars, lemma_find_bounds, lines, lines_of, lowercase, trim_char, trim_matches_chars, lowercase_chars, parse_uint, parse_unsigned, slice_of, split,
    split_char, split_whitespace, split_ws, starts_with, starts_with_str, string_of,
    string_of_range, trim, trim_chars, trim_end_char, trim_end_matches_chars, trim_range,
    uppercase, uppercase_chars, views, CharClass,
};

verus! {

/// The firewall front end found on the host.
#[derive(Debug, PartialEq, Eq, Structural, Clone, Copy)]
pub enum FirewallType {
    Iptables,
    Nftables,
    Ufw,
    Unknown,
}

/// A rule with the fixed fields set and no optional field known yet.
pub open spec fn blank_rule(
    firewall_type: Seq<char>,
    table: Seq<char>,
    chain: Seq<char>,
    priority: i32,
    action: Seq<char>,
    raw: Seq<char>,
) -> FirewallRuleView {
    FirewallRuleView {
        firewall_type,
        table,
        chain,
        priority,
        action,
        protocol: None,
        source: None,
        destination: None,
        source_port: None,
        destination_port: None,
        interface: None,
        raw_rule: raw,
    }
}

/// Whether a word names one of the protocols that a rule can restrict to.
pub open spec fn is_protocol_word(w: Seq<char>) -> bool {
    w == "tcp"@ || w == "udp"@ || w == "icmp"@
}

/// The options of an iptables rule, read from word `i` on.
///
/// Both the option syntax (`-p tcp`, `--dport 22`, ...) and the columns of
/// `iptables -L -n -v` (a protocol column, `dpt:22`, `spt:1024`) are read.
pub open spec fn iptables_options(
    parts: Seq<Seq<char>>,
    i: int,
    r: FirewallRuleView,
) -> FirewallRuleView
    decreases parts.len() - i,
{
    if i < 0 || i >= parts.len() {
        r
    } else {
        let t = parts[i];
        let next = i + 1 < parts.len();
        if (t == "-p"@ || t == "--protocol"@) && next {
            iptables_options(parts, i + 2, FirewallRuleView { protocol: Some(parts[i + 1]), ..r })
        } else if (t == "-s"@ || t == "--source"@) && next {
            iptables_options(parts, i + 2, FirewallRuleView { source: Some(parts[i + 1]), ..r })
        } else if (t == "-d"@ || t == "--destination"@) && next {
            iptables_options(
                parts,
                i + 2,
                FirewallRuleView { destination: Some(parts[i + 1]), ..r },
            )
        } else if t == "--sport"@ && next {
            iptables_options(
                parts,
                i + 2,
                FirewallRuleView { source_port: Some(parts[i + 1]), ..r },
            )
        } else if t == "--dport"@ && next {
            iptables_options(
                parts,
                i + 2,
                FirewallRuleView { destination_port: Some(parts[i + 1]), ..r },
            )
        } else if (t == "-i"@ || t == "--in-interface"@ || t == "-o"@ || t
            == "--out-interface"@) && next {
            iptables_options(parts, i + 2, FirewallRuleView { interface: Some(parts[i + 1]), ..r })
        } else if is_protocol_word(t) && r.protocol is None {
            iptables_options(parts, i + 1, FirewallRuleView { protocol: Some(t), ..r })
        } else if starts_with(t, "dpt:"@) {
            iptables_options(
                parts,
                i + 1,
                FirewallRuleView { destination_port: Some(t.skip(4)), ..r },
            )
        } else if starts_with(t, "spt:"@) {
            iptables_options(parts, i + 1, FirewallRuleView { source_port: Some(t.skip(4)), ..r })
        } else {
            iptables_options(parts, i + 1, r)
        }
    }
}

/// The rule that an iptables listing line describes: its third word is the
/// target, the words after it carry the options.
pub open spec fn iptables_rule(
    line: Seq<char>,
    table: Seq<char>,
    chain: Seq<char>,
    priority: i32,
) -> Option<FirewallRuleView> {
    let parts = split_ws(line);
    if parts.len() < 3 {
        None
    } else {
        Some(
            iptables_options(
                parts,
                3,
                blank_rule("iptables"@, table, chain, priority, parts[2], line),
            ),
        )
    }
}

/// The value that follows `key` in an nftables rule: the first word after the
/// first occurrence of `key` (`10.0.0.1` in `ip saddr 10.0.0.1 accept`), or
/// the empty text when nothing follows it.
pub open spec fn nft_field(line: Seq<char>, key: Seq<char>) -> Option<Seq<char>> {
    match find(line, key) {
        Some(p) => {
            let words = split_ws(line.skip(p + key.len()));
            Some(if words.len() > 0 { words[0] } else { Seq::empty() })
        },
        None => None,
    }
}

/// The first of the words from position `i` on that names a protocol.
pub open spec fn first_protocol_from(words: Seq<Seq<char>>, i: int) -> Option<Seq<char>>
    decreases words.len() - i,
{
    if i < 0 || i >= words.len() {
        None
    } else if is_protocol_word(words[i]) {
        Some(words[i])
    } else {
        first_protocol_from(words, i + 1)
    }
}

/// The verdict of an nftables rule.
pub open spec fn nft_action(l: Seq<char>) -> Seq<char> {
    if contains(l, "accept"@) {
        "ACCEPT"@
    } else if contains(l, "drop"@) {
        "DROP"@
    } else if contains(l, "reject"@) {
        "REJECT"@
    } else if contains(l, "return"@) {
        "RETURN"@
    } else {
        let ws = split_ws(l);
        if ws.len() > 0 { ws.last() } else { Seq::empty() }
    }
}

/// An nftables rule line without surrounding whitespace and final `;`s.
pub open spec fn nft_line(line: Seq<char>) -> Seq<char> {
    trim_end_char(trim(line), ';')
}

/// The rule that an nftables rule line describes.
pub open spec fn nftables_rule(
    line: Seq<char>,
    table: Seq<char>,
    chain: Seq<char>,
    priority: i32,
) -> FirewallRuleView {
    let l = nft_line(line);
    FirewallRuleView {
        firewall_type: "nftables"@,
        table,
        chain,
        priority,
        action: nft_action(l),
        protocol: if contains(l, "tcp"@) || contains(l, "udp"@) || contains(l, "icmp"@) {
            first_protocol_from(split_ws(l), 0)
        } else {
            None
        },
        source: nft_field(l, "saddr"@),
        destination: nft_field(l, "daddr"@),
        source_port: nft_field(l, "sport"@),
        destination_port: nft_field(l, "dport"@),
        interface: if contains(l, "iifname"@) {
            nft_field(l, "iifname"@)
        } else {
            nft_field(l, "oifname"@)
        },
        raw_rule: l,
    }
}

/// Whether `t` parses as a port number (`u16`).
pub open spec fn is_port(t: Seq<char>) -> bool {
    parse_uint(t, 65535) is Some
}

/// The effect of word `i` of a ufw rule on the rule read so far; `prev` is
/// the word before it as written, `part` the word in lowercase.
pub open spec fn ufw_step(prev: Seq<char>, part: Seq<char>, r: FirewallRuleView) -> FirewallRuleView {
    if is_protocol_word(part) {
        FirewallRuleView { protocol: Some(part), ..r }
    } else if contains(part, "/"@) {
        let segs = split(part, '/');
        if segs.len() == 2 {
            if is_port(segs[1]) && contains(prev, "from"@) {
                FirewallRuleView { source: Some(segs[0]), source_port: Some(segs[1]), ..r }
            } else if is_port(segs[1]) && contains(prev, "to"@) {
                FirewallRuleView { destination: Some(segs[0]), destination_port: Some(segs[1]), ..r }
            } else if contains(prev, "from"@) {
                FirewallRuleView { source: Some(part), ..r }
            } else if contains(prev, "to"@) {
                FirewallRuleView { destination: Some(part), ..r }
            } else {
                r
            }
        } else {
            r
        }
    } else if is_port(part) {
        if contains(prev, "port"@) && contains(prev, "from"@) {
            FirewallRuleView { source_port: Some(part), ..r }
        } else if contains(prev, "port"@) && contains(prev, "to"@) {
            FirewallRuleView { destination_port: Some(part), ..r }
        } else {
            r
        }
    } else if prev == "from"@ {
        FirewallRuleView { source: Some(part), ..r }
    } else if prev == "to"@ {
        FirewallRuleView { destination: Some(part), ..r }
    } else if prev == "on"@ {
        FirewallRuleView { interface: Some(part), ..r }
    } else {
        r
    }
}

/// The options of a ufw rule, read from word `i` on.
pub open spec fn ufw_options(parts: Seq<Seq<char>>, i: int, r: FirewallRuleView) -> FirewallRuleView
    decreases parts.len() - i,
{
    if i < 1 || i >= parts.len() {
        r
    } else {
        ufw_options(parts, i + 1, ufw_step(parts[i - 1], lowercase(parts[i]), r))
    }
}

/// The verdict of a ufw rule from its first word.
pub open spec fn ufw_action(first: Seq<char>) -> Seq<char> {
    let l = lowercase(first);
    if l == "allow"@ {
        "ACCEPT"@
    } else if l == "deny"@ {
        "DROP"@
    } else if l == "reject"@ {
        "REJECT"@
    } else {
        uppercase(first)
    }
}

/// The chain of a ufw rule from its direction word.
pub open spec fn ufw_chain(second: Seq<char>) -> Seq<char> {
    if lowercase(second) == "out"@ {
        "OUTPUT"@
    } else {
        "INPUT"@
    }
}

/// The rule that a line of `ufw status verbose` describes.
pub open spec fn ufw_rule(line: Seq<char>, priority: i32) -> Option<FirewallRuleView> {
    let parts = split_ws(line);
    if parts.len() < 3 {
        None
    } else {
        Some(
            ufw_options(
                parts,
                2,
                blank_rule("ufw"@, "filter"@, ufw_chain(parts[1]), priority, ufw_action(parts[0]), line),
            ),
        )
    }
}

/// Reading an iptables listing of one table, line by line: the current
/// chain, the position of the next rule in it, and the rules read so far.
pub open spec fn iptables_scan(table: Seq<char>, ls: Seq<Seq<char>>) -> (Seq<char>, int, Seq<
    FirewallRuleView,
>)
    decreases ls.len(),
{
    if ls.len() == 0 {
        (Seq::empty(), 0, Seq::empty())
    } else {
        let (chain, prio, rules) = iptables_scan(table, ls.drop_last());
        let line = trim(ls.last());
        if line.len() == 0 {
            (chain, prio, rules)
        } else if starts_with(line, "Chain"@) {
            let parts = split_ws(line);
            if parts.len() >= 2 {
                (parts[1], 0, rules)
            } else {
                (chain, prio, rules)
            }
        } else if starts_with(line, "pkts"@) || starts_with(line, "target"@) {
            (chain, prio, rules)
        } else {
            match iptables_rule(line, table, chain, prio as i32) {
                Some(r) => (chain, prio + 1, rules.push(r)),
                None => (chain, prio, rules),
            }
        }
    }
}

/// The rules of an iptables listing (`iptables -t <table> -L -n -v`).
pub open spec fn iptables_listing(table: Seq<char>, text: Seq<char>) -> Seq<FirewallRuleView> {
    iptables_scan(table, lines(text)).2
}

/// Reading an nftables ruleset line by line: the current table and chain,
/// the position of the next rule in the chain, and the rules read so far.
pub open spec fn nftables_scan(ls: Seq<Seq<char>>) -> (Seq<char>, Seq<char>, int, Seq<
    FirewallRuleView,
>)
    decreases ls.len(),
{
    if ls.len() == 0 {
        (Seq::empty(), Seq::empty(), 0, Seq::empty())
    } else {
        let (table, chain, prio, rules) = nftables_scan(ls.drop_last());
        let line = trim(ls.last());
        if line.len() == 0 {
            (table, chain, prio, rules)
        } else if starts_with(line, "table"@) {
            let parts = split_ws(line);
            if parts.len() >= 3 {
                (trim_char(parts[2], '{'), Seq::empty(), 0, rules)
            } else {
                (table, chain, prio, rules)
            }
        } else if starts_with(line, "chain"@) {
            let parts = split_ws(line);
            if parts.len() >= 2 {
                (table, trim_char(parts[1], '{'), 0, rules)
            } else {
                (table, chain, prio, rules)
            }
        } else if table.len() > 0 && chain.len() > 0 && contains(line, "return"@) {
            (table, chain, prio + 1, rules.push(nftables_rule(line, table, chain, prio as i32)))
        } else {
            (table, chain, prio, rules)
        }
    }
}

/// The rules of an nftables ruleset (`nft list ruleset`).
pub open spec fn nftables_listing(text: Seq<char>) -> Seq<FirewallRuleView> {
    nftables_scan(lines(text)).3
}

/// Index of the first line from `i` on that contains `--`, or the number of
/// lines when there is none.
pub open spec fn first_rule_separator(ls: Seq<Seq<char>>, i: int) -> int
    decreases ls.len() - i,
{
    if i < 0 || i >= ls.len() {
        ls.len() as int
    } else if contains(ls[i], "--"@) {
        i
    } else {
        first_rule_separator(ls, i + 1)
    }
}

/// Reading the rule lines of a ufw listing: the position of the next rule
/// and the rules read so far.
pub open spec fn ufw_scan(ls: Seq<Seq<char>>) -> (int, Seq<FirewallRuleView>)
    decreases ls.len(),
{
    if ls.len() == 0 {
        (0, Seq::empty())
    } else {
        let (prio, rules) = ufw_scan(ls.drop_last());
        let line = trim(ls.last());
        if line.len() == 0 {
            (prio, rules)
        } else {
            match ufw_rule(line, prio as i32) {
                Some(r) => (prio + 1, rules.push(r)),
                None => (prio, rules),
            }
        }
    }
}

/// The rules of `ufw status verbose`: none when ufw is inactive, else the
/// lines after the first line that contains `--`.
pub open spec fn ufw_listing(text: Seq<char>) -> Seq<FirewallRuleView> {
    if contains(text, "Status: inactive"@) {
        Seq::empty()
    } else {
        let ls = lines(text);
        let start = first_rule_separator(ls, 0) + 1;
        if start >= ls.len() {
            Seq::empty()
        } else {
            ufw_scan(ls.skip(start)).1
        }
    }
}

/// What the listing commands of the firewalls printed; `None` where the
/// command could not be started.
pub struct FirewallOutputs {
    /// `iptables -t filter -L -n -v`
    pub filter: Option<CommandOutput>,
    /// `iptables -t nat -L -n -v`
    pub nat: Option<CommandOutput>,
    /// `iptables -t mangle -L -n -v`
    pub mangle: Option<CommandOutput>,
    /// `iptables -t raw -L -n -v`
    pub raw: Option<CommandOutput>,
    /// `nft list ruleset`
    pub nftables: Option<CommandOutput>,
    /// `ufw status verbose`
    pub ufw: Option<CommandOutput>,
}

/// Whether an output is small enough that rule positions fit an `i32`.
pub open spec fn output_fits(o: Option<CommandOutput>) -> bool {
    o matches Some(out) ==> lines(out.stdout@).len() <= i32::MAX
}

/// Whether all outputs are small enough that rule positions fit an `i32`.
pub open spec fn outputs_fit(o: &FirewallOutputs) -> bool {
    &&& output_fits(o.filter)
    &&& output_fits(o.nat)
    &&& output_fits(o.mangle)
    &&& output_fits(o.raw)
    &&& output_fits(o.nftables)
    &&& output_fits(o.ufw)
}

/// Adds the rules of one iptables table to those read so far: an error when
/// its command could not be started, nothing when it failed.
pub open spec fn iptables_table_step(
    acc: Option<Seq<FirewallRuleView>>,
    table: Seq<char>,
    out: Option<CommandOutput>,
) -> Option<Seq<FirewallRuleView>> {
    match acc {
        None => None,
        Some(rules) => match out {
            None => None,
            Some(o) => if o.success {
                Some(rules + iptables_listing(table, o.stdout@))
            } else {
                Some(rules)
            },
        },
    }
}

/// The rules of all iptables tables, `None` when a listing command could not
/// be started.
pub open spec fn iptables_rules(o: &FirewallOutputs) -> Option<Seq<FirewallRuleView>> {
    let a = iptables_table_step(Some(Seq::empty()), "filter"@, o.filter);
    let b = iptables_table_step(a, "nat"@, o.nat);
    let c = iptables_table_step(b, "mangle"@, o.mangle);
    iptables_table_step(c, "raw"@, o.raw)
}

/// The rules of a single-command listing, `None` when the command could not
/// be started and nothing when it failed.
pub open spec fn listing_rules(out: Option<CommandOutput>, ufw: bool) -> Option<
    Seq<FirewallRuleView>,
> {
    match out {
        None => None,
        Some(o) => if !o.success {
            Some(Seq::empty())
        } else if ufw {
            Some(ufw_listing(o.stdout@))
        } else {
            Some(nftables_listing(o.stdout@))
        },
    }
}

/// The rules, or `Seq::empty()` in place of an error.
pub open spec fn or_empty(r: Option<Seq<FirewallRuleView>>) -> Seq<FirewallRuleView> {
    match r {
        Some(v) => v,
        None => Seq::empty(),
    }
}

/// The rules that a scan of the given firewall yields, `None` for an error.
/// When the firewall is unknown, every listing is tried and errors count as
/// no rules.
pub open spec fn scanned_rules(kind: FirewallType, o: &FirewallOutputs) -> Option<
    Seq<FirewallRuleView>,
> {
    match kind {
        FirewallType::Iptables => iptables_rules(o),
        FirewallType::Nftables => listing_rules(o.nftables, false),
        FirewallType::Ufw => listing_rules(o.ufw, true),
        FirewallType::Unknown => Some(
            or_empty(iptables_rules(o)) + or_empty(listing_rules(o.nftables, false)) + or_empty(
                listing_rules(o.ufw, true),
            ),
        ),
    }
}

/// Issue reported when a rule accepts all traffic from any address.
pub const ALLOW_ALL_ISSUE: &'static str = "Обнаружено правило, разрешающее весь входящий трафик";

/// Issue reported when no rule concerns SSH.
pub const NO_SSH_ISSUE: &'static str = "Не обнаружено правил для SSH (порт 22)";

/// Prefix of the issue reported for a rule that repeats an earlier one.
pub const DUPLICATE_ISSUE_PREFIX: &'static str = "Обнаружено дублирующееся правило: ";

/// Issue reported when an early rule drops all traffic from any address.
pub const BLOCKING_ISSUE: &'static str = "Высокоприоритетное правило блокирует весь трафик";

/// The address that stands for every IPv4 host.
pub open spec fn any_address() -> Option<Seq<char>> {
    Some("0.0.0.0/0"@)
}

/// A rule that accepts all traffic from any address.
pub open spec fn allows_all(r: FirewallRuleView) -> bool {
    r.action == "ACCEPT"@ && r.source == any_address() && r.destination is None
        && r.protocol is None
}

/// A rule about the SSH port.
pub open spec fn covers_ssh(r: FirewallRuleView) -> bool {
    r.destination_port == Some("22"@) || r.destination_port == Some("ssh"@)
}

/// A rule among the first five that drops or rejects all traffic from any
/// address.
pub open spec fn blocks_all_early(r: FirewallRuleView) -> bool {
    r.priority < 5 && (r.action == "DROP"@ || r.action == "REJECT"@) && r.source == any_address()
        && r.protocol is None
}

/// An optional field, or nothing.
pub open spec fn or_blank(o: Option<Seq<char>>) -> Seq<char> {
    match o {
        Some(s) => s,
        None => Seq::empty(),
    }
}

/// The text by which two rules count as the same: verdict, protocol,
/// addresses, ports and interface joined by `-`.
pub open spec fn rule_key(r: FirewallRuleView) -> Seq<char> {
    r.action + seq!['-'] + or_blank(r.protocol) + seq!['-'] + or_blank(r.source) + seq!['-']
        + or_blank(r.destination) + seq!['-'] + or_blank(r.source_port) + seq!['-'] + or_blank(
        r.destination_port,
    ) + seq!['-'] + or_blank(r.interface)
}

/// Whether the key of rule `i` is the key of an earlier rule.
pub open spec fn repeats_earlier(rules: Seq<FirewallRuleView>, i: int) -> bool {
    exists|j: int| 0 <= j < i && rule_key(#[trigger] rules[j]) == rule_key(rules[i])
}

/// One issue for each rule that repeats an earlier one, in order.
pub open spec fn duplicate_issues(rules: Seq<FirewallRuleView>) -> Seq<Seq<char>>
    decreases rules.len(),
{
    if rules.len() == 0 {
        Seq::empty()
    } else {
        duplicate_issues(rules.drop_last()) + if repeats_earlier(rules, rules.len() - 1) {
            seq![DUPLICATE_ISSUE_PREFIX@ + rules.last().raw_rule]
        } else {
            Seq::empty()
        }
    }
}

/// The issues that come before those about repeated rules: a rule that
/// accepts everything, then the lack of a rule for SSH.
pub open spec fn leading_issues(rules: Seq<FirewallRuleView>) -> Seq<Seq<char>> {
    (if exists|i: int| 0 <= i < rules.len() && allows_all(#[trigger] rules[i]) {
        seq![ALLOW_ALL_ISSUE@]
    } else {
        Seq::empty()
    }) + (if !exists|i: int| 0 <= i < rules.len() && covers_ssh(#[trigger] rules[i]) {
        seq![NO_SSH_ISSUE@]
    } else {
        Seq::empty()
    })
}

/// The issue that comes after those about repeated rules: an early rule
/// that drops everything.
pub open spec fn trailing_issues(rules: Seq<FirewallRuleView>) -> Seq<Seq<char>> {
    if exists|i: int| 0 <= i < rules.len() && blocks_all_early(#[trigger] rules[i]) {
        seq![BLOCKING_ISSUE@]
    } else {
        Seq::empty()
    }
}

/// The issues found in a rule set, in the order they are reported.
pub open spec fn security_issues(rules: Seq<FirewallRuleView>) -> Seq<Seq<char>> {
    leading_issues(rules) + duplicate_issues(rules) + trailing_issues(rules)
}

/// The keys of the rules, in order.
pub open spec fn rule_keys(rules: Seq<FirewallRuleView>) -> Seq<Seq<char>> {
    rules.map_values(|r: FirewallRuleView| rule_key(r))
}

/// Which firewall the probes found: the first of iptables, nftables and ufw
/// whose probe command succeeded.
pub open spec fn detected_type(iptables: bool, nftables: bool, ufw: bool) -> FirewallType {
    if iptables {
        FirewallType::Iptables
    } else if nftables {
        FirewallType::Nftables
    } else if ufw {
        FirewallType::Ufw
    } else {
        FirewallType::Unknown
    }
}

/// Analyzer of the host's firewall rules.
pub struct FirewallAnalyzer {
    firewall_type: FirewallType,
}

/// Copies a word into a `String`.
fn word(v: &Vec<char>) -> (s: String)
    ensures
        s@ == v@,
{
    string_of(v)
}

impl FirewallAnalyzer {
    /// The firewall this analyzer reads.
    pub closed spec fn kind(&self) -> FirewallType {
        self.firewall_type
    }

    /// An analyzer for the firewall found by the probes `iptables -V`,
    /// `nft -v` and `ufw status` (each `true` when the command succeeded).
    pub fn new(iptables_ok: bool, nftables_ok: bool, ufw_ok: bool) -> (a: Self)
        ensures
            a.kind() == detected_type(iptables_ok, nftables_ok, ufw_ok),
    {
        FirewallAnalyzer { firewall_type: Self::detect_firewall_type(iptables_ok, nftables_ok, ufw_ok) }
    }

    /// The firewall found by the probes.
    pub fn detect_firewall_type(iptables_ok: bool, nftables_ok: bool, ufw_ok: bool) -> (t:
        FirewallType)
        ensures
            t == detected_type(iptables_ok, nftables_ok, ufw_ok),
    {
        if iptables_ok {
            FirewallType::Iptables
        } else if nftables_ok {
            FirewallType::Nftables
        } else if ufw_ok {
            FirewallType::Ufw
        } else {
            FirewallType::Unknown
        }
    }

    /// Collects the rules of the host's firewall from the listings of its
    /// commands.
    pub fn scan_rules(&self, outputs: &FirewallOutputs) -> (r: Result<Vec<FirewallRule>, AgentError>)
        requires
            outputs_fit(outputs),
        ensures
            match r {
                Ok(rules) => scanned_rules(self.kind(), outputs) == Some(rules_view(rules@)),
                Err(e) => scanned_rules(self.kind(), outputs) is None && e
                    == AgentError::CommandUnavailable,
            },
    {
        match self.firewall_type {
            FirewallType::Iptables => self.scan_iptables_rules(outputs),
            FirewallType::Nftables => self.scan_listing(&outputs.nftables, false),
            FirewallType::Ufw => self.scan_listing(&outputs.ufw, true),
            FirewallType::Unknown => {
                let mut rules = match self.scan_iptables_rules(outputs) {
                    Ok(v) => v,
                    Err(_) => Vec::new(),
                };
                let mut more = match self.scan_listing(&outputs.nftables, false) {
                    Ok(v) => v,
                    Err(_) => Vec::new(),
                };
                let mut last = match self.scan_listing(&outputs.ufw, true) {
                    Ok(v) => v,
                    Err(_) => Vec::new(),
                };
                let ghost a = rules@;
                let ghost b = more@;
                rules.append(&mut more);
                let ghost c = rules@;
                let ghost d = last@;
                rules.append(&mut last);
                assert(rules_view(rules@) =~= rules_view(a) + rules_view(b) + rules_view(d)) by {
                    assert(c =~= a + b);
                    assert(rules@ =~= a + b + d);
                }
                Ok(rules)
            },
        }
    }

    /// Collects the rules of all iptables tables.
    fn scan_iptables_rules(&self, outputs: &FirewallOutputs) -> (r: Result<
        Vec<FirewallRule>,
        AgentError,
    >)
        requires
            outputs_fit(outputs),
        ensures
            match r {
                Ok(rules) => iptables_rules(outputs) == Some(rules_view(rules@)),
                Err(e) => iptables_rules(outputs) is None && e == AgentError::CommandUnavailable,
            },
    {
        let mut rules: Vec<FirewallRule> = Vec::new();
        assert(rules_view(rules@) =~= Seq::<FirewallRuleView>::empty());
        self.add_table(&mut rules, "filter", &outputs.filter)?;
        self.add_table(&mut rules, "nat", &outputs.nat)?;
        self.add_table(&mut rules, "mangle", &outputs.mangle)?;
        self.add_table(&mut rules, "raw", &outputs.raw)?;
        Ok(rules)
    }

    /// Adds the rules of one iptables table.
    fn add_table(&self, rules: &mut Vec<FirewallRule>, table: &str, out: &Option<CommandOutput>) -> (r:
        Result<(), AgentError>)
        requires
            output_fits(*out),
        ensures
            match r {
                Ok(_) => iptables_table_step(Some(rules_view(old(rules)@)), table@, *out) == Some(
                    rules_view(final(rules)@),
                ),
                Err(e) => iptables_table_step(Some(rules_view(old(rules)@)), table@, *out) is None
                    && e == AgentError::CommandUnavailable,
            },
    {
        match out {
            None => Err(AgentError::CommandUnavailable),
            Some(o) => {
                if o.success {
                    let mut found = self.parse_iptables_output(table, o.stdout.as_str());
                    let ghost a = rules@;
                    let ghost b = found@;
                    rules.append(&mut found);
                    assert(rules_view(rules@) =~= rules_view(a) + rules_view(b));
                }
                Ok(())
            },
        }
    }

    /// Collects the rules of an nftables (`ufw == false`) or ufw listing.
    fn scan_listing(&self, out: &Option<CommandOutput>, ufw: bool) -> (r: Result<
        Vec<FirewallRule>,
        AgentError,
    >)
        requires
            output_fits(*out),
        ensures
            match r {
                Ok(rules) => listing_rules(*out, ufw) == Some(rules_view(rules@)),
                Err(e) => listing_rules(*out, ufw) is None && e == AgentError::CommandUnavailable,
            },
    {
        match out {
            None => Err(AgentError::CommandUnavailable),
            Some(o) => {
                if !o.success {
                    let v: Vec<FirewallRule> = Vec::new();
                    assert(rules_view(v@) =~= Seq::<FirewallRuleView>::empty());
                    Ok(v)
                } else if ufw {
                    Ok(self.parse_ufw_output(o.stdout.as_str()))
                } else {
                    Ok(self.parse_nftables_output(o.stdout.as_str()))
                }
            },
        }
    }

    /// Looks for weaknesses in a rule set: a rule that accepts everything, no
    /// rule for SSH, repeated rules, and early rules that drop everything.
    pub fn analyze_security_issues(&self, rules: &Vec<FirewallRule>) -> (issues: Vec<String>)
        ensures
            strings_view(issues@) == security_issues(rules_view(rules@)),
    {
        let ghost rv = rules_view(rules@);
        let mut issues: Vec<String> = Vec::new();
        let mut has_allow_all = false;
        let mut has_ssh = false;
        let mut has_blocking = false;
        let mut i: usize = 0;
        while i < rules.len()
            invariant
                rv == rules_view(rules@),
                i <= rv.len(),
                has_allow_all == exists|j: int| 0 <= j < i && allows_all(#[trigger] rv[j]),
                has_ssh == exists|j: int| 0 <= j < i && covers_ssh(#[trigger] rv[j]),
                has_blocking == exists|j: int| 0 <= j < i && blocks_all_early(#[trigger] rv[j]),
            decreases rv.len() - i,
        {
            let r = &rules[i];
            assert(rv[i as int] == r@);
            if is_allow_all(r) {
                has_allow_all = true;
            }
            if is_ssh_rule(r) {
                has_ssh = true;
            }
            if is_early_block(r) {
                has_blocking = true;
            }
            i = i + 1;
        }
        if has_allow_all {
            issues.push(ALLOW_ALL_ISSUE.to_string());
        }
        if !has_ssh {
            issues.push(NO_SSH_ISSUE.to_string());
        }
        let ghost head = strings_view(issues@);
        let mut seen: Vec<Vec<char>> = Vec::new();
        let mut k: usize = 0;
        assert(strings_view(issues@) =~= head + duplicate_issues(rv.take(0)));
        while k < rules.len()
            invariant
                rv == rules_view(rules@),
                k <= rv.len(),
                strings_view(issues@) == head + duplicate_issues(rv.take(k as int)),
                forall|x: Seq<char>| (exists|j: int| 0 <= j < k && rule_key(#[trigger] rv[j]) == x)
                    <==> views(seen@).contains(x),
            decreases rv.len() - k,
        {
            let r = &rules[k];
            assert(rv[k as int] == r@);
            let key = key_of(r);
            let ghost kv = key@;
            let ghost before = issues@;
            let ghost sb = views(seen@);
            let known = contains_key(&seen, &key);
            let ghost pre = rv.take(k + 1);
            assert(pre.drop_last() =~= rv.take(k as int));
            assert(repeats_earlier(pre, k as int) == sb.contains(kv)) by {
                if sb.contains(kv) {
                    let j = choose|j: int| 0 <= j < k && rule_key(#[trigger] rv[j]) == kv;
                    assert(pre[j] == rv[j]);
                }
                if repeats_earlier(pre, k as int) {
                    let j = choose|j: int| 0 <= j < k && rule_key(#[trigger] pre[j]) == rule_key(pre[k as int]);
                    assert(pre[j] == rv[j]);
                }
            }
            if known {
                let mut msg = DUPLICATE_ISSUE_PREFIX.to_string();
                msg.append(r.raw_rule.as_str());
                issues.push(msg);
                assert(strings_view(issues@) =~= strings_view(before).push(msg@));
            } else {
                seen.push(key);
                assert(views(seen@) =~= sb.push(kv));
                assert(strings_view(issues@) =~= strings_view(before) + Seq::<Seq<char>>::empty());
            }
            assert(views(seen@) == if known { sb } else { sb.push(kv) });
            assert(views(seen@).contains(kv)) by {
                if !known {
                    assert(views(seen@)[sb.len() as int] == kv);
                }
            }
            assert forall|x: Seq<char>| (exists|j: int| 0 <= j < k + 1 && rule_key(#[trigger] rv[j]) == x)
                implies views(seen@).contains(x) by {
                let j = choose|j: int| 0 <= j < k + 1 && rule_key(#[trigger] rv[j]) == x;
                if j < k {
                    assert(sb.contains(x));
                    let m = choose|m: int| 0 <= m < sb.len() && sb[m] == x;
                    assert(views(seen@)[m] == x);
                }
            }
            assert forall|x: Seq<char>| views(seen@).contains(x) implies (exists|j: int|
                0 <= j < k + 1 && rule_key(#[trigger] rv[j]) == x) by {
                let m = choose|m: int| 0 <= m < views(seen@).len() && views(seen@)[m] == x;
                if m < sb.len() {
                    assert(sb[m] == x);
                    assert(sb.contains(x));
                } else {
                    assert(rule_key(rv[k as int]) == x);
                }
            }
            k = k + 1;
        }
        assert(rv.take(rv.len() as int) =~= rv);
        if has_blocking {
            let ghost before = issues@;
            issues.push(BLOCKING_ISSUE.to_string());
            assert(strings_view(issues@) =~= strings_view(before).push(BLOCKING_ISSUE@));
        }
        issues
    }

    /// Reads the listing of one iptables table.
    pub fn parse_iptables_output(&self, table: &str, output: &str) -> (r: Vec<FirewallRule>)
        requires
            lines(output@).len() <= i32::MAX,
        ensures
            rules_view(r@) == iptables_listing(table@, output@),
    {
        let ov = chars_of(output);
        let ls = lines_of(&ov);
        let ghost lv = views(ls@);
        let mut chain: Vec<char> = Vec::new();
        let mut prio: i32 = 0;
        let mut rules: Vec<FirewallRule> = Vec::new();
        let mut k: usize = 0;
        assert(lv.take(0) =~= Seq::<Seq<char>>::empty());
        while k < ls.len()
            invariant
                lv == views(ls@),
                lv.len() <= i32::MAX,
                k <= lv.len(),
                0 <= prio <= k,
                iptables_scan(table@, lv.take(k as int)) == (chain@, prio as int, rules_view(
                    rules@,
                )),
            decreases lv.len() - k,
        {
            assert(lv.take(k + 1).drop_last() =~= lv.take(k as int));
            assert(lv.take(k + 1).last() == ls@[k as int]@);
            let line = trim_chars(&ls[k]);
            if line.len() == 0 {
            } else if starts_with_str(&line, "Chain") {
                let parts = split_whitespace(&line);
                if parts.len() >= 2 {
                    assert(views(parts@)[1] == parts@[1]@);
                    chain = copy_chars(&parts[1]);
                    prio = 0;
                }
            } else if starts_with_str(&line, "pkts") || starts_with_str(&line, "target") {
            } else {
                let ls_line = string_of(&line);
                let ch = string_of(&chain);
                match self.parse_iptables_rule(ls_line.as_str(), table, ch.as_str(), prio) {
                    Some(rule) => {
                        let ghost old_rules = rules@;
                        rules.push(rule);
                        assert(rules_view(rules@) =~= rules_view(old_rules).push(rule@));
                        prio = prio + 1;
                    },
                    None => {},
                }
            }
            k = k + 1;
        }
        assert(lv.take(lv.len() as int) =~= lv);
        rules
    }

    /// Reads an nftables ruleset.
    pub fn parse_nftables_output(&self, output: &str) -> (r: Vec<FirewallRule>)
        requires
            lines(output@).len() <= i32::MAX,
        ensures
            rules_view(r@) == nftables_listing(output@),
    {
        let ov = chars_of(output);
        let ls = lines_of(&ov);
        let ghost lv = views(ls@);
        let mut table: Vec<char> = Vec::new();
        let mut chain: Vec<char> = Vec::new();
        let mut prio: i32 = 0;
        let mut rules: Vec<FirewallRule> = Vec::new();
        let mut k: usize = 0;
        assert(lv.take(0) =~= Seq::<Seq<char>>::empty());
        while k < ls.len()
            invariant
                lv == views(ls@),
                lv.len() <= i32::MAX,
                k <= lv.len(),
                0 <= prio <= k,
                nftables_scan(lv.take(k as int)) == (table@, chain@, prio as int, rules_view(
                    rules@,
                )),
            decreases lv.len() - k,
        {
            assert(lv.take(k + 1).drop_last() =~= lv.take(k as int));
            assert(lv.take(k + 1).last() == ls@[k as int]@);
            let line = trim_chars(&ls[k]);
            if line.len() == 0 {
            } else if starts_with_str(&line, "table") {
                let parts = split_whitespace(&line);
                if parts.len() >= 3 {
                    assert(views(parts@)[2] == parts@[2]@);
                    table = trim_matches_chars(&parts[2], '{');
                    chain = Vec::new();
                    prio = 0;
                }
            } else if starts_with_str(&line, "chain") {
                let parts = split_whitespace(&line);
                if parts.len() >= 2 {
                    assert(views(parts@)[1] == parts@[1]@);
                    chain = trim_matches_chars(&parts[1], '{');
                    prio = 0;
                }
            } else if table.len() > 0 && chain.len() > 0 && contains_str(&line, "return") {
                let ls_line = string_of(&line);
                let tb = string_of(&table);
                let ch = string_of(&chain);
                let rule = self.parse_nftables_rule(ls_line.as_str(), tb.as_str(), ch.as_str(), prio);
                match rule {
                    Some(rule) => {
                        let ghost old_rules = rules@;
                        rules.push(rule);
                        assert(rules_view(rules@) =~= rules_view(old_rules).push(rule@));
                        prio = prio + 1;
                    },
                    None => {},
                }
            }
            k = k + 1;
        }
        assert(lv.take(lv.len() as int) =~= lv);
        rules
    }

    /// Reads the output of `ufw status verbose`.
    pub fn parse_ufw_output(&self, output: &str) -> (r: Vec<FirewallRule>)
        requires
            lines(output@).len() <= i32::MAX,
        ensures
            rules_view(r@) == ufw_listing(output@),
    {
        let ov = chars_of(output);
        if contains_str(&ov, "Status: inactive") {
            return Vec::new();
        }
        let ls = lines_of(&ov);
        let ghost lv = views(ls@);
        let mut i: usize = 0;
        while i < ls.len() && !contains_str(&ls[i], "--")
            invariant
                lv == views(ls@),
                i <= lv.len(),
                first_rule_separator(lv, 0) == first_rule_separator(lv, i as int),
            decreases lv.len() - i,
        {
            assert(lv[i as int] == ls@[i as int]@);
            i = i + 1;
        }
        proof {
            if i < lv.len() {
                assert(lv[i as int] == ls@[i as int]@);
            }
        }
        if i >= ls.len() || i + 1 >= ls.len() {
            return Vec::new();
        }
        let start = i + 1;
        let ghost rest = lv.skip(start as int);
        let mut prio: i32 = 0;
        let mut rules: Vec<FirewallRule> = Vec::new();
        let mut k: usize = start;
        assert(rest.take(0) =~= Seq::<Seq<char>>::empty());
        while k < ls.len()
            invariant
                lv == views(ls@),
                rest == lv.skip(start as int),
                lv.len() <= i32::MAX,
                start <= k <= lv.len(),
                0 <= prio <= k - start,
                ufw_scan(rest.take(k - start)) == (prio as int, rules_view(rules@)),
            decreases lv.len() - k,
        {
            assert(rest.take(k + 1 - start).drop_last() =~= rest.take(k - start));
            assert(rest.take(k + 1 - start).last() == ls@[k as int]@);
            let line = trim_chars(&ls[k]);
            if line.len() > 0 {
                let ls_line = string_of(&line);
                match self.parse_ufw_rule(ls_line.as_str(), prio) {
                    Some(rule) => {
                        let ghost old_rules = rules@;
                        rules.push(rule);
                        assert(rules_view(rules@) =~= rules_view(old_rules).push(rule@));
                        prio = prio + 1;
                    },
                    None => {},
                }
            }
            k = k + 1;
        }
        assert(rest.take(lv.len() - start) =~= rest);
        rules
    }

    /// Reads one line of an iptables listing as a rule of `table`/`chain`.
    pub fn parse_iptables_rule(&self, line: &str, table: &str, chain: &str, priority: i32) -> (r:
        Option<FirewallRule>)
        ensures
            match r {
                Some(rule) => iptables_rule(line@, table@, chain@, priority) == Some(rule@),
                None => iptables_rule(line@, table@, chain@, priority) is None,
            },
    {
        let lv = chars_of(line);
        let parts = split_whitespace(&lv);
        let ghost ps = views(parts@);
        if parts.len() < 3 {
            return None;
        }
        let mut rule = FirewallRule {
            firewall_type: "iptables".to_string(),
            table: table.to_string(),
            chain: chain.to_string(),
            priority,
            action: word(&parts[2]),
            protocol: None,
            source: None,
            destination: None,
            source_port: None,
            destination_port: None,
            interface: None,
            raw_rule: line.to_string(),
        };
        let ghost start = rule@;
        assert(start == blank_rule("iptables"@, table@, chain@, priority, ps[2], line@));
        let mut i: usize = 3;
        while i < parts.len()
            invariant
                ps == views(parts@),
                3 <= i,
                iptables_options(ps, 3, start) == iptables_options(ps, i as int, rule@),
            decreases parts@.len() - i,
        {
            let t = &parts[i];
            assert(t@ == ps[i as int]);
            let next = i + 1 < parts.len();
            if (chars_eq_str(t, "-p") || chars_eq_str(t, "--protocol")) && next {
                rule.protocol = Some(word(&parts[i + 1]));
                i = i + 2;
            } else if (chars_eq_str(t, "-s") || chars_eq_str(t, "--source")) && next {
                rule.source = Some(word(&parts[i + 1]));
                i = i + 2;
            } else if (chars_eq_str(t, "-d") || chars_eq_str(t, "--destination")) && next {
                rule.destination = Some(word(&parts[i + 1]));
                i = i + 2;
            } else if chars_eq_str(t, "--sport") && next {
                rule.source_port = Some(word(&parts[i + 1]));
                i = i + 2;
            } else if chars_eq_str(t, "--dport") && next {
                rule.destination_port = Some(word(&parts[i + 1]));
                i = i + 2;
            } else if (chars_eq_str(t, "-i") || chars_eq_str(t, "--in-interface") || chars_eq_str(
                t,
                "-o",
            ) || chars_eq_str(t, "--out-interface")) && next {
                rule.interface = Some(word(&parts[i + 1]));
                i = i + 2;
            } else if (chars_eq_str(t, "tcp") || chars_eq_str(t, "udp") || chars_eq_str(t, "icmp"))
                && rule.protocol.is_none() {
                rule.protocol = Some(word(t));
                i = i + 1;
            } else if starts_with_str(t, "dpt:") {
                proof { reveal_strlit("dpt:"); }
                rule.destination_port = Some(string_of_range(t, 4, t.len()));
                assert(t@.subrange(4, t@.len() as int) =~= t@.skip(4));
                i = i + 1;
            } else if starts_with_str(t, "spt:") {
                proof { reveal_strlit("spt:"); }
                rule.source_port = Some(string_of_range(t, 4, t.len()));
                assert(t@.subrange(4, t@.len() as int) =~= t@.skip(4));
                i = i + 1;
            } else {
                i = i + 1;
            }
        }
        Some(rule)
    }

    /// Reads one line of an nftables ruleset as a rule of `table`/`chain`.
    pub fn parse_nftables_rule(&self, line: &str, table: &str, chain: &str, priority: i32) -> (r:
        Option<FirewallRule>)
        ensures
            r matches Some(rule) && rule@ == nftables_rule(line@, table@, chain@, priority),
    {
        let raw = chars_of(line);
        let t = trim_chars(&raw);
        let l = trim_end_matches_chars(&t, ';');
        let ws = split_whitespace(&l);
        let action = if contains_str(&l, "accept") {
            "ACCEPT".to_string()
        } else if contains_str(&l, "drop") {
            "DROP".to_string()
        } else if contains_str(&l, "reject") {
            "REJECT".to_string()
        } else if contains_str(&l, "return") {
            "RETURN".to_string()
        } else if ws.len() > 0 {
            word(&ws[ws.len() - 1])
        } else {
            String::new()
        };
        let protocol = if contains_str(&l, "tcp") || contains_str(&l, "udp") || contains_str(
            &l,
            "icmp",
        ) {
            first_protocol(&ws)
        } else {
            None
        };
        let interface = if contains_str(&l, "iifname") {
            nft_value(&l, "iifname")
        } else {
            nft_value(&l, "oifname")
        };
        let rule = FirewallRule {
            firewall_type: "nftables".to_string(),
            table: table.to_string(),
            chain: chain.to_string(),
            priority,
            action,
            protocol,
            source: nft_value(&l, "saddr"),
            destination: nft_value(&l, "daddr"),
            source_port: nft_value(&l, "sport"),
            destination_port: nft_value(&l, "dport"),
            interface,
            raw_rule: string_of(&l),
        };
        Some(rule)
    }

    /// Reads one line of `ufw status verbose` as a rule.
    pub fn parse_ufw_rule(&self, line: &str, priority: i32) -> (r: Option<FirewallRule>)
        ensures
            match r {
                Some(rule) => ufw_rule(line@, priority) == Some(rule@),
                None => ufw_rule(line@, priority) is None,
            },
    {
        let lv = chars_of(line);
        let parts = split_whitespace(&lv);
        let ghost ps = views(parts@);
        if parts.len() < 3 {
            return None;
        }
        let first = lowercase_chars(&parts[0]);
        let action = if chars_eq_str(&first, "allow") {
            "ACCEPT".to_string()
        } else if chars_eq_str(&first, "deny") {
            "DROP".to_string()
        } else if chars_eq_str(&first, "reject") {
            "REJECT".to_string()
        } else {
            word(&uppercase_chars(&parts[0]))
        };
        let second = lowercase_chars(&parts[1]);
        let chain = if chars_eq_str(&second, "in") {
            "INPUT".to_string()
        } else if chars_eq_str(&second, "out") {
            "OUTPUT".to_string()
        } else {
            "INPUT".to_string()
        };
        proof {
            assert(ps[1] == parts@[1]@);
            assert(second@ == lowercase(ps[1]));
            assert(chain@ == "INPUT"@ || chain@ == "OUTPUT"@);
            assert(chain@ == ufw_chain(ps[1])) by {
                reveal_strlit("in");
                reveal_strlit("out");
                reveal_strlit("INPUT");
                reveal_strlit("OUTPUT");
            }
        }
        let mut rule = FirewallRule {
            firewall_type: "ufw".to_string(),
            table: "filter".to_string(),
            chain,
            priority,
            action,
            protocol: None,
            source: None,
            destination: None,
            source_port: None,
            destination_port: None,
            interface: None,
            raw_rule: line.to_string(),
        };
        let ghost start = rule@;
        let mut i: usize = 2;
        while i < parts.len()
            invariant
                ps == views(parts@),
                2 <= i <= parts@.len(),
                ufw_options(ps, 2, start) == ufw_options(ps, i as int, rule@),
            decreases parts@.len() - i,
        {
            let prev = &parts[i - 1];
            let part = lowercase_chars(&parts[i]);
            let ghost before = rule@;
            ufw_apply(prev, &part, &mut rule);
            assert(rule@ == ufw_step(ps[i - 1], lowercase(ps[i as int]), before));
            i = i + 1;
        }
        Some(rule)
    }
}

/// Whether an optional field holds the text `lit`.
fn field_is(o: &Option<String>, lit: &str) -> (r: bool)
    ensures
        r == (opt_view(*o) == Some(lit@)),
{
    match o {
        Some(s) => {
            let v = chars_of(s.as_str());
            chars_eq_str(&v, lit)
        },
        None => false,
    }
}

/// Whether a text is `lit`.
fn text_is(s: &String, lit: &str) -> (r: bool)
    ensures
        r == (s@ == lit@),
{
    let v = chars_of(s.as_str());
    chars_eq_str(&v, lit)
}

/// Whether a rule accepts all traffic from any address.
fn is_allow_all(r: &FirewallRule) -> (b: bool)
    ensures
        b == allows_all(r@),
{
    text_is(&r.action, "ACCEPT") && field_is(&r.source, "0.0.0.0/0") && r.destination.is_none()
        && r.protocol.is_none()
}

/// Whether a rule is about the SSH port.
fn is_ssh_rule(r: &FirewallRule) -> (b: bool)
    ensures
        b == covers_ssh(r@),
{
    field_is(&r.destination_port, "22") || field_is(&r.destination_port, "ssh")
}

/// Whether a rule among the first five drops everything from any address.
fn is_early_block(r: &FirewallRule) -> (b: bool)
    ensures
        b == blocks_all_early(r@),
{
    r.priority < 5 && (text_is(&r.action, "DROP") || text_is(&r.action, "REJECT")) && field_is(
        &r.source,
        "0.0.0.0/0",
    ) && r.protocol.is_none()
}

/// Appends an optional field to a key.
fn push_field(key: &mut Vec<char>, o: &Option<String>)
    ensures
        final(key)@ == old(key)@ + or_blank(opt_view(*o)),
{
    match o {
        Some(s) => {
            let mut v = chars_of(s.as_str());
            key.append(&mut v);
        },
        None => {
            assert(old(key)@ + Seq::<char>::empty() =~= old(key)@);
        },
    }
}

/// The key by which two rules count as the same.
fn key_of(r: &FirewallRule) -> (k: Vec<char>)
    ensures
        k@ == rule_key(r@),
{
    let mut k = chars_of(r.action.as_str());
    k.push('-');
    push_field(&mut k, &r.protocol);
    k.push('-');
    push_field(&mut k, &r.source);
    k.push('-');
    push_field(&mut k, &r.destination);
    k.push('-');
    push_field(&mut k, &r.source_port);
    k.push('-');
    push_field(&mut k, &r.destination_port);
    k.push('-');
    push_field(&mut k, &r.interface);
    assert(k@ =~= rule_key(r@));
    k
}

/// Whether `key` is among `seen`.
fn contains_key(seen: &Vec<Vec<char>>, key: &Vec<char>) -> (r: bool)
    ensures
        r == views(seen@).contains(key@),
{
    let mut i: usize = 0;
    while i < seen.len()
        invariant
            i <= seen@.len(),
            forall|j: int| 0 <= j < i ==> views(seen@)[j] != key@,
        decreases seen@.len() - i,
    {
        if chars_eq(&seen[i], key) {
            assert(views(seen@)[i as int] == key@);
            return true;
        }
        i = i + 1;
    }
    false
}

/// Applies one word of a ufw rule to the rule read so far.
fn ufw_apply(prev: &Vec<char>, part: &Vec<char>, rule: &mut FirewallRule)
    ensures
        final(rule)@ == ufw_step(prev@, part@, old(rule)@),
{
    if chars_eq_str(part, "tcp") || chars_eq_str(part, "udp") || chars_eq_str(part, "icmp") {
        rule.protocol = Some(word(part));
    } else if contains_str(part, "/") {
        let segs = split_char(part, '/');
        let ghost sv = views(segs@);
        if segs.len() == 2 {
            let port = parse_unsigned(&segs[1], 65535).is_some();
            let from = contains_str(prev, "from");
            let to = contains_str(prev, "to");
            assert(sv[0] == segs@[0]@ && sv[1] == segs@[1]@);
            if port && from {
                rule.source = Some(word(&segs[0]));
                rule.source_port = Some(word(&segs[1]));
            } else if port && to {
                rule.destination = Some(word(&segs[0]));
                rule.destination_port = Some(word(&segs[1]));
            } else if from {
                rule.source = Some(word(part));
            } else if to {
                rule.destination = Some(word(part));
            }
        }
    } else if parse_unsigned(part, 65535).is_some() {
        if contains_str(prev, "port") {
            if contains_str(prev, "from") {
                rule.source_port = Some(word(part));
            } else if contains_str(prev, "to") {
                rule.destination_port = Some(word(part));
            }
        }
    } else if chars_eq_str(prev, "from") {
        rule.source = Some(word(part));
    } else if chars_eq_str(prev, "to") {
        rule.destination = Some(word(part));
    } else if chars_eq_str(prev, "on") {
        rule.interface = Some(word(part));
    }
}

/// The first word that names a protocol.
fn first_protocol(ws: &Vec<Vec<char>>) -> (r: Option<String>)
    ensures
        opt_view(r) == first_protocol_from(views(ws@), 0),
{
    let ghost wv = views(ws@);
    let mut i: usize = 0;
    while i < ws.len()
        invariant
            wv == views(ws@),
            i <= ws@.len(),
            first_protocol_from(wv, 0) == first_protocol_from(wv, i as int),
        decreases ws@.len() - i,
    {
        let w = &ws[i];
        assert(w@ == wv[i as int]);
        if chars_eq_str(w, "tcp") || chars_eq_str(w, "udp") || chars_eq_str(w, "icmp") {
            return Some(word(w));
        }
        i = i + 1;
    }
    None
}

/// The value that follows `key` in an nftables rule.
fn nft_value(l: &Vec<char>, key: &str) -> (r: Option<String>)
    ensures
        opt_view(r) == nft_field(l@, key@),
{
    let k = chars_of(key);
    match find_chars(l, &k) {
        Some(p) => {
            proof { lemma_find_bounds(l@, k@); }
            assert(p + k.len() <= l.len());
            let start = p + k.len();
            let sub = slice_of(l, start, l.len());
            assert(sub@ =~= l@.skip(p + key@.len()));
            let words = split_whitespace(&sub);
            if words.len() > 0 {
                assert(views(words@)[0] == words@[0]@);
                Some(string_of(&words[0]))
            } else {
                Some(String::new())
            }
        },
        None => None,
    }
}

} // verus!

verus! {

/// A rule set that holds a rule accepting all traffic from any address is
/// reported for it.
pub proof fn law_allow_all_is_reported(rules: Seq<FirewallRuleView>, i: int)
    requires
        0 <= i < rules.len(),
        allows_all(rules[i]),
    ensures
        security_issues(rules).contains(ALLOW_ALL_ISSUE@),
{
    assert(security_issues(rules)[0] == ALLOW_ALL_ISSUE@);
}

/// A rule set with no rule for SSH is reported for it.
pub proof fn law_missing_ssh_is_reported(rules: Seq<FirewallRuleView>)
    requires
        forall|i: int| 0 <= i < rules.len() ==> !covers_ssh(#[trigger] rules[i]),
    ensures
        security_issues(rules).contains(NO_SSH_ISSUE@),
{
    let head = if exists|i: int| 0 <= i < rules.len() && allows_all(#[trigger] rules[i]) {
        seq![ALLOW_ALL_ISSUE@]
    } else {
        Seq::empty()
    };
    assert(security_issues(rules)[head.len() as int] == NO_SSH_ISSUE@);
}

/// Each rule whose key repeats that of an earlier rule gets its own issue,
/// naming the rule's text.
pub proof fn law_duplicate_is_reported(rules: Seq<FirewallRuleView>, i: int, j: int)
    requires
        0 <= j < i < rules.len(),
        rule_key(rules[j]) == rule_key(rules[i]),
    ensures
        security_issues(rules).contains(DUPLICATE_ISSUE_PREFIX@ + rules[i].raw_rule),
{
    lemma_duplicate_issue_listed(rules, i, j);
    let d = duplicate_issues(rules);
    let k = choose|k: int| 0 <= k < d.len() && d[k] == DUPLICATE_ISSUE_PREFIX@ + rules[i].raw_rule;
    let head = (if exists|x: int| 0 <= x < rules.len() && allows_all(#[trigger] rules[x]) {
        seq![ALLOW_ALL_ISSUE@]
    } else {
        Seq::empty()
    }) + (if !exists|x: int| 0 <= x < rules.len() && covers_ssh(#[trigger] rules[x]) {
        seq![NO_SSH_ISSUE@]
    } else {
        Seq::empty()
    });
    assert(security_issues(rules)[head.len() + k] == d[k]);
}

/// The duplicate issue of rule `i` is among the duplicate issues.
proof fn lemma_duplicate_issue_listed(rules: Seq<FirewallRuleView>, i: int, j: int)
    requires
        0 <= j < i < rules.len(),
        rule_key(rules[j]) == rule_key(rules[i]),
    ensures
        duplicate_issues(rules).contains(DUPLICATE_ISSUE_PREFIX@ + rules[i].raw_rule),
    decreases rules.len(),
{
    if i == rules.len() - 1 {
        assert(repeats_earlier(rules, i));
        let d = duplicate_issues(rules);
        assert(d.last() == DUPLICATE_ISSUE_PREFIX@ + rules[i].raw_rule);
    } else {
        let p = rules.drop_last();
        assert(p[i] == rules[i] && p[j] == rules[j]);
        lemma_duplicate_issue_listed(p, i, j);
        let dp = duplicate_issues(p);
        let k = choose|k: int| 0 <= k < dp.len() && dp[k] == DUPLICATE_ISSUE_PREFIX@ + rules[i].raw_rule;
        assert(duplicate_issues(rules)[k] == dp[k]);
    }
}

/// Every issue about a repeated rule stands for one rule: there are never
/// more of them than rules.
pub proof fn law_duplicate_issues_bounded(rules: Seq<FirewallRuleView>)
    ensures
        duplicate_issues(rules).len() <= rules.len(),
        security_issues(rules).len() <= rules.len() + 3,
    decreases rules.len(),
{
    if rules.len() > 0 {
        law_duplicate_issues_bounded(rules.drop_last());
    }
}

/// A rule set without repeated keys yields no issue about repeated rules.
pub proof fn law_distinct_rules_have_no_duplicates(rules: Seq<FirewallRuleView>)
    requires
        forall|a: int, b: int|
            0 <= a < b < rules.len() ==> rule_key(#[trigger] rules[a]) != rule_key(
                #[trigger] rules[b],
            ),
    ensures
        duplicate_issues(rules) == Seq::<Seq<char>>::empty(),
    decreases rules.len(),
{
    if rules.len() > 0 {
        let p = rules.drop_last();
        assert forall|a: int, b: int| 0 <= a < b < p.len() implies rule_key(#[trigger] p[a])
            != rule_key(#[trigger] p[b]) by {
            assert(p[a] == rules[a] && p[b] == rules[b]);
        }
        law_distinct_rules_have_no_duplicates(p);
        if repeats_earlier(rules, rules.len() - 1) {
            let j = choose|j: int| 0 <= j < rules.len() - 1 && rule_key(#[trigger] rules[j]) == rule_key(rules[rules.len() - 1]);
            assert(rule_key(rules[j]) != rule_key(rules[rules.len() - 1]));
        }
        assert(duplicate_issues(rules) =~= Seq::<Seq<char>>::empty());
    }
}

/// Every rule read from an iptables listing is an iptables rule of that
/// table, and keeps the line it was read from without its surrounding
/// whitespace.
pub proof fn law_iptables_rules_carry_their_table(table: Seq<char>, ls: Seq<Seq<char>>)
    ensures
        forall|k: int|
            0 <= k < iptables_scan(table, ls).2.len() ==> {
                let r = #[trigger] iptables_scan(table, ls).2[k];
                r.firewall_type == "iptables"@ && r.table == table && exists|i: int|
                    0 <= i < ls.len() && r.raw_rule == trim(ls[i])
            },
    decreases ls.len(),
{
    if ls.len() > 0 {
        let p = ls.drop_last();
        law_iptables_rules_carry_their_table(table, p);
        let prev = iptables_scan(table, p).2;
        let cur = iptables_scan(table, ls).2;
        assert forall|k: int| 0 <= k < cur.len() implies {
            let r = #[trigger] cur[k];
            r.firewall_type == "iptables"@ && r.table == table && exists|i: int|
                0 <= i < ls.len() && r.raw_rule == trim(ls[i])
        } by {
            if k < prev.len() {
                assert(cur[k] == prev[k]);
                let i = choose|i: int| 0 <= i < p.len() && prev[k].raw_rule == trim(p[i]);
                assert(p[i] == ls[i]);
            } else {
                let line = trim(ls.last());
                let (chain, prio, rules) = iptables_scan(table, p);
                assert(cur[k] == iptables_rule(line, table, chain, prio as i32)->0);
                lemma_iptables_options_keep(split_ws(line), 3, blank_rule(
                    "iptables"@,
                    table,
                    chain,
                    prio as i32,
                    split_ws(line)[2],
                    line,
                ));
                assert(ls[ls.len() - 1] == ls.last());
            }
        }
    }
}

/// Reading options changes none of the fixed fields of a rule.
proof fn lemma_iptables_options_keep(parts: Seq<Seq<char>>, i: int, r: FirewallRuleView)
    ensures
        iptables_options(parts, i, r).firewall_type == r.firewall_type,
        iptables_options(parts, i, r).table == r.table,
        iptables_options(parts, i, r).chain == r.chain,
        iptables_options(parts, i, r).priority == r.priority,
        iptables_options(parts, i, r).action == r.action,
        iptables_options(parts, i, r).raw_rule == r.raw_rule,
    decreases parts.len() - i,
{
    if 0 <= i < parts.len() {
        let t = parts[i];
        let next = i + 1 < parts.len();
        if (t == "-p"@ || t == "--protocol"@) && next {
            lemma_iptables_options_keep(parts, i + 2, FirewallRuleView { protocol: Some(parts[i + 1]), ..r });
        } else if (t == "-s"@ || t == "--source"@) && next {
            lemma_iptables_options_keep(parts, i + 2, FirewallRuleView { source: Some(parts[i + 1]), ..r });
        } else if (t == "-d"@ || t == "--destination"@) && next {
            lemma_iptables_options_keep(parts, i + 2, FirewallRuleView { destination: Some(parts[i + 1]), ..r });
        } else if t == "--sport"@ && next {
            lemma_iptables_options_keep(parts, i + 2, FirewallRuleView { source_port: Some(parts[i + 1]), ..r });
        } else if t == "--dport"@ && next {
            lemma_iptables_options_keep(parts, i + 2, FirewallRuleView { destination_port: Some(parts[i + 1]), ..r });
        } else if (t == "-i"@ || t == "--in-interface"@ || t == "-o"@ || t == "--out-interface"@) && next {
            lemma_iptables_options_keep(parts, i + 2, FirewallRuleView { interface: Some(parts[i + 1]), ..r });
        } else if is_protocol_word(t) && r.protocol is None {
            lemma_iptables_options_keep(parts, i + 1, FirewallRuleView { protocol: Some(t), ..r });
        } else if starts_with(t, "dpt:"@) {
            lemma_iptables_options_keep(parts, i + 1, FirewallRuleView { destination_port: Some(t.skip(4)), ..r });
        } else if starts_with(t, "spt:"@) {
            lemma_iptables_options_keep(parts, i + 1, FirewallRuleView { source_port: Some(t.skip(4)), ..r });
        } else {
            lemma_iptables_options_keep(parts, i + 1, r);
        }
    }
}

/// The firewall found is the first, in the order iptables, nftables, ufw,
/// whose probe succeeded; with none, every listing is tried.
pub proof fn law_detection_prefers_iptables(iptables: bool, nftables: bool, ufw: bool)
    ensures
        iptables ==> detected_type(iptables, nftables, ufw) == FirewallType::Iptables,
        !iptables && nftables ==> detected_type(iptables, nftables, ufw) == FirewallType::Nftables,
        detected_type(iptables, nftables, ufw) == FirewallType::Unknown <==> (!iptables && !nftables
            && !ufw),
{
}

/// When the firewall is unknown, scanning never fails.
pub proof fn law_unknown_scan_never_fails(o: &FirewallOutputs)
    ensures
        scanned_rules(FirewallType::Unknown, o) is Some,
{
}

} // verus!

verus! {

/// The number of issues about repeated rules is the number of rules less the
/// number of distinct rule keys.
pub proof fn law_duplicate_count(rules: Seq<FirewallRuleView>)
    ensures
        rule_keys(rules).to_set().finite(),
        duplicate_issues(rules).len() + rule_keys(rules).to_set().len() == rules.len(),
    decreases rules.len(),
{
    broadcast use vstd::set::group_set_axioms;

    if rules.len() == 0 {
        assert(rule_keys(rules).to_set() =~= Set::<Seq<char>>::empty());
    } else {
        let rest = rules.drop_last();
        law_duplicate_count(rest);
        let n = rules.len() - 1;
        let k = rule_key(rules[n]);
        let ks = rule_keys(rest).to_set();
        assert(rules.last() == rules[n]);
        assert(rule_keys(rules).to_set() =~= ks.insert(k)) by {
            assert forall|x: Seq<char>| #[trigger] rule_keys(rules).to_set().contains(x) == ks.insert(
                k,
            ).contains(x) by {
                if rule_keys(rules).contains(x) {
                    let j = choose|j: int| 0 <= j < rule_keys(rules).len() && rule_keys(rules)[j] == x;
                    if j < n {
                        assert(rule_keys(rest)[j] == x);
                    }
                }
                if ks.contains(x) {
                    let j = choose|j: int| 0 <= j < rule_keys(rest).len() && rule_keys(rest)[j] == x;
                    assert(rule_keys(rules)[j] == x);
                }
                if x == k {
                    assert(rule_keys(rules)[n] == x);
                }
            }
        }
        assert(repeats_earlier(rules, n) <==> ks.contains(k)) by {
            if repeats_earlier(rules, n) {
                let j = choose|j: int| 0 <= j < n && rule_key(#[trigger] rules[j]) == rule_key(rules[n]);
                assert(rule_keys(rest)[j] == k);
            }
            if ks.contains(k) {
                let j = choose|j: int| 0 <= j < rule_keys(rest).len() && rule_keys(rest)[j] == k;
                assert(rule_key(rules[j]) == rule_key(rules[n]));
            }
        }
    }
}

/// Reordering the rules changes neither the issues that are not about
/// repeated rules nor how many issues there are about repeated rules.
pub proof fn law_issues_ignore_rule_order(rules: Seq<FirewallRuleView>, reordered: Seq<FirewallRuleView>)
    requires
        rules.to_multiset() == reordered.to_multiset(),
    ensures
        leading_issues(rules) == leading_issues(reordered),
        trailing_issues(rules) == trailing_issues(reordered),
        duplicate_issues(rules).len() == duplicate_issues(reordered).len(),
        security_issues(rules).len() == security_issues(reordered).len(),
{
    broadcast use vstd::seq_lib::group_to_multiset_ensures;

    assert(rules.len() == reordered.len()) by {
        assert(rules.len() == rules.to_multiset().len());
        assert(reordered.len() == reordered.to_multiset().len());
    }
    assert forall|r: FirewallRuleView| rules.contains(r) <==> reordered.contains(r) by {
        assert(rules.contains(r) <==> rules.to_multiset().count(r) > 0);
        assert(reordered.contains(r) <==> reordered.to_multiset().count(r) > 0);
    }
    lemma_same_members_same_flags(rules, reordered);
    lemma_same_members_same_flags(reordered, rules);
    assert(rule_keys(rules).to_set() =~= rule_keys(reordered).to_set()) by {
        assert forall|x: Seq<char>| rule_keys(rules).contains(x) implies rule_keys(reordered).contains(x) by {
            let j = choose|j: int| 0 <= j < rule_keys(rules).len() && rule_keys(rules)[j] == x;
            assert(rules.contains(rules[j]));
            let m = choose|m: int| 0 <= m < reordered.len() && reordered[m] == rules[j];
            assert(rule_keys(reordered)[m] == x);
        }
        assert forall|x: Seq<char>| rule_keys(reordered).contains(x) implies rule_keys(rules).contains(x) by {
            let j = choose|j: int| 0 <= j < rule_keys(reordered).len() && rule_keys(reordered)[j] == x;
            assert(reordered.contains(reordered[j]));
            let m = choose|m: int| 0 <= m < rules.len() && rules[m] == reordered[j];
            assert(rule_keys(rules)[m] == x);
        }
    }
    law_duplicate_count(rules);
    law_duplicate_count(reordered);
}

/// Where every rule of `a` is a rule of `b`, each kind of rule that the
/// issues look for and that `a` has, `b` has too.
proof fn lemma_same_members_same_flags(a: Seq<FirewallRuleView>, b: Seq<FirewallRuleView>)
    requires
        forall|r: FirewallRuleView| a.contains(r) ==> b.contains(r),
    ensures
        (exists|i: int| 0 <= i < a.len() && allows_all(#[trigger] a[i])) ==> exists|i: int|
            0 <= i < b.len() && allows_all(#[trigger] b[i]),
        (exists|i: int| 0 <= i < a.len() && covers_ssh(#[trigger] a[i])) ==> exists|i: int|
            0 <= i < b.len() && covers_ssh(#[trigger] b[i]),
        (exists|i: int| 0 <= i < a.len() && blocks_all_early(#[trigger] a[i])) ==> exists|i: int|
            0 <= i < b.len() && blocks_all_early(#[trigger] b[i]),
{
    if exists|i: int| 0 <= i < a.len() && allows_all(#[trigger] a[i]) {
        let i = choose|i: int| 0 <= i < a.len() && allows_all(#[trigger] a[i]);
        assert(a.contains(a[i]));
        let j = choose|j: int| 0 <= j < b.len() && b[j] == a[i];
        assert(allows_all(b[j]));
    }
    if exists|i: int| 0 <= i < a.len() && covers_ssh(#[trigger] a[i]) {
        let i = choose|i: int| 0 <= i < a.len() && covers_ssh(#[trigger] a[i]);
        assert(a.contains(a[i]));
        let j = choose|j: int| 0 <= j < b.len() && b[j] == a[i];
        assert(covers_ssh(b[j]));
    }
    if exists|i: int| 0 <= i < a.len() && blocks_all_early(#[trigger] a[i]) {
        let i = choose|i: int| 0 <= i < a.len() && blocks_all_early(#[trigger] a[i]);
        assert(a.contains(a[i]));
        let j = choose|j: int| 0 <= j < b.len() && b[j] == a[i];
        assert(blocks_all_early(b[j]));
    }
}

} // verus!

verus! {

/// When all four iptables listing commands succeed, the rules read are those
/// of the filter, nat, mangle and raw listings, in that order: no table is
/// left out.
pub proof fn law_every_iptables_table_is_read(o: &FirewallOutputs)
    requires
        o.filter matches Some(f) && f.success,
        o.nat matches Some(n) && n.success,
        o.mangle matches Some(m) && m.success,
        o.raw matches Some(r) && r.success,
    ensures
        iptables_rules(o) == Some(
            iptables_listing("filter"@, o.filter.unwrap().stdout@) + iptables_listing(
                "nat"@,
                o.nat.unwrap().stdout@,
            ) + iptables_listing("mangle"@, o.mangle.unwrap().stdout@) + iptables_listing(
                "raw"@,
                o.raw.unwrap().stdout@,
            ),
        ),
{
    let e = Seq::<FirewallRuleView>::empty();
    assert(e + iptables_listing("filter"@, o.filter.unwrap().stdout@) =~= iptables_listing(
        "filter"@,
        o.filter.unwrap().stdout@,
    ));
}

/// Every issue about a repeated rule starts with the text of such issues.
proof fn lemma_duplicate_issues_prefixed(rules: Seq<FirewallRuleView>)
    ensures
        forall|k: int|
            0 <= k < duplicate_issues(rules).len() ==> (#[trigger] duplicate_issues(rules)[k]).len()
                >= DUPLICATE_ISSUE_PREFIX@.len() && duplicate_issues(rules)[k].take(
                DUPLICATE_ISSUE_PREFIX@.len() as int,
            ) == DUPLICATE_ISSUE_PREFIX@,
    decreases rules.len(),
{
    if rules.len() > 0 {
        lemma_duplicate_issues_prefixed(rules.drop_last());
        let d = duplicate_issues(rules);
        let p = duplicate_issues(rules.drop_last());
        assert forall|k: int| 0 <= k < d.len() implies (#[trigger] d[k]).len()
            >= DUPLICATE_ISSUE_PREFIX@.len() && d[k].take(DUPLICATE_ISSUE_PREFIX@.len() as int)
            == DUPLICATE_ISSUE_PREFIX@ by {
            if k < p.len() {
                assert(d[k] == p[k]);
            } else {
                let t = DUPLICATE_ISSUE_PREFIX@ + rules.last().raw_rule;
                assert(d[k] == t);
                assert(t.take(DUPLICATE_ISSUE_PREFIX@.len() as int) =~= DUPLICATE_ISSUE_PREFIX@);
            }
        }
    }
}

/// The issue texts differ from one another in their first character, and
/// so does the text of issues about repeated rules from the blocking issue.
proof fn lemma_issue_texts_differ()
    ensures
        ALLOW_ALL_ISSUE@.len() > 0,
        NO_SSH_ISSUE@.len() > 0,
        BLOCKING_ISSUE@.len() > 0,
        DUPLICATE_ISSUE_PREFIX@.len() > 0,
        ALLOW_ALL_ISSUE@[0] != BLOCKING_ISSUE@[0],
        NO_SSH_ISSUE@[0] != BLOCKING_ISSUE@[0],
        DUPLICATE_ISSUE_PREFIX@[0] != BLOCKING_ISSUE@[0],
{
    reveal_strlit("Обнаружено правило, разрешающее весь входящий трафик");
    reveal_strlit("Не обнаружено правил для SSH (порт 22)");
    reveal_strlit("Обнаружено дублирующееся правило: ");
    reveal_strlit("Высокоприоритетное правило блокирует весь трафик");
}

/// The blocking issue is reported exactly when some rule among the first
/// five of its chain (priority below 5) drops or rejects all traffic from
/// any address (`0.0.0.0/0`, no protocol). In particular a rule set whose
/// rules all have priority 5 or more never yields it.
pub proof fn law_blocking_issue_needs_an_early_drop_all(rules: Seq<FirewallRuleView>)
    ensures
        security_issues(rules).contains(BLOCKING_ISSUE@) <==> exists|i: int|
            0 <= i < rules.len() && (#[trigger] rules[i]).priority < 5 && (rules[i].action
                == "DROP"@ || rules[i].action == "REJECT"@) && rules[i].source == Some(
                "0.0.0.0/0"@,
            ) && rules[i].protocol is None,
        (forall|i: int| 0 <= i < rules.len() ==> (#[trigger] rules[i]).priority >= 5)
            ==> !security_issues(rules).contains(BLOCKING_ISSUE@),
{
    lemma_issue_texts_differ();
    lemma_duplicate_issues_prefixed(rules);
    let lead = leading_issues(rules);
    let dup = duplicate_issues(rules);
    let tail = trailing_issues(rules);
    let all = security_issues(rules);
    assert(all == lead + dup + tail);
    let b = BLOCKING_ISSUE@;
    assert forall|k: int| 0 <= k < lead.len() implies #[trigger] lead[k] != b by {
        if lead[k] == b {
            assert(lead[k] == ALLOW_ALL_ISSUE@ || lead[k] == NO_SSH_ISSUE@);
        }
    }
    assert forall|k: int| 0 <= k < dup.len() implies #[trigger] dup[k] != b by {
        if dup[k] == b {
            assert(dup[k][0] == dup[k].take(DUPLICATE_ISSUE_PREFIX@.len() as int)[0]);
        }
    }
    if all.contains(b) {
        let k = choose|k: int| 0 <= k < all.len() && all[k] == b;
        if k < lead.len() {
            assert(all[k] == lead[k]);
        } else if k < lead.len() + dup.len() {
            assert(all[k] == dup[k - lead.len()]);
        } else {
            assert(all[k] == tail[k - lead.len() - dup.len()]);
            assert(tail.len() > 0);
        }
    }
    if exists|i: int|
        0 <= i < rules.len() && (#[trigger] rules[i]).priority < 5 && (rules[i].action == "DROP"@
            || rules[i].action == "REJECT"@) && rules[i].source == Some("0.0.0.0/0"@)
            && rules[i].protocol is None {
        let i = choose|i: int|
            0 <= i < rules.len() && (#[trigger] rules[i]).priority < 5 && (rules[i].action
                == "DROP"@ || rules[i].action == "REJECT"@) && rules[i].source == Some(
                "0.0.0.0/0"@,
            ) && rules[i].protocol is None;
        assert(blocks_all_early(rules[i]));
        assert(tail == seq![b]);
        assert(all[(lead.len() + dup.len()) as int] == b);
    }
}

} // verus!

verus! {

/// The issue texts that are not about repeated rules differ from those that
/// are, and from one another.
proof fn lemma_fixed_issue_texts_are_distinct()
    ensures
        ALLOW_ALL_ISSUE@ != NO_SSH_ISSUE@,
        ALLOW_ALL_ISSUE@ != BLOCKING_ISSUE@,
        NO_SSH_ISSUE@ != BLOCKING_ISSUE@,
        forall|t: Seq<char>|
            t.len() >= DUPLICATE_ISSUE_PREFIX@.len() && t.take(DUPLICATE_ISSUE_PREFIX@.len() as int)
                == DUPLICATE_ISSUE_PREFIX@ ==> t != ALLOW_ALL_ISSUE@ && t != NO_SSH_ISSUE@ && t
                != BLOCKING_ISSUE@,
{
    reveal_strlit("Обнаружено правило, разрешающее весь входящий трафик");
    reveal_strlit("Не обнаружено правил для SSH (порт 22)");
    reveal_strlit("Обнаружено дублирующееся правило: ");
    reveal_strlit("Высокоприоритетное правило блокирует весь трафик");
    assert(ALLOW_ALL_ISSUE@[0] != NO_SSH_ISSUE@[0]);
    assert(ALLOW_ALL_ISSUE@[0] != BLOCKING_ISSUE@[0]);
    assert(NO_SSH_ISSUE@[0] != BLOCKING_ISSUE@[0]);
    assert forall|t: Seq<char>|
        t.len() >= DUPLICATE_ISSUE_PREFIX@.len() && t.take(DUPLICATE_ISSUE_PREFIX@.len() as int)
            == DUPLICATE_ISSUE_PREFIX@ implies t != ALLOW_ALL_ISSUE@ && t != NO_SSH_ISSUE@ && t
        != BLOCKING_ISSUE@ by {
        assert(t[11] == t.take(DUPLICATE_ISSUE_PREFIX@.len() as int)[11]);
        assert(t[0] == t.take(DUPLICATE_ISSUE_PREFIX@.len() as int)[0]);
        assert(DUPLICATE_ISSUE_PREFIX@[11] != ALLOW_ALL_ISSUE@[11]);
        assert(DUPLICATE_ISSUE_PREFIX@[0] != NO_SSH_ISSUE@[0]);
        assert(DUPLICATE_ISSUE_PREFIX@[0] != BLOCKING_ISSUE@[0]);
    }
}

/// The allow-all issue is reported exactly when some rule accepts traffic
/// from any address (`0.0.0.0/0`) with no destination and no protocol; the
/// missing-SSH issue exactly when no rule has destination port `22` or
/// `ssh`.
pub proof fn law_allow_all_and_ssh_issue_conditions(rules: Seq<FirewallRuleView>)
    ensures
        security_issues(rules).contains(ALLOW_ALL_ISSUE@) <==> exists|i: int|
            0 <= i < rules.len() && (#[trigger] rules[i]).action == "ACCEPT"@ && rules[i].source
                == Some("0.0.0.0/0"@) && rules[i].destination is None && rules[i].protocol is None,
        security_issues(rules).contains(NO_SSH_ISSUE@) <==> forall|i: int|
            0 <= i < rules.len() ==> (#[trigger] rules[i]).destination_port != Some("22"@)
                && rules[i].destination_port != Some("ssh"@),
{
    lemma_fixed_issue_texts_are_distinct();
    lemma_duplicate_issues_prefixed(rules);
    let lead = leading_issues(rules);
    let dup = duplicate_issues(rules);
    let tail = trailing_issues(rules);
    let all = security_issues(rules);
    assert(all == lead + dup + tail);
    let has_allow = exists|i: int| 0 <= i < rules.len() && allows_all(#[trigger] rules[i]);
    let no_ssh = !exists|i: int| 0 <= i < rules.len() && covers_ssh(#[trigger] rules[i]);
    // An issue text that no repeated rule and no blocking rule gives is in the
    // whole list exactly when it is among the leading issues.
    assert forall|x: Seq<char>| x == ALLOW_ALL_ISSUE@ || x == NO_SSH_ISSUE@ implies (all.contains(x)
        <==> lead.contains(x)) by {
        if all.contains(x) {
            let k = choose|k: int| 0 <= k < all.len() && all[k] == x;
            if k >= lead.len() && k < lead.len() + dup.len() {
                assert(all[k] == dup[k - lead.len()]);
                assert(dup[k - lead.len()].take(DUPLICATE_ISSUE_PREFIX@.len() as int)
                    == DUPLICATE_ISSUE_PREFIX@);
            } else if k >= lead.len() + dup.len() {
                assert(all[k] == tail[k - lead.len() - dup.len()]);
            } else {
                assert(all[k] == lead[k]);
            }
        }
        if lead.contains(x) {
            let k = choose|k: int| 0 <= k < lead.len() && lead[k] == x;
            assert(all[k] == lead[k]);
        }
    }
    if has_allow {
        assert(lead[0] == ALLOW_ALL_ISSUE@);
        let i = choose|i: int| 0 <= i < rules.len() && allows_all(#[trigger] rules[i]);
        assert(rules[i].action == "ACCEPT"@);
    }
    if exists|i: int|
        0 <= i < rules.len() && (#[trigger] rules[i]).action == "ACCEPT"@ && rules[i].source
            == Some("0.0.0.0/0"@) && rules[i].destination is None && rules[i].protocol is None {
        let i = choose|i: int|
            0 <= i < rules.len() && (#[trigger] rules[i]).action == "ACCEPT"@ && rules[i].source
                == Some("0.0.0.0/0"@) && rules[i].destination is None && rules[i].protocol is None;
        assert(allows_all(rules[i]));
    }
    if no_ssh {
        assert(lead[lead.len() - 1] == NO_SSH_ISSUE@);
    } else {
        let i = choose|i: int| 0 <= i < rules.len() && covers_ssh(#[trigger] rules[i]);
        assert(!(rules[i].destination_port != Some("22"@) && rules[i].destination_port != Some(
            "ssh"@,
        )));
    }
    if lead.contains(NO_SSH_ISSUE@) {
        let k = choose|k: int| 0 <= k < lead.len() && lead[k] == NO_SSH_ISSUE@;
        if !no_ssh {
            assert(lead[k] == ALLOW_ALL_ISSUE@);
        }
    }
    if lead.contains(ALLOW_ALL_ISSUE@) {
        let k = choose|k: int| 0 <= k < lead.len() && lead[k] == ALLOW_ALL_ISSUE@;
        if !has_allow {
            assert(lead[k] == NO_SSH_ISSUE@);
        }
    }
}

/// Two rules that agree on verdict, protocol, addresses, ports and
/// interface are the same rule: the later one is reported as repeated.
pub proof fn law_rules_with_the_same_fields_are_repeats(rules: Seq<FirewallRuleView>, i: int, j: int)
    requires
        0 <= j < i < rules.len(),
        rules[i].action == rules[j].action,
        rules[i].protocol == rules[j].protocol,
        rules[i].source == rules[j].source,
        rules[i].destination == rules[j].destination,
        rules[i].source_port == rules[j].source_port,
        rules[i].destination_port == rules[j].destination_port,
        rules[i].interface == rules[j].interface,
    ensures
        security_issues(rules).contains(DUPLICATE_ISSUE_PREFIX@ + rules[i].raw_rule),
{
    law_duplicate_is_reported(rules, i, j);
}

/// The chain of a ufw rule is `OUTPUT` for the direction `out` (in any
/// case) and `INPUT` otherwise; its verdict is `ACCEPT` for `allow`, `DROP`
/// for `deny`, `REJECT` for `reject` (in any case), else the word upper-cased.
pub proof fn law_ufw_verdict_and_chain(first: Seq<char>, second: Seq<char>)
    ensures
        lowercase(second) == "out"@ ==> ufw_chain(second) == "OUTPUT"@,
        lowercase(second) != "out"@ ==> ufw_chain(second) == "INPUT"@,
        lowercase(first) == "allow"@ ==> ufw_action(first) == "ACCEPT"@,
        lowercase(first) == "deny"@ ==> ufw_action(first) == "DROP"@,
        lowercase(first) == "reject"@ ==> ufw_action(first) == "REJECT"@,
        (lowercase(first) != "allow"@ && lowercase(first) != "deny"@ && lowercase(first)
            != "reject"@) ==> ufw_action(first) == uppercase(first),
{
    reveal_strlit("allow");
    reveal_strlit("deny");
    reveal_strlit("reject");
    assert("allow"@[0] != "deny"@[0]);
    assert("allow"@.len() != "reject"@.len());
    assert("deny"@.len() != "reject"@.len());
}

/// The verdict of an nftables rule: `ACCEPT` when it mentions `accept`,
/// else `DROP` for `drop`, `REJECT` for `reject`, `RETURN` for `return`.
pub proof fn law_nftables_verdict(l: Seq<char>)
    ensures
        contains(l, "accept"@) ==> nft_action(l) == "ACCEPT"@,
        !contains(l, "accept"@) && contains(l, "drop"@) ==> nft_action(l) == "DROP"@,
        !contains(l, "accept"@) && !contains(l, "drop"@) && contains(l, "reject"@) ==> nft_action(l)
            == "REJECT"@,
        !contains(l, "accept"@) && !contains(l, "drop"@) && !contains(l, "reject"@) && contains(
            l,
            "return"@,
        ) ==> nft_action(l) == "RETURN"@,
{
}

/// An iptables listing line of three or more words is a rule whose verdict
/// is the third word, of the given table and chain, with the line as its
/// text; a shorter line is none.
pub proof fn law_iptables_line_verdict(line: Seq<char>, table: Seq<char>, chain: Seq<char>, priority: i32)
    ensures
        split_ws(line).len() >= 3 ==> (iptables_rule(line, table, chain, priority) matches Some(r)
            && r.action == split_ws(line)[2] && r.table == table && r.chain == chain && r.priority
            == priority && r.raw_rule == line && r.firewall_type == "iptables"@),
        split_ws(line).len() < 3 ==> iptables_rule(line, table, chain, priority) is None,
{
    if split_ws(line).len() >= 3 {
        lemma_iptables_options_keep_fixed(
            split_ws(line),
            3,
            blank_rule("iptables"@, table, chain, priority, split_ws(line)[2], line),
        );
    }
}

/// Reading options never changes the fixed fields of a rule.
proof fn lemma_iptables_options_keep_fixed(parts: Seq<Seq<char>>, i: int, r: FirewallRuleView)
    ensures
        iptables_options(parts, i, r).action == r.action,
        iptables_options(parts, i, r).table == r.table,
        iptables_options(parts, i, r).chain == r.chain,
        iptables_options(parts, i, r).priority == r.priority,
        iptables_options(parts, i, r).raw_rule == r.raw_rule,
        iptables_options(parts, i, r).firewall_type == r.firewall_type,
    decreases parts.len() - i,
{
    if 0 <= i < parts.len() {
        let t = parts[i];
        let next = i + 1 < parts.len();
        if (t == "-p"@ || t == "--protocol"@) && next {
            lemma_iptables_options_keep_fixed(parts, i + 2, FirewallRuleView { protocol: Some(parts[i + 1]), ..r });
        } else if (t == "-s"@ || t == "--source"@) && next {
            lemma_iptables_options_keep_fixed(parts, i + 2, FirewallRuleView { source: Some(parts[i + 1]), ..r });
        } else if (t == "-d"@ || t == "--destination"@) && next {
            lemma_iptables_options_keep_fixed(parts, i + 2, FirewallRuleView { destination: Some(parts[i + 1]), ..r });
        } else if t == "--sport"@ && next {
            lemma_iptables_options_keep_fixed(parts, i + 2, FirewallRuleView { source_port: Some(parts[i + 1]), ..r });
        } else if t == "--dport"@ && next {
            lemma_iptables_options_keep_fixed(parts, i + 2, FirewallRuleView { destination_port: Some(parts[i + 1]), ..r });
        } else if (t == "-i"@ || t == "--in-interface"@ || t == "-o"@ || t == "--out-interface"@) && next {
            lemma_iptables_options_keep_fixed(parts, i + 2, FirewallRuleView { interface: Some(parts[i + 1]), ..r });
        } else if is_protocol_word(t) && r.protocol is None {
            lemma_iptables_options_keep_fixed(parts, i + 1, FirewallRuleView { protocol: Some(t), ..r });
        } else if starts_with(t, "dpt:"@) {
            lemma_iptables_options_keep_fixed(parts, i + 1, FirewallRuleView { destination_port: Some(t.skip(4)), ..r });
        } else if starts_with(t, "spt:"@) {
            lemma_iptables_options_keep_fixed(parts, i + 1, FirewallRuleView { source_port: Some(t.skip(4)), ..r });
        } else {
            lemma_iptables_options_keep_fixed(parts, i + 1, r);
        }
    }
}

} // verus!
