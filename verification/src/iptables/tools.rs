//! The iptables commands behind a forward, and the reading of what iptables
//! prints.

use crate::text::{
    chars_of, decimal, decimal_text, fields, lines_of, occurs_at, starts_with, parse_u64, parsed_u64, same,
    split, split_fields, split_lines, split_on, trim, trimmed, views,
};
use crate::effect::{drive, Machine, as_commands, unit_step, Reply, ReplyView, Request, RequestView, Step, StepView};
use vstd::prelude::*;

verus! {

/// The ` -m comment --comment "..."` part of a rule, when a comment is given.
pub open spec fn comment_part(comment: Option<Seq<char>>) -> Seq<char> {
    match comment {
        Some(c) => " -m comment --comment \""@ + c + "\""@,
        None => Seq::empty(),
    }
}

/// The PREROUTING rule of a forward: packets for `local_port` are sent on to
/// `target_ip:target_port`.
pub open spec fn prerouting_rule(
    local_port: Seq<char>,
    target_ip: Seq<char>,
    target_port: Seq<char>,
    protocol: Seq<char>,
    comment: Option<Seq<char>>,
) -> Seq<char> {
    "iptables -t nat -I PREROUTING"@ + " -p "@ + protocol + " --dport "@ + local_port
        + " -j DNAT --to-destination "@ + target_ip + ":"@ + target_port + comment_part(comment)
}

/// The POSTROUTING rule of a forward: packets to `target_ip:target_port` leave
/// with this host's address `host_ip` as their source.
pub open spec fn postrouting_rule(
    target_ip: Seq<char>,
    target_port: Seq<char>,
    protocol: Seq<char>,
    comment: Option<Seq<char>>,
    host_ip: Seq<char>,
) -> Seq<char> {
    "iptables -t nat -I POSTROUTING -d "@ + target_ip + " -p "@ + protocol + " --dport "@
        + target_port + " -j SNAT --to-source "@ + host_ip + comment_part(comment)
}

/// A FORWARD rule that matches traffic to (`flag` is `-d`) or from (`flag` is
/// `-s`) the target; the protocol, already lower-cased, and port are matched
/// only when a protocol is given.
pub open spec fn forward_rule(
    flag: Seq<char>,
    target_ip: Seq<char>,
    target_port: Seq<char>,
    comment: Option<Seq<char>>,
    lowered_protocol: Option<Seq<char>>,
) -> Seq<char> {
    "iptables -t filter -I FORWARD "@ + flag + " "@ + target_ip + match lowered_protocol {
        Some(p) => " -p "@ + p + " --dport "@ + target_port,
        None => Seq::empty(),
    } + comment_part(comment)
}

/// What `str::to_lowercase` gives for a string: the lower-case mapping of
/// Unicode, which takes tables to state.
pub uninterp spec fn lowercase(s: Seq<char>) -> Seq<char>;

/// Lower-cases a string with `str::to_lowercase`; the result is `lowercase`
/// of the argument, and nothing more is claimed of it.
#[verifier::external_body]
fn to_lowercase(s: &str) -> (r: String)
    ensures
        r@ == lowercase(s@),
{
    s.to_lowercase()
}

/// Every character of `s` is an ASCII character.
pub open spec fn all_ascii(s: Seq<char>) -> bool {
    forall|i: int| 0 <= i < s.len() ==> (#[trigger] s[i] as u32) < 128
}

/// An ASCII capital letter, `A` to `Z`.
pub open spec fn is_ascii_upper(c: char) -> bool {
    65 <= (c as u32) <= 90
}

/// ASCII lower-casing of a character: `A` to `Z` become `a` to `z`, every
/// other character stays.
pub open spec fn ascii_lower_char(c: char) -> char {
    if is_ascii_upper(c) {
        ((c as u32) + 32) as char
    } else {
        c
    }
}

/// ASCII lower-casing of a string, character by character.
pub open spec fn ascii_lower(s: Seq<char>) -> Seq<char> {
    s.map_values(|c: char| ascii_lower_char(c))
}

/// The lower-case form of a protocol name: an ASCII name has its letters
/// `A` to `Z` lower-cased and keeps every other character, which is what
/// `str::to_lowercase` does to ASCII text; any other name is what
/// `str::to_lowercase` gives (see `lowercase`).
pub open spec fn lower_form(s: Seq<char>) -> Seq<char> {
    if all_ascii(s) {
        ascii_lower(s)
    } else {
        lowercase(s)
    }
}

/// The lower-case letter of an ASCII capital letter.
fn lower_letter(c: char) -> (r: &'static str)
    requires
        is_ascii_upper(c),
    ensures
        r@ == seq![ascii_lower_char(c)],
{
    match c {
        'A' => {
            proof {
                reveal_strlit("a");
            }
            "a"
        },
        'B' => {
            proof {
                reveal_strlit("b");
            }
            "b"
        },
        'C' => {
            proof {
                reveal_strlit("c");
            }
            "c"
        },
        'D' => {
            proof {
                reveal_strlit("d");
            }
            "d"
        },
        'E' => {
            proof {
                reveal_strlit("e");
            }
            "e"
        },
        'F' => {
            proof {
                reveal_strlit("f");
            }
            "f"
        },
        'G' => {
            proof {
                reveal_strlit("g");
            }
            "g"
        },
        'H' => {
            proof {
                reveal_strlit("h");
            }
            "h"
        },
        'I' => {
            proof {
                reveal_strlit("i");
            }
            "i"
        },
        'J' => {
            proof {
                reveal_strlit("j");
            }
            "j"
        },
        'K' => {
            proof {
                reveal_strlit("k");
            }
            "k"
        },
        'L' => {
            proof {
                reveal_strlit("l");
            }
            "l"
        },
        'M' => {
            proof {
                reveal_strlit("m");
            }
            "m"
        },
        'N' => {
            proof {
                reveal_strlit("n");
            }
            "n"
        },
        'O' => {
            proof {
                reveal_strlit("o");
            }
            "o"
        },
        'P' => {
            proof {
                reveal_strlit("p");
            }
            "p"
        },
        'Q' => {
            proof {
                reveal_strlit("q");
            }
            "q"
        },
        'R' => {
            proof {
                reveal_strlit("r");
            }
            "r"
        },
        'S' => {
            proof {
                reveal_strlit("s");
            }
            "s"
        },
        'T' => {
            proof {
                reveal_strlit("t");
            }
            "t"
        },
        'U' => {
            proof {
                reveal_strlit("u");
            }
            "u"
        },
        'V' => {
            proof {
                reveal_strlit("v");
            }
            "v"
        },
        'W' => {
            proof {
                reveal_strlit("w");
            }
            "w"
        },
        'X' => {
            proof {
                reveal_strlit("x");
            }
            "x"
        },
        'Y' => {
            proof {
                reveal_strlit("y");
            }
            "y"
        },
        _ => {
            proof {
                reveal_strlit("z");
            }
            "z"
        },
    }
}

/// Lower-cases a protocol name (see `lower_form`): an ASCII name character
/// by character, any other with `str::to_lowercase`.
fn lower_protocol(p: &str) -> (r: String)
    ensures
        r@ == lower_form(p@),
{
    let cs = chars_of(p);
    let mut out = String::new();
    let mut i: usize = 0;
    while i < cs.len()
        invariant
            cs@ == p@,
            i <= cs@.len(),
            forall|k: int| 0 <= k < i ==> (#[trigger] p@[k] as u32) < 128,
            out@ == ascii_lower(p@.take(i as int)),
        decreases cs@.len() - i,
    {
        let c = cs[i];
        let u = c as u32;
        if u >= 128 {
            assert(!all_ascii(p@));
            return to_lowercase(p);
        }
        let piece = if u >= 65 && u <= 90 {
            lower_letter(c)
        } else {
            let one = p.substring_char(i, i + 1);
            assert(one@ =~= seq![c]);
            one
        };
        assert(piece@ == seq![ascii_lower_char(c)]);
        out.append(piece);
        assert(ascii_lower(p@.take(i + 1)) =~= ascii_lower(p@.take(i as int)) + seq![ascii_lower_char(c)]);
        i = i + 1;
    }
    assert(p@.take(i as int) =~= p@);
    out
}

fn append_comment(command: &mut String, comment: Option<&str>)
    ensures
        final(command)@ == old(command)@ + comment_part(
            match comment {
                Some(c) => Some(c@),
                None => None,
            },
        ),
{
    match comment {
        Some(c) => {
            command.append(" -m comment --comment \"");
            command.append(c);
            command.append("\"");
        },
        None => {
            assert(old(command)@ + Seq::<char>::empty() =~= old(command)@);
        },
    }
}

/// The view of an optional string.
pub open spec fn opt_view(o: Option<&str>) -> Option<Seq<char>> {
    match o {
        Some(s) => Some(s@),
        None => None,
    }
}

/// Builds the PREROUTING rule of a forward.
pub fn generate_prerouting_command(
    local_port: &str,
    target_ip: &str,
    target_port: &str,
    protocol: &str,
    comment: Option<&str>,
) -> (r: String)
    ensures
        r@ == prerouting_rule(local_port@, target_ip@, target_port@, protocol@, opt_view(comment)),
{
    let mut command = String::from_str("iptables -t nat -I PREROUTING");
    command.append(" -p ");
    command.append(protocol);
    command.append(" --dport ");
    command.append(local_port);
    command.append(" -j DNAT --to-destination ");
    command.append(target_ip);
    command.append(":");
    command.append(target_port);
    append_comment(&mut command, comment);
    command
}

/// Builds the POSTROUTING rule of a forward, given this host's address.
pub fn generate_postrouting_command(
    target_ip: &str,
    target_port: &str,
    protocol: &str,
    comment: Option<&str>,
    host_ip: &str,
) -> (r: String)
    ensures
        r@ == postrouting_rule(target_ip@, target_port@, protocol@, opt_view(comment), host_ip@),
{
    let mut command = String::from_str("iptables -t nat -I POSTROUTING -d ");
    command.append(target_ip);
    command.append(" -p ");
    command.append(protocol);
    command.append(" --dport ");
    command.append(target_port);
    command.append(" -j SNAT --to-source ");
    command.append(host_ip);
    append_comment(&mut command, comment);
    command
}

/// The two FORWARD rules of a forward; they let iptables count the traffic.
#[derive(Debug)]
pub struct ForwardCommand {
    /// Matches traffic coming from the target (download).
    pub down: String,
    /// Matches traffic going to the target (upload).
    pub up: String,
}

fn forward_rule_exec(
    flag: &str,
    target_ip: &str,
    target_port: &str,
    comment: Option<&str>,
    lowered_protocol: Option<&str>,
) -> (r: String)
    ensures
        r@ == forward_rule(flag@, target_ip@, target_port@, opt_view(comment), opt_view(lowered_protocol)),
{
    let mut command = String::from_str("iptables -t filter -I FORWARD ");
    command.append(flag);
    command.append(" ");
    command.append(target_ip);
    match lowered_protocol {
        Some(p) => {
            command.append(" -p ");
            command.append(p);
            command.append(" --dport ");
            command.append(target_port);
        },
        None => {},
    }
    append_comment(&mut command, comment);
    proof {
        let tail = match opt_view(lowered_protocol) {
            Some(p) => " -p "@ + p + " --dport "@ + target_port@,
            None => Seq::<char>::empty(),
        };
        assert(command@ =~= "iptables -t filter -I FORWARD "@ + flag@ + " "@ + target_ip@ + tail
            + comment_part(opt_view(comment)));
    }
    command
}

/// Builds both FORWARD rules from a protocol that is already lower-cased.
pub fn forward_commands_lowered(
    target_ip: &str,
    target_port: &str,
    comment: Option<&str>,
    lowered_protocol: Option<&str>,
) -> (r: ForwardCommand)
    ensures
        r.up@ == forward_rule("-d"@, target_ip@, target_port@, opt_view(comment), opt_view(lowered_protocol)),
        r.down@ == forward_rule("-s"@, target_ip@, target_port@, opt_view(comment), opt_view(lowered_protocol)),
{
    let up = forward_rule_exec("-d", target_ip, target_port, comment, lowered_protocol);
    let down = forward_rule_exec("-s", target_ip, target_port, comment, lowered_protocol);
    ForwardCommand { down, up }
}

/// Builds both FORWARD rules of a forward; the protocol, when given, is
/// lower-cased first.
pub fn generate_forward_command(
    target_ip: &str,
    target_port: &str,
    comment: Option<&str>,
    protocol: Option<&str>,
) -> (r: Result<ForwardCommand, String>)
    ensures
        r matches Ok(f) && f.up@ == forward_rule("-d"@, target_ip@, target_port@, opt_view(comment),
            lowered(opt_view(protocol))) && f.down@ == forward_rule("-s"@, target_ip@, target_port@,
            opt_view(comment), lowered(opt_view(protocol))),
{
    match protocol {
        Some(p) => {
            let low = lower_protocol(p);
            Ok(forward_commands_lowered(target_ip, target_port, comment, Some(low.as_str())))
        },
        None => Ok(forward_commands_lowered(target_ip, target_port, comment, None)),
    }
}

/// The lower-cased protocol, when one is given (see `lower_form`).
pub open spec fn lowered(protocol: Option<Seq<char>>) -> Option<Seq<char>> {
    match protocol {
        Some(p) => Some(lower_form(p)),
        None => None,
    }
}


/// The iptables chains that a forward puts rules in.
#[derive(Debug, Clone, Copy, PartialEq, Eq, Structural)]
pub enum ChainType {
    FORWARD,
    POSTROUTING,
    PREROUTING,
}

/// The name iptables knows a chain by.
pub open spec fn chain_name(c: ChainType) -> Seq<char> {
    match c {
        ChainType::FORWARD => "FORWARD"@,
        ChainType::POSTROUTING => "POSTROUTING"@,
        ChainType::PREROUTING => "PREROUTING"@,
    }
}

/// The table a chain's forwarding rules live in: FORWARD rules in `filter`,
/// the address-rewriting ones in `nat`.
pub open spec fn chain_table(c: ChainType) -> Seq<char> {
    if c == ChainType::FORWARD {
        "filter"@
    } else {
        "nat"@
    }
}

impl ChainType {
    /// The chain's name, as iptables writes it.
    pub fn name(&self) -> (r: &'static str)
        ensures
            r@ == chain_name(*self),
    {
        match self {
            ChainType::FORWARD => "FORWARD",
            ChainType::POSTROUTING => "POSTROUTING",
            ChainType::PREROUTING => "PREROUTING",
        }
    }

    /// The table that holds the chain's rules.
    pub fn table(&self) -> (r: &'static str)
        ensures
            r@ == chain_table(*self),
    {
        if *self == ChainType::FORWARD {
            "filter"
        } else {
            "nat"
        }
    }
}

/// The command that lists a chain's rules with their numbers.
pub open spec fn list_rules_command(c: ChainType) -> Seq<char> {
    "iptables -t "@ + chain_table(c) + " -vnL "@ + chain_name(c) + " --line"@
}

/// The command that deletes rule number `index` of a chain.
pub open spec fn delete_rule_command(c: ChainType, index: Seq<char>) -> Seq<char> {
    "iptables -t "@ + chain_table(c) + " -D "@ + chain_name(c) + " "@ + index
}

/// Builds the command that lists a chain's rules with their numbers.
pub fn list_rules(chain: ChainType) -> (r: String)
    ensures
        r@ == list_rules_command(chain),
{
    let mut command = String::from_str("iptables -t ");
    command.append(chain.table());
    command.append(" -vnL ");
    command.append(chain.name());
    command.append(" --line");
    command
}

/// Builds the command that deletes rule number `index` of a chain.
pub fn delete_rule(chain: ChainType, index: &str) -> (r: String)
    ensures
        r@ == delete_rule_command(chain, index@),
{
    let mut command = String::from_str("iptables -t ");
    command.append(chain.table());
    command.append(" -D ");
    command.append(chain.name());
    command.append(" ");
    command.append(index);
    command
}

/// What iptables prints in the `opt` column of an IPv4 rule.
pub open spec fn opt_column(s: Seq<char>) -> bool {
    s == "--"@ || s == "-f"@ || s == "!f"@
}

/// Where the source column stands among the fields of a listed rule, whose
/// columns are `num pkts bytes target prot opt in out source destination`,
/// then the rule's options. A rule without a target, as the FORWARD rules made
/// here, prints an empty target column, which yields no field: its `opt`
/// column is then the fifth field and its source the eighth; otherwise the
/// source is the ninth field.
pub open spec fn source_column(fs: Seq<Seq<char>>) -> int {
    if fs.len() > 4 && opt_column(fs[4]) {
        7
    } else {
        8
    }
}

/// The fields of a listed line reach its destination column (headers and
/// blank lines do not).
pub open spec fn has_addresses(fs: Seq<Seq<char>>) -> bool {
    fs.len() > source_column(fs) + 1
}

/// The source column of a listed rule.
pub open spec fn source_of(fs: Seq<Seq<char>>) -> Seq<char> {
    fs[source_column(fs)]
}

/// The destination column of a listed rule.
pub open spec fn destination_of(fs: Seq<Seq<char>>) -> Seq<char> {
    fs[source_column(fs) + 1]
}

/// Finds the source column among a listed line's fields; `None` when the
/// fields do not reach the destination column.
fn address_column(fs: &Vec<String>) -> (r: Option<usize>)
    ensures
        match r {
            Some(k) => has_addresses(views(fs@)) && k == source_column(views(fs@)),
            None => !has_addresses(views(fs@)),
        },
{
    let ghost vs = views(fs@);
    assert(vs.len() == fs@.len());
    let mut k: usize = 8;
    if fs.len() > 4 {
        assert(vs[4] == fs@[4]@);
        let opt = fs[4].as_str();
        if same(opt, "--") || same(opt, "-f") || same(opt, "!f") {
            k = 7;
        }
    }
    if fs.len() > k + 1 {
        Some(k)
    } else {
        None
    }
}

/// A field that sends the traffic on to `ip`, as a DNAT rule prints its
/// destination: `to:<ip>` or `to:<ip>:<port>`.
pub open spec fn names_target(field: Seq<char>, ip: Seq<char>) -> bool {
    field == "to:"@ + ip || occurs_at(field, "to:"@ + ip + ":"@, 0)
}

/// A listed rule is about `ip`: its source or its destination column is `ip`,
/// or one of its options sends the traffic on to `ip` (see `names_target`).
/// An address that merely contains `ip`, such as `10.0.0.12` for `10.0.0.1`,
/// does not count.
pub open spec fn refers_to(line: Seq<char>, ip: Seq<char>) -> bool {
    let fs = fields(line);
    &&& has_addresses(fs)
    &&& (source_of(fs) == ip || destination_of(fs) == ip || exists|j: int|
        source_column(fs) + 1 < j < fs.len() && names_target(#[trigger] fs[j], ip))
}

/// Whether a listed rule is about `ip` (see `refers_to`).
pub fn rule_refers_to(line: &str, ip: &str) -> (r: bool)
    ensures
        r == refers_to(line@, ip@),
{
    let fs = split_fields(line);
    let ghost vs = views(fs@);
    assert(vs.len() == fs@.len());
    let k = match address_column(&fs) {
        Some(k) => k,
        None => {
            return false;
        },
    };
    assert(vs[k as int] == fs@[k as int]@);
    assert(vs[k + 1] == fs@[k + 1]@);
    if same(fs[k].as_str(), ip) || same(fs[k + 1].as_str(), ip) {
        return true;
    }
    let mut exact = String::from_str("to:");
    exact.append(ip);
    let mut prefix = String::from_str("to:");
    prefix.append(ip);
    prefix.append(":");
    let mut j: usize = k + 2;
    while j < fs.len()
        invariant
            vs == views(fs@),
            vs == fields(line@),
            vs.len() == fs@.len(),
            k + 2 <= j <= fs@.len(),
            k == source_column(vs),
            exact@ == "to:"@ + ip@,
            prefix@ == "to:"@ + ip@ + ":"@,
            forall|i: int| k + 2 <= i < j ==> !names_target(#[trigger] vs[i], ip@),
        decreases fs@.len() - j,
    {
        assert(vs[j as int] == fs@[j as int]@);
        let field = fs[j].as_str();
        if same(field, exact.as_str()) || starts_with(field, prefix.as_str()) {
            assert(names_target(vs[j as int], ip@));
            return true;
        }
        j = j + 1;
    }
    false
}

/// The first rule of a listing that is about `ip` (see `refers_to`), if any is.
pub open spec fn first_match(lines: Seq<Seq<char>>, ip: Seq<char>) -> Option<Seq<char>>
    decreases lines.len(),
{
    if lines.len() == 0 {
        None
    } else if refers_to(lines[0], ip) {
        Some(lines[0])
    } else {
        first_match(lines.drop_first(), ip)
    }
}

/// The number of the first rule that is about `ip`: that line's first field,
/// trimmed. `None` when no rule is about `ip`.
pub open spec fn rule_index(lines: Seq<Seq<char>>, ip: Seq<char>) -> Option<Seq<char>> {
    match first_match(lines, ip) {
        Some(line) => Some(trimmed(fields(line)[0])),
        None => None,
    }
}

/// The first rule about `ip` has a field to take the rule number from (when no
/// rule is about `ip` there is nothing to take).
pub open spec fn rule_index_readable(lines: Seq<Seq<char>>, ip: Seq<char>) -> bool {
    match first_match(lines, ip) {
        Some(line) => fields(line).len() > 0,
        None => true,
    }
}

proof fn lemma_first_match_skip(lines: Seq<Seq<char>>, ip: Seq<char>, i: int)
    requires
        0 <= i < lines.len(),
    ensures
        first_match(lines.skip(i), ip) == (if refers_to(lines[i], ip) {
            Some(lines[i])
        } else {
            first_match(lines.skip(i + 1), ip)
        }),
{
    assert(lines.skip(i).drop_first() =~= lines.skip(i + 1));
}

/// The first line of `lines` that is a rule about `ip`.
pub fn find_first_match(lines: &Vec<String>, ip: &str) -> (r: Option<usize>)
    ensures
        match r {
            Some(i) => i < lines@.len() && first_match(views(lines@), ip@) == Some(lines@[i as int]@),
            None => first_match(views(lines@), ip@) is None,
        },
{
    let ghost ls = views(lines@);
    let mut i: usize = 0;
    assert(ls.skip(0) =~= ls);
    while i < lines.len()
        invariant
            ls == views(lines@),
            i <= lines@.len(),
            first_match(ls.skip(i as int), ip@) == first_match(ls, ip@),
        decreases lines@.len() - i,
    {
        proof {
            lemma_first_match_skip(ls, ip@, i as int);
        }
        if rule_refers_to(lines[i].as_str(), ip) {
            return Some(i);
        }
        i = i + 1;
    }
    assert(ls.skip(i as int) =~= Seq::<Seq<char>>::empty());
    None
}

/// Whether the rule number can be read from a listing (see `rule_index_readable`).
pub fn index_readable(lines: &Vec<String>, ip: &str) -> (r: bool)
    ensures
        r == rule_index_readable(views(lines@), ip@),
{
    match find_first_match(lines, ip) {
        Some(i) => split_fields(lines[i].as_str()).len() > 0,
        None => true,
    }
}

/// Reads, from a chain listing, the number of the first rule about `ip`.
pub fn find_rule_index(lines: &Vec<String>, ip: &str) -> (r: Option<String>)
    requires
        rule_index_readable(views(lines@), ip@),
    ensures
        match r {
            Some(s) => rule_index(views(lines@), ip@) == Some(s@),
            None => rule_index(views(lines@), ip@) is None,
        },
{
    match find_first_match(lines, ip) {
        Some(i) => {
            let fs = split_fields(lines[i].as_str());
            assert(views(fs@).len() == fs@.len());
            Some(trim(fs[0].as_str()))
        },
        None => None,
    }
}

/// Bytes that went through forwarded connections (unit: byte).
#[derive(Debug, Clone, Copy, PartialEq, Eq, Structural)]
pub struct Traffic {
    /// Bytes sent to the target.
    pub up: u64,
    /// Bytes received from the target.
    pub down: u64,
}

/// The command that lists the FORWARD rules with their exact byte counters.
pub open spec fn traffic_listing_command() -> Seq<char> {
    "iptables -t filter -vxnL FORWARD --line"@
}

/// Builds the command that lists the FORWARD rules with exact byte counters.
pub fn traffic_listing() -> (r: String)
    ensures
        r@ == traffic_listing_command(),
{
    String::from_str("iptables -t filter -vxnL FORWARD --line")
}

/// The byte counter of a listed rule: its third field, the `bytes` column
/// after the rule number and the packet counter.
pub open spec fn line_bytes(line: Seq<char>) -> nat {
    match parsed_u64(fields(line)[2]) {
        Some(b) => b as nat,
        None => 0,
    }
}

/// A line of the listing that counts for `ip`: a rule whose source or
/// destination column is `ip` itself.
pub open spec fn counts_for(line: Seq<char>, ip: Seq<char>) -> bool {
    let fs = fields(line);
    has_addresses(fs) && (source_of(fs) == ip || destination_of(fs) == ip)
}

/// Whether a counted rule carries traffic to `ip` (its destination column is
/// `ip`) rather than from it (its source column is `ip`).
pub open spec fn is_upload(line: Seq<char>, ip: Seq<char>) -> bool {
    destination_of(fields(line)) == ip
}

/// The traffic to and from `ip` according to the listing lines: every rule
/// that counts for `ip` adds its byte counter (see `line_bytes`) to the upload
/// when its destination is `ip`, and to the download when only its source is.
pub open spec fn traffic_totals(lines: Seq<Seq<char>>, ip: Seq<char>) -> (nat, nat)
    decreases lines.len(),
{
    if lines.len() == 0 {
        (0, 0)
    } else {
        let (up, down) = traffic_totals(lines.drop_last(), ip);
        let line = lines.last();
        if !counts_for(line, ip) {
            (up, down)
        } else if is_upload(line, ip) {
            (up + line_bytes(line), down)
        } else {
            (up, down + line_bytes(line))
        }
    }
}

/// A rule that counts for `ip` has a decimal byte counter.
pub open spec fn line_readable(line: Seq<char>, ip: Seq<char>) -> bool {
    counts_for(line, ip) ==> parsed_u64(fields(line)[2]) is Some
}

/// The listing can be read for `ip`: every rule that counts for it is readable,
/// and both totals fit in a `u64`.
pub open spec fn listing_readable(lines: Seq<Seq<char>>, ip: Seq<char>) -> bool {
    &&& forall|i: int| 0 <= i < lines.len() ==> line_readable(#[trigger] lines[i], ip)
    &&& traffic_totals(lines, ip).0 <= u64::MAX
    &&& traffic_totals(lines, ip).1 <= u64::MAX
}

proof fn lemma_totals_grow(lines: Seq<Seq<char>>, ip: Seq<char>, i: int, j: int)
    requires
        0 <= i <= j <= lines.len(),
    ensures
        traffic_totals(lines.take(i), ip).0 <= traffic_totals(lines.take(j), ip).0,
        traffic_totals(lines.take(i), ip).1 <= traffic_totals(lines.take(j), ip).1,
    decreases j - i,
{
    if i < j {
        lemma_totals_grow(lines, ip, i, j - 1);
        assert(lines.take(j).drop_last() =~= lines.take(j - 1));
    }
}

/// Adds up the traffic of `ip` from the lines of a FORWARD listing; `None`
/// when a rule that counts for `ip` cannot be read or a total does not fit in
/// a `u64`.
pub fn read_traffic(lines: &Vec<String>, ip: &str) -> (r: Option<Traffic>)
    ensures
        match r {
            Some(t) => listing_readable(views(lines@), ip@) && t.up == traffic_totals(views(lines@), ip@).0
                && t.down == traffic_totals(views(lines@), ip@).1,
            None => !listing_readable(views(lines@), ip@),
        },
{
    let ghost ls = views(lines@);
    let n = lines.len();
    let mut up: u64 = 0;
    let mut down: u64 = 0;
    let mut i: usize = 0;
    while i < n
        invariant
            ls == views(lines@),
            n == lines@.len(),
            ls.len() == n,
            i <= n,
            forall|k: int| 0 <= k < i ==> line_readable(#[trigger] ls[k], ip@),
            up == traffic_totals(ls.take(i as int), ip@).0,
            down == traffic_totals(ls.take(i as int), ip@).1,
        decreases n - i,
    {
        let line = lines[i].as_str();
        assert(ls.take(i + 1).drop_last() =~= ls.take(i as int));
        assert(line@ == ls[i as int]);
        let fs = split_fields(line);
        let ghost vs = views(fs@);
        assert(vs.len() == fs@.len());
        if let Some(k) = address_column(&fs) {
            assert(vs[k as int] == fs@[k as int]@);
            assert(vs[k + 1] == fs@[k + 1]@);
            assert(vs[2] == fs@[2]@);
            let upload = same(fs[k + 1].as_str(), ip);
            if upload || same(fs[k].as_str(), ip) {
                let bytes = match parse_u64(fs[2].as_str()) {
                    Some(b) => b,
                    None => {
                        assert(!line_readable(ls[i as int], ip@));
                        return None;
                    },
                };
                if upload {
                    match up.checked_add(bytes) {
                        Some(v) => {
                            up = v;
                        },
                        None => {
                            proof {
                                lemma_totals_grow(ls, ip@, i + 1, n as int);
                                assert(ls.take(n as int) =~= ls);
                            }
                            return None;
                        },
                    }
                } else {
                    match down.checked_add(bytes) {
                        Some(v) => {
                            down = v;
                        },
                        None => {
                            proof {
                                lemma_totals_grow(ls, ip@, i + 1, n as int);
                                assert(ls.take(n as int) =~= ls);
                            }
                            return None;
                        },
                    }
                }
            }
        }
        i = i + 1;
    }
    assert(ls.take(n as int) =~= ls);
    Some(Traffic { up, down })
}

/// Whether the traffic of `ip` can be read from the listing lines.
pub fn traffic_readable(lines: &Vec<String>, ip: &str) -> (r: bool)
    ensures
        r == listing_readable(views(lines@), ip@),
{
    read_traffic(lines, ip).is_some()
}

/// The traffic of `ip` according to the lines of a FORWARD listing (see
/// `traffic_listing`): the totals of `traffic_totals`.
pub fn traffic(target_ip: &str, lines: &Vec<String>) -> (r: Result<Traffic, String>)
    requires
        listing_readable(views(lines@), target_ip@),
    ensures
        r matches Ok(t) && t.up == traffic_totals(views(lines@), target_ip@).0 && t.down
            == traffic_totals(views(lines@), target_ip@).1,
{
    match read_traffic(lines, target_ip) {
        Some(t) => Ok(t),
        None => Ok(Traffic { up: 0, down: 0 }),
    }
}


/// The user id of the running process, from `nix::unistd::getuid`. It depends
/// on how the process was started, so nothing is claimed of it.
#[verifier::external_body]
fn current_uid() -> u32 {
    nix::unistd::getuid().as_raw()
}

/// A user id is root's when it is 0.
pub fn is_root_uid(uid: u32) -> (r: bool)
    ensures
        r == (uid == 0),
{
    uid == 0
}

/// Whether the process runs as root (user id 0).
pub fn is_root() -> bool {
    is_root_uid(current_uid())
}

/// A command line cut at every space: the first piece names the program, the
/// others are its arguments, empty pieces included.
pub fn command_parts(command: &str) -> (r: (String, Vec<String>))
    ensures
        r.0@ == split_on(command@, ' ')[0],
        views(r.1@) == split_on(command@, ' ').drop_first(),
{
    let mut pieces = split(command, ' ');
    assert(views(pieces@).len() == pieces@.len());
    let ghost before = pieces@;
    let program = pieces.remove(0);
    assert(views(pieces@) =~= views(before).drop_first());
    (program, pieces)
}

/// The text added to a failed command's message when the process is not root.
pub open spec fn not_root_note() -> Seq<char> {
    "Permission denied (you must be root)"@
}

/// The message of a failed command: what it wrote on its error stream,
/// followed by a note when the process is not root.
pub open spec fn failure_text(stderr: Seq<char>, root: bool) -> Seq<char> {
    if root {
        stderr
    } else {
        stderr + not_root_note()
    }
}

/// Builds the message of a failed command.
pub fn failure_message(stderr: &str, root: bool) -> (r: String)
    ensures
        r@ == failure_text(stderr@, root),
{
    let mut msg = String::from_str(stderr);
    if !root {
        msg.append("Permission denied (you must be root)");
    }
    msg
}

/// What a finished command gives back, for a process that is root or not: its
/// output lines when it succeeded, else its error text, with the note when the
/// process is not root.
pub fn command_outcome(success: bool, stdout: &str, stderr: &str, root: bool) -> (r: Result<Vec<String>, String>)
    ensures
        success ==> (r matches Ok(lines) && views(lines@) == lines_of(stdout@)),
        !success ==> (r matches Err(e) && e@ == failure_text(stderr@, root)),
{
    if success {
        Ok(split_lines(stdout))
    } else {
        Err(failure_message(stderr, root))
    }
}

/// What a finished command gives back: its output lines when it succeeded,
/// else its error text with the note when the process is not root.
pub fn command_result(success: bool, stdout: &str, stderr: &str) -> (r: Result<Vec<String>, String>)
    ensures
        success ==> (r matches Ok(lines) && views(lines@) == lines_of(stdout@)),
        !success ==> (r matches Err(e) && (e@ == failure_text(stderr@, true) || e@ == failure_text(
            stderr@,
            false,
        ))),
{
    command_outcome(success, stdout, stderr, is_root())
}

/// This host's address from the output of `hostname -I`: the text before the
/// first space.
pub fn first_address(output: &str) -> (r: String)
    ensures
        r@ == split_on(output@, ' ')[0],
{
    let mut pieces = split(output, ' ');
    assert(views(pieces@).len() == pieces@.len());
    pieces.remove(0)
}


/// The view of an optional owned string.
pub open spec fn owned_view(o: Option<String>) -> Option<Seq<char>> {
    match o {
        Some(s) => Some(s@),
        None => None,
    }
}

fn borrow_opt(o: &Option<String>) -> (r: Option<&str>)
    ensures
        opt_view(r) == owned_view(*o),
{
    match o {
        Some(s) => Some(s.as_str()),
        None => None,
    }
}

fn own_opt(o: Option<&str>) -> (r: Option<String>)
    ensures
        owned_view(r) == opt_view(o),
{
    match o {
        Some(s) => Some(String::from_str(s)),
        None => None,
    }
}

/// The protocol of the address-rewriting rules: the one given, else `tcp`.
pub open spec fn nat_protocol(protocol: Option<Seq<char>>) -> Seq<char> {
    match protocol {
        Some(p) => p,
        None => "tcp"@,
    }
}

/// The four rules of a forward, in the order they are run: PREROUTING,
/// POSTROUTING, then the FORWARD rules for traffic to and from the target.
pub open spec fn forward_rules(
    local_port: Seq<char>,
    target_ip: Seq<char>,
    target_port: Seq<char>,
    comment: Option<Seq<char>>,
    protocol: Option<Seq<char>>,
    host_ip: Seq<char>,
) -> Seq<Seq<char>> {
    seq![
        prerouting_rule(local_port, target_ip, target_port, nat_protocol(protocol), comment),
        postrouting_rule(target_ip, target_port, nat_protocol(protocol), comment, host_ip),
        forward_rule("-d"@, target_ip, target_port, comment, lowered(protocol)),
        forward_rule("-s"@, target_ip, target_port, comment, lowered(protocol)),
    ]
}

/// Where a run of `add` stands.
#[verifier::ext_equal]
pub struct AddingView {
    pub local_port: Seq<char>,
    pub target_ip: Seq<char>,
    pub target_port: Seq<char>,
    pub comment: Option<Seq<char>>,
    pub protocol: Option<Seq<char>>,
    /// This host's address, once known.
    pub host_ip: Option<Seq<char>>,
    /// The rule whose outcome is awaited.
    pub next: int,
    /// The run has given its result.
    pub done: bool,
}

impl AddingView {
    /// The rules of this forward, once the host's address is known.
    pub open spec fn rules(self) -> Seq<Seq<char>> {
        forward_rules(
            self.local_port,
            self.target_ip,
            self.target_port,
            self.comment,
            self.protocol,
            self.host_ip.unwrap(),
        )
    }

    /// A well-formed position of a run.
    pub open spec fn valid(self) -> bool {
        0 <= self.next < 4 && (self.host_ip is None ==> self.next == 0)
    }

    /// The request the run waits on.
    pub open spec fn awaiting(self) -> RequestView {
        match self.host_ip {
            None => RequestView::LocalIp,
            Some(_) => RequestView::Command(self.rules()[self.next]),
        }
    }

    /// The replies the run can be resumed with: the host's address when it
    /// asked for one (without an address the program stops), a command's
    /// outcome otherwise; none once it is done.
    pub open spec fn accepts(self, reply: ReplyView) -> bool {
        !self.done && match self.host_ip {
            None => reply matches ReplyView::Address(Some(_)),
            Some(_) => reply is Output,
        }
    }

    /// The next position and step after `reply`: with the host's address the
    /// first rule is run; a failed rule ends the run with its message; after
    /// a rule that went through, the next rule is run, and after the fourth
    /// the run ends well.
    pub open spec fn after(self, reply: ReplyView) -> (AddingView, StepView<Result<(), Seq<char>>>) {
        match reply {
            ReplyView::Address(Some(a)) => {
                let v = AddingView { host_ip: Some(a), next: 0, ..self };
                (v, StepView::Request(v.awaiting()))
            },
            ReplyView::Output(Err(e)) => (AddingView { done: true, ..self }, StepView::Done(Err(e))),
            _ => if self.next == 3 {
                (AddingView { done: true, ..self }, StepView::Done(Ok(())))
            } else {
                let v = AddingView { next: self.next + 1, ..self };
                (v, StepView::Request(v.awaiting()))
            },
        }
    }
}

/// A run of `add`: the rules of one forward, run one after the other until one
/// fails.
pub struct Adding {
    local_port: String,
    target_ip: String,
    target_port: String,
    comment: Option<String>,
    protocol: Option<String>,
    host_ip: Option<String>,
    rules: Vec<String>,
    next: usize,
    done: bool,
}

impl View for Adding {
    type V = AddingView;

    closed spec fn view(&self) -> AddingView {
        AddingView {
            local_port: self.local_port@,
            target_ip: self.target_ip@,
            target_port: self.target_port@,
            comment: owned_view(self.comment),
            protocol: owned_view(self.protocol),
            host_ip: owned_view(self.host_ip),
            next: self.next as int,
            done: self.done,
        }
    }
}

fn build_rules(
    local_port: &str,
    target_ip: &str,
    target_port: &str,
    comment: Option<&str>,
    protocol: Option<&str>,
    host_ip: &str,
) -> (r: Vec<String>)
    ensures
        views(r@) == forward_rules(
            local_port@,
            target_ip@,
            target_port@,
            opt_view(comment),
            opt_view(protocol),
            host_ip@,
        ),
{
    let nat_proto = match protocol {
        Some(p) => p,
        None => "tcp",
    };
    let pre = generate_prerouting_command(local_port, target_ip, target_port, nat_proto, comment);
    let post = generate_postrouting_command(target_ip, target_port, nat_proto, comment, host_ip);
    let mut rules: Vec<String> = Vec::new();
    rules.push(pre);
    rules.push(post);
    match generate_forward_command(target_ip, target_port, comment, protocol) {
        Ok(f) => {
            rules.push(f.up);
            rules.push(f.down);
        },
        Err(_) => {},
    }
    assert(views(rules@) =~= forward_rules(
        local_port@,
        target_ip@,
        target_port@,
        opt_view(comment),
        opt_view(protocol),
        host_ip@,
    ));
    rules
}

impl Adding {
    /// The machine is consistent with its view.
    pub closed spec fn wf(&self) -> bool {
        &&& self@.valid()
        &&& self@.host_ip is Some ==> views(self.rules@) == self@.rules()
    }

    /// Whether the run can be resumed with `reply`.
    pub fn accepts(&self, reply: &Reply) -> (r: bool)
        ensures
            r == self@.accepts(reply@),
    {
        if self.done {
            return false;
        }
        match &self.host_ip {
            None => match reply {
                Reply::Address(Some(_)) => true,
                _ => false,
            },
            Some(_) => match reply {
                Reply::Output(_) => true,
                _ => false,
            },
        }
    }

    fn ask_rule(&self) -> (r: Step<Result<(), String>>)
        requires
            self.wf(),
            self@.host_ip is Some,
        ensures
            unit_step(r) == StepView::<Result<(), Seq<char>>>::Request(self@.awaiting()),
    {
        assert(views(self.rules@).len() == self.rules@.len());
        Step::Request(Request::Command(self.rules[self.next].clone()))
    }

    /// Resumes the run with the reply to its request.
    pub fn resume(&mut self, reply: Reply) -> (r: Step<Result<(), String>>)
        requires
            old(self).wf(),
            old(self)@.accepts(reply@),
        ensures
            final(self).wf(),
            (final(self)@, unit_step(r)) == old(self)@.after(reply@),
    {
        match reply {
            Reply::Address(Some(a)) => {
                let rules = build_rules(
                    self.local_port.as_str(),
                    self.target_ip.as_str(),
                    self.target_port.as_str(),
                    borrow_opt(&self.comment),
                    borrow_opt(&self.protocol),
                    a.as_str(),
                );
                self.rules = rules;
                self.host_ip = Some(a);
                self.next = 0;
                self.ask_rule()
            },
            Reply::Output(Err(e)) => {
                self.done = true;
                Step::Done(Err(e))
            },
            _ => {
                if self.next == 3 {
                    self.done = true;
                    Step::Done(Ok(()))
                } else {
                    self.next = self.next + 1;
                    self.ask_rule()
                }
            },
        }
    }
}

/// The position a run of `add` starts from.
pub open spec fn adding_start(
    local_port: Seq<char>,
    target_ip: Seq<char>,
    target_port: Seq<char>,
    comment: Option<Seq<char>>,
    protocol: Option<Seq<char>>,
    self_ip: Option<Seq<char>>,
) -> AddingView {
    AddingView { local_port, target_ip, target_port, comment, protocol, host_ip: self_ip, next: 0, done: false }
}

/// Adds a forward: runs its four rules (see `forward_rules`) one after the
/// other and stops at the first that fails. The PREROUTING and POSTROUTING
/// rules use `protocol`, or `tcp` when none is given; the FORWARD rules match
/// a protocol only when one is given. When `self_ip` is not given, this
/// host's address is asked for first.
pub fn add(
    local_port: &str,
    target_ip: &str,
    target_port: &str,
    comment: Option<&str>,
    protocol: Option<&str>,
    self_ip: Option<&str>,
) -> (r: (Adding, Step<Result<(), String>>))
    ensures
        r.0.wf(),
        r.0@ == adding_start(
            local_port@,
            target_ip@,
            target_port@,
            opt_view(comment),
            opt_view(protocol),
            opt_view(self_ip),
        ),
        unit_step(r.1) == StepView::<Result<(), Seq<char>>>::Request(r.0@.awaiting()),
{
    let rules = match self_ip {
        Some(ip) => build_rules(local_port, target_ip, target_port, comment, protocol, ip),
        None => Vec::new(),
    };
    let run = Adding {
        local_port: String::from_str(local_port),
        target_ip: String::from_str(target_ip),
        target_port: String::from_str(target_port),
        comment: own_opt(comment),
        protocol: own_opt(protocol),
        host_ip: own_opt(self_ip),
        rules,
        next: 0,
        done: false,
    };
    let step = match self_ip {
        Some(_) => run.ask_rule(),
        None => Step::Request(Request::LocalIp),
    };
    (run, step)
}


/// The chains a forward's rules are removed from, in this order.
pub open spec fn delete_chain(i: int) -> ChainType {
    if i == 0 {
        ChainType::FORWARD
    } else if i == 1 {
        ChainType::POSTROUTING
    } else {
        ChainType::PREROUTING
    }
}

fn delete_chain_exec(i: usize) -> (r: ChainType)
    ensures
        r == delete_chain(i as int),
{
    if i == 0 {
        ChainType::FORWARD
    } else if i == 1 {
        ChainType::POSTROUTING
    } else {
        ChainType::PREROUTING
    }
}

/// Where a run of `delete` stands.
#[verifier::ext_equal]
pub struct DeletingView {
    pub ip: Seq<char>,
    /// The chain being cleared (see `delete_chain`).
    pub chain: int,
    /// The number of the rule whose deletion is awaited; `None` while the
    /// chain's listing is awaited.
    pub index: Option<Seq<char>>,
    /// The run has given its result.
    pub done: bool,
}

impl DeletingView {
    /// A well-formed position of a run.
    pub open spec fn valid(self) -> bool {
        0 <= self.chain < 3
    }

    /// The request the run waits on.
    pub open spec fn awaiting(self) -> RequestView {
        match self.index {
            None => RequestView::Command(list_rules_command(delete_chain(self.chain))),
            Some(i) => RequestView::Command(delete_rule_command(delete_chain(self.chain), i)),
        }
    }

    /// The replies the run can be resumed with: the chain's listing, whose
    /// first line for the address must have a field (a failed listing or a
    /// missing field stops the program); then a deletion's outcome. None once
    /// it is done.
    pub open spec fn accepts(self, reply: ReplyView) -> bool {
        !self.done && match self.index {
            None => reply matches ReplyView::Output(Ok(lines)) && rule_index_readable(lines, self.ip),
            Some(_) => reply is Output,
        }
    }

    /// The next position and step after `reply`. A listing with a rule about
    /// the address (see `refers_to`) leads to that rule's deletion; a listing without
    /// one moves to the next chain, or ends the run well after the last
    /// chain. A failed deletion ends the run with its message; after a
    /// deletion the chain is listed again.
    pub open spec fn after(self, reply: ReplyView) -> (DeletingView, StepView<Result<(), Seq<char>>>) {
        match self.index {
            None => {
                let lines = reply->Output_0->Ok_0;
                match rule_index(lines, self.ip) {
                    Some(i) => {
                        let v = DeletingView { index: Some(i), ..self };
                        (v, StepView::Request(v.awaiting()))
                    },
                    None => if self.chain == 2 {
                        (DeletingView { done: true, ..self }, StepView::Done(Ok(())))
                    } else {
                        let v = DeletingView { chain: self.chain + 1, ..self };
                        (v, StepView::Request(v.awaiting()))
                    },
                }
            },
            Some(_) => match reply {
                ReplyView::Output(Err(e)) => (DeletingView { done: true, ..self }, StepView::Done(Err(e))),
                _ => {
                    let v = DeletingView { index: None, ..self };
                    (v, StepView::Request(v.awaiting()))
                },
            },
        }
    }
}

/// A run of `delete`: every rule about an address (see `refers_to`) is removed from
/// the FORWARD, POSTROUTING and PREROUTING chains.
pub struct Deleting {
    ip: String,
    chain: usize,
    index: Option<String>,
    done: bool,
}

impl View for Deleting {
    type V = DeletingView;

    closed spec fn view(&self) -> DeletingView {
        DeletingView {
            ip: self.ip@,
            chain: self.chain as int,
            index: owned_view(self.index),
            done: self.done,
        }
    }
}

impl Deleting {
    /// The machine is consistent with its view.
    pub closed spec fn wf(&self) -> bool {
        self@.valid()
    }

    fn ask(&self) -> (r: Step<Result<(), String>>)
        requires
            self.wf(),
        ensures
            unit_step(r) == StepView::<Result<(), Seq<char>>>::Request(self@.awaiting()),
    {
        let chain = delete_chain_exec(self.chain);
        match &self.index {
            None => Step::Request(Request::Command(list_rules(chain))),
            Some(i) => Step::Request(Request::Command(delete_rule(chain, i.as_str()))),
        }
    }

    /// Whether the run can be resumed with `reply`.
    pub fn accepts(&self, reply: &Reply) -> (r: bool)
        ensures
            r == self@.accepts(reply@),
    {
        if self.done {
            return false;
        }
        match &self.index {
            None => match reply {
                Reply::Output(Ok(lines)) => index_readable(lines, self.ip.as_str()),
                _ => false,
            },
            Some(_) => match reply {
                Reply::Output(_) => true,
                _ => false,
            },
        }
    }

    /// Resumes the run with the reply to its request.
    pub fn resume(&mut self, reply: Reply) -> (r: Step<Result<(), String>>)
        requires
            old(self).wf(),
            old(self)@.accepts(reply@),
        ensures
            final(self).wf(),
            (final(self)@, unit_step(r)) == old(self)@.after(reply@),
    {
        match &self.index {
            None => {
                let lines = match reply {
                    Reply::Output(Ok(lines)) => lines,
                    _ => Vec::new(),
                };
                match find_rule_index(&lines, self.ip.as_str()) {
                    Some(i) => {
                        self.index = Some(i);
                        self.ask()
                    },
                    None => {
                        if self.chain == 2 {
                            self.done = true;
                            Step::Done(Ok(()))
                        } else {
                            self.chain = self.chain + 1;
                            self.ask()
                        }
                    },
                }
            },
            Some(_) => match reply {
                Reply::Output(Err(e)) => {
                    self.done = true;
                    Step::Done(Err(e))
                },
                _ => {
                    self.index = None;
                    self.ask()
                },
            },
        }
    }
}

/// The position a run of `delete` starts from: listing the FORWARD chain.
pub open spec fn deleting_start(ip: Seq<char>) -> DeletingView {
    DeletingView { ip, chain: 0, index: None, done: false }
}

/// Deletes a forward's rules: for each of the FORWARD, POSTROUTING and
/// PREROUTING chains in turn, the chain is listed and the first rule about
/// `target_ip` (see `refers_to`) is deleted by its number, again and again until the
/// listing has no such rule.
pub fn delete(target_ip: &str) -> (r: (Deleting, Step<Result<(), String>>))
    ensures
        r.0.wf(),
        r.0@ == deleting_start(target_ip@),
        unit_step(r.1) == StepView::<Result<(), Seq<char>>>::Request(r.0@.awaiting()),
{
    let run = Deleting { ip: String::from_str(target_ip), chain: 0, index: None, done: false };
    let step = run.ask();
    (run, step)
}


impl Machine for AddingView {
    type Out = Result<(), Seq<char>>;

    open spec fn next_of(self, reply: ReplyView) -> (AddingView, StepView<Result<(), Seq<char>>>) {
        self.after(reply)
    }
}

/// A reply saying that a command went through.
pub open spec fn ran_ok(r: ReplyView) -> bool {
    r matches ReplyView::Output(Ok(_))
}

/// When every rule goes through, a run of `add` with a known host address
/// runs the four rules of the forward in order — PREROUTING, POSTROUTING,
/// FORWARD to the target, FORWARD from it — and ends well.
pub proof fn add_runs_all_rules(
    local_port: Seq<char>,
    target_ip: Seq<char>,
    target_port: Seq<char>,
    comment: Option<Seq<char>>,
    protocol: Option<Seq<char>>,
    host_ip: Seq<char>,
    replies: Seq<ReplyView>,
)
    requires
        replies.len() == 4,
        forall|i: int| 0 <= i < 4 ==> ran_ok(#[trigger] replies[i]),
    ensures
        ({
            let start = adding_start(local_port, target_ip, target_port, comment, protocol, Some(host_ip));
            let rules = forward_rules(local_port, target_ip, target_port, comment, protocol, host_ip);
            &&& start.awaiting() == RequestView::Command(rules[0])
            &&& drive(start, replies).1 == as_commands(rules.drop_first())
            &&& drive(start, replies).2 == Some(Ok::<(), Seq<char>>(()))
        }),
{
    let start = adding_start(local_port, target_ip, target_port, comment, protocol, Some(host_ip));
    let rules = forward_rules(local_port, target_ip, target_port, comment, protocol, host_ip);
    assert(ran_ok(replies[0]) && ran_ok(replies[1]) && ran_ok(replies[2]) && ran_ok(replies[3]));
    reveal_with_fuel(drive, 5);
    let r1 = replies.drop_first();
    let r2 = r1.drop_first();
    let r3 = r2.drop_first();
    let r4 = r3.drop_first();
    assert(r1[0] == replies[1] && r2[0] == replies[2] && r3[0] == replies[3]);
    assert(r4.len() == 0);
    assert(drive(start, replies).1 =~= as_commands(rules.drop_first()));
}

/// A run of `add` stops at the first rule that fails: when rules `0..j` go
/// through and rule `j` fails with `e`, exactly the rules up to `j` have been
/// run and the run ends with `e`.
pub proof fn add_stops_at_first_failure(
    local_port: Seq<char>,
    target_ip: Seq<char>,
    target_port: Seq<char>,
    comment: Option<Seq<char>>,
    protocol: Option<Seq<char>>,
    host_ip: Seq<char>,
    replies: Seq<ReplyView>,
    j: int,
    e: Seq<char>,
)
    requires
        0 <= j < 4,
        replies.len() == j + 1,
        forall|i: int| 0 <= i < j ==> ran_ok(#[trigger] replies[i]),
        replies[j] == ReplyView::Output(Err(e)),
    ensures
        ({
            let start = adding_start(local_port, target_ip, target_port, comment, protocol, Some(host_ip));
            let rules = forward_rules(local_port, target_ip, target_port, comment, protocol, host_ip);
            &&& drive(start, replies).1 == as_commands(rules.subrange(1, j + 1))
            &&& drive(start, replies).2 == Some(Err::<(), Seq<char>>(e))
        }),
    decreases j,
{
    let start = adding_start(local_port, target_ip, target_port, comment, protocol, Some(host_ip));
    let rules = forward_rules(local_port, target_ip, target_port, comment, protocol, host_ip);
    reveal_with_fuel(drive, 5);
    if j == 0 {
        assert(drive(start, replies).1 =~= as_commands(rules.subrange(1, 1)));
    } else if j == 1 {
        assert(ran_ok(replies[0]));
        assert(replies.drop_first()[0] == replies[1]);
        assert(drive(start, replies).1 =~= as_commands(rules.subrange(1, 2)));
    } else if j == 2 {
        assert(ran_ok(replies[0]) && ran_ok(replies[1]));
        let r1 = replies.drop_first();
        let r2 = r1.drop_first();
        assert(r1[0] == replies[1] && r2[0] == replies[2]);
        assert(drive(start, replies).1 =~= as_commands(rules.subrange(1, 3)));
    } else {
        assert(ran_ok(replies[0]) && ran_ok(replies[1]) && ran_ok(replies[2]));
        let r1 = replies.drop_first();
        let r2 = r1.drop_first();
        let r3 = r2.drop_first();
        assert(r1[0] == replies[1] && r2[0] == replies[2] && r3[0] == replies[3]);
        assert(drive(start, replies).1 =~= as_commands(rules.subrange(1, 4)));
    }
}

/// Without a host address given, a run of `add` asks for it first and puts
/// it in the POSTROUTING rule as the new source address.
pub proof fn add_asks_host_address(
    local_port: Seq<char>,
    target_ip: Seq<char>,
    target_port: Seq<char>,
    comment: Option<Seq<char>>,
    protocol: Option<Seq<char>>,
    host_ip: Seq<char>,
)
    ensures
        ({
            let start = adding_start(local_port, target_ip, target_port, comment, protocol, None);
            let rules = forward_rules(local_port, target_ip, target_port, comment, protocol, host_ip);
            &&& start.awaiting() == RequestView::LocalIp
            &&& start.after(ReplyView::Address(Some(host_ip))).1 == StepView::<Result<(), Seq<char>>>::Request(
                RequestView::Command(rules[0]),
            )
            &&& start.after(ReplyView::Address(Some(host_ip))).0 == adding_start(
                local_port,
                target_ip,
                target_port,
                comment,
                protocol,
                Some(host_ip),
            )
        }),
{
}


impl Machine for DeletingView {
    type Out = Result<(), Seq<char>>;

    open spec fn next_of(self, reply: ReplyView) -> (DeletingView, StepView<Result<(), Seq<char>>>) {
        self.after(reply)
    }
}

/// A listing reply in which no rule is about `ip`.
pub open spec fn listing_without(r: ReplyView, ip: Seq<char>) -> bool {
    r matches ReplyView::Output(Ok(lines)) && first_match(lines, ip) is None
}

/// A run of `delete` goes through the chains in the order FORWARD,
/// POSTROUTING, PREROUTING, and ends well once none of their listings has a
/// rule about the address.
pub proof fn delete_visits_chains_in_order(ip: Seq<char>, replies: Seq<ReplyView>)
    requires
        replies.len() == 3,
        forall|i: int| 0 <= i < 3 ==> listing_without(#[trigger] replies[i], ip),
    ensures
        deleting_start(ip).awaiting() == RequestView::Command(list_rules_command(ChainType::FORWARD)),
        drive(deleting_start(ip), replies).1 == seq![
            RequestView::Command(list_rules_command(ChainType::POSTROUTING)),
            RequestView::Command(list_rules_command(ChainType::PREROUTING)),
        ],
        drive(deleting_start(ip), replies).2 == Some(Ok::<(), Seq<char>>(())),
{
    assert(listing_without(replies[0], ip) && listing_without(replies[1], ip) && listing_without(replies[2], ip));
    reveal_with_fuel(drive, 4);
    let r1 = replies.drop_first();
    let r2 = r1.drop_first();
    assert(r1[0] == replies[1] && r2[0] == replies[2]);
    assert(r2.drop_first().len() == 0);
    assert(drive(deleting_start(ip), replies).1 =~= seq![
        RequestView::Command(list_rules_command(ChainType::POSTROUTING)),
        RequestView::Command(list_rules_command(ChainType::PREROUTING)),
    ]);
}

/// While a chain is cleared, a listing with a rule about the address
/// has that rule deleted by its number, and once the deletion went through
/// the same chain is listed again; a failed deletion ends the run with its
/// message.
pub proof fn delete_removes_by_number(v: DeletingView, lines: Seq<Seq<char>>, out: Seq<Seq<char>>, e: Seq<char>)
    requires
        v.valid(),
        !v.done,
        v.index is None,
        rule_index(lines, v.ip) is Some,
    ensures
        ({
            let index = rule_index(lines, v.ip).unwrap();
            let chain = delete_chain(v.chain);
            let (w, st) = v.after(ReplyView::Output(Ok(lines)));
            &&& st == StepView::<Result<(), Seq<char>>>::Request(RequestView::Command(delete_rule_command(chain, index)))
            &&& w.after(ReplyView::Output(Ok(out))).1 == StepView::<Result<(), Seq<char>>>::Request(
                RequestView::Command(list_rules_command(chain)),
            )
            &&& w.after(ReplyView::Output(Ok(out))).0 == v
            &&& w.after(ReplyView::Output(Err(e))).1 == StepView::<Result<(), Seq<char>>>::Done(Err(e))
        }),
{
}


/// How traffic is shown: `Up: <up> byte \nDown: <down> byte`.
pub open spec fn traffic_text(t: Traffic) -> Seq<char> {
    "Up: "@ + decimal_text(t.up as nat) + " byte \nDown: "@ + decimal_text(t.down as nat) + " byte"@
}

impl Traffic {
    /// The traffic as text (see `traffic_text`).
    pub fn to_display_string(&self) -> (r: String)
        ensures
            r@ == traffic_text(*self),
    {
        let mut s = String::from_str("Up: ");
        s.append(decimal(self.up).as_str());
        s.append(" byte \nDown: ");
        s.append(decimal(self.down).as_str());
        s.append(" byte");
        s
    }
}

/// A run of `add` ends well only when the fourth rule has gone through.
pub proof fn add_ends_well_only_after_last_rule(v: AddingView, reply: ReplyView)
    requires
        v.valid(),
        v.accepts(reply),
        v.after(reply).1 == StepView::<Result<(), Seq<char>>>::Done(Ok(())),
    ensures
        v.host_ip is Some,
        v.next == 3,
        ran_ok(reply),
{
}

/// A run of `delete` ends well only on a listing of the last chain,
/// PREROUTING, that has no rule about the address.
pub proof fn delete_ends_well_only_when_clear(v: DeletingView, reply: ReplyView)
    requires
        v.valid(),
        v.accepts(reply),
        v.after(reply).1 == StepView::<Result<(), Seq<char>>>::Done(Ok(())),
    ensures
        v.index is None,
        delete_chain(v.chain) == ChainType::PREROUTING,
        reply matches ReplyView::Output(Ok(lines)) && first_match(lines, v.ip) is None,
{
}

/// Every reply of `replies` is one that the run of `delete` standing at `v`
/// accepts where it is given, up to the run's result.
pub open spec fn deleting_accepts_all(v: DeletingView, replies: Seq<ReplyView>) -> bool
    decreases replies.len(),
{
    replies.len() == 0 || (v.accepts(replies[0]) && match v.after(replies[0]).1 {
        StepView::Request(_) => deleting_accepts_all(v.after(replies[0]).0, replies.drop_first()),
        StepView::Done(_) => true,
    })
}

/// The positions of a run of `delete` standing at `v` and resumed with
/// `replies`: the position each reply is given to, up to the run's result.
pub open spec fn deleting_positions(v: DeletingView, replies: Seq<ReplyView>) -> Seq<DeletingView>
    decreases replies.len(),
{
    if replies.len() == 0 {
        Seq::empty()
    } else {
        seq![v] + match v.after(replies[0]).1 {
            StepView::Request(_) => deleting_positions(v.after(replies[0]).0, replies.drop_first()),
            StepView::Done(_) => Seq::empty(),
        }
    }
}

/// In a run whose positions are `ps` and whose replies are `replies`, chain
/// number `c` was listed with no rule about `ip`, and the run never came back
/// to that chain afterwards.
pub open spec fn chain_left_clear(ps: Seq<DeletingView>, replies: Seq<ReplyView>, ip: Seq<char>, c: int) -> bool {
    exists|k: int|
        0 <= k < ps.len() && #[trigger] ps[k].chain == c && ps[k].index is None && listing_without(
            replies[k],
            ip,
        ) && forall|j: int| k < j < ps.len() ==> ps[j].chain > c
}

proof fn lemma_deleting_run(v: DeletingView, replies: Seq<ReplyView>)
    requires
        v.valid(),
        !v.done,
        deleting_accepts_all(v, replies),
        drive(v, replies).2 == Some(Ok::<(), Seq<char>>(())),
    ensures
        ({
            let ps = deleting_positions(v, replies);
            &&& ps.len() >= 1
            &&& ps.len() <= replies.len()
            &&& drive(v, replies).1.len() == ps.len() - 1
            &&& ps[0] == v
            &&& forall|j: int| 0 < j < ps.len() ==> drive(v, replies).1[j - 1] == #[trigger] ps[j].awaiting()
            &&& forall|j: int| 0 <= j < ps.len() ==> #[trigger] ps[j].chain >= v.chain
            &&& forall|c: int| v.chain <= c < 3 ==> chain_left_clear(ps, replies, v.ip, c)
        }),
    decreases replies.len(),
{
    let ps = deleting_positions(v, replies);
    let (w, st) = v.after(replies[0]);
    match st {
        StepView::Request(_) => {
            assert(st == StepView::<Result<(), Seq<char>>>::Request(w.awaiting()));
            let rest = replies.drop_first();
            lemma_deleting_run(w, rest);
            let qs = deleting_positions(w, rest);
            assert(ps =~= seq![v] + qs);
            assert(drive(v, replies).1 =~= seq![w.awaiting()] + drive(w, rest).1);
            assert forall|j: int| 0 < j < ps.len() implies drive(v, replies).1[j - 1] == #[trigger] ps[j].awaiting() by {
                assert(ps[j] == qs[j - 1]);
                if j > 1 {
                    assert(qs[j - 1].awaiting() == drive(w, rest).1[j - 2]);
                } else {
                    assert(qs[0] == w);
                }
            }
            assert forall|j: int| 0 <= j < ps.len() implies #[trigger] ps[j].chain >= v.chain by {
                if j > 0 {
                    assert(ps[j] == qs[j - 1]);
                }
            }
            assert forall|c: int| v.chain <= c < 3 implies chain_left_clear(ps, replies, v.ip, c) by {
                if c >= w.chain {
                    assert(chain_left_clear(qs, rest, w.ip, c));
                    let k = choose|k: int|
                        0 <= k < qs.len() && #[trigger] qs[k].chain == c && qs[k].index is None && listing_without(
                            rest[k],
                            w.ip,
                        ) && forall|j: int| k < j < qs.len() ==> qs[j].chain > c;
                    assert(ps[k + 1] == qs[k]);
                    assert(replies[k + 1] == rest[k]);
                    assert forall|j: int| k + 1 < j < ps.len() implies ps[j].chain > c by {
                        assert(ps[j] == qs[j - 1]);
                    }
                    assert(ps[k + 1].chain == c);
                } else {
                    assert(w.chain == v.chain + 1 && c == v.chain);
                    assert forall|j: int| 0 < j < ps.len() implies ps[j].chain > c by {
                        assert(ps[j] == qs[j - 1]);
                        assert(qs[j - 1].chain >= w.chain);
                    }
                    assert(ps[0].chain == c);
                }
            }
        },
        StepView::Done(_) => {
            assert(ps =~= seq![v]);
            assert(ps[0].chain == v.chain);
        },
    }
}

/// A run of `delete` that ends well has cleared every chain: each of FORWARD,
/// POSTROUTING and PREROUTING was last listed with no rule about the address,
/// and the run never came back to it afterwards. `positions` are where the run
/// stood when each reply was given; the first asks for the FORWARD listing,
/// and each later one waits on the request the run made before it.
pub proof fn delete_ok_leaves_every_chain_clear(ip: Seq<char>, replies: Seq<ReplyView>)
    requires
        deleting_accepts_all(deleting_start(ip), replies),
        drive(deleting_start(ip), replies).2 == Some(Ok::<(), Seq<char>>(())),
    ensures
        ({
            let ps = deleting_positions(deleting_start(ip), replies);
            &&& ps[0] == deleting_start(ip)
            &&& forall|j: int|
                0 < j < ps.len() ==> drive(deleting_start(ip), replies).1[j - 1] == #[trigger] ps[j].awaiting()
            &&& chain_left_clear(ps, replies, ip, 0)
            &&& chain_left_clear(ps, replies, ip, 1)
            &&& chain_left_clear(ps, replies, ip, 2)
        }),
{
    lemma_deleting_run(deleting_start(ip), replies);
}

/// A rule found in a chain's listing is deleted from the table that listing
/// came from: the listing command and the deletion command of a chain both
/// begin with `iptables -t ` and the chain's table, `filter` for FORWARD and
/// `nat` for POSTROUTING and PREROUTING; the deletion then names the chain and
/// ends with the rule's number.
pub proof fn deletion_uses_the_listed_table(c: ChainType, index: Seq<char>)
    ensures
        ({
            let table = if c == ChainType::FORWARD {
                "filter"@
            } else {
                "nat"@
            };
            let head = "iptables -t "@ + table;
            &&& list_rules_command(c).take(head.len() as int) == head
            &&& delete_rule_command(c, index).take(head.len() as int) == head
            &&& delete_rule_command(c, index).skip(head.len() as int) == " -D "@ + chain_name(c) + " "@ + index
        }),
{
    let table = if c == ChainType::FORWARD {
        "filter"@
    } else {
        "nat"@
    };
    let head = "iptables -t "@ + table;
    assert(chain_table(c) == table);
    let l = list_rules_command(c);
    assert(l == head + (" -vnL "@ + chain_name(c) + " --line"@));
    assert(l.take(head.len() as int) =~= head);
    let d = delete_rule_command(c, index);
    assert(d == head + (" -D "@ + chain_name(c) + " "@ + index));
    assert(d.take(head.len() as int) =~= head);
    assert(d.skip(head.len() as int) =~= " -D "@ + chain_name(c) + " "@ + index);
}

/// Every listed rule whose source or destination column is the address adds
/// its byte counter (the third field) to the totals, whatever its protocol or
/// other columns: to the upload when the destination is the address, else to
/// the download; a rule about neither leaves the totals as they were.
pub proof fn every_rule_of_the_address_counts(lines: Seq<Seq<char>>, line: Seq<char>, ip: Seq<char>)
    requires
        has_addresses(fields(line)),
    ensures
        ({
            let fs = fields(line);
            let b: nat = match parsed_u64(fs[2]) {
                Some(n) => n as nat,
                None => 0,
            };
            let before = traffic_totals(lines, ip);
            let after = traffic_totals(lines.push(line), ip);
            &&& destination_of(fs) == ip ==> after == (before.0 + b, before.1)
            &&& (destination_of(fs) != ip && source_of(fs) == ip) ==> after == (before.0, before.1 + b)
            &&& (destination_of(fs) != ip && source_of(fs) != ip) ==> after == before
            &&& traffic_totals(Seq::<Seq<char>>::empty(), ip) == (0nat, 0nat)
        }),
{
    assert(lines.push(line).drop_last() =~= lines);
    assert(lines.push(line).last() == line);
}

/// The FORWARD rules of a forward name its protocol lower-cased: a name in
/// ASCII with no capital letter (such as `udp` or `tcp`) is named as it is,
/// and in any ASCII name every capital letter `A` to `Z` becomes its small
/// letter while every other character stays in its place.
pub proof fn forward_rules_name_the_protocol_lower_cased(
    p: Seq<char>,
    flag: Seq<char>,
    target_ip: Seq<char>,
    target_port: Seq<char>,
    comment: Option<Seq<char>>,
)
    ensures
        (all_ascii(p) && forall|i: int| 0 <= i < p.len() ==> !is_ascii_upper(#[trigger] p[i])) ==> {
            &&& lowered(Some(p)) == Some(p)
            &&& forward_rule(flag, target_ip, target_port, comment, lowered(Some(p))) == "iptables -t filter -I FORWARD "@
                + flag + " "@ + target_ip + " -p "@ + p + " --dport "@ + target_port + comment_part(comment)
        },
        all_ascii(p) ==> (lowered(Some(p)) matches Some(q) && q.len() == p.len() && forall|i: int|
            0 <= i < p.len() ==> (is_ascii_upper(#[trigger] p[i]) ==> q[i] as u32 == p[i] as u32 + 32) && (
            !is_ascii_upper(p[i]) ==> q[i] == p[i])),
{
    if all_ascii(p) {
        let q = ascii_lower(p);
        assert forall|i: int| 0 <= i < p.len() implies (is_ascii_upper(#[trigger] p[i]) ==> q[i] as u32 == p[i] as u32
            + 32) && (!is_ascii_upper(p[i]) ==> q[i] == p[i]) by {
            assert(q[i] == ascii_lower_char(p[i]));
        }
        if forall|i: int| 0 <= i < p.len() ==> !is_ascii_upper(#[trigger] p[i]) {
            assert(q =~= p);
        }
    }
}

} // verus!
