//! The settings that a server needs where the firewall is the packet filter of macOS.
use crate::rules::add_command;
use crate::rules::command;
use crate::rules::commands;
use crate::rules::lemma_decimal_is_a_word;
use crate::rules::lemma_next_word;
use crate::rules::one;
use crate::rules::only_if;
use crate::rules::split;
use crate::rules::text_of;
use crate::rules::two;
use crate::rules::Command;
use crate::rules::CommandView;
use crate::text::assign;
use crate::text::assigned;
use crate::text::decimal;
use crate::text::decimal_text;
use crate::text::is_white;
use crate::text::law_assigned_stays;
use crate::text::law_assigning;
use crate::text::law_decimal_reads_back;
use crate::text::law_squeezed_stays;
use crate::text::law_squeezing;
use crate::text::lemma_words_append;
use crate::text::lemma_words_plain;
use crate::text::squeeze;
use crate::text::squeezed;
use crate::text::value;
use crate::text::words;
use vstd::prelude::*;
use vstd::string::*;

verus! {

/// The commands that switch forwarding on. The first one says how forwarding of IPv4 was set; with
/// IPv6, the third one says how that was.
pub open spec fn setup_commands(v6: bool) -> Seq<CommandView> {
    seq![
        command("sysctl"@, seq!["net.inet.ip.forwarding"@]),
        command("sysctl"@, seq!["net.inet.ip.forwarding=1"@]),
    ] + only_if(
        v6,
        seq![
            command("sysctl"@, seq!["net.inet6.ip6.forwarding"@]),
            command("sysctl"@, seq!["-w"@, "net.inet6.ip6.forwarding=1"@]),
        ],
    )
}

/// Gives the commands that switch forwarding on.
pub fn auto_rule(v6: bool) -> (r: Vec<Command>)
    ensures
        commands(r@) == setup_commands(v6),
{
    let mut list: Vec<Command> = Vec::new();
    add_command(&mut list, one("sysctl", "net.inet.ip.forwarding"));
    add_command(&mut list, one("sysctl", "net.inet.ip.forwarding=1"));
    if v6 {
        add_command(&mut list, one("sysctl", "net.inet6.ip6.forwarding"));
        add_command(&mut list, two("sysctl", "-w", "net.inet6.ip6.forwarding=1"));
    }
    assert(commands(list@) =~= setup_commands(v6));
    list
}

/// A line that redirects TCP packets from `dev` to `port` to `peer`.
pub open spec fn redirection(
    dev: Seq<char>,
    family: Seq<char>,
    port: u16,
    peer: Seq<char>,
) -> Seq<char> {
    "rdr on "@ + dev + family + " proto tcp from any to any port "@ + decimal_text(port as nat)
        + " -> "@ + peer + "\n"@
}

fn write_redirection(text: &mut String, dev: &str, family: &str, port: u16, peer: &str)
    ensures
        final(text)@ == old(text)@ + redirection(dev@, family@, port, peer@),
{
    text.append("rdr on ");
    text.append(dev);
    text.append(family);
    text.append(" proto tcp from any to any port ");
    text.append(decimal(port).as_str());
    text.append(" -> ");
    text.append(peer);
    text.append("\n");
    assert(text@ =~= old(text)@ + redirection(dev@, family@, port, peer@));
}

/// Gives the rules that the packet filter reads.
pub fn nat_rules(int_name: &str, peer: &str, peer6: Option<&str>, local_port: u16) -> (text: String)
    ensures
        text@ == redirection(int_name@, " inet"@, local_port, peer@) + match text_of(peer6) {
            Some(p) => redirection(int_name@, " inet6"@, local_port, p),
            None => Seq::empty(),
        },
{
    let mut text = String::new();
    write_redirection(&mut text, int_name, " inet", local_port, peer);
    if let Some(peer6) = peer6 {
        write_redirection(&mut text, int_name, " inet6", local_port, peer6);
    }
    assert(text@ =~= redirection(int_name@, " inet"@, local_port, peer@) + match text_of(peer6) {
        Some(p) => redirection(int_name@, " inet6"@, local_port, p),
        None => Seq::empty(),
    });
    text
}

/// The command that loads rules, `enable` saying whether it enables the packet filter too.
pub open spec fn load_command(enable: bool) -> CommandView {
    command(
        "pfctl"@,
        words(
            if enable {
                "-e -a com.apple/tonel -f -"@
            } else {
                "-a com.apple/tonel -f -"@
            },
        ),
    )
}

/// The command that loads rules from its input into the anchor of this project. An enabled packet
/// filter applies them.
pub fn load_rules(enable: bool) -> (c: Command)
    ensures
        c@ == load_command(enable),
{
    if enable {
        split("pfctl", "-e -a com.apple/tonel -f -")
    } else {
        split("pfctl", "-a com.apple/tonel -f -")
    }
}

/// The setting that a query printed, as it is set again.
pub open spec fn setting(printed: Seq<char>) -> Seq<char> {
    squeezed(assigned(printed))
}

/// Gives the command that sets forwarding back to what a query printed.
pub fn restore(printed: &str) -> (c: Command)
    ensures
        c@ == command("sysctl"@, seq![setting(printed@)]),
{
    one("sysctl", squeeze(assign(printed).as_str()).as_str())
}

/// The commands that take everything back: forwarding of IPv4 is set to what was printed, the rules
/// are unloaded by loading none, and forwarding of IPv6 is set to what was printed, if it was
/// changed.
pub open spec fn restore_commands(printed: Seq<char>, printed6: Option<Seq<char>>) -> Seq<
    CommandView,
> {
    seq![command("sysctl"@, seq![setting(printed)]), load_command(false)] + only_if(
        printed6 is Some,
        seq![command("sysctl"@, seq![setting(printed6.unwrap())])],
    )
}

/// Gives the commands that take everything back. `printed` and `printed6` are what the queries of
/// `auto_rule` printed.
pub fn undo_rule(printed: &str, printed6: Option<&str>) -> (r: Vec<Command>)
    ensures
        commands(r@) == restore_commands(printed@, text_of(printed6)),
{
    let mut list: Vec<Command> = Vec::new();
    add_command(&mut list, restore(printed));
    add_command(&mut list, load_rules(false));
    if let Some(printed6) = printed6 {
        add_command(&mut list, restore(printed6));
    }
    assert(commands(list@) =~= restore_commands(printed@, text_of(printed6)));
    list
}

/// Whether the outcome of the command number `at` of `undo_rule` counts. That of unloading the rules
/// does not.
pub fn outcome_counts(at: usize) -> (r: bool)
    ensures
        r == (at != 1),
{
    at != 1
}

proof fn lemma_line_words()
    ensures
        "rdr on "@ == "rdr on"@ + seq![' '],
        words("rdr on"@) == seq!["rdr"@, "on"@],
        " proto tcp from any to any port "@ == seq![' '] + "proto tcp from any to any port"@ + seq![
            ' ',
        ],
        words("proto tcp from any to any port"@) == seq![
            "proto"@,
            "tcp"@,
            "from"@,
            "any"@,
            "to"@,
            "any"@,
            "port"@,
        ],
        " -> "@ == seq![' '] + "->"@ + seq![' '],
        words("->"@) == seq!["->"@],
{
    reveal_strlit("rdr on ");
    reveal_strlit("rdr on");
    reveal_strlit("rdr");
    reveal_strlit("on");
    reveal_strlit(" proto tcp from any to any port ");
    reveal_strlit("proto tcp from any to any port");
    reveal_strlit("proto");
    reveal_strlit("tcp");
    reveal_strlit("from");
    reveal_strlit("any");
    reveal_strlit("to");
    reveal_strlit("port");
    reveal_strlit(" -> ");
    reveal_strlit("->");
    assert("rdr on"@ =~= "rdr"@ + seq![' '] + "on"@);
    assert("rdr on "@ =~= "rdr on"@ + seq![' ']);
    lemma_words_plain("rdr"@);
    lemma_next_word("rdr"@, "on"@);
    let a = "proto"@;
    let b = a + seq![' '] + "tcp"@;
    let c = b + seq![' '] + "from"@;
    let d = c + seq![' '] + "any"@;
    let e = d + seq![' '] + "to"@;
    let f = e + seq![' '] + "any"@;
    lemma_words_plain(a);
    lemma_next_word(a, "tcp"@);
    lemma_next_word(b, "from"@);
    lemma_next_word(c, "any"@);
    lemma_next_word(d, "to"@);
    lemma_next_word(e, "any"@);
    lemma_next_word(f, "port"@);
    assert("proto tcp from any to any port"@ =~= f + seq![' '] + "port"@);
    assert(" proto tcp from any to any port "@ =~= seq![' '] + "proto tcp from any to any port"@
        + seq![' ']);
    lemma_words_plain("->"@);
    assert(" -> "@ =~= seq![' '] + "->"@ + seq![' ']);
    assert(words("rdr on"@) =~= seq!["rdr"@, "on"@]);
    assert(words("proto tcp from any to any port"@) =~= seq![
        "proto"@,
        "tcp"@,
        "from"@,
        "any"@,
        "to"@,
        "any"@,
        "port"@,
    ]);
}

/// A line that redirects packets names the device that they come from, the family, the protocol, the
/// port that they are for, and where they go. The port reads back as the port.
pub proof fn law_redirection_words(dev: Seq<char>, family: Seq<char>, port: u16, peer: Seq<char>)
    requires
        !family.contains(' '),
    ensures
        ({
            let line = redirection(dev, seq![' '] + family, port, peer);
            &&& line.len() > 0
            &&& line.last() == '\n'
            &&& words(line.drop_last()) == seq!["rdr"@, "on"@] + words(dev) + seq![family] + seq![
                "proto"@,
                "tcp"@,
                "from"@,
                "any"@,
                "to"@,
                "any"@,
                "port"@,
            ] + seq![decimal_text(port as nat), "->"@] + words(peer)
        }),
        value(decimal_text(port as nat)) == port,
{
    lemma_line_words();
    lemma_decimal_is_a_word(port as nat);
    law_decimal_reads_back(port as nat);
    reveal_strlit("\n");
    let number = decimal_text(port as nat);
    let protocol = "proto tcp from any to any port"@;
    let line = redirection(dev, seq![' '] + family, port, peer);
    let a = "rdr on"@ + seq![' '] + dev;
    let b = a + seq![' '] + family;
    let c = b + seq![' '] + protocol;
    let d = c + seq![' '] + number;
    let e = d + seq![' '] + "->"@;
    lemma_words_append("rdr on"@, dev);
    lemma_next_word(a, family);
    lemma_words_append(b, protocol);
    lemma_next_word(c, number);
    lemma_words_append(d, "->"@);
    lemma_words_append(e, peer);
    assert("\n"@ =~= seq!['\n']);
    assert(line =~= e + seq![' '] + peer + seq!['\n']);
    assert(line.drop_last() =~= e + seq![' '] + peer);
    assert(words(b) =~= words(a) + seq![family]);
    assert(words(e) =~= words(c) + seq![number, "->"@]);
}

/// A setting that is printed with its name, a colon, a space, its value and the end of the line is set
/// again as its name, an equals sign and its value.
pub proof fn law_printed_setting_is_set(name: Seq<char>, value: Seq<char>)
    requires
        forall|i: int| 0 <= i < name.len() ==> !is_white(#[trigger] name[i]),
        forall|i: int| 0 <= i < value.len() ==> !is_white(#[trigger] value[i]),
    ensures
        setting(name + seq![':', ' '] + (value + seq!['\n'])) == name + seq!['='] + value,
{
    let end = value + seq!['\n'];
    law_assigning(name, end);
    assert forall|i: int| 0 <= i < name.len() - 1 && #[trigger] name[i] == ':' implies name[i + 1]
        != ' ' by {
        assert(!is_white(name[i + 1]));
    }
    law_assigned_stays(name);
    assert forall|i: int| 0 <= i < end.len() - 1 && #[trigger] end[i] == ':' implies end[i + 1]
        != ' ' by {
        if i + 1 < value.len() {
            assert(!is_white(value[i + 1]));
        }
    }
    law_assigned_stays(end);
    law_squeezed_stays(name);
    law_squeezed_stays(value);
    law_squeezing(name, '=', end);
    law_squeezing(value, '\n', Seq::empty());
    assert(end + Seq::empty() =~= end);
    assert(squeezed(end) =~= value);
}

/// Everything is taken back in order: forwarding of IPv4, the rules, and forwarding of IPv6 if it was
/// changed.
pub proof fn law_taken_back_in_order(printed: Seq<char>, printed6: Option<Seq<char>>)
    ensures
        ({
            let undone = restore_commands(printed, printed6);
            &&& undone.len() == if printed6 is Some {
                3int
            } else {
                2
            }
            &&& undone[0].program == "sysctl"@ && undone[0].args == seq![setting(printed)]
            &&& undone[1].program == "pfctl"@ && undone[1].args == words(
                "-a com.apple/tonel -f -"@,
            )
            &&& printed6 matches Some(p) ==> undone[2].program == "sysctl"@ && undone[2].args
                == seq![setting(p)]
        }),
{
}

} // verus!
