//! The firewall and forwarding settings that a server needs, and how they are taken back.
//!
//! The settings are made by commands, which are to be run in the order given; the first one that
//! fails ends the attempt.
use crate::text::decimal;
use crate::text::decimal_text;
use crate::text::is_white;
use crate::text::law_decimal_reads_back;
use crate::text::law_squeezed_stays;
use crate::text::law_squeezing;
use crate::text::lemma_words_append;
use crate::text::lemma_words_plain;
use crate::text::split_spaces;
use crate::text::squeeze;
use crate::text::squeezed;
use crate::text::texts;
use crate::text::value;
use crate::text::words;
use vstd::prelude::*;
use vstd::string::*;

verus! {

/// A program to run and its arguments.
#[derive(Debug)]
pub struct Command {
    pub program: String,
    pub args: Vec<String>,
}

pub struct CommandView {
    pub program: Seq<char>,
    pub args: Seq<Seq<char>>,
}

impl View for Command {
    type V = CommandView;

    open spec fn view(&self) -> CommandView {
        CommandView { program: self.program@, args: texts(self.args@) }
    }
}

pub open spec fn commands(list: Seq<Command>) -> Seq<CommandView> {
    Seq::new(list.len(), |i: int| list[i]@)
}

pub open spec fn command(program: Seq<char>, args: Seq<Seq<char>>) -> CommandView {
    CommandView { program, args }
}

/// The text of an optional text.
pub open spec fn text_of(s: Option<&str>) -> Option<Seq<char>> {
    match s {
        Some(text) => Some(text@),
        None => None,
    }
}

/// `list`, or nothing.
pub open spec fn only_if<A>(condition: bool, list: Seq<A>) -> Seq<A> {
    if condition {
        list
    } else {
        Seq::empty()
    }
}

/// The arguments, as one text, of the command that inserts (`-I`) or deletes (`-D`) the rule by
/// which TCP packets from `dev` to `port` go to `peer`.
pub open spec fn rule_text(op: Seq<char>, dev: Seq<char>, port: u16, peer: Seq<char>) -> Seq<char> {
    "-t nat "@ + op + " PREROUTING -p tcp -i "@ + dev + " --dport "@ + decimal_text(port as nat)
        + " -j DNAT --to-destination "@ + peer
}

/// Writes such a rule.
pub fn rule(op: &str, dev: &str, port: u16, peer: &str) -> (text: String)
    ensures
        text@ == rule_text(op@, dev@, port, peer@),
{
    let mut text = "-t nat ".to_string();
    text.append(op);
    text.append(" PREROUTING -p tcp -i ");
    text.append(dev);
    text.append(" --dport ");
    text.append(decimal(port).as_str());
    text.append(" -j DNAT --to-destination ");
    text.append(peer);
    text
}

/// The commands that insert or delete the rules: one for IPv4, and one for IPv6 if there is a
/// `peer6`.
pub open spec fn rule_commands(
    op: Seq<char>,
    dev: Seq<char>,
    peer: Seq<char>,
    peer6: Option<Seq<char>>,
    port: u16,
) -> Seq<CommandView> {
    seq![command("iptables"@, words(rule_text(op, dev, port, peer)))] + only_if(
        peer6 is Some,
        seq![command("ip6tables"@, words(rule_text(op, dev, port, peer6.unwrap())))],
    )
}

/// The commands that switch forwarding on. The first one says how forwarding of IPv4 was set; with
/// IPv6, the third one says how that was.
pub open spec fn switch_commands(v6: bool) -> Seq<CommandView> {
    seq![
        command("sysctl"@, seq!["net.ipv4.ip_forward"@]),
        command("sysctl"@, seq!["-w"@, "net.ipv4.ip_forward=1"@]),
    ] + only_if(
        v6,
        seq![
            command("sysctl"@, seq!["net.ipv6.conf.all.forwarding"@]),
            command("sysctl"@, seq!["-w"@, "net.ipv6.conf.all.forwarding=1"@]),
        ],
    )
}

/// The commands that set forwarding back to what was printed.
pub open spec fn setting_commands(printed: Seq<char>, printed6: Seq<char>, v6: bool) -> Seq<
    CommandView,
> {
    seq![command("sysctl"@, seq!["-w"@, squeezed(printed)])] + only_if(
        v6,
        seq![command("sysctl"@, seq!["-w"@, squeezed(printed6)])],
    )
}

/// The commands that switch forwarding on and insert the rules.
pub open spec fn setup_commands(
    dev: Seq<char>,
    peer: Seq<char>,
    peer6: Option<Seq<char>>,
    port: u16,
) -> Seq<CommandView> {
    switch_commands(peer6 is Some) + rule_commands("-I"@, dev, peer, peer6, port)
}

/// The commands that set forwarding back to what was printed, and delete the rules.
pub open spec fn restore_commands(
    printed: Seq<char>,
    printed6: Seq<char>,
    dev: Seq<char>,
    peer: Seq<char>,
    peer6: Option<Seq<char>>,
    port: u16,
) -> Seq<CommandView> {
    setting_commands(printed, printed6, peer6 is Some) + rule_commands(
        "-D"@,
        dev,
        peer,
        peer6,
        port,
    )
}

/// A command with one argument.
pub fn one(program: &str, arg: &str) -> (c: Command)
    ensures
        c@ == command(program@, seq![arg@]),
{
    let c = Command { program: program.to_string(), args: vec![arg.to_string()] };
    assert(c@.args =~= seq![arg@]);
    c
}

/// A command with two arguments.
pub fn two(program: &str, first: &str, second: &str) -> (c: Command)
    ensures
        c@ == command(program@, seq![first@, second@]),
{
    let c = Command {
        program: program.to_string(),
        args: vec![first.to_string(), second.to_string()],
    };
    assert(c@.args =~= seq![first@, second@]);
    c
}

/// A command whose arguments stand in one text, between spaces.
pub fn split(program: &str, args: &str) -> (c: Command)
    ensures
        c@ == command(program@, words(args@)),
{
    Command { program: program.to_string(), args: split_spaces(args) }
}

/// Appends a command.
pub fn add_command(list: &mut Vec<Command>, c: Command)
    ensures
        commands(final(list)@) == commands(old(list)@).push(c@),
{
    list.push(c);
    assert(commands(list@) =~= commands(old(list)@).push(c@));
}

/// Gives the commands that switch forwarding on and route TCP packets from `dev_name` to
/// `local_port` to the server.
pub fn auto_rule(dev_name: &str, peer: &str, peer6: Option<&str>, local_port: u16) -> (r: Vec<
    Command,
>)
    ensures
        commands(r@) == setup_commands(dev_name@, peer@, text_of(peer6), local_port),
{
    let mut list: Vec<Command> = Vec::new();
    add_command(&mut list, one("sysctl", "net.ipv4.ip_forward"));
    add_command(&mut list, two("sysctl", "-w", "net.ipv4.ip_forward=1"));
    if peer6.is_some() {
        add_command(&mut list, one("sysctl", "net.ipv6.conf.all.forwarding"));
        add_command(&mut list, two("sysctl", "-w", "net.ipv6.conf.all.forwarding=1"));
    }
    add_command(
        &mut list,
        split("iptables", rule("-I", dev_name, local_port, peer).as_str()),
    );
    if let Some(peer6) = peer6 {
        add_command(
            &mut list,
            split("ip6tables", rule("-I", dev_name, local_port, peer6).as_str()),
        );
    }
    assert(commands(list@) =~= setup_commands(dev_name@, peer@, text_of(peer6), local_port));
    list
}

/// Gives the commands that take `auto_rule` back. `printed` and `printed6` are what its queries
/// printed.
pub fn undo_rule(
    printed: &str,
    printed6: &str,
    dev_name: &str,
    peer: &str,
    peer6: Option<&str>,
    local_port: u16,
) -> (r: Vec<Command>)
    ensures
        commands(r@) == restore_commands(
            printed@,
            printed6@,
            dev_name@,
            peer@,
            text_of(peer6),
            local_port,
        ),
{
    let mut list: Vec<Command> = Vec::new();
    add_command(&mut list, two("sysctl", "-w", squeeze(printed).as_str()));
    if peer6.is_some() {
        add_command(&mut list, two("sysctl", "-w", squeeze(printed6).as_str()));
    }
    add_command(
        &mut list,
        split("iptables", rule("-D", dev_name, local_port, peer).as_str()),
    );
    if let Some(peer6) = peer6 {
        add_command(
            &mut list,
            split("ip6tables", rule("-D", dev_name, local_port, peer6).as_str()),
        );
    }
    assert(commands(list@) =~= restore_commands(
        printed@,
        printed6@,
        dev_name@,
        peer@,
        text_of(peer6),
        local_port,
    ));
    list
}

/// The settings of a server being made, command by command.
#[derive(Debug)]
pub struct AutoRule {
    dev_name: String,
    peer: String,
    peer6: Option<String>,
    local_port: u16,
    steps: Vec<Command>,
    printed: Vec<String>,
}

pub struct AutoRuleView {
    pub dev_name: Seq<char>,
    pub peer: Seq<char>,
    pub peer6: Option<Seq<char>>,
    pub local_port: u16,
    /// What the commands that have succeeded so far printed.
    pub printed: Seq<Seq<char>>,
}

impl AutoRuleView {
    /// All the commands.
    pub open spec fn steps(self) -> Seq<CommandView> {
        setup_commands(self.dev_name, self.peer, self.peer6, self.local_port)
    }

    /// Whether all the commands have succeeded.
    pub open spec fn complete(self) -> bool {
        self.printed.len() == self.steps().len()
    }
}

impl View for AutoRule {
    type V = AutoRuleView;

    closed spec fn view(&self) -> AutoRuleView {
        AutoRuleView {
            dev_name: self.dev_name@,
            peer: self.peer@,
            peer6: match self.peer6 {
                Some(text) => Some(text@),
                None => None,
            },
            local_port: self.local_port,
            printed: texts(self.printed@),
        }
    }
}

impl AutoRule {
    #[verifier::type_invariant]
    closed spec fn wf(self) -> bool {
        &&& commands(self.steps@) == self@.steps()
        &&& self.printed@.len() <= self.steps@.len()
    }

    pub fn new(dev_name: &str, peer: &str, peer6: Option<&str>, local_port: u16) -> (r: AutoRule)
        ensures
            r@ == (AutoRuleView {
                dev_name: dev_name@,
                peer: peer@,
                peer6: text_of(peer6),
                local_port,
                printed: Seq::empty(),
            }),
    {
        let steps: Vec<Command> = auto_rule(dev_name, peer, peer6, local_port);
        let peer6: Option<String> = match peer6 {
            Some(text) => Some(text.to_string()),
            None => None,
        };
        let r = AutoRule {
            dev_name: dev_name.to_string(),
            peer: peer.to_string(),
            peer6,
            local_port,
            steps,
            printed: Vec::new(),
        };
        assert(r@.printed =~= Seq::empty());
        r
    }

    /// The command whose turn it is; `None` when all have succeeded.
    pub fn current(&self) -> (r: Option<&Command>)
        ensures
            r is None <==> self@.complete(),
            r matches Some(c) ==> self@.printed.len() < self@.steps().len() && c@
                == self@.steps()[self@.printed.len() as int],
    {
        proof {
            use_type_invariant(self);
        }
        assert(commands(self.steps@).len() == self.steps@.len());
        let at: usize = self.printed.len();
        if at < self.steps.len() {
            assert(commands(self.steps@)[at as int] == self.steps@[at as int]@);
            Some(&self.steps[at])
        } else {
            None
        }
    }

    /// Takes the outcome of the current command, and says whether to go on. A command that failed
    /// changes nothing.
    pub fn finished(&mut self, success: bool, stdout: String) -> (go_on: bool)
        requires
            !old(self)@.complete(),
        ensures
            go_on == success,
            final(self)@ == if success {
                AutoRuleView { printed: old(self)@.printed.push(stdout@), ..old(self)@ }
            } else {
                old(self)@
            },
    {
        proof {
            use_type_invariant(&*self);
        }
        if success {
            assert(commands(self.steps@).len() == self.steps@.len());
            let mut printed: Vec<String> = Vec::new();
            std::mem::swap(&mut printed, &mut self.printed);
            let ghost earlier = printed@;
            printed.push(stdout);
            self.printed = printed;
            assert(self@.printed =~= texts(earlier).push(stdout@));
        }
        success
    }

    /// The commands that take everything back.
    pub fn undo(&self) -> (r: Vec<Command>)
        requires
            self@.complete(),
        ensures
            commands(r@) == restore_commands(
                self@.printed[0],
                self@.printed[2],
                self@.dev_name,
                self@.peer,
                self@.peer6,
                self@.local_port,
            ),
    {
        proof {
            use_type_invariant(self);
        }
        assert(self@.steps().len() >= 3);
        let peer6: Option<&str> = match &self.peer6 {
            Some(text) => Some(text.as_str()),
            None => None,
        };
        undo_rule(
            self.printed[0].as_str(),
            self.printed[2].as_str(),
            self.dev_name.as_str(),
            self.peer.as_str(),
            peer6,
            self.local_port,
        )
    }
}

/// Commands being run one after the other; the first one that fails ends the run.
#[derive(Debug)]
pub struct Run {
    steps: Vec<Command>,
    done: usize,
}

pub struct RunView {
    /// All the commands.
    pub steps: Seq<CommandView>,
    /// How many of them have succeeded so far.
    pub done: nat,
}

impl View for Run {
    type V = RunView;

    closed spec fn view(&self) -> RunView {
        RunView { steps: commands(self.steps@), done: self.done as nat }
    }
}

impl Run {
    #[verifier::type_invariant]
    closed spec fn wf(self) -> bool {
        self.done <= self.steps@.len()
    }

    pub fn new(steps: Vec<Command>) -> (run: Run)
        ensures
            run@ == (RunView { steps: commands(steps@), done: 0 }),
    {
        Run { steps, done: 0 }
    }

    /// The command whose turn it is; `None` when all have succeeded.
    pub fn current(&self) -> (r: Option<&Command>)
        ensures
            self@.done <= self@.steps.len(),
            r is None <==> self@.done == self@.steps.len(),
            r matches Some(c) ==> c@ == self@.steps[self@.done as int],
    {
        proof {
            use_type_invariant(self);
        }
        assert(commands(self.steps@).len() == self.steps@.len());
        if self.done < self.steps.len() {
            assert(commands(self.steps@)[self.done as int] == self.steps@[self.done as int]@);
            Some(&self.steps[self.done])
        } else {
            None
        }
    }

    /// Takes the outcome of the current command, and says whether to go on. Only success moves on.
    pub fn finished(&mut self, success: bool) -> (go_on: bool)
        requires
            old(self)@.done < old(self)@.steps.len(),
        ensures
            go_on == success,
            final(self)@ == if success {
                RunView { done: old(self)@.done + 1, ..old(self)@ }
            } else {
                old(self)@
            },
    {
        proof {
            use_type_invariant(&*self);
        }
        if success {
            assert(commands(self.steps@).len() == self.steps@.len());
            assert(self.steps.len() == self.steps@.len());
            self.done = self.done + 1;
        }
        success
    }
}

/// What is said to those who make the rules by hand.
pub open spec fn advice(port: u16, peer: Seq<char>, peer6: Option<Seq<char>>) -> Seq<char> {
    "Make sure your firewall routes packets, replace the dev_name with \nyour active network interface (like eth0) and run the following commands for iptables: \niptables "@
        + rule_text("-I"@, "dev_name"@, port, peer) + match peer6 {
        Some(peer6) => "\nip6tables "@ + rule_text("-I"@, "dev_name"@, port, peer6),
        None => Seq::empty(),
    }
}

/// Tells which rules to make by hand.
pub fn manual_rules(local_port: u16, peer: &str, peer6: Option<&str>) -> (text: String)
    ensures
        text@ == advice(local_port, peer@, text_of(peer6)),
{
    let mut text =
        "Make sure your firewall routes packets, replace the dev_name with \nyour active network interface (like eth0) and run the following commands for iptables: \niptables ".to_string();
    text.append(rule("-I", "dev_name", local_port, peer).as_str());
    if let Some(peer6) = peer6 {
        let ghost before = text@;
        text.append("\nip6tables ");
        text.append(rule("-I", "dev_name", local_port, peer6).as_str());
        assert(text@ =~= before + ("\nip6tables "@ + rule_text(
            "-I"@,
            "dev_name"@,
            local_port,
            peer6@,
        )));
    }
    assert(text@ =~= advice(local_port, peer@, text_of(peer6)));
    text
}

/// Whether a command inserts or deletes a rule.
pub open spec fn is_rule(c: CommandView) -> bool {
    c.program == "iptables"@ || c.program == "ip6tables"@
}

/// The command with `-D` in the place of the operation, which is its third argument.
pub open spec fn deleting(c: CommandView) -> CommandView {
    CommandView { args: c.args.update(2, "-D"@), ..c }
}

/// The commands of a list that insert or delete a rule.
pub open spec fn rules_of(list: Seq<CommandView>) -> Seq<CommandView> {
    list.filter(|c: CommandView| is_rule(c))
}

/// The other commands of a list.
pub open spec fn settings_of(list: Seq<CommandView>) -> Seq<CommandView> {
    list.filter(|c: CommandView| !is_rule(c))
}

/// What follows the operation in a rule.
spec fn rule_rest(dev: Seq<char>, port: u16, peer: Seq<char>) -> Seq<char> {
    "PREROUTING -p tcp -i "@ + dev + " --dport "@ + decimal_text(port as nat)
        + " -j DNAT --to-destination "@ + peer
}

proof fn lemma_rule_words(op: Seq<char>, dev: Seq<char>, port: u16, peer: Seq<char>)
    requires
        !op.contains(' '),
    ensures
        words(rule_text(op, dev, port, peer)) == seq!["-t"@, "nat"@, op] + words(
            rule_rest(dev, port, peer),
        ),
{
    reveal_strlit("-t nat ");
    reveal_strlit("-t");
    reveal_strlit("nat");
    reveal_strlit(" PREROUTING -p tcp -i ");
    reveal_strlit("PREROUTING -p tcp -i ");
    let rest = rule_rest(dev, port, peer);
    let table = "-t"@ + seq![' '] + "nat"@;
    let front = table + seq![' '] + op;
    assert(" PREROUTING -p tcp -i "@ =~= seq![' '] + "PREROUTING -p tcp -i "@);
    assert("-t nat "@ =~= table + seq![' ']);
    assert(rule_text(op, dev, port, peer) =~= front + seq![' '] + rest);
    lemma_words_append(front, rest);
    lemma_words_append(table, op);
    lemma_words_append("-t"@, "nat"@);
    lemma_words_plain("-t"@);
    lemma_words_plain("nat"@);
    lemma_words_plain(op);
    assert(words(front) =~= seq!["-t"@, "nat"@, op]);
}

/// The commands about one rule correspond: the one that deletes it is the one that inserts it, with
/// the other operation.
proof fn lemma_rule_deleted(program: Seq<char>, dev: Seq<char>, port: u16, peer: Seq<char>)
    ensures
        ({
            let inserted = command(program, words(rule_text("-I"@, dev, port, peer)));
            let deleted = command(program, words(rule_text("-D"@, dev, port, peer)));
            &&& inserted.args.len() > 2
            &&& inserted.args[2] == "-I"@
            &&& deleted == deleting(inserted)
        }),
{
    reveal_strlit("-I");
    reveal_strlit("-D");
    lemma_rule_words("-I"@, dev, port, peer);
    lemma_rule_words("-D"@, dev, port, peer);
    let inserted = command(program, words(rule_text("-I"@, dev, port, peer)));
    let deleted = command(program, words(rule_text("-D"@, dev, port, peer)));
    assert(deleted.args =~= inserted.args.update(2, "-D"@));
}

/// What is set up is taken back, and nothing else: the rules inserted are deleted one by one, in the
/// same order, by the same commands with `-D` for `-I`; and besides that, forwarding is set to what
/// was printed before it was changed.
pub proof fn law_rules_are_taken_back(
    printed: Seq<char>,
    printed6: Seq<char>,
    dev: Seq<char>,
    peer: Seq<char>,
    peer6: Option<Seq<char>>,
    port: u16,
)
    ensures
        ({
            let made = setup_commands(dev, peer, peer6, port);
            let undone = restore_commands(printed, printed6, dev, peer, peer6, port);
            let inserted = rule_commands("-I"@, dev, peer, peer6, port);
            let deleted = rule_commands("-D"@, dev, peer, peer6, port);
            &&& rules_of(made) == inserted
            &&& rules_of(undone) == deleted
            &&& deleted.len() == inserted.len()
            &&& forall|i: int|
                #![trigger inserted[i]]
                0 <= i < inserted.len() ==> inserted[i].args.len() > 2 && inserted[i].args[2]
                    == "-I"@ && deleted[i] == deleting(inserted[i])
            &&& settings_of(undone) == setting_commands(
                printed,
                printed6,
                peer6 is Some,
            )
        }),
{
    lemma_made(dev, peer, peer6, port);
    lemma_undone(printed, printed6, dev, peer, peer6, port);
    lemma_rules_deleted(dev, peer, peer6, port);
}

proof fn lemma_made(dev: Seq<char>, peer: Seq<char>, peer6: Option<Seq<char>>, port: u16)
    ensures
        rules_of(setup_commands(dev, peer, peer6, port)) == rule_commands(
            "-I"@,
            dev,
            peer,
            peer6,
            port,
        ),
{
    lemma_switches(peer6 is Some);
    lemma_rules("-I"@, dev, peer, peer6, port);
    lemma_parts(switch_commands(peer6 is Some), rule_commands("-I"@, dev, peer, peer6, port));
}

proof fn lemma_undone(
    printed: Seq<char>,
    printed6: Seq<char>,
    dev: Seq<char>,
    peer: Seq<char>,
    peer6: Option<Seq<char>>,
    port: u16,
)
    ensures
        ({
            let undone = restore_commands(printed, printed6, dev, peer, peer6, port);
            &&& rules_of(undone) == rule_commands("-D"@, dev, peer, peer6, port)
            &&& settings_of(undone) == setting_commands(printed, printed6, peer6 is Some)
        }),
{
    lemma_settings(printed, printed6, peer6 is Some);
    lemma_rules("-D"@, dev, peer, peer6, port);
    lemma_parts(
        setting_commands(printed, printed6, peer6 is Some),
        rule_commands("-D"@, dev, peer, peer6, port),
    );
}

#[verifier::opaque]
spec fn only_settings(list: Seq<CommandView>) -> bool {
    forall|i: int| 0 <= i < list.len() ==> (#[trigger] list[i]).program == "sysctl"@
}

#[verifier::opaque]
spec fn only_rules(list: Seq<CommandView>) -> bool {
    forall|i: int| 0 <= i < list.len() ==> is_rule(#[trigger] list[i])
}

proof fn lemma_switches(v6: bool)
    ensures
        only_settings(switch_commands(v6)),
{
    reveal(only_settings);
}

proof fn lemma_settings(printed: Seq<char>, printed6: Seq<char>, v6: bool)
    ensures
        only_settings(setting_commands(printed, printed6, v6)),
{
    reveal(only_settings);
}

proof fn lemma_rules(
    op: Seq<char>,
    dev: Seq<char>,
    peer: Seq<char>,
    peer6: Option<Seq<char>>,
    port: u16,
)
    ensures
        only_rules(rule_commands(op, dev, peer, peer6, port)),
{
    reveal(only_rules);
}

proof fn lemma_rules_deleted(
    dev: Seq<char>,
    peer: Seq<char>,
    peer6: Option<Seq<char>>,
    port: u16,
)
    ensures
        ({
            let inserted = rule_commands("-I"@, dev, peer, peer6, port);
            let deleted = rule_commands("-D"@, dev, peer, peer6, port);
            &&& deleted.len() == inserted.len()
            &&& forall|i: int|
                #![trigger inserted[i]]
                0 <= i < inserted.len() ==> inserted[i].args.len() > 2 && inserted[i].args[2]
                    == "-I"@ && deleted[i] == deleting(inserted[i])
        }),
{
    let inserted = rule_commands("-I"@, dev, peer, peer6, port);
    let deleted = rule_commands("-D"@, dev, peer, peer6, port);
    lemma_rule_deleted("iptables"@, dev, port, peer);
    lemma_rule_deleted("ip6tables"@, dev, port, peer6.unwrap());
    assert(deleted.len() == inserted.len());
    assert(deleted[0] == deleting(inserted[0]));
    if peer6 is Some {
        assert(deleted[1] == deleting(inserted[1]));
    }
}

proof fn lemma_filter_all<A>(s: Seq<A>, pred: spec_fn(A) -> bool)
    requires
        forall|i: int| 0 <= i < s.len() ==> pred(#[trigger] s[i]),
    ensures
        s.filter(pred) == s,
    decreases s.len(),
{
    reveal(Seq::filter);
    if s.len() > 0 {
        let rest = s.drop_last();
        assert forall|i: int| 0 <= i < rest.len() implies pred(#[trigger] rest[i]) by {
            assert(pred(s[i]));
        }
        lemma_filter_all(rest, pred);
        assert(pred(s[s.len() - 1]));
        assert(rest.push(s.last()) =~= s);
    }
}

proof fn lemma_filter_none<A>(s: Seq<A>, pred: spec_fn(A) -> bool)
    requires
        forall|i: int| 0 <= i < s.len() ==> !pred(#[trigger] s[i]),
    ensures
        s.filter(pred) == Seq::<A>::empty(),
    decreases s.len(),
{
    reveal(Seq::filter);
    if s.len() > 0 {
        let rest = s.drop_last();
        assert forall|i: int| 0 <= i < rest.len() implies !pred(#[trigger] rest[i]) by {
            assert(!pred(s[i]));
        }
        lemma_filter_none(rest, pred);
        assert(!pred(s[s.len() - 1]));
    } else {
        assert(s =~= Seq::empty());
    }
}

/// The program that makes settings is none of those that make rules.
proof fn lemma_settings_are_no_rules()
    ensures
        "sysctl"@ != "iptables"@,
        "sysctl"@ != "ip6tables"@,
{
    reveal_strlit("sysctl");
    reveal_strlit("iptables");
    reveal_strlit("ip6tables");
    assert("sysctl"@.len() == 6);
    assert("iptables"@.len() == 8);
    assert("ip6tables"@.len() == 9);
}

/// A list of settings and then rules falls apart into the two.
proof fn lemma_parts(settings: Seq<CommandView>, rules: Seq<CommandView>)
    requires
        only_settings(settings),
        only_rules(rules),
    ensures
        rules_of(settings + rules) == rules,
        settings_of(settings + rules) == settings,
{
    reveal(only_settings);
    reveal(only_rules);
    lemma_settings_are_no_rules();
    let rule = |c: CommandView| is_rule(c);
    let other = |c: CommandView| !is_rule(c);
    Seq::filter_distributes_over_add(settings, rules, rule);
    Seq::filter_distributes_over_add(settings, rules, other);
    lemma_filter_none(settings, rule);
    lemma_filter_all(rules, rule);
    lemma_filter_all(settings, other);
    lemma_filter_none(rules, other);
    assert(Seq::empty() + rules =~= rules);
    assert(settings + Seq::empty() =~= settings);
}

/// What two texts with a space between them are split into, the second one being a word.
pub proof fn lemma_next_word(a: Seq<char>, word: Seq<char>)
    requires
        !word.contains(' '),
    ensures
        words(a + seq![' '] + word) == words(a).push(word),
{
    lemma_words_append(a, word);
    lemma_words_plain(word);
    assert(words(a) + seq![word] =~= words(a).push(word));
}

/// A number in decimal is a word.
pub proof fn lemma_decimal_is_a_word(n: nat)
    ensures
        !decimal_text(n).contains(' '),
{
    law_decimal_reads_back(n);
    if decimal_text(n).contains(' ') {
        let i = choose|i: int| 0 <= i < decimal_text(n).len() && decimal_text(n)[i] == ' ';
        assert('0' as u32 <= decimal_text(n)[i] as u32);
    }
}

proof fn lemma_front_words()
    ensures
        "PREROUTING -p tcp -i "@ == "PREROUTING -p tcp -i"@ + seq![' '],
        words("PREROUTING -p tcp -i"@) == seq!["PREROUTING"@, "-p"@, "tcp"@, "-i"@],
{
    reveal_strlit("PREROUTING -p tcp -i ");
    reveal_strlit("PREROUTING -p tcp -i");
    reveal_strlit("PREROUTING");
    reveal_strlit("-p");
    reveal_strlit("tcp");
    reveal_strlit("-i");
    let a = "PREROUTING"@;
    let b = a + seq![' '] + "-p"@;
    let c = b + seq![' '] + "tcp"@;
    lemma_words_plain(a);
    lemma_next_word(a, "-p"@);
    lemma_next_word(b, "tcp"@);
    lemma_next_word(c, "-i"@);
    assert("PREROUTING -p tcp -i"@ =~= c + seq![' '] + "-i"@);
    assert("PREROUTING -p tcp -i "@ =~= "PREROUTING -p tcp -i"@ + seq![' ']);
    assert(words("PREROUTING -p tcp -i"@) =~= seq!["PREROUTING"@, "-p"@, "tcp"@, "-i"@]);
}

proof fn lemma_back_words()
    ensures
        " -j DNAT --to-destination "@ == seq![' '] + "-j DNAT --to-destination"@ + seq![' '],
        words("-j DNAT --to-destination"@) == seq!["-j"@, "DNAT"@, "--to-destination"@],
        " --dport "@ == seq![' '] + "--dport"@ + seq![' '],
        words("--dport"@) == seq!["--dport"@],
{
    reveal_strlit(" -j DNAT --to-destination ");
    reveal_strlit("-j DNAT --to-destination");
    reveal_strlit("-j");
    reveal_strlit("DNAT");
    reveal_strlit("--to-destination");
    reveal_strlit(" --dport ");
    reveal_strlit("--dport");
    let a = "-j"@;
    let b = a + seq![' '] + "DNAT"@;
    lemma_words_plain(a);
    lemma_next_word(a, "DNAT"@);
    lemma_next_word(b, "--to-destination"@);
    lemma_words_plain("--dport"@);
    assert("-j DNAT --to-destination"@ =~= b + seq![' '] + "--to-destination"@);
    assert(" -j DNAT --to-destination "@ =~= seq![' '] + "-j DNAT --to-destination"@ + seq![' ']);
    assert(" --dport "@ =~= seq![' '] + "--dport"@ + seq![' ']);
    assert(words("-j DNAT --to-destination"@) =~= seq!["-j"@, "DNAT"@, "--to-destination"@]);
}

proof fn lemma_rest_words(dev: Seq<char>, port: u16, peer: Seq<char>)
    ensures
        words(rule_rest(dev, port, peer)) == seq!["PREROUTING"@, "-p"@, "tcp"@, "-i"@] + words(dev)
            + seq!["--dport"@, decimal_text(port as nat)] + seq![
            "-j"@,
            "DNAT"@,
            "--to-destination"@,
        ] + words(peer),
{
    lemma_front_words();
    lemma_back_words();
    lemma_decimal_is_a_word(port as nat);
    let number = decimal_text(port as nat);
    let front = "PREROUTING -p tcp -i"@;
    let back = "-j DNAT --to-destination"@;
    let a = front + seq![' '] + dev;
    let b = a + seq![' '] + "--dport"@;
    let c = b + seq![' '] + number;
    let d = c + seq![' '] + back;
    lemma_words_append(front, dev);
    lemma_words_append(a, "--dport"@);
    lemma_next_word(b, number);
    lemma_words_append(c, back);
    lemma_words_append(d, peer);
    assert(rule_rest(dev, port, peer) =~= d + seq![' '] + peer);
    assert(words(c) =~= words(a) + seq!["--dport"@, number]);
}

/// The arguments of a command about a rule: the table, the operation, the chain, the protocol, the
/// device that packets come from, the port that they are for, and where they go. The port reads back
/// as the port.
pub proof fn law_rule_arguments(op: Seq<char>, dev: Seq<char>, port: u16, peer: Seq<char>)
    requires
        !op.contains(' '),
    ensures
        words(rule_text(op, dev, port, peer)) == seq!["-t"@, "nat"@, op] + (seq![
            "PREROUTING"@,
            "-p"@,
            "tcp"@,
            "-i"@,
        ] + words(dev) + seq!["--dport"@, decimal_text(port as nat)] + seq![
            "-j"@,
            "DNAT"@,
            "--to-destination"@,
        ] + words(peer)),
        value(decimal_text(port as nat)) == port,
{
    lemma_rule_words(op, dev, port, peer);
    lemma_rest_words(dev, port, peer);
    law_decimal_reads_back(port as nat);
}

/// There is a rule for IPv4, and one for IPv6 if there is a peer for it; each goes to its own peer,
/// through its own program.
pub proof fn law_rules_by_version(
    op: Seq<char>,
    dev: Seq<char>,
    peer: Seq<char>,
    peer6: Option<Seq<char>>,
    port: u16,
)
    ensures
        ({
            let rules = rule_commands(op, dev, peer, peer6, port);
            &&& rules.len() == if peer6 is Some {
                2int
            } else {
                1
            }
            &&& rules[0].program == "iptables"@
            &&& rules[0].args == words(rule_text(op, dev, port, peer))
            &&& peer6 matches Some(p) ==> rules[1].program == "ip6tables"@ && rules[1].args == words(
                rule_text(op, dev, port, p),
            )
        }),
{
}

/// Forwarding is set back by one command for IPv4, and one for IPv6 if it was changed, each with what
/// was printed for it, without its white space.
pub proof fn law_settings_by_version(printed: Seq<char>, printed6: Seq<char>, v6: bool)
    ensures
        ({
            let settings = setting_commands(printed, printed6, v6);
            &&& settings.len() == if v6 {
                2int
            } else {
                1
            }
            &&& settings[0].program == "sysctl"@
            &&& settings[0].args == seq!["-w"@, squeezed(printed)]
            &&& v6 ==> settings[1].program == "sysctl"@ && settings[1].args == seq![
                "-w"@,
                squeezed(printed6),
            ]
        }),
{
}

/// A setting that is printed with its name, an equals sign between spaces, its value and the end of
/// the line is set again as its name, an equals sign and its value.
pub proof fn law_printed_setting_is_set(name: Seq<char>, setting: Seq<char>)
    requires
        forall|i: int| 0 <= i < name.len() ==> !is_white(#[trigger] name[i]),
        forall|i: int| 0 <= i < setting.len() ==> !is_white(#[trigger] setting[i]),
    ensures
        squeezed(name + seq![' ', '=', ' '] + setting + seq!['\n']) == name + seq!['='] + setting,
{
    law_squeezed_stays(name);
    law_squeezed_stays(setting);
    let text = name + seq![' ', '=', ' '] + setting + seq!['\n'];
    let end = setting + seq!['\n'] + Seq::empty();
    let middle = Seq::empty() + seq![' '] + end;
    law_squeezing(name, ' ', seq!['='] + middle);
    law_squeezing(Seq::empty(), '=', middle);
    law_squeezing(Seq::empty(), ' ', end);
    law_squeezing(setting, '\n', Seq::empty());
    assert(Seq::empty() + seq!['='] + middle =~= seq!['='] + middle);
    assert(text =~= name + seq![' '] + (seq!['='] + middle));
    assert(squeezed(end) =~= setting);
    assert(squeezed(middle) =~= setting);
    assert(squeezed(seq!['='] + middle) =~= seq!['='] + setting);
    assert(squeezed(text) =~= name + seq!['='] + setting);
}

/// Those who make the rules by hand are told the same rules as are made automatically, for a device
/// yet to be named.
pub proof fn law_advice(port: u16, peer: Seq<char>, peer6: Option<Seq<char>>)
    ensures
        ({
            let first = advice(port, peer, None);
            let told =
                "Make sure your firewall routes packets, replace the dev_name with \nyour active network interface (like eth0) and run the following commands for iptables: \niptables "@;
            &&& first == told + rule_text("-I"@, "dev_name"@, port, peer)
            &&& peer6 is None ==> advice(port, peer, peer6) == first
            &&& peer6 matches Some(p) ==> advice(port, peer, peer6) == first + ("\nip6tables "@
                + rule_text("-I"@, "dev_name"@, port, p))
        }),
{
    let first = advice(port, peer, None);
    let told =
        "Make sure your firewall routes packets, replace the dev_name with \nyour active network interface (like eth0) and run the following commands for iptables: \niptables "@;
    assert(first =~= told + rule_text("-I"@, "dev_name"@, port, peer));
    if let Some(p) = peer6 {
        assert(advice(port, peer, peer6) =~= first + ("\nip6tables "@ + rule_text(
            "-I"@,
            "dev_name"@,
            port,
            p,
        )));
    }
}

/// A list of commands is seen with the program and the arguments of each, in order.
pub proof fn law_commands_are_seen(list: Seq<Command>, i: int, j: int, text: Option<&str>)
    requires
        0 <= i < list.len(),
        0 <= j < list[i].args@.len(),
    ensures
        commands(list).len() == list.len(),
        commands(list)[i].program == list[i].program@,
        commands(list)[i].args.len() == list[i].args@.len(),
        commands(list)[i].args[j] == list[i].args@[j]@,
        text_of(text) is Some <==> text is Some,
        text matches Some(t) ==> text_of(text) == Some(t@),
{
}

} // verus!
