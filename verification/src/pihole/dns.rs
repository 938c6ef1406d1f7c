//! The local DNS override file: reading it, and the commands that bring the
//! live file in line with a restored one.

use crate::error::RestoreError;
use crate::text::{
    chars_of, find_first, first_index, lemma_first_index_bounds, string_of, texts_of,
};
use vstd::prelude::*;

verus! {

/// Where Pi-hole keeps its local DNS overrides.
pub const CUSTOM_DNS_FILE: &'static str = "/etc/pihole/custom.list";

/// One override, as contracts see it.
pub struct OverridePair {
    pub ip: Seq<char>,
    pub domain: Seq<char>,
}

/// One line of the override file: an address and the name that resolves to it.
#[derive(Debug)]
pub struct CustomDNSEntry {
    pub ip: String,
    pub domain: String,
}

impl View for CustomDNSEntry {
    type V = OverridePair;

    open spec fn view(&self) -> OverridePair {
        OverridePair { ip: self.ip@, domain: self.domain@ }
    }
}

/// The overrides that a list of entries stands for, in the same order.
pub open spec fn pairs_of(entries: Seq<CustomDNSEntry>) -> Seq<OverridePair> {
    Seq::new(entries.len(), |i: int| entries[i]@)
}

/// A line without the carriage return that ended it, if one did.
pub open spec fn strip_carriage_return(line: Seq<char>) -> Seq<char> {
    if line.len() > 0 && line.last() == '\r' {
        line.drop_last()
    } else {
        line
    }
}

/// The lines of a text. A line ends at a line feed, or at a carriage return
/// directly followed by one; the last line may lack its ending, and then
/// keeps a trailing carriage return. Endings are not part of the lines.
pub open spec fn split_lines(text: Seq<char>) -> Seq<Seq<char>>
    decreases text.len(),
{
    if text.len() == 0 {
        Seq::empty()
    } else {
        let k = first_index(text, '\n');
        if 0 <= k < text.len() {
            seq![strip_carriage_return(text.take(k))] + split_lines(text.skip(k + 1))
        } else {
            seq![text]
        }
    }
}

/// The override on a line: the line holds exactly one space, the address
/// stands before it and the name after it. Any other line holds none.
pub open spec fn parse_line(line: Seq<char>) -> Option<OverridePair> {
    let k = first_index(line, ' ');
    if 0 <= k < line.len() && !line.skip(k + 1).contains(' ') {
        Some(OverridePair { ip: line.take(k), domain: line.skip(k + 1) })
    } else {
        None
    }
}

/// The overrides on the well-formed lines among `lines`, in order.
pub open spec fn overrides_on(lines: Seq<Seq<char>>) -> Seq<OverridePair>
    decreases lines.len(),
{
    if lines.len() == 0 {
        Seq::empty()
    } else {
        match parse_line(lines[0]) {
            Some(pair) => seq![pair] + overrides_on(lines.drop_first()),
            None => overrides_on(lines.drop_first()),
        }
    }
}

/// The overrides that an override file holds: those on its well-formed
/// lines, in file order.
pub open spec fn parse_overrides(text: Seq<char>) -> Seq<OverridePair> {
    overrides_on(split_lines(text))
}

/// No line of a text holds a line feed.
pub proof fn lemma_lines_hold_no_feed(text: Seq<char>, index: int)
    requires
        0 <= index < split_lines(text).len(),
    ensures
        !split_lines(text)[index].contains('\n'),
    decreases text.len(),
{
    lemma_first_index_bounds(text, '\n');
    let k = first_index(text, '\n');
    if 0 <= k < text.len() {
        let first = strip_carriage_return(text.take(k));
        let tail = split_lines(text.skip(k + 1));
        if index == 0 {
            if first.contains('\n') {
                let i = choose|i: int| 0 <= i < first.len() && first[i] == '\n';
                assert(text[i] == '\n');
            }
        } else {
            lemma_lines_hold_no_feed(text.skip(k + 1), index - 1);
            assert(split_lines(text)[index] == tail[index - 1]);
        }
    }
}

/// The fields of an override stand on its line, and neither holds a space.
pub proof fn lemma_fields_of_a_line(line: Seq<char>)
    requires
        parse_line(line) is Some,
    ensures
        !parse_line(line)->0.ip.contains(' '),
        !parse_line(line)->0.domain.contains(' '),
        forall|c: char|
            parse_line(line)->0.ip.contains(c) || parse_line(line)->0.domain.contains(c)
                ==> line.contains(c),
{
    lemma_first_index_bounds(line, ' ');
    let k = first_index(line, ' ');
    let ip = line.take(k);
    let domain = line.skip(k + 1);
    if ip.contains(' ') {
        let i = choose|i: int| 0 <= i < ip.len() && ip[i] == ' ';
        assert(line[i] == ' ');
    }
    assert forall|c: char| ip.contains(c) || domain.contains(c) implies line.contains(c) by {
        if ip.contains(c) {
            let i = choose|i: int| 0 <= i < ip.len() && ip[i] == c;
            assert(line[i] == c);
        } else {
            let i = choose|i: int| 0 <= i < domain.len() && domain[i] == c;
            assert(line[i + k + 1] == c);
        }
    }
}

/// Every override among those of some lines stands on one of them.
pub proof fn lemma_override_has_a_line(lines: Seq<Seq<char>>, index: int) -> (place: int)
    requires
        0 <= index < overrides_on(lines).len(),
    ensures
        0 <= place < lines.len(),
        parse_line(lines[place]) == Some(overrides_on(lines)[index]),
    decreases lines.len(),
{
    let rest = lines.drop_first();
    match parse_line(lines[0]) {
        Some(pair) => {
            if index == 0 {
                0
            } else {
                assert(overrides_on(lines)[index] == overrides_on(rest)[index - 1]);
                let place = lemma_override_has_a_line(rest, index - 1);
                assert(rest[place] == lines[place + 1]);
                place + 1
            }
        },
        None => {
            let place = lemma_override_has_a_line(rest, index);
            assert(rest[place] == lines[place + 1]);
            place + 1
        },
    }
}

/// Neither field of an override that was read from a file holds a space or
/// a line feed: each is one word of a command line.
pub proof fn lemma_parsed_fields_are_words(text: Seq<char>, index: int)
    requires
        0 <= index < parse_overrides(text).len(),
    ensures
        !parse_overrides(text)[index].ip.contains(' '),
        !parse_overrides(text)[index].ip.contains('\n'),
        !parse_overrides(text)[index].domain.contains(' '),
        !parse_overrides(text)[index].domain.contains('\n'),
{
    let lines = split_lines(text);
    let place = lemma_override_has_a_line(lines, index);
    lemma_fields_of_a_line(lines[place]);
    lemma_lines_hold_no_feed(text, place);
}

/// Reads the line `chars[from..to]`.
fn entry_on_line(chars: &Vec<char>, from: usize, to: usize) -> (entry: Option<CustomDNSEntry>)
    requires
        from <= to <= chars.len(),
    ensures
        match parse_line(chars@.subrange(from as int, to as int)) {
            Some(pair) => entry matches Some(e) && e@ == pair,
            None => entry is None,
        },
{
    let ghost line = chars@.subrange(from as int, to as int);
    let space = find_first(chars, from, to, ' ');
    if space == to {
        return None;
    }
    let second = find_first(chars, space + 1, to, ' ');
    proof {
        let rest = chars@.subrange(space + 1, to as int);
        assert(rest == line.skip(space - from + 1));
        lemma_first_index_bounds(rest, ' ');
    }
    if second != to {
        return None;
    }
    let ip = string_of(chars, from, space);
    let domain = string_of(chars, space + 1, to);
    proof {
        assert(chars@.subrange(from as int, space as int) == line.take(space - from));
    }
    Some(CustomDNSEntry { ip, domain })
}

/// Where a line ends and where the next one starts.
struct LineBounds {
    /// One past the last character of the line.
    end: usize,
    /// The first character after the line and its ending.
    next: usize,
}

/// Finds the line that starts at `start`.
fn line_at(chars: &Vec<char>, start: usize) -> (bounds: LineBounds)
    requires
        start < chars.len(),
    ensures
        start <= bounds.end <= chars.len(),
        start < bounds.next <= chars.len(),
        split_lines(chars@.skip(start as int)) == seq![
            chars@.subrange(start as int, bounds.end as int),
        ] + split_lines(chars@.skip(bounds.next as int)),
{
    let n = chars.len();
    let ghost rest = chars@.skip(start as int);
    let feed = find_first(chars, start, n, '\n');
    assert(chars@.subrange(start as int, n as int) == rest);
    let terminated = feed < n;
    let end = if terminated && feed > start && chars[feed - 1] == '\r' {
        feed - 1
    } else {
        feed
    };
    let next = if terminated {
        feed + 1
    } else {
        n
    };
    proof {
        let line = chars@.subrange(start as int, end as int);
        let tail = chars@.skip(next as int);
        if terminated {
            assert(rest.take(feed - start) == chars@.subrange(start as int, feed as int));
            assert(line == strip_carriage_return(rest.take(feed - start)));
            assert(rest.skip(feed - start + 1) == tail);
        } else {
            assert(line == rest);
            assert(tail.len() == 0);
        }
    }
    LineBounds { end, next }
}

/// Parses the text of an override file. Malformed lines are passed over.
pub fn get_local_dns_entries(contents: &str) -> (entries: Vec<CustomDNSEntry>)
    ensures
        pairs_of(entries@) == parse_overrides(contents@),
{
    let chars = chars_of(contents);
    let n = chars.len();
    let mut entries: Vec<CustomDNSEntry> = Vec::new();
    let mut start: usize = 0;
    proof {
        assert(chars@.skip(0) == chars@);
        assert(pairs_of(entries@) + parse_overrides(chars@) == parse_overrides(chars@));
    }
    while start < n
        invariant
            n == chars.len(),
            start <= n,
            chars@ == contents@,
            pairs_of(entries@) + parse_overrides(chars@.skip(start as int)) == parse_overrides(
                chars@,
            ),
        decreases n - start,
    {
        let ghost before = pairs_of(entries@);
        let bounds = line_at(&chars, start);
        proof {
            let line = chars@.subrange(start as int, bounds.end as int);
            let tail = split_lines(chars@.skip(bounds.next as int));
            assert((seq![line] + tail).drop_first() == tail);
        }
        match entry_on_line(&chars, start, bounds.end) {
            Some(entry) => {
                entries.push(entry);
                proof {
                    assert(pairs_of(entries@) == before + seq![entry@]);
                }
            },
            None => {},
        }
        start = bounds.next;
    }
    proof {
        assert(chars@.skip(start as int).len() == 0);
    }
    entries
}

/// Whether a line holds no override.
pub open spec fn is_malformed() -> spec_fn(Seq<char>) -> bool {
    |line: Seq<char>| parse_line(line) is None
}

/// The lines of an override file that hold no override, in file order.
pub open spec fn malformed_in(text: Seq<char>) -> Seq<Seq<char>> {
    split_lines(text).filter(is_malformed())
}

/// What a first line adds to the malformed lines of those that follow it.
proof fn lemma_malformed_first(line: Seq<char>, following: Seq<Seq<char>>)
    ensures
        (seq![line] + following).filter(is_malformed()) == if parse_line(line) is None {
            seq![line] + following.filter(is_malformed())
        } else {
            following.filter(is_malformed())
        },
{
    let first = seq![line];
    Seq::filter_distributes_over_add(first, following, is_malformed());
    reveal_with_fuel(Seq::filter, 2);
    assert(first.drop_last() == Seq::<Seq<char>>::empty());
    if parse_line(line) is None {
        assert(first.filter(is_malformed()) == first);
    } else {
        assert(first.filter(is_malformed()) == Seq::<Seq<char>>::empty());
        assert(Seq::<Seq<char>>::empty() + following.filter(is_malformed()) == following.filter(
            is_malformed(),
        ));
    }
}

/// The lines of an override file that are passed over when it is parsed:
/// those that do not split into exactly two fields, in file order.
pub fn malformed_lines(contents: &str) -> (lines: Vec<String>)
    ensures
        texts_of(lines@) == malformed_in(contents@),
{
    let chars = chars_of(contents);
    let n = chars.len();
    let mut lines: Vec<String> = Vec::new();
    let mut start: usize = 0;
    proof {
        assert(chars@.skip(0) == chars@);
        assert(texts_of(lines@) + malformed_in(chars@) == malformed_in(chars@));
    }
    while start < n
        invariant
            n == chars.len(),
            start <= n,
            chars@ == contents@,
            texts_of(lines@) + malformed_in(chars@.skip(start as int)) == malformed_in(chars@),
        decreases n - start,
    {
        let ghost before = texts_of(lines@);
        let bounds = line_at(&chars, start);
        proof {
            lemma_malformed_first(
                chars@.subrange(start as int, bounds.end as int),
                split_lines(chars@.skip(bounds.next as int)),
            );
        }
        match entry_on_line(&chars, start, bounds.end) {
            Some(_) => {},
            None => {
                let line = string_of(&chars, start, bounds.end);
                lines.push(line);
                proof {
                    assert(texts_of(lines@) == before + seq![line@]);
                }
            },
        }
        start = bounds.next;
    }
    proof {
        assert(chars@.skip(start as int).len() == 0);
        reveal_with_fuel(Seq::filter, 1);
        assert(malformed_in(chars@.skip(start as int)) == Seq::<Seq<char>>::empty());
    }
    lines
}

/// What the gateway is asked to do with an override.
#[derive(Clone, Copy, Debug, PartialEq, Eq, Structural)]
pub enum OverrideVerb {
    Add,
    Remove,
}

/// One request to the command gateway, as contracts see it.
pub struct CommandModel {
    pub verb: OverrideVerb,
    pub pair: OverridePair,
    pub suppress_restart: bool,
}

/// One request to the command gateway.
#[derive(Debug)]
pub struct OverrideCommand {
    pub verb: OverrideVerb,
    pub ip: String,
    pub domain: String,
    /// Keeps the DNS service from restarting after this one command.
    pub suppress_restart: bool,
}

impl View for OverrideCommand {
    type V = CommandModel;

    open spec fn view(&self) -> CommandModel {
        CommandModel {
            verb: self.verb,
            pair: OverridePair { ip: self.ip@, domain: self.domain@ },
            suppress_restart: self.suppress_restart,
        }
    }
}

/// The word by which the Pi-hole command line knows a verb.
pub open spec fn verb_word(verb: OverrideVerb) -> Seq<char> {
    match verb {
        OverrideVerb::Add => "addcustomdns"@,
        OverrideVerb::Remove => "removecustomdns"@,
    }
}

/// The last argument of an override command: whether the DNS service is to
/// restart once the command is done.
pub open spec fn restart_word(suppress_restart: bool) -> Seq<char> {
    if suppress_restart {
        "false"@
    } else {
        "true"@
    }
}

/// The argument list of a command, as the Pi-hole command line takes it.
pub open spec fn argument_list(command: CommandModel) -> Seq<Seq<char>> {
    seq![
        "-a"@,
        verb_word(command.verb),
        command.pair.ip,
        command.pair.domain,
        restart_word(command.suppress_restart),
    ]
}

impl OverrideCommand {
    /// The arguments to hand to the Pi-hole command line.
    pub fn arguments(&self) -> (args: Vec<String>)
        ensures
            texts_of(args@) == argument_list(self@),
    {
        let verb = match self.verb {
            OverrideVerb::Add => "addcustomdns".to_owned(),
            OverrideVerb::Remove => "removecustomdns".to_owned(),
        };
        let restart = if self.suppress_restart {
            "false".to_owned()
        } else {
            "true".to_owned()
        };
        let mut args: Vec<String> = Vec::new();
        args.push("-a".to_owned());
        args.push(verb);
        args.push(self.ip.clone());
        args.push(self.domain.clone());
        args.push(restart);
        proof {
            assert(texts_of(args@) == argument_list(self@));
        }
        args
    }

    /// A copy of the command.
    pub fn duplicate(&self) -> (copy: OverrideCommand)
        ensures
            copy@ == self@,
    {
        OverrideCommand {
            verb: self.verb,
            ip: self.ip.clone(),
            domain: self.domain.clone(),
            suppress_restart: self.suppress_restart,
        }
    }
}

/// The commands of a list, as contracts see them.
pub open spec fn commands_of(commands: Seq<OverrideCommand>) -> Seq<CommandModel> {
    Seq::new(commands.len(), |i: int| commands[i]@)
}

/// One command per override, in order, each with the restart suppressed.
pub open spec fn commands_for(verb: OverrideVerb, pairs: Seq<OverridePair>) -> Seq<CommandModel> {
    Seq::new(
        pairs.len(),
        |i: int| CommandModel { verb, pair: pairs[i], suppress_restart: true },
    )
}

/// The commands that take every one of `pairs` out of the live file.
pub open spec fn removals(pairs: Seq<OverridePair>) -> Seq<CommandModel> {
    commands_for(OverrideVerb::Remove, pairs)
}

/// The commands that put every one of `pairs` into the live file.
pub open spec fn additions(pairs: Seq<OverridePair>) -> Seq<CommandModel> {
    commands_for(OverrideVerb::Add, pairs)
}

/// How many of the commands add an override.
pub open spec fn added(commands: Seq<CommandModel>) -> nat
    decreases commands.len(),
{
    if commands.len() == 0 {
        0
    } else if commands.last().verb == OverrideVerb::Add {
        added(commands.drop_last()) + 1
    } else {
        added(commands.drop_last())
    }
}

/// A batch after another adds what the two add together.
pub proof fn lemma_added_in_a_row(first: Seq<CommandModel>, second: Seq<CommandModel>)
    ensures
        added(first + second) == added(first) + added(second),
    decreases second.len(),
{
    if second.len() == 0 {
        assert(first + second == first);
    } else {
        lemma_added_in_a_row(first, second.drop_last());
        assert((first + second).drop_last() == first + second.drop_last());
        assert((first + second).last() == second.last());
    }
}

/// The additions of some overrides add each of them; their removals add
/// none.
pub proof fn lemma_added_by_verb(pairs: Seq<OverridePair>)
    ensures
        added(additions(pairs)) == pairs.len(),
        added(removals(pairs)) == 0,
    decreases pairs.len(),
{
    if pairs.len() > 0 {
        lemma_added_by_verb(pairs.drop_last());
        assert(additions(pairs).drop_last() == additions(pairs.drop_last()));
        assert(removals(pairs).drop_last() == removals(pairs.drop_last()));
    }
}

/// A reconciliation attempts to add every override of the restored file,
/// and counts nothing else: neither what it removes nor what the live file
/// held.
pub proof fn lemma_reconciliation_adds_incoming(
    flush: bool,
    current: Seq<OverridePair>,
    incoming: Seq<OverridePair>,
)
    ensures
        added(reconciliation(flush, current, incoming)) == incoming.len(),
{
    lemma_added_by_verb(current);
    lemma_added_by_verb(incoming);
    lemma_added_in_a_row(removals(current), additions(incoming));
}

/// Appends to `commands` one command per entry.
fn push_commands(commands: &mut Vec<OverrideCommand>, verb: OverrideVerb, entries: &Vec<CustomDNSEntry>)
    ensures
        commands_of(final(commands)@) == commands_of(old(commands)@) + commands_for(
            verb,
            pairs_of(entries@),
        ),
{
    let ghost before = commands_of(commands@);
    let mut i: usize = 0;
    while i < entries.len()
        invariant
            i <= entries.len(),
            commands_of(commands@) == before + commands_for(verb, pairs_of(entries@)).take(
                i as int,
            ),
        decreases entries.len() - i,
    {
        let ghost so_far = commands_of(commands@);
        let entry = &entries[i];
        commands.push(
            OverrideCommand {
                verb,
                ip: entry.ip.clone(),
                domain: entry.domain.clone(),
                suppress_restart: true,
            },
        );
        i += 1;
        proof {
            let all = commands_for(verb, pairs_of(entries@));
            assert(commands_of(commands@) == so_far.push(all[i - 1]));
            assert(all.take(i as int) == all.take(i - 1).push(all[i - 1]));
        }
    }
    proof {
        let all = commands_for(verb, pairs_of(entries@));
        assert(all.take(i as int) == all);
    }
}

/// A batch of commands on its way through the gateway, as contracts see it.
pub struct BatchModel {
    /// Every command of the batch, in the order in which they are issued.
    pub commands: Seq<CommandModel>,
    /// How many of them have been handed out.
    pub issued: nat,
    /// How many of those were reported as failed.
    pub failed: nat,
}

/// The commands of one reconciliation, handed out one at a time. The service
/// is restarted at most once, after the batch, since every command suppresses
/// its own restart.
pub struct OverrideBatch {
    commands: Vec<OverrideCommand>,
    issued: usize,
    failed: usize,
}

impl View for OverrideBatch {
    type V = BatchModel;

    closed spec fn view(&self) -> BatchModel {
        BatchModel {
            commands: commands_of(self.commands@),
            issued: self.issued as nat,
            failed: self.failed as nat,
        }
    }
}

impl BatchModel {
    /// The command that is issued next, if any is left.
    pub open spec fn pending(self) -> Option<CommandModel> {
        if self.issued < self.commands.len() {
            Some(self.commands[self.issued as int])
        } else {
            None
        }
    }

    /// The batch once its pending command has been handed out.
    pub open spec fn advanced(self) -> BatchModel {
        if self.issued < self.commands.len() {
            BatchModel { issued: self.issued + 1, ..self }
        } else {
            self
        }
    }

    /// The batch once the outcome of the command issued last has been noted.
    pub open spec fn noted(self, succeeded: bool) -> BatchModel {
        if succeeded || self.failed >= self.issued {
            self
        } else {
            BatchModel { failed: self.failed + 1, ..self }
        }
    }
}

/// A batch of which nothing has been issued yet.
pub open spec fn fresh_batch(commands: Seq<CommandModel>) -> BatchModel {
    BatchModel { commands, issued: 0, failed: 0 }
}

impl OverrideBatch {
    #[verifier::type_invariant]
    spec fn consistent(self) -> bool {
        self.failed <= self.issued <= self.commands.len()
    }

    fn start(commands: Vec<OverrideCommand>) -> (batch: OverrideBatch)
        ensures
            batch@ == fresh_batch(commands_of(commands@)),
    {
        OverrideBatch { commands, issued: 0, failed: 0 }
    }

    /// How many commands the batch holds.
    pub fn len(&self) -> (n: usize)
        ensures
            n == self@.commands.len(),
    {
        self.commands.len()
    }

    /// How many commands have been handed out so far: never more than the
    /// batch holds.
    pub fn issued(&self) -> (n: usize)
        ensures
            n == self@.issued,
            n <= self@.commands.len(),
    {
        proof {
            use_type_invariant(self);
        }
        self.issued
    }

    /// How many commands were reported as failed so far: never more than
    /// were handed out.
    pub fn failed(&self) -> (n: usize)
        ensures
            n == self@.failed,
            n <= self@.issued,
    {
        proof {
            use_type_invariant(self);
        }
        self.failed
    }

    /// How many overrides the batch attempts to add: what a reconciliation
    /// reports as its count of records attempted. Removals are not counted.
    pub fn records_attempted(&self) -> (count: i32)
        ensures
            count == added(self@.commands) as i32,
    {
        let ghost all = commands_of(self.commands@);
        let mut adds: usize = 0;
        let mut i: usize = 0;
        while i < self.commands.len()
            invariant
                i <= self.commands.len(),
                all == commands_of(self.commands@),
                adds <= i,
                adds == added(all.take(i as int)),
            decreases self.commands.len() - i,
        {
            proof {
                assert(all.take(i + 1).drop_last() == all.take(i as int));
                assert(all.take(i + 1).last() == self.commands@[i as int]@);
            }
            match self.commands[i].verb {
                OverrideVerb::Add => {
                    adds += 1;
                },
                OverrideVerb::Remove => {},
            }
            i += 1;
        }
        proof {
            assert(all.take(i as int) == all);
        }
        #[verifier::truncate]
        (adds as i32)
    }

    /// Whether every command has been handed out.
    pub fn is_finished(&self) -> (done: bool)
        ensures
            done == (self@.issued == self@.commands.len()),
    {
        proof {
            use_type_invariant(self);
        }
        self.issued == self.commands.len()
    }

    /// Hands out the next command, or `None` once all have been. What was
    /// reported of earlier commands has no part in it.
    pub fn next_command(&mut self) -> (command: Option<OverrideCommand>)
        ensures
            final(self)@ == old(self)@.advanced(),
            match command {
                Some(c) => old(self)@.pending() == Some(c@),
                None => old(self)@.pending() is None,
            },
    {
        proof {
            use_type_invariant(&*self);
        }
        if self.issued < self.commands.len() {
            let command = self.commands[self.issued].duplicate();
            self.issued += 1;
            Some(command)
        } else {
            None
        }
    }

    /// Takes note of how the command issued last fared. A failure is counted
    /// and changes nothing about what is issued next.
    pub fn record_outcome(&mut self, succeeded: bool)
        ensures
            final(self)@ == old(self)@.noted(succeeded),
    {
        proof {
            use_type_invariant(&*self);
        }
        if !succeeded && self.failed < self.issued {
            self.failed += 1;
        }
    }
}

/// The overrides of the live file, given what reading it gave: its text, or
/// the reason why it could not be read.
pub fn get_current_local_dns_entries(current: Result<String, String>) -> (entries: Result<
    Vec<CustomDNSEntry>,
    RestoreError,
>)
    ensures
        match current {
            Ok(text) => entries matches Ok(list) && pairs_of(list@) == parse_overrides(text@),
            Err(reason) => entries == Err::<Vec<CustomDNSEntry>, RestoreError>(
                RestoreError::OverrideFile(reason),
            ),
        },
{
    match current {
        Ok(text) => Ok(get_local_dns_entries(text.as_str())),
        Err(reason) => Err(RestoreError::OverrideFile(reason)),
    }
}

/// The batch that empties the live file: one removal per override that it
/// holds, in file order. It fails only where the file could not be read.
pub fn flush_local_dns_entries(current: Result<String, String>) -> (batch: Result<
    OverrideBatch,
    RestoreError,
>)
    ensures
        match current {
            Ok(text) => batch matches Ok(b) && b@ == fresh_batch(
                removals(parse_overrides(text@)),
            ),
            Err(reason) => batch == Err::<OverrideBatch, RestoreError>(
                RestoreError::OverrideFile(reason),
            ),
        },
        batch matches Ok(b) ==> added(b@.commands) == 0,
{
    proof {
        if current is Ok {
            lemma_added_by_verb(parse_overrides(current->Ok_0@));
        }
    }
    match get_current_local_dns_entries(current) {
        Ok(entries) => {
            let mut commands: Vec<OverrideCommand> = Vec::new();
            push_commands(&mut commands, OverrideVerb::Remove, &entries);
            proof {
                assert(commands_of(commands@) == removals(pairs_of(entries@)));
            }
            Ok(OverrideBatch::start(commands))
        },
        Err(error) => Err(error),
    }
}

/// The commands of a whole reconciliation. With `flush` set, the live file
/// is emptied first; then every override of the restored file is added.
pub open spec fn reconciliation(flush: bool, current: Seq<OverridePair>, incoming: Seq<
    OverridePair,
>) -> Seq<CommandModel> {
    if flush {
        removals(current) + additions(incoming)
    } else {
        additions(incoming)
    }
}

/// The batch that brings the live file in line with a restored one.
/// `contents` is the text of the restored override file. `current` is what
/// reading the live file gave, and is looked at only where `flush` is set:
/// the batch then removes what the live file holds before it adds, and
/// there is no batch where the live file could not be read. What the batch
/// reports as attempted is the number of overrides in `contents`.
pub fn process_local_dns_entries(contents: &str, flush: bool, current: Result<String, String>) -> (batch:
    Result<OverrideBatch, RestoreError>)
    ensures
        match current {
            Err(reason) if flush => batch == Err::<OverrideBatch, RestoreError>(
                RestoreError::OverrideFile(reason),
            ),
            Ok(text) => batch matches Ok(b) && b@ == fresh_batch(
                reconciliation(flush, parse_overrides(text@), parse_overrides(contents@)),
            ),
            Err(_) => batch matches Ok(b) && b@ == fresh_batch(
                additions(parse_overrides(contents@)),
            ),
        },
        batch matches Ok(b) ==> added(b@.commands) == parse_overrides(contents@).len(),
{
    proof {
        if current is Ok {
            lemma_reconciliation_adds_incoming(
                flush,
                parse_overrides(current->Ok_0@),
                parse_overrides(contents@),
            );
        }
        lemma_added_by_verb(parse_overrides(contents@));
    }
    let mut commands: Vec<OverrideCommand> = Vec::new();
    if flush {
        match get_current_local_dns_entries(current) {
            Ok(entries) => {
                push_commands(&mut commands, OverrideVerb::Remove, &entries);
            },
            Err(error) => {
                return Err(error);
            },
        }
    }
    let incoming = get_local_dns_entries(contents);
    push_commands(&mut commands, OverrideVerb::Add, &incoming);
    Ok(OverrideBatch::start(commands))
}

} // verus!
