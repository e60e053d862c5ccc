//! The command table: which commands exist, how each one is recognised in an
//! input line, and what arguments it takes from it.

use vstd::prelude::*;

use crate::text::{
    blanks_end, chars_of, ident_end, lemma_ident_end, scan_blanks, scan_ident, trim_bounds,
    trimmed,
};

verus! {

/// The logical identity of a command; the table holds at most one entry for each.
#[derive(PartialEq, Eq, Structural, Clone, Copy, Debug, Hash)]
pub enum CommandName {
    Get,
    Assign,
    Vars,
    Del,
}

/// The shape of the arguments that follow a command's name and a space.
#[derive(PartialEq, Eq, Structural, Clone, Copy, Debug)]
pub enum ArgPattern {
    /// One identifier: `<key>`.
    Key,
    /// Two identifiers around `=`, with optional blanks: `<key> = <value>`.
    Assignment,
}

/// One entry of the command table.
pub struct Command {
    /// What the user types to invoke the command.
    pub name: String,
    /// Whether arguments follow the name.
    pub has_args: bool,
    /// How the arguments are read.
    pub pattern: Option<ArgPattern>,
}

/// The identifier that a line holds at `i`: the longest run of identifier
/// characters there, if it is not empty.
pub open spec fn key_at(s: Seq<char>, i: int) -> Option<Seq<char>> {
    let e = ident_end(s, i);
    if e > i {
        Some(s.subrange(i, e))
    } else {
        None
    }
}

/// The `<key> = <value>` assignment that a line holds at `i`, as the key and the value.
pub open spec fn assignment_at(s: Seq<char>, i: int) -> Option<(Seq<char>, Seq<char>)> {
    let e1 = ident_end(s, i);
    let q1 = blanks_end(s, e1);
    let q2 = blanks_end(s, q1 + 1);
    let e2 = ident_end(s, q2);
    if e1 > i && q1 < s.len() && s[q1] == '=' && e2 > q2 {
        Some((s.subrange(i, e1), s.subrange(q2, e2)))
    } else {
        None
    }
}

/// `line` starts with `name` and a space.
pub open spec fn starts_with_word(line: Seq<char>, name: Seq<char>) -> bool {
    line.len() > name.len() && line.subrange(0, name.len() as int) == name && line[name.len() as int] == ' '
}

/// The arguments that `pattern` reads from `line` at `i`, if it matches there.
pub open spec fn pattern_args(pattern: Option<ArgPattern>, line: Seq<char>, i: int) -> Option<Seq<Seq<char>>> {
    match pattern {
        None => Some(Seq::empty()),
        Some(ArgPattern::Key) => match key_at(line, i) {
            Some(k) => Some(seq![k]),
            None => None,
        },
        Some(ArgPattern::Assignment) => match assignment_at(line, i) {
            Some((k, v)) => Some(seq![k, v]),
            None => None,
        },
    }
}

/// Whether `cmd` matches `line`, and with which arguments. A command without
/// arguments matches a line that is its name once trimmed; one with arguments
/// matches a line that starts with its name and a space, followed by what its
/// pattern reads.
pub open spec fn command_args(cmd: Command, line: Seq<char>) -> Option<Seq<Seq<char>>> {
    if !cmd.has_args {
        if trimmed(line) == cmd.name@ {
            Some(Seq::empty())
        } else {
            None
        }
    } else if starts_with_word(line, cmd.name@) {
        pattern_args(cmd.pattern, line, cmd.name@.len() as int + 1)
    } else {
        None
    }
}

/// The views of a sequence of strings.
pub open spec fn views(v: Seq<String>) -> Seq<Seq<char>> {
    v.map_values(|s: String| s@)
}

fn same_chars(line: &Vec<char>, lo: usize, hi: usize, name: &Vec<char>) -> (r: bool)
    requires
        lo <= hi <= line.len(),
    ensures
        r == (line@.subrange(lo as int, hi as int) == name@),
{
    if hi - lo != name.len() {
        return false;
    }
    let mut i: usize = 0;
    while i < name.len()
        invariant
            hi - lo == name.len(),
            lo <= hi <= line.len(),
            i <= name.len(),
            forall|j: int| 0 <= j < i ==> line@[lo + j] == name@[j],
        decreases name.len() - i,
    {
        if line[lo + i] != name[i] {
            assert(line@.subrange(lo as int, hi as int)[i as int] != name@[i as int]);
            return false;
        }
        i = i + 1;
    }
    assert(line@.subrange(lo as int, hi as int) =~= name@);
    true
}

fn substring(line: &str, lo: usize, hi: usize) -> (r: String)
    requires
        lo <= hi <= line@.len(),
    ensures
        r@ == line@.subrange(lo as int, hi as int),
{
    String::from_str(line.substring_char(lo, hi))
}

/// The arguments that `pattern` reads from `line` (whose characters are `chars`) at `i`.
fn read_pattern(pattern: Option<ArgPattern>, line: &str, chars: &Vec<char>, i: usize) -> (r: Option<Vec<String>>)
    requires
        chars@ == line@,
        i <= chars.len(),
    ensures
        match (r, pattern_args(pattern, line@, i as int)) {
            (Some(a), Some(b)) => views(a@) == b,
            (None, None) => true,
            _ => false,
        },
{
    proof {
        lemma_ident_end(line@, i as int);
    }
    match pattern {
        None => {
            let r: Vec<String> = Vec::new();
            assert(views(r@) =~= Seq::<Seq<char>>::empty());
            Some(r)
        },
        Some(ArgPattern::Key) => {
            let e = scan_ident(chars, i);
            if e > i {
                let k = substring(line, i, e);
                let r: Vec<String> = vec![k];
                assert(views(r@) =~= seq![line@.subrange(i as int, e as int)]);
                Some(r)
            } else {
                None
            }
        },
        Some(ArgPattern::Assignment) => {
            let e1 = scan_ident(chars, i);
            let q1 = scan_blanks(chars, e1);
            if e1 > i && q1 < chars.len() && chars[q1] == '=' {
                let q2 = scan_blanks(chars, q1 + 1);
                let e2 = scan_ident(chars, q2);
                if e2 > q2 {
                    let k = substring(line, i, e1);
                    let v = substring(line, q2, e2);
                    let r: Vec<String> = vec![k, v];
                    assert(views(r@) =~= seq![line@.subrange(i as int, e1 as int), line@.subrange(q2 as int, e2 as int)]);
                    Some(r)
                } else {
                    None
                }
            } else {
                None
            }
        },
    }
}

impl Command {
    /// Whether this command matches `line` (whose characters are `chars`), and
    /// with which arguments.
    pub fn arguments(&self, line: &str, chars: &Vec<char>) -> (r: Option<Vec<String>>)
        requires
            chars@ == line@,
        ensures
            match (r, command_args(*self, line@)) {
                (Some(a), Some(b)) => views(a@) == b,
                (None, None) => true,
                _ => false,
            },
    {
        let name = chars_of(self.name.as_str());
        if !self.has_args {
            let (lo, hi) = trim_bounds(chars);
            if same_chars(chars, lo, hi, &name) {
                let r: Vec<String> = Vec::new();
                assert(views(r@) =~= Seq::<Seq<char>>::empty());
                Some(r)
            } else {
                None
            }
        } else if name.len() < chars.len() && same_chars(chars, 0, name.len(), &name)
            && chars[name.len()] == ' ' {
            read_pattern(self.pattern, line, chars, name.len() + 1)
        } else {
            None
        }
    }
}

/// Whether `cmd` is a fit entry for `tag`: its arguments are those that the
/// command's handler reads.
pub open spec fn fits(tag: CommandName, cmd: Command) -> bool {
    match tag {
        CommandName::Vars => !cmd.has_args,
        CommandName::Get | CommandName::Del => cmd.has_args && cmd.pattern == Some(ArgPattern::Key),
        CommandName::Assign => cmd.has_args && cmd.pattern == Some(ArgPattern::Assignment),
    }
}

/// Some entry of `s` is registered under `tag`.
pub open spec fn has_tag(s: Seq<(CommandName, Command)>, tag: CommandName) -> bool {
    exists|i: int| 0 <= i < s.len() && s[i].0 == tag
}

/// The table `s` after registering `cmd` under `tag`: it replaces the entry
/// registered under `tag` in its place, or else comes last.
pub open spec fn with_command(s: Seq<(CommandName, Command)>, tag: CommandName, cmd: Command) -> Seq<(CommandName, Command)> {
    if has_tag(s, tag) {
        s.update(choose|i: int| 0 <= i < s.len() && s[i].0 == tag, (tag, cmd))
    } else {
        s.push((tag, cmd))
    }
}

/// The first entry of `s`, from position `i` on, that matches `line`: its tag
/// and the arguments that it reads.
pub open spec fn first_match(s: Seq<(CommandName, Command)>, line: Seq<char>, i: int) -> Option<(CommandName, Seq<Seq<char>>)>
    decreases s.len() - i,
{
    if i < 0 || i >= s.len() {
        None
    } else {
        match command_args(s[i].1, line) {
            Some(a) => Some((s[i].0, a)),
            None => first_match(s, line, i + 1),
        }
    }
}

/// The table of commands, in the order in which they are tried.
pub struct ReplCommands {
    commands: Vec<(CommandName, Command)>,
}

impl View for ReplCommands {
    type V = Seq<(CommandName, Command)>;

    closed spec fn view(&self) -> Seq<(CommandName, Command)> {
        self.commands@
    }
}

impl ReplCommands {
    /// At most one entry per tag, and each entry fits its tag.
    pub open spec fn wf(&self) -> bool {
        &&& forall|i: int, j: int| 0 <= i < j < self@.len() ==> self@[i].0 != self@[j].0
        &&& forall|i: int| 0 <= i < self@.len() ==> fits(#[trigger] self@[i].0, self@[i].1)
    }

    /// An empty table.
    pub fn new() -> (r: Self)
        ensures
            r.wf(),
            r@ == Seq::<(CommandName, Command)>::empty(),
    {
        ReplCommands { commands: Vec::new() }
    }

    /// Registers `command` under `name`, replacing what was registered under it.
    pub fn add_command(&mut self, name: CommandName, command: Command)
        requires
            old(self).wf(),
            fits(name, command),
        ensures
            final(self).wf(),
            final(self)@ == with_command(old(self)@, name, command),
    {
        let mut i: usize = 0;
        while i < self.commands.len()
            invariant
                i <= self.commands.len(),
                self.wf(),
                fits(name, command),
                self@ == old(self)@,
                forall|j: int| 0 <= j < i ==> self.commands@[j].0 != name,
            decreases self.commands.len() - i,
        {
            if self.commands[i].0 == name {
                proof {
                    let c = choose|j: int| 0 <= j < self.commands@.len() && self.commands@[j].0 == name;
                    assert(c == i);
                }
                self.commands.set(i, (name, command));
                assert forall|a: int, b: int| 0 <= a < b < self@.len() implies self@[a].0 != self@[b].0 by {
                    assert(old(self)@[a].0 != old(self)@[b].0);
                }
                assert forall|a: int| 0 <= a < self@.len() implies fits(#[trigger] self@[a].0, self@[a].1) by {
                    if a != i {
                        assert(self@[a] == old(self)@[a]);
                    } else {
                        assert(self@[a] == (name, command));
                    }
                }
                return;
            }
            i = i + 1;
        }
        self.commands.push((name, command));
    }

    /// The first command that matches `line`, with its tag and the arguments it reads.
    pub fn lookup(&self, line: &str) -> (r: Option<(CommandName, Vec<String>)>)
        ensures
            match (r, first_match(self@, line@, 0)) {
                (Some((t, a)), Some((u, b))) => t == u && views(a@) == b,
                (None, None) => true,
                _ => false,
            },
    {
        let chars = chars_of(line);
        let mut i: usize = 0;
        while i < self.commands.len()
            invariant
                i <= self.commands.len(),
                chars@ == line@,
                first_match(self@, line@, 0) == first_match(self@, line@, i as int),
            decreases self.commands.len() - i,
        {
            match self.commands[i].1.arguments(line, &chars) {
                Some(a) => {
                    return Some((self.commands[i].0, a));
                },
                None => {},
            }
            i = i + 1;
        }
        None
    }
}

/// `e` is the entry of the shell's table for its tag: `vars`, `get <key>`,
/// `set <key>=<value>` or `del <key>`.
pub open spec fn standard_entry(e: (CommandName, Command)) -> bool {
    match e.0 {
        CommandName::Vars => e.1.name@ == "vars"@ && !e.1.has_args && e.1.pattern == None::<ArgPattern>,
        CommandName::Get => e.1.name@ == "get"@ && e.1.has_args && e.1.pattern == Some(ArgPattern::Key),
        CommandName::Assign => e.1.name@ == "set"@ && e.1.has_args && e.1.pattern == Some(ArgPattern::Assignment),
        CommandName::Del => e.1.name@ == "del"@ && e.1.has_args && e.1.pattern == Some(ArgPattern::Key),
    }
}

/// The shell's table: its four commands, tried in the order `vars`, `get`, `set`, `del`.
pub open spec fn is_standard(s: Seq<(CommandName, Command)>) -> bool {
    &&& s.len() == 4
    &&& s[0].0 == CommandName::Vars
    &&& s[1].0 == CommandName::Get
    &&& s[2].0 == CommandName::Assign
    &&& s[3].0 == CommandName::Del
    &&& forall|i: int| 0 <= i < 4 ==> standard_entry(#[trigger] s[i])
}

proof fn lemma_with_command(s: Seq<(CommandName, Command)>, tag: CommandName, cmd: Command)
    requires
        forall|i: int, j: int| 0 <= i < j < s.len() ==> s[i].0 != s[j].0,
    ensures
        has_tag(with_command(s, tag, cmd), tag),
        forall|t: CommandName| has_tag(s, t) ==> has_tag(with_command(s, tag, cmd), t),
        forall|i: int| 0 <= i < with_command(s, tag, cmd).len() ==> {
            let e = #[trigger] with_command(s, tag, cmd)[i];
            if e.0 == tag {
                e == (tag, cmd)
            } else {
                i < s.len() && e == s[i]
            }
        },
        !has_tag(s, tag) ==> with_command(s, tag, cmd) == s.push((tag, cmd)),
{
    let r = with_command(s, tag, cmd);
    if has_tag(s, tag) {
        let c = choose|i: int| 0 <= i < s.len() && s[i].0 == tag;
        assert(r[c] == (tag, cmd));
        assert forall|t: CommandName| has_tag(s, t) implies has_tag(r, t) by {
            let j = choose|j: int| 0 <= j < s.len() && s[j].0 == t;
            if j != c {
                assert(r[j] == s[j]);
            }
        }
    } else {
        assert(r[s.len() as int] == (tag, cmd));
        assert forall|t: CommandName| has_tag(s, t) implies has_tag(r, t) by {
            let j = choose|j: int| 0 <= j < s.len() && s[j].0 == t;
            assert(r[j] == s[j]);
        }
    }
}

/// Fills `repl` with the four commands of the shell: `vars`, `get <key>`,
/// `set <key>=<value>` and `del <key>`.
pub fn init_commands(repl: &mut ReplCommands)
    requires
        old(repl).wf(),
    ensures
        final(repl).wf(),
        forall|t: CommandName| has_tag(final(repl)@, t),
        forall|i: int| 0 <= i < final(repl)@.len() ==> standard_entry(#[trigger] final(repl)@[i]),
        old(repl)@.len() == 0 ==> is_standard(final(repl)@),
{
    let ghost s0 = repl@;
    let c = Command { name: String::from_str("vars"), has_args: false, pattern: None };
    proof {
        lemma_with_command(repl@, CommandName::Vars, c);
    }
    repl.add_command(CommandName::Vars, c);
    let ghost s1 = repl@;
    let c = Command { name: String::from_str("get"), has_args: true, pattern: Some(ArgPattern::Key) };
    proof {
        lemma_with_command(repl@, CommandName::Get, c);
    }
    repl.add_command(CommandName::Get, c);
    let ghost s2 = repl@;
    let c = Command { name: String::from_str("set"), has_args: true, pattern: Some(ArgPattern::Assignment) };
    proof {
        lemma_with_command(repl@, CommandName::Assign, c);
    }
    repl.add_command(CommandName::Assign, c);
    let ghost s3 = repl@;
    let c = Command { name: String::from_str("del"), has_args: true, pattern: Some(ArgPattern::Key) };
    proof {
        lemma_with_command(repl@, CommandName::Del, c);
    }
    repl.add_command(CommandName::Del, c);
    proof {
        let s4 = repl@;
        assert forall|t: CommandName| has_tag(s4, t) by {
            match t {
                CommandName::Vars => {},
                CommandName::Get => {},
                CommandName::Assign => {},
                CommandName::Del => {},
            }
        }
        if s0.len() == 0 {
            assert(s1 == seq![s1[0]]);
            assert(!has_tag(s1, CommandName::Get));
            assert(!has_tag(s2, CommandName::Assign));
            assert(!has_tag(s3, CommandName::Del));
        }
    }
}

/// A table holding the four commands of the shell.
pub fn init_repl() -> (r: ReplCommands)
    ensures
        r.wf(),
        is_standard(r@),
{
    let mut repl = ReplCommands::new();
    init_commands(&mut repl);
    repl
}

} // verus!
