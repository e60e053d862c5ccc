//! The handlers of the four commands, and the dispatcher that runs one input
//! line against the command table and the store.

use vstd::prelude::*;

use crate::commands::{Command, CommandName, ReplCommands, command_args, first_match, fits, views};
use crate::store::{State, lists};
use crate::text::{chars_of, trim_bounds, trimmed};

verus! {

/// The line that shows one entry of the store: `<key> = <value>`.
pub open spec fn entry_line(e: (String, String)) -> Seq<char> {
    e.0@ + " = "@ + e.1@
}

/// The lines that show the entries `s`, in order.
pub open spec fn entry_lines(s: Seq<(String, String)>) -> Seq<Seq<char>> {
    s.map_values(|e: (String, String)| entry_line(e))
}

/// The line that `get` prints for `key` on the store `m`.
pub open spec fn get_line(m: Map<Seq<char>, Seq<char>>, key: Seq<char>) -> Seq<char> {
    if m.contains_key(key) {
        key + " = "@ + m[key]
    } else {
        "no value set for key "@ + key
    }
}

/// The line that `del` prints for `key` on the store `m` as it was before.
pub open spec fn del_line(m: Map<Seq<char>, Seq<char>>, key: Seq<char>) -> Seq<char> {
    if m.contains_key(key) {
        "removed "@ + key
    } else {
        key + " was not set so not removed"@
    }
}

/// `out` is what `vars` prints for the store `m`: `(none)` where it is empty,
/// else one line per entry, in ascending order of key.
pub open spec fn vars_output(m: Map<Seq<char>, Seq<char>>, out: Seq<Seq<char>>) -> bool {
    if m.len() == 0 {
        out == seq!["(none)"@]
    } else {
        exists|r: Seq<(String, String)>| lists(r, m) && out == entry_lines(r)
    }
}

/// What the command `tag`, given `args`, does to the store `before` (leaving
/// `after`) and prints (`out`).
pub open spec fn handled(
    tag: CommandName,
    args: Seq<Seq<char>>,
    before: Map<Seq<char>, Seq<char>>,
    after: Map<Seq<char>, Seq<char>>,
    out: Seq<Seq<char>>,
) -> bool {
    match tag {
        CommandName::Get => after == before && out == seq![get_line(before, args[0])],
        CommandName::Assign => after == before.insert(args[0], args[1]) && out.len() == 0,
        CommandName::Del => after == before.remove(args[0]) && out == seq![del_line(before, args[0])],
        CommandName::Vars => after == before && vars_output(before, out),
    }
}

/// One line of input run against the table: a blank line does nothing; any
/// other line is echoed as `cmd <line>`, then handled by the first command that
/// matches it, or reported as `unrecognized command <line>`.
pub open spec fn step(
    table: Seq<(CommandName, Command)>,
    before: Map<Seq<char>, Seq<char>>,
    line: Seq<char>,
    after: Map<Seq<char>, Seq<char>>,
    out: Seq<Seq<char>>,
) -> bool {
    if trimmed(line).len() == 0 {
        after == before && out.len() == 0
    } else {
        &&& out.len() >= 1
        &&& out[0] == "cmd "@ + line
        &&& match first_match(table, line, 0) {
            None => after == before && out.drop_first() == seq!["unrecognized command "@ + line],
            Some((tag, args)) => handled(tag, args, before, after, out.drop_first()),
        }
    }
}

/// The number of arguments that the handler of `tag` reads.
pub open spec fn arity(tag: CommandName) -> nat {
    match tag {
        CommandName::Vars => 0,
        CommandName::Get | CommandName::Del => 1,
        CommandName::Assign => 2,
    }
}

proof fn lemma_first_match_arity(s: Seq<(CommandName, Command)>, line: Seq<char>, i: int)
    requires
        forall|j: int| 0 <= j < s.len() ==> fits(#[trigger] s[j].0, s[j].1),
    ensures
        match first_match(s, line, i) {
            Some((t, a)) => a.len() == arity(t),
            None => true,
        },
    decreases s.len() - i,
{
    if 0 <= i < s.len() {
        match command_args(s[i].1, line) {
            Some(a) => {
                assert(fits(s[i].0, s[i].1));
            },
            None => {
                lemma_first_match_arity(s, line, i + 1);
            },
        }
    }
}

fn concat(a: &str, b: &str) -> (r: String)
    ensures
        r@ == a@ + b@,
{
    let mut r = String::from_str(a);
    r.append(b);
    r
}

/// `get`: the line that shows the value of `key`.
pub fn cmd_get(state: &State, key: &String) -> (r: Vec<String>)
    requires
        state.wf(),
    ensures
        views(r@) == seq![get_line(state@, key@)],
{
    let line = match state.get(key) {
        Some(v) => concat(concat(key.as_str(), " = ").as_str(), v.as_str()),
        None => concat("no value set for key ", key.as_str()),
    };
    let r = vec![line];
    assert(views(r@) =~= seq![get_line(state@, key@)]);
    r
}

/// `set`: sets `key` to `value`; prints nothing.
pub fn cmd_set(state: &mut State, key: String, value: String)
    requires
        old(state).wf(),
    ensures
        final(state).wf(),
        final(state)@ == old(state)@.insert(key@, value@),
{
    state.set(key, value);
}

/// `del`: removes `key`, and says whether it was set.
pub fn cmd_del(state: &mut State, key: &String) -> (r: Vec<String>)
    requires
        old(state).wf(),
    ensures
        final(state).wf(),
        final(state)@ == old(state)@.remove(key@),
        views(r@) == seq![del_line(old(state)@, key@)],
{
    let line = if state.delete(key) {
        concat("removed ", key.as_str())
    } else {
        concat(key.as_str(), " was not set so not removed")
    };
    let r = vec![line];
    assert(views(r@) =~= seq![del_line(old(state)@, key@)]);
    r
}

/// `vars`: every entry of the store in ascending order of key, or `(none)`.
pub fn cmd_vars(state: &State) -> (r: Vec<String>)
    requires
        state.wf(),
    ensures
        vars_output(state@, views(r@)),
{
    let mut r: Vec<String> = Vec::new();
    if state.len() == 0 {
        r.push(String::from_str("(none)"));
        assert(views(r@) =~= seq!["(none)"@]);
        return r;
    }
    let entries = state.list();
    let mut i: usize = 0;
    while i < entries.len()
        invariant
            i <= entries.len(),
            views(r@) == entry_lines(entries@.subrange(0, i as int)),
        decreases entries.len() - i,
    {
        let line = concat(concat(entries[i].0.as_str(), " = ").as_str(), entries[i].1.as_str());
        let ghost before = r@;
        r.push(line);
        proof {
            let done = entries@.subrange(0, i as int + 1);
            assert(done.drop_last() == entries@.subrange(0, i as int));
            assert(views(r@) =~= views(before).push(entry_line(entries@[i as int])));
            assert(entry_lines(done) =~= entry_lines(done.drop_last()).push(entry_line(done.last())));
        }
        i = i + 1;
    }
    assert(entries@.subrange(0, i as int) == entries@);
    r
}

/// Runs one line of input: returns the lines to print, in order.
pub fn process_command(repl: &ReplCommands, state: &mut State, input: &str) -> (r: Vec<String>)
    requires
        repl.wf(),
        old(state).wf(),
    ensures
        final(state).wf(),
        step(repl@, old(state)@, input@, final(state)@, views(r@)),
{
    let chars = chars_of(input);
    let (lo, hi) = trim_bounds(&chars);
    let mut r: Vec<String> = Vec::new();
    if lo == hi {
        assert(views(r@) =~= Seq::<Seq<char>>::empty());
        return r;
    }
    r.push(concat("cmd ", input));
    proof {
        lemma_first_match_arity(repl@, input@, 0);
    }
    let rest: Vec<String> = match repl.lookup(input) {
        None => {
            let v = vec![concat("unrecognized command ", input)];
            assert(views(v@) =~= seq!["unrecognized command "@ + input@]);
            v
        },
        Some((tag, args)) => match tag {
            CommandName::Get => cmd_get(state, &args[0]),
            CommandName::Del => cmd_del(state, &args[0]),
            CommandName::Assign => {
                let k = args[0].clone();
                let v = args[1].clone();
                cmd_set(state, k, v);
                Vec::new()
            },
            CommandName::Vars => cmd_vars(state),
        },
    };
    let ghost printed = views(rest@);
    let mut rest = rest;
    r.append(&mut rest);
    assert(views(r@).drop_first() =~= printed);
    assert(views(r@)[0] == "cmd "@ + input@);
    r
}

} // verus!
