//! What holds of the shell across lines of input, most of it over the table
//! that `init_repl` builds.

use vstd::prelude::*;

use crate::commands::{
    Command, CommandName, assignment_at, command_args, first_match, is_standard, key_at,
    starts_with_word,
};
use crate::repl::{entry_lines, step, vars_output};
use crate::store::{lemma_listing_unique, lists};
use crate::text::{
    blanks_end, is_ident, is_ident_char, is_space, lemma_ident_end_at, lemma_trimmed_blank,
    lemma_trimmed_first, lemma_trimmed_unpadded, trimmed,
};

verus! {

/// The line `get <key>`.
pub open spec fn get_input(k: Seq<char>) -> Seq<char> {
    "get "@ + k
}

/// The line `del <key>`.
pub open spec fn del_input(k: Seq<char>) -> Seq<char> {
    "del "@ + k
}

/// The line `set <key>=<value>`.
pub open spec fn set_input(k: Seq<char>, v: Seq<char>) -> Seq<char> {
    "set "@ + k + "="@ + v
}

proof fn lemma_two_lines(o: Seq<Seq<char>>, x: Seq<char>)
    requires
        o.len() >= 1,
        o.drop_first() == seq![x],
    ensures
        o == seq![o[0], x],
{
    assert(o.drop_first().len() == o.len() - 1);
    assert(o[1] == o.drop_first()[0]);
    assert(o =~= seq![o[0], x]);
}

/// A line of four characters or more that starts with a letter and ends with an
/// identifier character is not blank, and does not invoke `vars`.
proof fn lemma_not_vars(line: Seq<char>)
    requires
        line.len() > 4,
        'a' <= line[0] <= 'z',
        is_ident_char(line[line.len() - 1]),
    ensures
        trimmed(line) == line,
        trimmed(line) != "vars"@,
{
    reveal_strlit("vars");
    lemma_trimmed_unpadded(line);
}

proof fn lemma_key_after_word(line: Seq<char>, k: Seq<char>)
    requires
        is_ident(k),
        line.len() == 4 + k.len(),
        line.subrange(4, line.len() as int) == k,
    ensures
        key_at(line, 4) == Some(k),
{
    assert forall|j: int| 4 <= j < line.len() implies is_ident_char(#[trigger] line[j]) by {
        assert(line[j] == line.subrange(4, line.len() as int)[j - 4]);
    }
    lemma_ident_end_at(line, 4, line.len() as int);
}

proof fn lemma_match_get(t: Seq<(CommandName, Command)>, k: Seq<char>)
    requires
        is_standard(t),
        is_ident(k),
    ensures
        trimmed(get_input(k)).len() > 0,
        first_match(t, get_input(k), 0) == Some((CommandName::Get, seq![k])),
{
    reveal_strlit("get ");
    reveal_strlit("get");
    let line = get_input(k);
    assert(line[line.len() - 1] == k[k.len() - 1]);
    lemma_not_vars(line);
    assert(command_args(t[0].1, line) == None::<Seq<Seq<char>>>);
    assert(line.subrange(0, 3) =~= "get"@);
    assert(starts_with_word(line, t[1].1.name@));
    assert(line.subrange(4, line.len() as int) =~= k);
    lemma_key_after_word(line, k);
    assert(first_match(t, line, 1) == Some((CommandName::Get, seq![k])));
}

proof fn lemma_match_del(t: Seq<(CommandName, Command)>, k: Seq<char>)
    requires
        is_standard(t),
        is_ident(k),
    ensures
        trimmed(del_input(k)).len() > 0,
        first_match(t, del_input(k), 0) == Some((CommandName::Del, seq![k])),
{
    reveal_strlit("del ");
    reveal_strlit("del");
    reveal_strlit("get");
    reveal_strlit("set");
    let line = del_input(k);
    assert(line[line.len() - 1] == k[k.len() - 1]);
    lemma_not_vars(line);
    assert(command_args(t[0].1, line) == None::<Seq<Seq<char>>>);
    assert(line.subrange(0, 3)[0] != "get"@[0]);
    assert(command_args(t[1].1, line) == None::<Seq<Seq<char>>>);
    assert(line.subrange(0, 3)[0] != "set"@[0]);
    assert(command_args(t[2].1, line) == None::<Seq<Seq<char>>>);
    assert(line.subrange(0, 3) =~= "del"@);
    assert(starts_with_word(line, t[3].1.name@));
    assert(line.subrange(4, line.len() as int) =~= k);
    lemma_key_after_word(line, k);
    assert(first_match(t, line, 3) == Some((CommandName::Del, seq![k])));
    assert(first_match(t, line, 2) == first_match(t, line, 3));
    assert(first_match(t, line, 1) == first_match(t, line, 2));
    assert(first_match(t, line, 0) == first_match(t, line, 1));
}

proof fn lemma_match_set(t: Seq<(CommandName, Command)>, k: Seq<char>, v: Seq<char>)
    requires
        is_standard(t),
        is_ident(k),
        is_ident(v),
    ensures
        trimmed(set_input(k, v)).len() > 0,
        first_match(t, set_input(k, v), 0) == Some((CommandName::Assign, seq![k, v])),
{
    reveal_strlit("set ");
    reveal_strlit("set");
    reveal_strlit("get");
    reveal_strlit("=");
    let line = set_input(k, v);
    let e1: int = 4 + k.len() as int;
    assert(line.len() == e1 + 1 + v.len());
    assert(line[line.len() - 1] == v[v.len() - 1]);
    lemma_not_vars(line);
    assert(command_args(t[0].1, line) == None::<Seq<Seq<char>>>);
    assert(line.subrange(0, 3)[0] != "get"@[0]);
    assert(command_args(t[1].1, line) == None::<Seq<Seq<char>>>);
    assert(line.subrange(0, 3) =~= "set"@);
    assert(starts_with_word(line, t[2].1.name@));
    assert forall|j: int| 4 <= j < e1 implies is_ident_char(#[trigger] line[j]) by {
        assert(line[j] == k[j - 4]);
    }
    assert(line[e1] == '=');
    lemma_ident_end_at(line, 4, e1);
    assert(blanks_end(line, e1) == e1);
    assert(line[e1 + 1] == v[0]);
    assert(blanks_end(line, e1 + 1) == e1 + 1);
    assert forall|j: int| e1 + 1 <= j < line.len() implies is_ident_char(#[trigger] line[j]) by {
        assert(line[j] == v[j - e1 - 1]);
    }
    lemma_ident_end_at(line, e1 + 1, line.len() as int);
    assert(line.subrange(4, e1) =~= k);
    assert(line.subrange(e1 + 1, line.len() as int) =~= v);
    assert(assignment_at(line, 4) == Some((k, v)));
    assert(first_match(t, line, 2) == Some((CommandName::Assign, seq![k, v])));
    assert(first_match(t, line, 1) == first_match(t, line, 2));
    assert(first_match(t, line, 0) == first_match(t, line, 1));
}

/// After `set k=v`, `get k` prints `k = v`.
pub proof fn get_after_set(
    t: Seq<(CommandName, Command)>,
    m0: Map<Seq<char>, Seq<char>>,
    k: Seq<char>,
    v: Seq<char>,
    m1: Map<Seq<char>, Seq<char>>,
    o1: Seq<Seq<char>>,
    m2: Map<Seq<char>, Seq<char>>,
    o2: Seq<Seq<char>>,
)
    requires
        is_standard(t),
        is_ident(k),
        is_ident(v),
        step(t, m0, set_input(k, v), m1, o1),
        step(t, m1, get_input(k), m2, o2),
    ensures
        m1 == m0.insert(k, v),
        o2 == seq!["cmd "@ + get_input(k), k + " = "@ + v],
{
    lemma_match_set(t, k, v);
    lemma_match_get(t, k);
    lemma_two_lines(o2, o2.drop_first()[0]);
}

/// On a key that is not set, `get k` prints `no value set for key k` and
/// changes nothing.
pub proof fn get_unset_key(
    t: Seq<(CommandName, Command)>,
    m0: Map<Seq<char>, Seq<char>>,
    k: Seq<char>,
    m1: Map<Seq<char>, Seq<char>>,
    o: Seq<Seq<char>>,
)
    requires
        is_standard(t),
        is_ident(k),
        !m0.contains_key(k),
        step(t, m0, get_input(k), m1, o),
    ensures
        m1 == m0,
        o == seq!["cmd "@ + get_input(k), "no value set for key "@ + k],
{
    lemma_match_get(t, k);
    lemma_two_lines(o, o.drop_first()[0]);
}

/// After `set k=v`, `del k` prints `removed k`, and a `get k` that follows
/// prints `no value set for key k`.
pub proof fn del_after_set(
    t: Seq<(CommandName, Command)>,
    m0: Map<Seq<char>, Seq<char>>,
    k: Seq<char>,
    v: Seq<char>,
    m1: Map<Seq<char>, Seq<char>>,
    o1: Seq<Seq<char>>,
    m2: Map<Seq<char>, Seq<char>>,
    o2: Seq<Seq<char>>,
    m3: Map<Seq<char>, Seq<char>>,
    o3: Seq<Seq<char>>,
)
    requires
        is_standard(t),
        is_ident(k),
        is_ident(v),
        step(t, m0, set_input(k, v), m1, o1),
        step(t, m1, del_input(k), m2, o2),
        step(t, m2, get_input(k), m3, o3),
    ensures
        o2 == seq!["cmd "@ + del_input(k), "removed "@ + k],
        o3 == seq!["cmd "@ + get_input(k), "no value set for key "@ + k],
{
    lemma_match_set(t, k, v);
    lemma_match_del(t, k);
    lemma_match_get(t, k);
    lemma_two_lines(o2, o2.drop_first()[0]);
    lemma_two_lines(o3, o3.drop_first()[0]);
}

/// On a key that is not set, `del k` prints `k was not set so not removed` and
/// leaves the store as it was.
pub proof fn del_unset_key(
    t: Seq<(CommandName, Command)>,
    m0: Map<Seq<char>, Seq<char>>,
    k: Seq<char>,
    m1: Map<Seq<char>, Seq<char>>,
    o: Seq<Seq<char>>,
)
    requires
        is_standard(t),
        is_ident(k),
        !m0.contains_key(k),
        step(t, m0, del_input(k), m1, o),
    ensures
        m1 == m0,
        o == seq!["cmd "@ + del_input(k), k + " was not set so not removed"@],
{
    lemma_match_del(t, k);
    assert(m0.remove(k) =~= m0);
    lemma_two_lines(o, o.drop_first()[0]);
}

/// `set k=v` twice leaves the store as `set k=v` once does.
pub proof fn set_is_idempotent(
    t: Seq<(CommandName, Command)>,
    m0: Map<Seq<char>, Seq<char>>,
    k: Seq<char>,
    v: Seq<char>,
    m1: Map<Seq<char>, Seq<char>>,
    o1: Seq<Seq<char>>,
    m2: Map<Seq<char>, Seq<char>>,
    o2: Seq<Seq<char>>,
)
    requires
        is_standard(t),
        is_ident(k),
        is_ident(v),
        step(t, m0, set_input(k, v), m1, o1),
        step(t, m1, set_input(k, v), m2, o2),
    ensures
        m2 == m1,
{
    lemma_match_set(t, k, v);
    assert(m1.insert(k, v) =~= m1);
}

/// `get ` followed by anything but an identifier is not a `get` at all: it is
/// reported as an unrecognized command, and the store is left as it was.
pub proof fn malformed_get_is_unrecognized(
    t: Seq<(CommandName, Command)>,
    m0: Map<Seq<char>, Seq<char>>,
    rest: Seq<char>,
    m1: Map<Seq<char>, Seq<char>>,
    o: Seq<Seq<char>>,
)
    requires
        is_standard(t),
        rest.len() == 0 || !is_ident_char(rest[0]),
        step(t, m0, get_input(rest), m1, o),
    ensures
        m1 == m0,
        o == seq!["cmd "@ + get_input(rest), "unrecognized command "@ + get_input(rest)],
{
    reveal_strlit("get ");
    reveal_strlit("get");
    reveal_strlit("set");
    reveal_strlit("del");
    reveal_strlit("vars");
    let line = get_input(rest);
    lemma_trimmed_first(line);
    assert(trimmed(line)[0] != "vars"@[0]);
    assert(command_args(t[0].1, line) == None::<Seq<Seq<char>>>);
    assert(line.subrange(0, 3) =~= "get"@);
    assert(line.len() == 4 || line[4] == rest[0]);
    lemma_ident_end_at(line, 4, 4);
    assert(key_at(line, 4) == None::<Seq<char>>);
    assert(command_args(t[1].1, line) == None::<Seq<Seq<char>>>);
    assert(line.subrange(0, 3)[0] != "set"@[0]);
    assert(command_args(t[2].1, line) == None::<Seq<Seq<char>>>);
    assert(line.subrange(0, 3)[0] != "del"@[0]);
    assert(command_args(t[3].1, line) == None::<Seq<Seq<char>>>);
    assert(first_match(t, line, 4) == None::<(CommandName, Seq<Seq<char>>)>);
    assert(first_match(t, line, 3) == first_match(t, line, 4));
    assert(first_match(t, line, 2) == first_match(t, line, 3));
    assert(first_match(t, line, 1) == first_match(t, line, 2));
    assert(first_match(t, line, 0) == first_match(t, line, 1));
    lemma_two_lines(o, o.drop_first()[0]);
}

/// A line of white space only prints nothing and changes nothing, whatever
/// the table.
pub proof fn blank_line_is_silent(
    t: Seq<(CommandName, Command)>,
    m0: Map<Seq<char>, Seq<char>>,
    line: Seq<char>,
    m1: Map<Seq<char>, Seq<char>>,
    o: Seq<Seq<char>>,
)
    requires
        forall|i: int| 0 <= i < line.len() ==> is_space(#[trigger] line[i]),
        step(t, m0, line, m1, o),
    ensures
        m1 == m0,
        o.len() == 0,
{
    lemma_trimmed_blank(line);
}

/// What `vars` prints depends on the contents of the store alone, not on the
/// order in which its keys were set.
pub proof fn vars_output_is_unique(m: Map<Seq<char>, Seq<char>>, o1: Seq<Seq<char>>, o2: Seq<Seq<char>>)
    requires
        vars_output(m, o1),
        vars_output(m, o2),
    ensures
        o1 == o2,
{
    if m.len() > 0 {
        let r1 = choose|r: Seq<(String, String)>| lists(r, m) && o1 == entry_lines(r);
        let r2 = choose|r: Seq<(String, String)>| lists(r, m) && o2 == entry_lines(r);
        lemma_listing_unique(r1, r2, m);
        assert(o1 =~= o2);
    }
}

} // verus!
