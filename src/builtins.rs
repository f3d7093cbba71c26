//! The words that compiled Seq programs use to reach the actor system, and
//! the C entry points that implement them.
use vstd::prelude::*;

verus! {

/// The library that holds the entry points, linked into compiled programs.
pub const RUNTIME_LIBRARY: &'static str = "seq_actors_runtime";

/// Each actor word with the symbol of its entry point.
pub open spec fn builtin_table() -> Seq<(Seq<char>, Seq<char>)> {
    seq![
        ("actor-spawn"@, "seq_actors_spawn"@),
        ("actor-send"@, "seq_actors_send"@),
        ("actor-self"@, "seq_actors_self"@),
        ("actor-stop"@, "seq_actors_stop"@),
        ("actor-state"@, "seq_actors_state"@),
        ("journal-append"@, "seq_actors_journal_append"@),
    ]
}

/// The actor words, in the order a compiler configuration registers them,
/// each with the symbol of its entry point.
pub fn actor_builtins() -> (r: Vec<(&'static str, &'static str)>)
    ensures
        r@.len() == builtin_table().len(),
        forall|i: int|
            0 <= i < r@.len() ==> (#[trigger] r@[i]).0@ == builtin_table()[i].0 && r@[i].1@
                == builtin_table()[i].1,
{
    let mut r: Vec<(&'static str, &'static str)> = Vec::new();
    r.push(("actor-spawn", "seq_actors_spawn"));
    r.push(("actor-send", "seq_actors_send"));
    r.push(("actor-self", "seq_actors_self"));
    r.push(("actor-stop", "seq_actors_stop"));
    r.push(("actor-state", "seq_actors_state"));
    r.push(("journal-append", "seq_actors_journal_append"));
    r
}

} // verus!
