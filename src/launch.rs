use crate::entry::DesktopApp;
use crate::rank::{best_in, catalog_view, occurs_in_order, pick, scores_of};
use crate::text::{chars_of, lemma_split_on_nonempty, split_chars, split_on, string_of, views};
use vstd::prelude::*;

verus! {

/// A program to start and the arguments to hand it.
pub struct LaunchCommand {
    pub program: String,
    pub args: Vec<String>,
}

/// What answering one query came to.
#[derive(Debug, PartialEq, Eq)]
pub enum Outcome {
    /// A process was started for the winning record.
    Launched,
    /// No record matched the query.
    NoMatch,
    /// The winning record's program could not be started; the reason.
    SpawnFailed(String),
}

/// The words of a command line: split at every single space.
pub open spec fn words(command: Seq<char>) -> Seq<Seq<char>> {
    split_on(command, ' ')
}

/// `c` starts the first word of `command` with the remaining words as
/// arguments.
pub open spec fn runs(c: LaunchCommand, command: Seq<char>) -> bool {
    &&& c.program@ == words(command)[0]
    &&& c.args.deep_view() == words(command).skip(1)
}

/// Splits a command line at every single space into the program and its
/// arguments; no quoting is understood.
pub fn launch_command(command: &str) -> (r: LaunchCommand)
    ensures
        runs(r, command@),
{
    let chars = chars_of(command);
    let pieces = split_chars(&chars, ' ');
    let ghost ws = words(command@);
    proof {
        lemma_split_on_nonempty(command@, ' ');
    }
    let program = string_of(&pieces[0]);
    let mut args: Vec<String> = Vec::new();
    let mut i: usize = 1;
    while i < pieces.len()
        invariant
            1 <= i <= pieces.len(),
            views(pieces@) == ws,
            args.deep_view() == ws.subrange(1, i as int),
        decreases pieces.len() - i,
    {
        let ghost prev = args.deep_view();
        args.push(string_of(&pieces[i]));
        assert(args.deep_view() =~= prev.push(ws[i as int]));
        assert(ws.subrange(1, i + 1) =~= ws.subrange(1, i as int).push(ws[i as int]));
        i = i + 1;
    }
    assert(ws.subrange(1, i as int) =~= ws.skip(1));
    LaunchCommand { program, args }
}

/// Answers a query against the catalog: the command of the best-ranked
/// record, or none when nothing matches.
pub fn plan(apps: &Vec<DesktopApp>, query: &str) -> (r: Option<LaunchCommand>)
    ensures
        match r {
            Some(c) => exists|i: int|
                best_in(scores_of(catalog_view(apps@), query@), Some(i)) && 0 <= i < apps@.len()
                    && occurs_in_order(query@, apps@[i].name@) && runs(c, apps@[i].command@),
            None => best_in(scores_of(catalog_view(apps@), query@), None),
        },
{
    match pick(apps, query) {
        Some(i) => {
            let c = launch_command(apps[i].command.as_str());
            assert(best_in(scores_of(catalog_view(apps@), query@), Some(i as int)));
            Some(c)
        },
        None => None,
    }
}

} // verus!
