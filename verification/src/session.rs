//! Commands that a session runs directly, without a turn.

use vstd::prelude::*;

use crate::message::{error_output, ToolOutput};
use crate::text::{cat3, lists, texts};

verus! {

/// The commands that each capability of an agent offers, in order.
pub open spec fn offered(capabilities: Seq<Vec<String>>) -> Seq<Seq<Seq<char>>> {
    capabilities.map_values(|c: Vec<String>| texts(c@))
}

/// All commands, in the order of the capabilities.
pub open spec fn all_offered(capabilities: Seq<Seq<Seq<char>>>) -> Seq<Seq<char>>
    decreases capabilities.len(),
{
    if capabilities.len() == 0 {
        Seq::empty()
    } else {
        all_offered(capabilities.drop_last()) + capabilities.last()
    }
}

/// The first capability from `from` on that offers a command.
pub open spec fn first_offering(
    capabilities: Seq<Seq<Seq<char>>>,
    name: Seq<char>,
    from: int,
) -> Option<int>
    decreases capabilities.len() - from,
{
    if from >= capabilities.len() {
        None
    } else if capabilities[from].contains(name) {
        Some(from)
    } else {
        first_offering(capabilities, name, from + 1)
    }
}

/// What a session does about a command next.
#[derive(Debug, PartialEq, Eq)]
pub enum CommandStep {
    /// Let this capability run it.
    Try(usize),
    /// This is the outcome.
    Done(ToolOutput),
}

/// Which commands there are, and who runs them.
#[derive(Debug)]
pub struct Session {
    /// The commands of each capability, in the order of the capabilities.
    pub commands: Vec<Vec<String>>,
}

impl Session {
    /// All commands, in the order of the capabilities.
    pub fn commands(&self) -> (r: Vec<String>)
        ensures
            texts(r@) == all_offered(offered(self.commands@)),
    {
        let ghost all = offered(self.commands@);
        let mut r: Vec<String> = Vec::new();
        let mut i: usize = 0;
        assert(texts(r@) =~= all_offered(all.take(0)));
        while i < self.commands.len()
            invariant
                i <= self.commands@.len(),
                all == offered(self.commands@),
                texts(r@) == all_offered(all.take(i as int)),
            decreases self.commands.len() - i,
        {
            assert(all.take(i as int + 1).drop_last() =~= all.take(i as int));
            let ghost before = r@;
            let mut more = crate::text::clone_strings(&self.commands[i]);
            let ghost added = more@;
            r.append(&mut more);
            assert(texts(r@) =~= texts(before) + texts(added));
            assert(all.take(i as int + 1).last() == texts(self.commands@[i as int]@));
            i += 1;
        }
        assert(all.take(i as int) =~= all);
        r
    }

    /// What to do about a command, once the capabilities before `from` did not
    /// take it: the next one that offers it runs it, and a command that none
    /// takes is answered with an error.
    pub fn execute_command(&self, name: &str, from: usize) -> (r: CommandStep)
        ensures
            match first_offering(offered(self.commands@), name@, from as int) {
                Some(i) => r == CommandStep::Try(i as usize) && from <= i < self.commands@.len(),
                None => r matches CommandStep::Done(output) && output@ == error_output(
                    "unknown command `/"@ + name@ + "`"@,
                ),
            },
    {
        let ghost all = offered(self.commands@);
        let mut i: usize = from;
        while i < self.commands.len()
            invariant
                from <= i,
                all == offered(self.commands@),
                first_offering(all, name@, from as int) == first_offering(all, name@, i as int),
            decreases self.commands.len() - i,
        {
            assert(all[i as int] == texts(self.commands@[i as int]@));
            if lists(&self.commands[i], name) {
                return CommandStep::Try(i);
            }
            i += 1;
        }
        CommandStep::Done(ToolOutput::error(cat3("unknown command `/", name, "`")))
    }
}

/// A capability that does not list a command is never asked to run it.
pub proof fn only_offering_capabilities_run(
    capabilities: Seq<Seq<Seq<char>>>,
    name: Seq<char>,
    from: int,
)
    requires
        0 <= from,
    ensures
        first_offering(capabilities, name, from) matches Some(i) ==> from <= i
            < capabilities.len() && capabilities[i].contains(name),
    decreases capabilities.len() - from,
{
    if from < capabilities.len() && !capabilities[from].contains(name) {
        only_offering_capabilities_run(capabilities, name, from + 1);
    }
}

/// A command is offered to the first capability that lists it: none before
/// lists it, and it is unknown only where no capability does.
pub proof fn the_first_that_offers_a_command_runs_it(
    capabilities: Seq<Seq<Seq<char>>>,
    name: Seq<char>,
    from: int,
)
    requires
        0 <= from,
    ensures
        match first_offering(capabilities, name, from) {
            Some(i) => from <= i < capabilities.len() && capabilities[i].contains(name)
                && forall|j: int|
                from <= j < i ==> !(#[trigger] capabilities[j]).contains(name),
            None => forall|j: int|
                from <= j < capabilities.len() ==> !(#[trigger] capabilities[j]).contains(name),
        },
    decreases capabilities.len() - from,
{
    if from < capabilities.len() && !capabilities[from].contains(name) {
        the_first_that_offers_a_command_runs_it(capabilities, name, from + 1);
    }
}

/// The commands of an agent are those of its capabilities, one capability
/// after the other.
pub proof fn every_command_is_listed(a: Seq<Seq<Seq<char>>>, b: Seq<Seq<Seq<char>>>)
    ensures
        all_offered(a + b) == all_offered(a) + all_offered(b),
        forall|commands: Seq<Seq<char>>| #[trigger] all_offered(seq![commands]) == commands,
        all_offered(Seq::empty()).len() == 0,
    decreases b.len(),
{
    assert forall|commands: Seq<Seq<char>>| #[trigger] all_offered(seq![commands])
        == commands by {
        assert(seq![commands].drop_last() =~= Seq::empty());
        assert(all_offered(seq![commands].drop_last()) =~= Seq::empty());
        assert(all_offered(seq![commands]) =~= commands);
    }
    if b.len() == 0 {
        assert(a + b =~= a);
        assert(all_offered(a) + all_offered(b) =~= all_offered(a));
    } else {
        every_command_is_listed(a, b.drop_last());
        assert((a + b).drop_last() =~= a + b.drop_last());
        assert((a + b).last() == b.last());
        assert(all_offered(a + b) =~= all_offered(a) + all_offered(b));
    }
}

} // verus!
