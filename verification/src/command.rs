//! Commands: a program to run and the arguments to run it with.

use vstd::prelude::*;
use vstd::string::StringExecFns;

verus! {

/// A command to launch when the time of an event has come.
#[derive(Debug, Clone, PartialEq, Eq)]
pub struct CommandArgs {
    /// The name of the program to run.
    pub name: String,
    /// The arguments to pass to the program.
    pub args: Vec<String>,
}

/// The arguments in their order, each followed by a space.
pub open spec fn spaced(args: Seq<String>) -> Seq<char>
    decreases args.len(),
{
    if args.len() == 0 {
        Seq::empty()
    } else {
        spaced(args.drop_last()) + args.last()@ + seq![' ']
    }
}

/// The line that shows a command: the name of the program and each of the
/// arguments, every one of them followed by a space, and the end of the line.
pub open spec fn command_line(name: Seq<char>, args: Seq<String>) -> Seq<char> {
    name + seq![' '] + spaced(args) + seq!['\n']
}

impl CommandArgs {
    /// The command as one line of text, as it is shown in place of being run.
    pub fn render(&self) -> (line: String)
        ensures
            line@ == command_line(self.name@, self.args@),
    {
        proof {
            reveal_strlit(" ");
            reveal_strlit("\n");
        }
        let mut line = self.name.clone();
        line.append(" ");
        let mut shown: usize = 0;
        while shown < self.args.len()
            invariant
                shown <= self.args.len(),
                " "@ == seq![' '],
                line@ == self.name@ + seq![' '] + spaced(self.args@.take(shown as int)),
            decreases self.args.len() - shown,
        {
            proof {
                let longer = self.args@.take(shown + 1);
                assert(longer.drop_last() == self.args@.take(shown as int));
            }
            line.append(self.args[shown].as_str());
            line.append(" ");
            shown += 1;
        }
        assert(self.args@.take(shown as int) == self.args@);
        line.append("\n");
        line
    }
}

} // verus!
