//! The outcome of a run over many files.
//!
//! A run goes on when one file fails. What is kept of it is the name of each
//! file that went through, and for each file that failed the message it
//! failed with. The summary shows every message once, in the order in which
//! the messages first came up, with the files that failed with it.

use crate::text::{decimal, push_decimal};
use vstd::prelude::*;
use vstd::string::StringExecFns;

verus! {

/// A file that failed, and the message it failed with.
#[derive(Debug, Clone, PartialEq, Eq)]
pub struct Failure {
    pub message: String,
    pub file_name: String,
}

/// What a run over many files came to, in the order of the files.
#[derive(Debug, Clone, PartialEq, Eq)]
pub struct BatchReport {
    pub successes: Vec<String>,
    pub failures: Vec<Failure>,
}

/// Names, one to a line.
pub open spec fn names_text(names: Seq<String>) -> Seq<char>
    decreases names.len(),
{
    if names.len() == 0 {
        Seq::empty()
    } else {
        names_text(names.drop_last()) + names.last()@ + "\n"@
    }
}

/// No failure before the one at `at` has the message of that one.
pub open spec fn first_of_its_message(failures: Seq<Failure>, at: int) -> bool {
    forall|j: int| 0 <= j < at ==> (#[trigger] failures[j]).message@ != failures[at].message@
}

/// The files among the first `n` failures that failed with `message`, one
/// to a line.
pub open spec fn files_text(failures: Seq<Failure>, message: Seq<char>, n: int) -> Seq<char>
    decreases n,
{
    if n <= 0 {
        Seq::empty()
    } else if failures[n - 1].message@ == message {
        files_text(failures, message, n - 1) + failures[n - 1].file_name@ + "\n"@
    } else {
        files_text(failures, message, n - 1)
    }
}

/// The messages that first came up among the first `n` failures, each after
/// an empty line and followed by all the files that failed with it.
pub open spec fn groups_text(failures: Seq<Failure>, n: int) -> Seq<char>
    decreases n,
{
    if n <= 0 {
        Seq::empty()
    } else if first_of_its_message(failures, n - 1) {
        groups_text(failures, n - 1) + "\n"@ + failures[n - 1].message@ + "\n"@ + files_text(
            failures,
            failures[n - 1].message@,
            failures.len() as int,
        )
    } else {
        groups_text(failures, n - 1)
    }
}

/// The summary of a run.
pub open spec fn summary_text(successes: Seq<String>, failures: Seq<Failure>) -> Seq<char> {
    "\n\nSUMMARY\nSuccesses: "@ + decimal(successes.len()) + "\n\n"@ + names_text(successes)
        + "\nFailures:\n"@ + groups_text(failures, failures.len() as int)
}

impl BatchReport {
    /// The report of a run that has not seen a file yet.
    pub fn new() -> (report: BatchReport)
        ensures
            report.successes@ == Seq::<String>::empty(),
            report.failures@ == Seq::<Failure>::empty(),
    {
        BatchReport { successes: Vec::new(), failures: Vec::new() }
    }

    /// Records that a file went through.
    pub fn succeeded(&mut self, file_name: String)
        ensures
            final(self).successes@ == old(self).successes@.push(file_name),
            final(self).failures@ == old(self).failures@,
    {
        self.successes.push(file_name);
    }

    /// Records that a file failed with a message.
    pub fn failed(&mut self, message: String, file_name: String)
        ensures
            final(self).successes@ == old(self).successes@,
            final(self).failures@ == old(self).failures@.push(Failure { message, file_name }),
    {
        self.failures.push(Failure { message, file_name });
    }

    fn is_first(&self, at: usize) -> (first: bool)
        requires
            at < self.failures@.len(),
        ensures
            first == first_of_its_message(self.failures@, at as int),
    {
        let mut j: usize = 0;
        while j < at
            invariant
                j <= at,
                at < self.failures@.len(),
                forall|k: int|
                    0 <= k < j ==> (#[trigger] self.failures@[k]).message@
                        != self.failures@[at as int].message@,
            decreases at - j,
        {
            if self.failures[j].message == self.failures[at].message {
                return false;
            }
            j = j + 1;
        }
        true
    }

    fn push_files(&self, out: &mut String, message: &String)
        ensures
            final(out)@ == old(out)@ + files_text(
                self.failures@,
                message@,
                self.failures@.len() as int,
            ),
    {
        let ghost base = out@;
        let mut i: usize = 0;
        while i < self.failures.len()
            invariant
                i <= self.failures.len(),
                out@ == base + files_text(self.failures@, message@, i as int),
            decreases self.failures.len() - i,
        {
            if self.failures[i].message == *message {
                out.append(self.failures[i].file_name.as_str());
                out.append("\n");
            }
            proof {
                assert(out@ =~= base + files_text(self.failures@, message@, i + 1));
            }
            i = i + 1;
        }
    }

    /// The summary of the run: how many files went through and which, then
    /// each message with the files that failed with it.
    pub fn summary(&self) -> (text: String)
        ensures
            text@ == summary_text(self.successes@, self.failures@),
    {
        let mut out = String::from_str("\n\nSUMMARY\nSuccesses: ");
        push_decimal(&mut out, self.successes.len() as u64);
        out.append("\n\n");
        let ghost head = out@;
        let mut i: usize = 0;
        while i < self.successes.len()
            invariant
                i <= self.successes.len(),
                out@ == head + names_text(self.successes@.take(i as int)),
            decreases self.successes.len() - i,
        {
            out.append(self.successes[i].as_str());
            out.append("\n");
            proof {
                assert(self.successes@.take(i + 1).drop_last() =~= self.successes@.take(i as int));
                assert(out@ =~= head + names_text(self.successes@.take(i + 1)));
            }
            i = i + 1;
        }
        assert(self.successes@.take(i as int) =~= self.successes@);
        out.append("\nFailures:\n");
        let ghost base = out@;
        let mut g: usize = 0;
        while g < self.failures.len()
            invariant
                g <= self.failures.len(),
                out@ == base + groups_text(self.failures@, g as int),
            decreases self.failures.len() - g,
        {
            if self.is_first(g) {
                out.append("\n");
                out.append(self.failures[g].message.as_str());
                out.append("\n");
                self.push_files(&mut out, &self.failures[g].message);
            }
            proof {
                assert(out@ =~= base + groups_text(self.failures@, g + 1));
            }
            g = g + 1;
        }
        assert(out@ =~= summary_text(self.successes@, self.failures@));
        out
    }
}

} // verus!
