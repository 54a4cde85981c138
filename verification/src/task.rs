use vstd::prelude::*;
use vstd::string::StringExecFns;

verus! {

/// A to-do entry: a description and a completion flag. Tasks are created
/// pending; the storage layer persists the flag as an integer.
pub struct Task {
    pub description: String,
    pub completed: bool,
}

impl Task {
    pub fn new(description: String) -> (t: Task)
        ensures
            t.description@ == description@,
            t.completed == false,
    {
        Task { description, completed: false }
    }

    pub fn complete(&mut self)
        ensures
            final(self).description@ == old(self).description@,
            final(self).completed == true,
    {
        self.completed = true;
    }

    /// The printable form of the task with its current status.
    pub fn display(&self) -> (r: String)
        ensures
            self.completed ==> r@ == "Task: "@ + self.description@ + " - Status: Completed"@,
            !self.completed ==> r@ == "Task: "@ + self.description@ + " - Status: Pending"@,
    {
        let mut r = "Task: ".to_owned();
        r.append(self.description.as_str());
        if self.completed {
            r.append(" - Status: Completed");
        } else {
            r.append(" - Status: Pending");
        }
        r
    }
}

} // verus!
