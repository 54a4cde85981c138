use vstd::prelude::*;
use vstd::string::StringExecFns;

verus! {

/// A free-text note: a title and a body. The storage layer persists only the
/// content; the title lives in memory alone.
pub struct Note {
    pub title: String,
    pub content: String,
}

impl Note {
    pub fn new(title: String, content: String) -> (n: Note)
        ensures
            n.title@ == title@,
            n.content@ == content@,
    {
        Note { title, content }
    }

    /// The printable form of the note, one field per line.
    pub fn display(&self) -> (r: String)
        ensures
            r@ == "Title: "@ + self.title@ + "\nContent: "@ + self.content@ + "\n"@,
    {
        let mut r = "Title: ".to_owned();
        r.append(self.title.as_str());
        r.append("\nContent: ");
        r.append(self.content.as_str());
        r.append("\n");
        r
    }
}

} // verus!
