//! The select-driven echo client: in each round it relays a line from the server to the
//! console and a line from the console to the server, through one shared line buffer.
use vstd::prelude::*;

verus! {

/// The echo client's line buffer: the lines read in the current round, in order. Each read
/// appends to it, each write sends all of it, and it is emptied at the end of the round.
pub struct RelayBuffer {
    text: String,
}

impl View for RelayBuffer {
    type V = Seq<char>;

    closed spec fn view(&self) -> Seq<char> {
        self.text@
    }
}

impl RelayBuffer {
    /// An empty buffer.
    pub fn new() -> (b: RelayBuffer)
        ensures
            b@ == Seq::<char>::empty(),
    {
        RelayBuffer { text: String::new() }
    }

    /// Appends a line just read and gives what the following write sends: the whole buffer.
    pub fn append_line(&mut self, line: &str) -> (r: String)
        ensures
            final(self)@ == old(self)@ + line@,
            r@ == final(self)@,
    {
        self.text.append(line);
        self.text.clone()
    }

    /// Empties the buffer at the end of a round.
    pub fn clear(&mut self)
        ensures
            final(self)@ == Seq::<char>::empty(),
    {
        self.text = String::new();
    }
}

/// What one round of the echo client writes.
pub struct RelayOutput {
    /// Written to the console, when the server's socket was ready.
    pub to_console: Option<String>,
    /// Written to the server, when the console was ready.
    pub to_server: Option<String>,
}

/// One round of the echo client. `from_server` is the line read from the server when its
/// socket was ready, `from_console` the line read from the console when it was ready. Both
/// are read into the same buffer, which is cleared only at the end of the round, so what
/// goes to the server is the server's line (if any) followed by the console's.
pub fn relay_round(from_server: Option<&str>, from_console: Option<&str>) -> (r: RelayOutput)
    ensures
        from_server matches Some(s) ==> r.to_console matches Some(t) && t@ == s@,
        from_server is None ==> r.to_console is None,
        from_console matches Some(c) ==> r.to_server matches Some(t) && t@ == (match from_server {
            Some(s) => s@,
            None => Seq::<char>::empty(),
        }) + c@,
        from_console is None ==> r.to_server is None,
{
    let mut buffer = RelayBuffer::new();
    let to_console = match from_server {
        Some(s) => Some(buffer.append_line(s)),
        None => None,
    };
    let to_server = match from_console {
        Some(c) => Some(buffer.append_line(c)),
        None => None,
    };
    RelayOutput { to_console, to_server }
}

} // verus!
