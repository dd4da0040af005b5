//! The stream side of the combined TCP and UDP echo server: after each read from a client,
//! the whole read buffer goes back to it as text.
use vstd::prelude::*;
use vstd::utf8::valid_utf8;

verus! {

/// The size of the buffer the stream echo reads into.
pub const STREAM_BUFFER_LEN: usize = 1028;

/// What the stream echo does after a read.
#[derive(PartialEq, Eq, Structural, Clone, Copy, Debug)]
pub enum StreamStep {
    /// The client closed its side: stop serving it.
    Stop,
    /// Write the whole buffer back to the client.
    Send,
    /// The buffer is not UTF-8 text: serving this client fails.
    NotText,
}

/// One turn of the stream echo: `received` bytes were just read into `buffer`, which still
/// holds, past them, whatever earlier reads left there.
pub fn stream_echo_step(buffer: &[u8], received: usize) -> (step: StreamStep)
    ensures
        received == 0 ==> step == StreamStep::Stop,
        received > 0 && valid_utf8(buffer@) ==> step == StreamStep::Send,
        received > 0 && !valid_utf8(buffer@) ==> step == StreamStep::NotText,
{
    if received == 0 {
        StreamStep::Stop
    } else if crate::utf8_text::is_utf8(buffer) {
        StreamStep::Send
    } else {
        StreamStep::NotText
    }
}

} // verus!
