use vstd::prelude::*;

verus! {

/// The handshake an Adalight device sends: "Ada" and a newline.
pub open spec fn cookie() -> Seq<u8> {
    seq![0x41u8, 0x64u8, 0x61u8, 0x0au8]
}

/// Highest COM port number that is probed.
pub const LAST_PORT: u8 = 255;

/// How a read on a probed port stands when it is polled.
#[derive(Debug, Clone, PartialEq, Eq)]
pub enum ReadOutcome {
    /// The read is still outstanding.
    Incomplete,
    /// The read completed with these bytes.
    Complete(Vec<u8>),
    /// The read failed.
    Failed,
}

/// What to do with a probed port after polling its read.
#[derive(Debug, Clone, Copy, PartialEq, Eq, Structural)]
pub enum ProbeVerdict {
    /// Keep waiting on it.
    Keep,
    /// Close it: it is not an Adalight device.
    Drop,
    /// It sent the handshake: this is the device.
    Found,
}

/// Whether `bytes` are the handshake.
pub fn is_cookie(bytes: &[u8]) -> (r: bool)
    ensures
        r == (bytes@ == cookie()),
{
    let r = bytes.len() == 4 && bytes[0] == 0x41 && bytes[1] == 0x64 && bytes[2] == 0x61
        && bytes[3] == 0x0a;
    if bytes.len() == 4 {
        if r {
            assert(bytes@ =~= cookie());
        } else {
            assert(bytes@ != cookie()) by {
                if bytes@ == cookie() {
                    assert(bytes@[0] == 0x41 && bytes@[1] == 0x64 && bytes@[2] == 0x61
                        && bytes@[3] == 0x0a);
                }
            }
        }
    }
    r
}

/// The verdict on a port whose read stands as `outcome`.
pub fn judge_read(outcome: &ReadOutcome) -> (r: ProbeVerdict)
    ensures
        r == match outcome {
            ReadOutcome::Incomplete => ProbeVerdict::Keep,
            ReadOutcome::Complete(bytes) => if bytes@ == cookie() {
                ProbeVerdict::Found
            } else {
                ProbeVerdict::Drop
            },
            ReadOutcome::Failed => ProbeVerdict::Drop,
        },
{
    match outcome {
        ReadOutcome::Incomplete => ProbeVerdict::Keep,
        ReadOutcome::Complete(bytes) => {
            if is_cookie(bytes.as_slice()) {
                ProbeVerdict::Found
            } else {
                ProbeVerdict::Drop
            }
        },
        ReadOutcome::Failed => ProbeVerdict::Drop,
    }
}

/// The verdict on a port after waiting for its read to finish: only the
/// handshake keeps it.
pub fn judge_final(outcome: &ReadOutcome) -> (r: ProbeVerdict)
    ensures
        r == match outcome {
            ReadOutcome::Complete(bytes) => if bytes@ == cookie() {
                ProbeVerdict::Found
            } else {
                ProbeVerdict::Drop
            },
            _ => ProbeVerdict::Drop,
        },
{
    match outcome {
        ReadOutcome::Complete(bytes) => {
            if is_cookie(bytes.as_slice()) {
                ProbeVerdict::Found
            } else {
                ProbeVerdict::Drop
            }
        },
        _ => ProbeVerdict::Drop,
    }
}

/// What the serial link knows: the port of the device, once found (0 while
/// unknown), and whether a write handle is held.
#[derive(Debug, Clone, Copy, PartialEq, Eq, Structural)]
pub struct SerialLink {
    pub port_number: u8,
    pub connected: bool,
}

/// A probe over the candidate ports COM1 to COM255, in ascending order.
#[derive(Debug, Clone, Copy, PartialEq, Eq, Structural)]
pub struct PortProbe {
    /// The next port to open.
    pub next: u16,
    /// The port that sent the handshake, 0 while none has.
    pub found: u8,
}

impl PortProbe {
    /// A probe that starts at COM1.
    pub fn new() -> (r: Self)
        ensures
            r.next == 1,
            r.found == 0,
    {
        PortProbe { next: 1, found: 0 }
    }

    /// The next port to open: the ports go up one by one from COM1 to COM255,
    /// and stop once the device is found.
    pub fn next_port(&mut self) -> (r: Option<u8>)
        requires
            1 <= old(self).next <= 256,
        ensures
            final(self).found == old(self).found,
            1 <= final(self).next <= 256,
            old(self).found == 0 && old(self).next <= LAST_PORT ==> r == Some(old(self).next as u8)
                && final(self).next == old(self).next + 1,
            !(old(self).found == 0 && old(self).next <= LAST_PORT) ==> r is None && final(self).next
                == old(self).next,
    {
        if self.found == 0 && self.next <= LAST_PORT as u16 {
            let port = self.next as u8;
            self.next = self.next + 1;
            Some(port)
        } else {
            None
        }
    }

    /// Apply the verdict on `port`. Returns whether the port stays open.
    pub fn record(&mut self, port: u8, verdict: ProbeVerdict) -> (keep: bool)
        ensures
            final(self).next == old(self).next,
            final(self).found == if verdict == ProbeVerdict::Found && old(self).found == 0 {
                port
            } else {
                old(self).found
            },
            keep == (verdict == ProbeVerdict::Keep),
    {
        match verdict {
            ProbeVerdict::Found => {
                if self.found == 0 {
                    self.found = port;
                }
                false
            },
            ProbeVerdict::Keep => true,
            ProbeVerdict::Drop => false,
        }
    }
}

impl SerialLink {
    /// A link that knows no port and holds no handle.
    pub fn new() -> (r: Self)
        ensures
            r.port_number == 0,
            !r.connected,
    {
        SerialLink { port_number: 0, connected: false }
    }

    /// Whether opening has to probe the ports first: no handle is held and no
    /// port is known.
    pub fn needs_probe(&self) -> (r: bool)
        ensures
            r == (!self.connected && self.port_number == 0),
    {
        !self.connected && self.port_number == 0
    }

    /// The port to open for writing, where none is held and one is known.
    pub fn port_to_open(&self) -> (r: Option<u8>)
        ensures
            r == if !self.connected && self.port_number != 0 {
                Some(self.port_number)
            } else {
                None::<u8>
            },
    {
        if !self.connected && self.port_number != 0 {
            Some(self.port_number)
        } else {
            None
        }
    }

    /// Remember the port that a probe found (0 where none was).
    pub fn probed(&mut self, found: u8)
        ensures
            final(self).port_number == if found != 0 {
                found
            } else {
                old(self).port_number
            },
            final(self).connected == old(self).connected,
    {
        if found != 0 {
            self.port_number = found;
        }
    }

    /// Record whether opening the known port for writing succeeded.
    pub fn opened(&mut self, ok: bool)
        ensures
            final(self).port_number == old(self).port_number,
            final(self).connected == (old(self).connected || ok),
    {
        self.connected = self.connected || ok;
    }

    /// Judge a write of `written` bytes out of `len`: a failed or short write
    /// closes the link, which keeps the port it learned.
    pub fn sent(&mut self, ok: bool, written: usize, len: usize) -> (r: bool)
        ensures
            r == (old(self).connected && ok && written == len),
            final(self).port_number == old(self).port_number,
            final(self).connected == r,
    {
        let r = self.connected && ok && written == len;
        self.connected = r;
        r
    }

    /// Drop the write handle, keeping the port.
    pub fn close(&mut self)
        ensures
            final(self).port_number == old(self).port_number,
            !final(self).connected,
    {
        self.connected = false;
    }
}

} // verus!
