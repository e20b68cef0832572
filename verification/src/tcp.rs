//! Decisions of the single-connection TCP client: ephemeral port
//! rotation, connect admission, and when a blocking read or write over
//! the non-blocking socket calls stops. The network stack itself does the I/O.
use vstd::prelude::*;
use crate::http::TcpError;

verus! {

/// First ephemeral local port (RFC 6335 range).
pub const LOCAL_PORT_BASE: u16 = 49152;
/// Last ephemeral local port handed out before wrapping.
pub const LOCAL_PORT_TOP: u16 = 65000;
/// Ticks a blocking read or write waits without progress (30 s at 100 Hz).
pub const IO_IDLE_TIMEOUT_TICKS: u64 = 3000;

/// Ticks from `start` to `now` on a wrapping 64-bit counter.
pub open spec fn elapsed(start: u64, now: u64) -> int {
    if now >= start { now - start } else { now - start + 0x1_0000_0000_0000_0000 }
}

/// The port handed out after `p`: the next one, wrapping to the base after the top.
pub open spec fn port_after(p: u16) -> u16 {
    if p >= LOCAL_PORT_TOP { LOCAL_PORT_BASE } else { (p + 1) as u16 }
}

/// State shared by connections: the next local port and whether the one
/// stream slot is taken.
pub struct TcpControl {
    pub next_port: u16,
    pub socket_in_use: bool,
}

impl TcpControl {
    /// Ports start at the base; no stream open.
    pub fn new() -> (r: Self)
        ensures r.next_port == LOCAL_PORT_BASE, !r.socket_in_use,
    {
        TcpControl { next_port: LOCAL_PORT_BASE, socket_in_use: false }
    }

    /// Hand out the next ephemeral local port, so that back-to-back
    /// connections never reuse a 4-tuple.
    pub fn next_local_port(&mut self) -> (p: u16)
        ensures
            p == old(self).next_port,
            final(self).next_port == port_after(old(self).next_port),
            final(self).socket_in_use == old(self).socket_in_use,
    {
        let p = self.next_port;
        self.next_port = if self.next_port >= LOCAL_PORT_TOP { LOCAL_PORT_BASE } else { self.next_port + 1 };
        p
    }

    /// Whether a connect may start: not while a stream is open, not before
    /// the network is up.
    pub fn admit_connect(&self, net_up: bool) -> (r: Result<(), TcpError>)
        ensures
            self.socket_in_use ==> r == Err::<(), TcpError>(TcpError::SocketBusy),
            !self.socket_in_use && !net_up ==> r == Err::<(), TcpError>(TcpError::NotInitialized),
            !self.socket_in_use && net_up ==> r is Ok,
    {
        if self.socket_in_use {
            return Err(TcpError::SocketBusy);
        }
        if !net_up {
            return Err(TcpError::NotInitialized);
        }
        Ok(())
    }

    /// A connect was issued: the stream slot is taken.
    pub fn mark_connected(&mut self)
        ensures final(self).socket_in_use, final(self).next_port == old(self).next_port,
    {
        self.socket_in_use = true;
    }

    /// The stream was dropped: the slot is free again.
    pub fn release(&mut self)
        ensures !final(self).socket_in_use, final(self).next_port == old(self).next_port,
    {
        self.socket_in_use = false;
    }
}

/// What a non-blocking socket operation may do now.
#[derive(Debug, Clone, Copy, PartialEq, Eq, Structural)]
pub enum IoGate {
    /// Transfer bytes.
    Transfer,
    /// Nothing possible right now; poll and retry.
    Wait,
}

/// Read gate: end of stream once the peer closed its side (`may_recv`
/// false), wait while nothing is buffered.
pub fn read_gate(may_recv: bool, can_recv: bool) -> (r: Result<IoGate, TcpError>)
    ensures
        !may_recv ==> r == Err::<IoGate, TcpError>(TcpError::Eof),
        may_recv && !can_recv ==> r == Ok::<IoGate, TcpError>(IoGate::Wait),
        may_recv && can_recv ==> r == Ok::<IoGate, TcpError>(IoGate::Transfer),
{
    if !may_recv {
        return Err(TcpError::Eof);
    }
    if !can_recv {
        return Ok(IoGate::Wait);
    }
    Ok(IoGate::Transfer)
}

/// Write gate: not connected once sending is over, wait while the
/// transmit buffer is full.
pub fn write_gate(may_send: bool, can_send: bool) -> (r: Result<IoGate, TcpError>)
    ensures
        !may_send ==> r == Err::<IoGate, TcpError>(TcpError::NotConnected),
        may_send && !can_send ==> r == Ok::<IoGate, TcpError>(IoGate::Wait),
        may_send && can_send ==> r == Ok::<IoGate, TcpError>(IoGate::Transfer),
{
    if !may_send {
        return Err(TcpError::NotConnected);
    }
    if !can_send {
        return Ok(IoGate::Wait);
    }
    Ok(IoGate::Transfer)
}

/// One round of a blocking read, given the outcome of a non-blocking
/// read, whether the socket is closed, and the clock: the call's result,
/// or `None` to poll again. Bytes end the call; end of stream, a closed
/// socket or `IO_IDLE_TIMEOUT_TICKS` without data read as 0 (end of file);
/// other errors pass through.
pub fn blocking_read_step(attempt: Result<usize, TcpError>, closed: bool, start: u64, now: u64)
    -> (r: Option<Result<usize, TcpError>>)
    ensures
        r == match attempt {
            Ok(n) => if n > 0 {
                Some(Ok::<usize, TcpError>(n))
            } else if closed || elapsed(start, now) >= IO_IDLE_TIMEOUT_TICKS {
                Some(Ok::<usize, TcpError>(0))
            } else {
                None
            },
            Err(TcpError::Eof) => Some(Ok::<usize, TcpError>(0)),
            Err(e) => Some(Err::<usize, TcpError>(e)),
        },
{
    match attempt {
        Ok(n) => {
            if n > 0 {
                Some(Ok(n))
            } else if closed || now.wrapping_sub(start) >= IO_IDLE_TIMEOUT_TICKS {
                Some(Ok(0))
            } else {
                None
            }
        },
        Err(TcpError::Eof) => Some(Ok(0)),
        Err(e) => Some(Err(e)),
    }
}

/// One round of a blocking write: bytes accepted end the call; a closed
/// socket or `IO_IDLE_TIMEOUT_TICKS` without progress is `NotConnected`;
/// errors pass through; otherwise `None` to poll again.
pub fn blocking_write_step(attempt: Result<usize, TcpError>, closed: bool, start: u64, now: u64)
    -> (r: Option<Result<usize, TcpError>>)
    ensures
        r == match attempt {
            Ok(n) => if n > 0 {
                Some(Ok::<usize, TcpError>(n))
            } else if closed || elapsed(start, now) >= IO_IDLE_TIMEOUT_TICKS {
                Some(Err::<usize, TcpError>(TcpError::NotConnected))
            } else {
                None
            },
            Err(e) => Some(Err::<usize, TcpError>(e)),
        },
{
    match attempt {
        Ok(n) => {
            if n > 0 {
                Some(Ok(n))
            } else if closed || now.wrapping_sub(start) >= IO_IDLE_TIMEOUT_TICKS {
                Some(Err(TcpError::NotConnected))
            } else {
                None
            }
        },
        Err(e) => Some(Err(e)),
    }
}

} // verus!
