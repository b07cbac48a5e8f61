//! The per-connection server logic.
//!
//! A connection carries one request.  The surrounding daemon accepts the
//! socket, reads chunks of bytes, and feeds them to a [`Connection`], which
//! accumulates them in a bounded buffer and drives the codec: keep reading,
//! drop the connection, or hand over the parsed request.  A parsed request
//! is then dispatched against the shared cache, yielding the exact response
//! bytes to write before closing — possibly none, since a poll with nothing
//! new answers with silence — or the order to shut the whole daemon down on
//! `exit`.
//!
//! Response bodies are supervisor-specific.  The incremental-merge daemon
//! answers a poll with `{count} errors` and a get with the cycle's full
//! text, with fixed stand-ins while a cycle is in progress or the text is
//! empty.  The periodic daemon answers with the captured error stream then
//! the captured output stream, preceded on the poll path, when the bell
//! option is on and the run did not exit cleanly, by a single bell byte —
//! the bell is never sent on the get path.

use vstd::prelude::*;

use crate::cache::Cache;
use crate::cache::CompileResult;
use crate::cache::PollOutcome;
use crate::cache::PollV;
use crate::cache::RunOutput;
use crate::cache::RunOutputView;
use crate::cache::get_spec;
use crate::cache::poll_spec;
use crate::codec::ParseOutcome;
use crate::codec::Request;
use crate::codec::ReqView;
use crate::codec::OutcomeView;
use crate::codec::request;
use crate::codec::spec_request;
use crate::copy_bytes;

verus! {

/// The decimal digits of `n`.
pub open spec fn dec_digits(n: nat) -> Seq<u8>
    decreases n,
{
    if n < 10 {
        seq![((('0' as u8) + n) as u8)]
    } else {
        dec_digits(n / 10) + seq![((('0' as u8) + n % 10) as u8)]
    }
}

fn push_dec(v: &mut Vec<u8>, n: u16)
    ensures
        final(v)@ == old(v)@ + dec_digits(n as nat),
    decreases n,
{
    if n < 10 {
        v.push(('0' as u8) + (n as u8));
        proof {
            assert(v@ =~= old(v)@ + dec_digits(n as nat));
        }
    } else {
        push_dec(v, n / 10);
        v.push(('0' as u8) + ((n % 10) as u8));
        proof {
            assert(v@ =~= old(v)@ + dec_digits(n as nat));
        }
    }
}

/// The word that follows the error count in a poll answer.
pub open spec fn errors_suffix() -> Seq<u8> {
    seq![
        (' ' as u8),
        ('e' as u8),
        ('r' as u8),
        ('r' as u8),
        ('o' as u8),
        ('r' as u8),
        ('s' as u8),
    ]
}

/// The get answer while a cycle is in progress.
pub open spec fn compiling_msg() -> Seq<u8> {
    seq![
        ('c' as u8),
        ('o' as u8),
        ('m' as u8),
        ('p' as u8),
        ('i' as u8),
        ('l' as u8),
        ('i' as u8),
        ('n' as u8),
        ('g' as u8),
        ('.' as u8),
        ('.' as u8),
        ('.' as u8),
    ]
}

/// The get answer when a completed cycle produced no text.
pub open spec fn no_output_msg() -> Seq<u8> {
    seq![
        ('.' as u8),
        ('.' as u8),
        ('.' as u8),
        (' ' as u8),
        ('n' as u8),
        ('o' as u8),
        (' ' as u8),
        ('o' as u8),
        ('u' as u8),
        ('t' as u8),
        ('p' as u8),
        ('u' as u8),
        ('t' as u8),
        (' ' as u8),
        ('.' as u8),
        ('.' as u8),
        ('.' as u8),
    ]
}

/// The incremental-merge daemon's poll body for a shown payload: silence
/// while a cycle is in progress, else the error count.
pub open spec fn tsc_poll_body(p: Option<(u16, Seq<u8>)>) -> Seq<u8> {
    match p {
        None => Seq::empty(),
        Some((count, text)) => dec_digits(count as nat) + errors_suffix(),
    }
}

/// The incremental-merge daemon's get body for a shown payload.
pub open spec fn tsc_get_body(p: Option<(u16, Seq<u8>)>) -> Seq<u8> {
    match p {
        None => compiling_msg(),
        Some((count, text)) => if text.len() > 0 {
            text
        } else {
            no_output_msg()
        },
    }
}

/// The periodic daemon's body for a shown run: a bell byte when asked for
/// and the run did not exit cleanly, then the error stream, then the output
/// stream.
pub open spec fn watch_body(o: RunOutputView, beep: bool) -> Seq<u8> {
    (if beep && o.status != Some(0i32) {
        seq![7u8]
    } else {
        Seq::empty()
    }) + o.stderr + o.stdout
}

fn tsc_poll_body_bytes(p: &Option<CompileResult>) -> (v: Vec<u8>)
    ensures
        v@ == tsc_poll_body(p.deep_view()),
{
    match p {
        None => Vec::new(),
        Some(res) => {
            let mut v: Vec<u8> = Vec::new();
            push_dec(&mut v, res.error_count);
            v.push(' ' as u8);
            v.push('e' as u8);
            v.push('r' as u8);
            v.push('r' as u8);
            v.push('o' as u8);
            v.push('r' as u8);
            v.push('s' as u8);
            proof {
                assert(v@ =~= dec_digits(res.error_count as nat) + errors_suffix());
            }
            v
        },
    }
}

fn compiling_vec() -> (v: Vec<u8>)
    ensures
        v@ == compiling_msg(),
{
    let mut v: Vec<u8> = Vec::new();
    v.push('c' as u8);
    v.push('o' as u8);
    v.push('m' as u8);
    v.push('p' as u8);
    v.push('i' as u8);
    v.push('l' as u8);
    v.push('i' as u8);
    v.push('n' as u8);
    v.push('g' as u8);
    v.push('.' as u8);
    v.push('.' as u8);
    v.push('.' as u8);
    proof {
        assert(v@ =~= compiling_msg());
    }
    v
}

fn no_output_vec() -> (v: Vec<u8>)
    ensures
        v@ == no_output_msg(),
{
    let mut v: Vec<u8> = Vec::new();
    v.push('.' as u8);
    v.push('.' as u8);
    v.push('.' as u8);
    v.push(' ' as u8);
    v.push('n' as u8);
    v.push('o' as u8);
    v.push(' ' as u8);
    v.push('o' as u8);
    v.push('u' as u8);
    v.push('t' as u8);
    v.push('p' as u8);
    v.push('u' as u8);
    v.push('t' as u8);
    v.push(' ' as u8);
    v.push('.' as u8);
    v.push('.' as u8);
    v.push('.' as u8);
    proof {
        assert(v@ =~= no_output_msg());
    }
    v
}

fn tsc_get_body_bytes(p: &Option<CompileResult>) -> (v: Vec<u8>)
    ensures
        v@ == tsc_get_body(p.deep_view()),
{
    match p {
        None => compiling_vec(),
        Some(res) => {
            if res.text.len() > 0 {
                copy_bytes(&res.text)
            } else {
                no_output_vec()
            }
        },
    }
}

fn watch_body_bytes(o: &RunOutput, beep: bool) -> (v: Vec<u8>)
    ensures
        v@ == watch_body(o.deep_view(), beep),
{
    let mut v: Vec<u8> = Vec::new();
    if beep {
        let clean = match o.status {
            Some(code) => code == 0,
            None => false,
        };
        if !clean {
            v.push(7u8);
        }
    }
    v.extend_from_slice(o.stderr.as_slice());
    v.extend_from_slice(o.stdout.as_slice());
    proof {
        assert(v@ =~= watch_body(o.deep_view(), beep));
    }
    v
}

/// What the server should do with a connection after feeding it more bytes.
pub enum ConnStep {
    /// No full request yet: receive more bytes and feed them too.
    KeepReading,
    /// The bytes received exceed the buffer's capacity without forming a
    /// request: drop the connection.
    BufferFull,
    /// No request can start with these bytes: drop the connection, writing
    /// nothing.
    Drop,
    /// A full request was parsed; dispatch it, write the reply, and close.
    HandleRequest(Request),
}

/// One connection's receive state: the bytes received so far, in a buffer
/// of fixed capacity.
pub struct Connection {
    buf: Vec<u8>,
}

impl Connection {
    /// The bytes received so far.
    pub closed spec fn buf_of(&self) -> Seq<u8> {
        self.buf@
    }

    /// Validity: the buffer never exceeds its capacity.
    pub open spec fn wf(&self) -> bool {
        self.buf_of().len() <= 8192
    }

    /// A connection that has received nothing yet.
    pub fn new() -> (r: Self)
        ensures
            r.wf(),
            r.buf_of().len() == 0,
    {
        Connection { buf: Vec::new() }
    }

    /// Feed the next received chunk and drive the codec on everything
    /// received so far.
    pub fn on_bytes(&mut self, chunk: &[u8]) -> (r: ConnStep)
        requires
            old(self).wf(),
        ensures
            final(self).wf(),
            old(self).buf_of().len() + chunk@.len() > 8192 ==> {
                &&& r is BufferFull
                &&& final(self).buf_of() == old(self).buf_of()
            },
            old(self).buf_of().len() + chunk@.len() <= 8192 ==> {
                &&& final(self).buf_of() == old(self).buf_of() + chunk@
                &&& match spec_request(old(self).buf_of() + chunk@) {
                    OutcomeView::Parsed(rv, n) => r matches ConnStep::HandleRequest(req)
                        && req@ == rv,
                    OutcomeView::NeedMoreBytes => r is KeepReading,
                    OutcomeView::Malformed => r is Drop,
                }
            },
    {
        if chunk.len() > 8192 {
            return ConnStep::BufferFull;
        }
        if self.buf.len() > 8192 - chunk.len() {
            return ConnStep::BufferFull;
        }
        self.buf.extend_from_slice(chunk);
        proof {
            assert(self.buf@ =~= old(self).buf@ + chunk@);
        }
        match request(self.buf.as_slice()) {
            ParseOutcome::Parsed(req, _) => ConnStep::HandleRequest(req),
            ParseOutcome::NeedMoreBytes => ConnStep::KeepReading,
            ParseOutcome::Malformed => ConnStep::Drop,
        }
    }
}

/// What the daemon does once a request has been dispatched.
pub enum DaemonAction {
    /// Write these bytes — possibly none — and close the connection.
    Respond(Vec<u8>),
    /// Stop accepting connections, remove the socket file, and exit.
    Shutdown,
}

/// Dispatch one request against the incremental-merge daemon's cache and
/// serialize the reply.
pub fn dispatch_tsc(state: &mut Cache<Option<CompileResult>>, req: Request) -> (r: DaemonAction)
    requires
        old(state)@.wf(),
    ensures
        final(state)@.wf(),
        match req@ {
            ReqView::Poll(c) => {
                &&& final(state)@ == poll_spec(old(state)@, c).1
                &&& (r matches DaemonAction::Respond(b) && b@ == (match poll_spec(
                    old(state)@,
                    c,
                ).0 {
                    PollV::Available(p) => tsc_poll_body(p),
                    PollV::NoChange => Seq::<u8>::empty(),
                    PollV::NotAvailable => Seq::<u8>::empty(),
                }))
            },
            ReqView::Get(c) => {
                &&& final(state)@ == old(state)@
                &&& (r matches DaemonAction::Respond(b) && b@ == (match get_spec(
                    old(state)@,
                    c,
                ) {
                    Some(p) => tsc_get_body(p),
                    None => Seq::<u8>::empty(),
                }))
            },
            ReqView::Exit => final(state)@ == old(state)@ && r is Shutdown,
        },
{
    match req {
        Request::Poll(cookie) => {
            let outcome = state.poll(&cookie);
            match outcome {
                PollOutcome::Available(p) => DaemonAction::Respond(tsc_poll_body_bytes(&p)),
                PollOutcome::NoChange => DaemonAction::Respond(Vec::new()),
                PollOutcome::NotAvailable => DaemonAction::Respond(Vec::new()),
            }
        },
        Request::Get(cookie) => {
            match state.get(&cookie) {
                Some(p) => DaemonAction::Respond(tsc_get_body_bytes(&p)),
                None => DaemonAction::Respond(Vec::new()),
            }
        },
        Request::Exit => DaemonAction::Shutdown,
    }
}

/// Dispatch one request against the periodic daemon's cache and serialize
/// the reply.  The bell option applies to the poll path alone.
pub fn dispatch_watch(state: &mut Cache<RunOutput>, req: Request, beep: bool) -> (r: DaemonAction)
    requires
        old(state)@.wf(),
    ensures
        final(state)@.wf(),
        match req@ {
            ReqView::Poll(c) => {
                &&& final(state)@ == poll_spec(old(state)@, c).1
                &&& (r matches DaemonAction::Respond(b) && b@ == (match poll_spec(
                    old(state)@,
                    c,
                ).0 {
                    PollV::Available(o) => watch_body(o, beep),
                    PollV::NoChange => Seq::<u8>::empty(),
                    PollV::NotAvailable => Seq::<u8>::empty(),
                }))
            },
            ReqView::Get(c) => {
                &&& final(state)@ == old(state)@
                &&& (r matches DaemonAction::Respond(b) && b@ == (match get_spec(
                    old(state)@,
                    c,
                ) {
                    Some(o) => watch_body(o, false),
                    None => Seq::<u8>::empty(),
                }))
            },
            ReqView::Exit => final(state)@ == old(state)@ && r is Shutdown,
        },
{
    match req {
        Request::Poll(cookie) => {
            let outcome = state.poll(&cookie);
            match outcome {
                PollOutcome::Available(o) => DaemonAction::Respond(watch_body_bytes(&o, beep)),
                PollOutcome::NoChange => DaemonAction::Respond(Vec::new()),
                PollOutcome::NotAvailable => DaemonAction::Respond(Vec::new()),
            }
        },
        Request::Get(cookie) => {
            match state.get(&cookie) {
                Some(o) => DaemonAction::Respond(watch_body_bytes(&o, false)),
                None => DaemonAction::Respond(Vec::new()),
            }
        },
        Request::Exit => DaemonAction::Shutdown,
    }
}

} // verus!
