//! The per-connection engine: one step per complete line (decode, then
//! dispatch), and a connection object that buffers transport reads,
//! processes every complete line they finish, and says when to close.
use vstd::prelude::*;

verus! {

use crate::command::CommandView;
use crate::dispatch::{
    dispatch, spec_next_state, spec_outcome, spec_reply, CommandOutcome, Reply,
};
use crate::error::{DecodeError, WError};
use crate::frame::{first_crlf, lemma_first_crlf, lemma_first_crlf_prefix, FrameReader};
use crate::parse::{decode, spec_decode};
use crate::session::{session_wf, Session, SessionView};
use crate::store::{MailStore, StoreView};

/// What one line does to the session, the reply it earns, and its
/// outcome; a decode failure is fatal to the connection and produces no
/// reply.
pub open spec fn spec_process_line(s: SessionView, st: StoreView, line: Seq<u8>) -> Result<
    (SessionView, Seq<u8>, CommandOutcome),
    DecodeError,
> {
    if line.len() == 0 {
        Ok((s, Seq::empty(), CommandOutcome::NoOp))
    } else {
        match spec_decode(line) {
            Err(e) => Err(e),
            Ok(c) => Ok((spec_next_state(s, st, c), spec_reply(s, st, c), spec_outcome(s, c))),
        }
    }
}

/// Processes one complete line: an empty line is ignored, anything else
/// is decoded and dispatched; a decode failure leaves the session
/// unchanged and is returned as the connection-fatal error.
pub fn process_line(session: &mut Session, store: &MailStore, line: &[u8]) -> (r: Result<
    Reply,
    WError,
>)
    requires
        session_wf(old(session)@),
    ensures
        session_wf(final(session)@),
        match r {
            Ok(rep) => spec_process_line(old(session)@, store@, line@) matches Ok(t) && t.0
                == final(session)@ && t.1 == rep.bytes@ && t.2 == rep.outcome,
            Err(e) => spec_process_line(old(session)@, store@, line@) == Err::<
                (SessionView, Seq<u8>, CommandOutcome),
                DecodeError,
            >(e.0) && final(session)@ == old(session)@,
        },
{
    if line.len() == 0 {
        return Ok(Reply { bytes: Vec::new(), outcome: CommandOutcome::NoOp });
    }
    match decode(line) {
        Err(e) => Err(WError(e)),
        Ok(cmd) => Ok(dispatch(session, store, &cmd)),
    }
}

/// How a connection stands after a batch of bytes: still open, closed by
/// LOGOUT, or failed on an undecodable line.
#[derive(Clone, Copy, Debug, PartialEq, Eq, Structural)]
pub enum ConnStatus {
    Open,
    Closed,
    Failed(DecodeError),
}

/// The effect of running the engine over a whole buffer.
pub ghost struct RunResult {
    pub sess: SessionView,
    pub out: Seq<u8>,
    pub status: ConnStatus,
    pub rem: Seq<u8>,
}

/// Runs the engine over every complete line in `buf`: each line is
/// processed in order and its reply appended, until the buffer holds no
/// further complete line (the remainder stays buffered), a LOGOUT closes
/// the connection, or a line fails to decode.
pub open spec fn spec_run(s: SessionView, st: StoreView, buf: Seq<u8>) -> RunResult
    decreases buf.len(),
    via spec_run_decreases
{
    let i = first_crlf(buf);
    if i < 0 {
        RunResult { sess: s, out: Seq::empty(), status: ConnStatus::Open, rem: buf }
    } else {
        let line = buf.subrange(0, i);
        let rest = buf.subrange(i + 2, buf.len() as int);
        if line.len() == 0 {
            spec_run(s, st, rest)
        } else {
            match spec_decode(line) {
                Err(e) => RunResult {
                    sess: s,
                    out: Seq::empty(),
                    status: ConnStatus::Failed(e),
                    rem: rest,
                },
                Ok(c) => {
                    let s2 = spec_next_state(s, st, c);
                    let o1 = spec_reply(s, st, c);
                    if spec_outcome(s, c) is Terminate {
                        RunResult { sess: s2, out: o1, status: ConnStatus::Closed, rem: rest }
                    } else {
                        let r = spec_run(s2, st, rest);
                        RunResult { sess: r.sess, out: o1 + r.out, status: r.status, rem: r.rem }
                    }
                },
            }
        }
    }
}

#[via_fn]
proof fn spec_run_decreases(s: SessionView, st: StoreView, buf: Seq<u8>) {
    lemma_first_crlf(buf);
}

/// With no complete line buffered, the engine does nothing.
proof fn lemma_run_none(s: SessionView, st: StoreView, buf: Seq<u8>)
    requires
        first_crlf(buf) < 0,
    ensures
        spec_run(s, st, buf) == (RunResult {
            sess: s,
            out: Seq::<u8>::empty(),
            status: ConnStatus::Open,
            rem: buf,
        }),
{
}

/// An empty first line is skipped.
proof fn lemma_run_empty(s: SessionView, st: StoreView, buf: Seq<u8>)
    requires
        first_crlf(buf) == 0,
    ensures
        spec_run(s, st, buf) == spec_run(s, st, buf.subrange(2, buf.len() as int)),
{
}

/// An undecodable first line fails the connection.
proof fn lemma_run_err(s: SessionView, st: StoreView, buf: Seq<u8>, e: DecodeError)
    requires
        first_crlf(buf) > 0,
        spec_decode(buf.subrange(0, first_crlf(buf))) == Err::<CommandView, DecodeError>(e),
    ensures
        spec_run(s, st, buf) == (RunResult {
            sess: s,
            out: Seq::<u8>::empty(),
            status: ConnStatus::Failed(e),
            rem: buf.subrange(first_crlf(buf) + 2, buf.len() as int),
        }),
{
    lemma_first_crlf(buf);
}

/// A decoded first line is dispatched; LOGOUT ends the run, anything
/// else continues it on the remainder.
proof fn lemma_run_cmd(s: SessionView, st: StoreView, buf: Seq<u8>, c: CommandView)
    requires
        first_crlf(buf) > 0,
        spec_decode(buf.subrange(0, first_crlf(buf))) == Ok::<CommandView, DecodeError>(c),
    ensures
        ({
            let rest = buf.subrange(first_crlf(buf) + 2, buf.len() as int);
            let s2 = spec_next_state(s, st, c);
            let o1 = spec_reply(s, st, c);
            if spec_outcome(s, c) is Terminate {
                spec_run(s, st, buf) == (RunResult {
                    sess: s2,
                    out: o1,
                    status: ConnStatus::Closed,
                    rem: rest,
                })
            } else {
                spec_run(s, st, buf) == (RunResult {
                    sess: spec_run(s2, st, rest).sess,
                    out: o1 + spec_run(s2, st, rest).out,
                    status: spec_run(s2, st, rest).status,
                    rem: spec_run(s2, st, rest).rem,
                })
            }
        }),
{
    lemma_first_crlf(buf);
}

/// One connection: its read buffer and its session.
pub struct Connection {
    reader: FrameReader,
    session: Session,
}

/// The view of a `Connection`: the buffered bytes and the session.
pub ghost struct ConnectionView {
    pub buf: Seq<u8>,
    pub sess: SessionView,
}

impl View for Connection {
    type V = ConnectionView;

    closed spec fn view(&self) -> ConnectionView {
        ConnectionView { buf: self.reader@, sess: self.session@ }
    }
}

/// What one batch of bytes produced: the reply bytes to write, and how
/// the connection stands afterwards.
#[derive(Debug)]
pub struct ConnOutput {
    pub bytes: Vec<u8>,
    pub status: ConnStatus,
}

impl Connection {
    /// A fresh connection: empty buffer, unauthenticated session.
    pub fn new() -> (r: Connection)
        ensures
            r@.buf == Seq::<u8>::empty(),
            r@.sess.state is NotAuthenticated,
            r@.sess.selected is None,
            session_wf(r@.sess),
    {
        Connection { reader: FrameReader::new(), session: Session::new() }
    }

    /// Takes one complete line off the buffer and processes it,
    /// returning its reply bytes and, when the run is over (no complete
    /// line left, LOGOUT, or a decode failure), the connection status.
    #[verifier::rlimit(100)]
    #[verifier::spinoff_prover]
    fn step(&mut self, store: &MailStore) -> (res: (Vec<u8>, Option<ConnStatus>))
        requires
            session_wf(old(self)@.sess),
        ensures
            session_wf(final(self)@.sess),
            ({
                let r = spec_run(old(self)@.sess, store@, old(self)@.buf);
                let r2 = spec_run(final(self)@.sess, store@, final(self)@.buf);
                match res.1 {
                    None => final(self)@.buf.len() < old(self)@.buf.len() && r == (RunResult {
                        sess: r2.sess,
                        out: res.0@ + r2.out,
                        status: r2.status,
                        rem: r2.rem,
                    }),
                    Some(stat) => final(self)@.buf.len() <= old(self)@.buf.len() && r
                        == (RunResult {
                        sess: final(self)@.sess,
                        out: res.0@,
                        status: stat,
                        rem: final(self)@.buf,
                    }),
                }
            }),
    {
        let ghost cur_sess = self@.sess;
        let ghost cur_buf = self@.buf;
        let ghost st = store@;
        let ghost r = spec_run(cur_sess, st, cur_buf);
        let mut out: Vec<u8> = Vec::new();
        match self.reader.take_line() {
            None => {
                proof {
                    lemma_run_none(cur_sess, st, cur_buf);
                    assert(out@ =~= Seq::<u8>::empty());
                }
                (out, Some(ConnStatus::Open))
            },
            Some(line) => {
                if line.len() == 0 {
                    proof {
                        lemma_first_crlf(cur_buf);
                        assert(first_crlf(cur_buf) == 0);
                        lemma_run_empty(cur_sess, st, cur_buf);
                        assert(out@ + spec_run(self@.sess, st, self@.buf).out =~= spec_run(
                            self@.sess,
                            st,
                            self@.buf,
                        ).out);
                    }
                    (out, None)
                } else {
                    match decode(line.as_slice()) {
                        Err(e) => {
                            proof {
                                lemma_first_crlf(cur_buf);
                                assert(first_crlf(cur_buf) > 0);
                                lemma_run_err(cur_sess, st, cur_buf, e);
                                assert(out@ =~= Seq::<u8>::empty());
                            }
                            (out, Some(ConnStatus::Failed(e)))
                        },
                        Ok(cmd) => {
                            let rep = dispatch(&mut self.session, store, &cmd);
                            let ghost o1 = rep.bytes@;
                            let is_term = match rep.outcome {
                                CommandOutcome::Terminate => true,
                                _ => false,
                            };
                            proof {
                                assert(is_term == (rep.outcome is Terminate));
                                lemma_first_crlf(cur_buf);
                                assert(first_crlf(cur_buf) > 0);
                                lemma_run_cmd(cur_sess, st, cur_buf, cmd@);
                            }
                            if is_term {
                                (rep.bytes, Some(ConnStatus::Closed))
                            } else {
                                (rep.bytes, None)
                            }
                        },
                    }
                }
            },
        }
    }

    /// Buffers freshly read transport bytes and runs the engine over
    /// every complete line now present, exactly as `spec_run` on the
    /// grown buffer; an incomplete trailing line stays buffered for the
    /// next read.
    #[verifier::rlimit(100)]
    #[verifier::spinoff_prover]
    pub fn on_bytes(&mut self, store: &MailStore, data: &[u8]) -> (r: ConnOutput)
        requires
            session_wf(old(self)@.sess),
        ensures
            session_wf(final(self)@.sess),
            ({
                let res = spec_run(old(self)@.sess, store@, old(self)@.buf + data@);
                &&& final(self)@.sess == res.sess
                &&& final(self)@.buf == res.rem
                &&& r.bytes@ == res.out
                &&& r.status == res.status
            }),
    {
        let ghost s0 = self@.sess;
        let ghost buf0 = self@.buf + data@;
        let ghost st = store@;
        self.reader.push(data);
        let ghost res0 = spec_run(s0, st, buf0);
        let mut out: Vec<u8> = Vec::new();
        let mut done: Option<ConnStatus> = None;
        proof {
            assert(out@ + spec_run(self@.sess, st, self@.buf).out =~= spec_run(
                self@.sess,
                st,
                self@.buf,
            ).out);
        }
        while done.is_none()
            invariant
                st == store@,
                session_wf(self@.sess),
                match done {
                    None => res0 == ({
                        let r = spec_run(self@.sess, st, self@.buf);
                        RunResult { sess: r.sess, out: out@ + r.out, status: r.status, rem: r.rem }
                    }),
                    Some(stat) => res0 == (RunResult {
                        sess: self@.sess,
                        out: out@,
                        status: stat,
                        rem: self@.buf,
                    }),
                },
            decreases self@.buf.len() + (if done is None { 1int } else { 0int }),
        {
            let ghost r = spec_run(self@.sess, st, self@.buf);
            let ghost out_old = out@;
            let step_res = self.step(store);
            let mut bytes = step_res.0;
            let stepped = step_res.1;
            let ghost d = bytes@;
            out.append(&mut bytes);
            done = stepped;
            proof {
                match done {
                    None => {
                        let r2 = spec_run(self@.sess, st, self@.buf);
                        assert(out_old + r.out =~= out@ + r2.out);
                    },
                    Some(stat) => {
                        assert(out_old + r.out =~= out@);
                    },
                }
            }
        }
        let status = match done {
            Some(s) => s,
            None => ConnStatus::Open,
        };
        ConnOutput { bytes: out, status }
    }
}

/// Feeding the engine a buffer in two parts comes to the same as feeding
/// it whole: while the first part leaves the connection open, running the
/// engine over it and then over what it kept plus the second part gives
/// the same session, the same output in order, and the same ending as one
/// run over the concatenation. With `Connection::on_bytes`, which runs
/// `spec_run` over the buffer it keeps, any split of a byte stream into
/// reads therefore produces identical behaviour.
pub proof fn lemma_run_stream(s: SessionView, st: StoreView, a: Seq<u8>, b: Seq<u8>)
    requires
        spec_run(s, st, a).status is Open,
    ensures
        ({
            let r1 = spec_run(s, st, a);
            let r2 = spec_run(r1.sess, st, r1.rem + b);
            spec_run(s, st, a + b) == (RunResult {
                sess: r2.sess,
                out: r1.out + r2.out,
                status: r2.status,
                rem: r2.rem,
            })
        }),
    decreases a.len(),
{
    let r1 = spec_run(s, st, a);
    if first_crlf(a) < 0 {
        let r2 = spec_run(s, st, a + b);
        assert(r1.rem + b =~= a + b);
        assert(r1.out + r2.out =~= r2.out);
    } else {
        lemma_first_crlf(a);
        lemma_first_crlf_prefix(a, b);
        let i = first_crlf(a);
        let line = a.subrange(0, i);
        let rest = a.subrange(i + 2, a.len() as int);
        assert((a + b).subrange(0, i) =~= line);
        assert((a + b).subrange(i + 2, (a + b).len() as int) =~= rest + b);
        if line.len() == 0 {
            lemma_run_stream(s, st, rest, b);
        } else {
            match spec_decode(line) {
                Err(e) => {
                    assert(false);
                },
                Ok(c) => {
                    if spec_outcome(s, c) is Terminate {
                        assert(false);
                    } else {
                        let s2 = spec_next_state(s, st, c);
                        lemma_run_stream(s2, st, rest, b);
                        let ra = spec_run(s2, st, rest);
                        let r2 = spec_run(ra.sess, st, ra.rem + b);
                        let o1 = spec_reply(s, st, c);
                        assert(o1 + (ra.out + r2.out) =~= (o1 + ra.out) + r2.out);
                    }
                },
            }
        }
    }
}

/// A command split across two transport reads is reassembled, not
/// decoded twice: a read that completes no line leaves the session
/// untouched, produces no output, and keeps the partial bytes buffered,
/// so the next read (see `Connection::on_bytes`) runs over the
/// reassembled buffer exactly as if the bytes had arrived in one read.
pub proof fn lemma_split_read(s: SessionView, st: StoreView, a: Seq<u8>)
    requires
        first_crlf(a) < 0,
    ensures
        spec_run(s, st, a) == (RunResult {
            sess: s,
            out: Seq::<u8>::empty(),
            status: ConnStatus::Open,
            rem: a,
        }),
{
    lemma_run_none(s, st, a);
}

} // verus!
