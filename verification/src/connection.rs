use vstd::prelude::*;

use crate::protocol::NL;
use crate::protocol::arg1;
use crate::protocol::copy_range;
use crate::protocol::err_missing_msg;
use crate::protocol::err_missing_vec;
use crate::protocol::err_not_found_msg;
use crate::protocol::err_not_found_vec;
use crate::protocol::err_unknown_msg;
use crate::protocol::err_unknown_vec;
use crate::protocol::find_nl;
use crate::protocol::get_kw;
use crate::protocol::keyword;
use crate::protocol::lemma_find_nl;
use crate::protocol::lemma_tok;
use crate::protocol::lemma_trim_front;
use crate::protocol::list_kw;
use crate::protocol::list_reply;
use crate::protocol::push_bytes;
use crate::protocol::push_list_reply;
use crate::protocol::rest_after_keyword;
use crate::protocol::sanitize;
use crate::protocol::sanitize_filename;
use crate::protocol::scan_non_ws;
use crate::protocol::scan_ws;
use crate::protocol::trim_bytes;
use crate::protocol::trim_bytes_vec;
use crate::protocol::views_of;
use crate::streamer::FileStreamer;
use crate::streamer::StreamerModel;
use crate::streamer::fresh_streamer;
use crate::streamer::model_inv;
use crate::streamer::spec_read_request;
use crate::streamer::stream_step;

verus! {

/// The abstract state of one connection: the inbound accumulator, the
/// outbound accumulator, and the streamer of the transfer in flight, if
/// one is.
pub ghost struct ConnModel {
    pub read_buf: Seq<u8>,
    pub write_buf: Seq<u8>,
    pub streamer: Option<StreamerModel>,
}

/// What the caller must do next after a command was dispatched.
pub enum Action {
    /// Nothing: any reply is already queued.
    Idle,
    /// Enumerate the served directory's regular files and call
    /// `supply_listing`.
    SendList,
    /// Resolve this sanitized name inside the served directory; then call
    /// `attach_streamer` with the file's size, or `file_not_found`.
    OpenFile(Vec<u8>),
}

/// One client connection: an inbound byte accumulator, an outbound byte
/// accumulator, and at most one active transfer. The socket itself stays
/// with the caller, which hands bytes in and carries bytes out.
pub struct Connection {
    read_buf: Vec<u8>,
    write_buf: Vec<u8>,
    streamer: Option<FileStreamer>,
}

impl View for Connection {
    type V = ConnModel;

    closed spec fn view(&self) -> ConnModel {
        ConnModel {
            read_buf: self.read_buf@,
            write_buf: self.write_buf@,
            streamer: match self.streamer {
                Some(s) => Some(s@),
                None => None,
            },
        }
    }
}

/// How many file bytes the next `pump` may consume.
pub open spec fn conn_read_request(c: ConnModel) -> u64 {
    match c.streamer {
        Some(m) => spec_read_request(m),
        None => 0,
    }
}

impl Connection {
    pub closed spec fn wf(self) -> bool {
        match self.streamer {
            Some(s) => s.wf(),
            None => true,
        }
    }

    /// The attached streamer, if any, satisfies the streamer invariant.
    pub proof fn lemma_wf_inv(&self)
        requires
            self.wf(),
        ensures
            self@.streamer matches Some(m) ==> model_inv(m),
    {
        match self.streamer {
            Some(s) => crate::streamer::lemma_streamer_wf_inv(&s),
            None => {},
        }
    }

    pub fn new() -> (c: Connection)
        ensures
            c.wf(),
            c@ == (ConnModel {
                read_buf: Seq::<u8>::empty(),
                write_buf: Seq::<u8>::empty(),
                streamer: None::<StreamerModel>,
            }),
    {
        Connection { read_buf: Vec::new(), write_buf: Vec::new(), streamer: None }
    }

    pub fn has_streamer(&self) -> (r: bool)
        ensures
            r == (self@.streamer is Some),
    {
        self.streamer.is_some()
    }

    /// The bytes queued for the socket but not yet written.
    pub fn output(&self) -> (r: &[u8])
        ensures
            r@ == self@.write_buf,
    {
        self.write_buf.as_slice()
    }

    /// Appends bytes read from the socket to the inbound accumulator.
    pub fn ingest(&mut self, data: &[u8])
        requires
            old(self).wf(),
        ensures
            final(self).wf(),
            final(self)@ == (ConnModel { read_buf: old(self)@.read_buf + data@, ..old(self)@ }),
    {
        push_bytes(&mut self.read_buf, data);
    }

    /// Removes the first newline-terminated line from the inbound
    /// accumulator and returns it trimmed, leaving any remainder for the
    /// next command. While a transfer is in flight no command is taken:
    /// inbound bytes wait until the streamer is released.
    pub fn extract_command(&mut self) -> (r: Option<Vec<u8>>)
        requires
            old(self).wf(),
        ensures
            final(self).wf(),
            final(self)@.write_buf == old(self)@.write_buf,
            final(self)@.streamer == old(self)@.streamer,
            old(self)@.streamer is Some ==> r is None && final(self)@ == old(self)@,
            old(self)@.streamer is None ==> match find_nl(old(self)@.read_buf) {
                Some(i) => {
                    &&& r matches Some(line) && line@ == trim_bytes(
                        old(self)@.read_buf.take(i + 1),
                    )
                    &&& final(self)@.read_buf == old(self)@.read_buf.skip(i + 1)
                },
                None => r is None && final(self)@ == old(self)@,
            },
    {
        if self.streamer.is_some() {
            return None;
        }
        let n = self.read_buf.len();
        let mut i: usize = 0;
        while i < n && self.read_buf[i] != NL
            invariant
                i <= n,
                n == self.read_buf@.len(),
                forall|j: int| 0 <= j < i ==> self.read_buf@[j] != NL,
            decreases n - i,
        {
            i = i + 1;
        }
        proof {
            lemma_find_nl(self.read_buf@, i as int);
        }
        if i < n {
            let tail = self.read_buf.split_off(i + 1);
            let line = trim_bytes_vec(self.read_buf.as_slice());
            self.read_buf = tail;
            proof {
                assert(old(self)@.read_buf.subrange(0, i + 1 as int) =~= old(self)@.read_buf.take(
                    i + 1 as int));
                assert(old(self)@.read_buf.subrange(i + 1 as int,
                    old(self)@.read_buf.len() as int) =~= old(self)@.read_buf.skip(i + 1 as int));
            }
            Some(line)
        } else {
            None
        }
    }

    /// Parses one trimmed command line and mutates the connection as the
    /// dispatcher asks: queues an error line, or asks the caller for the
    /// directory listing or for a file. Commands are dispatched only
    /// between transfers.
    pub fn handle_command(&mut self, line: &[u8]) -> (r: Action)
        requires
            old(self).wf(),
            old(self)@.streamer is None,
        ensures
            final(self).wf(),
            final(self)@.read_buf == old(self)@.read_buf,
            final(self)@.streamer is None,
            keyword(line@).len() == 0 ==> r is Idle && final(self)@.write_buf == old(self)@.write_buf,
            keyword(line@) == list_kw() ==> r is SendList && final(self)@.write_buf == old(self)@.write_buf,
            keyword(line@) == get_kw() && rest_after_keyword(line@).len() == 0 ==> r is Idle
                && final(self)@.write_buf == old(self)@.write_buf + err_missing_msg(),
            keyword(line@) == get_kw() && rest_after_keyword(line@).len() > 0 ==> (r matches
                Action::OpenFile(name) && name@ == sanitize(arg1(line@)))
                && final(self)@.write_buf == old(self)@.write_buf,
            keyword(line@).len() > 0 && keyword(line@) != list_kw() && keyword(line@) != get_kw()
                ==> r is Idle && final(self)@.write_buf == old(self)@.write_buf
                + err_unknown_msg(),
    {
        let i0 = scan_non_ws(line, 0);
        let i1 = scan_ws(line, i0);
        proof {
            lemma_trim_front(line@, i0 as int);
            assert(forall|j: int| 0 <= j < i1 - i0 ==> #[trigger] line@.skip(i0 as int)[j]
                == line@[j + i0]);
            lemma_tok(line@.skip(i0 as int), i1 - i0);
            assert(keyword(line@) =~= line@.subrange(i0 as int, i1 as int));
            assert(line@.skip(i0 as int).skip(i1 - i0) =~= line@.skip(i1 as int));
        }
        if i1 == i0 {
            return Action::Idle;
        }
        let klen = i1 - i0;
        if klen == 4 && line[i0] == 'L' as u8 && line[i0 + 1] == 'I' as u8 && line[i0 + 2]
            == 'S' as u8 && line[i0 + 3] == 'T' as u8 {
            proof {
                assert(keyword(line@) =~= list_kw());
            }
            return Action::SendList;
        }
        if klen == 3 && line[i0] == 'G' as u8 && line[i0 + 1] == 'E' as u8 && line[i0 + 2]
            == 'T' as u8 {
            proof {
                assert(keyword(line@) =~= get_kw());
            }
            let i2 = scan_non_ws(line, i1);
            proof {
                assert(forall|j: int| 0 <= j < i2 - i1 ==> #[trigger] line@.skip(i1 as int)[j]
                    == line@[j + i1]);
                lemma_trim_front(line@.skip(i1 as int), i2 - i1);
                assert(line@.skip(i1 as int).skip(i2 - i1) =~= line@.skip(i2 as int));
                assert(rest_after_keyword(line@) == line@.skip(i2 as int));
            }
            if i2 == line.len() {
                let msg = err_missing_vec();
                push_bytes(&mut self.write_buf, msg.as_slice());
                return Action::Idle;
            }
            let i3 = scan_ws(line, i2);
            proof {
                assert(forall|j: int| 0 <= j < i3 - i2 ==> #[trigger] line@.skip(i2 as int)[j]
                    == line@[j + i2]);
                lemma_tok(line@.skip(i2 as int), i3 - i2);
                assert(arg1(line@) =~= line@.subrange(i2 as int, i3 as int));
            }
            let name = copy_range(line, i2, i3);
            let safe = sanitize_filename(name.as_slice());
            return Action::OpenFile(safe);
        }
        proof {
            assert(keyword(line@).len() > 0);
            assert(keyword(line@) != list_kw()) by {
                if keyword(line@) == list_kw() {
                    assert(line@[i0 as int] == 'L' as u8 && line@[i0 + 1] == 'I' as u8
                        && line@[i0 + 2] == 'S' as u8 && line@[i0 + 3] == 'T' as u8);
                }
            }
            assert(keyword(line@) != get_kw()) by {
                if keyword(line@) == get_kw() {
                    assert(line@[i0 as int] == 'G' as u8 && line@[i0 + 1] == 'E' as u8
                        && line@[i0 + 2] == 'T' as u8);
                }
            }
        }
        let msg = err_unknown_vec();
        push_bytes(&mut self.write_buf, msg.as_slice());
        Action::Idle
    }

    /// Queues the directory listing reply.
    pub fn supply_listing(&mut self, names: &Vec<Vec<u8>>)
        requires
            old(self).wf(),
            old(self)@.streamer is None,
        ensures
            final(self).wf(),
            final(self)@ == (ConnModel {
                write_buf: old(self)@.write_buf + list_reply(views_of(names@)),
                ..old(self)@
            }),
    {
        push_list_reply(&mut self.write_buf, names);
    }

    /// Queues `ERR file not found\n` and attaches nothing: the next
    /// command is processed as usual.
    pub fn file_not_found(&mut self)
        requires
            old(self).wf(),
            old(self)@.streamer is None,
        ensures
            final(self).wf(),
            final(self)@.streamer is None,
            final(self)@ == (ConnModel {
                write_buf: old(self)@.write_buf + err_not_found_msg(),
                ..old(self)@
            }),
    {
        let msg = err_not_found_vec();
        push_bytes(&mut self.write_buf, msg.as_slice());
    }

    /// Attaches the streamer for a file that was just opened, whose size
    /// was captured at open time. Bytes flow on later `pump` calls.
    pub fn attach_streamer(&mut self, size: u64)
        requires
            old(self).wf(),
            old(self)@.streamer is None,
        ensures
            final(self).wf(),
            final(self)@ == (ConnModel {
                streamer: Some(fresh_streamer(size)),
                ..old(self)@
            }),
    {
        self.streamer = Some(FileStreamer::new(size));
    }

    /// How many file bytes to read before the next `pump`.
    pub fn read_request(&self) -> (r: u64)
        ensures
            r == conn_read_request(self@),
    {
        match &self.streamer {
            Some(s) => s.read_request(),
            None => 0,
        }
    }

    /// One production step of the transfer in flight, if one is: the
    /// streamer's next bytes are appended to the outbound accumulator.
    /// `chunk` is what was read from the file, at most `read_request`
    /// bytes; a zero-length chunk while bytes are owed reports truncation.
    pub fn pump(&mut self, chunk: &[u8])
        requires
            old(self).wf(),
            chunk@.len() <= conn_read_request(old(self)@),
        ensures
            final(self).wf(),
            final(self)@.read_buf == old(self)@.read_buf,
            old(self)@.streamer is None ==> final(self)@ == old(self)@,
            old(self)@.streamer matches Some(m) ==> {
                &&& final(self)@.streamer == Some(stream_step(m, chunk@).0)
                &&& final(self)@.write_buf == old(self)@.write_buf + stream_step(m, chunk@).1
            },
    {
        if let Some(s) = &mut self.streamer {
            s.step(chunk, &mut self.write_buf);
        }
    }

    /// Reports how many outbound bytes the socket accepted: they leave the
    /// front of the accumulator.
    pub fn mark_written(&mut self, n: usize)
        requires
            old(self).wf(),
            n <= old(self)@.write_buf.len(),
        ensures
            final(self).wf(),
            final(self)@ == (ConnModel {
                write_buf: old(self)@.write_buf.skip(n as int),
                ..old(self)@
            }),
    {
        let rest = self.write_buf.split_off(n);
        self.write_buf = rest;
        proof {
            assert(self.write_buf@ =~= old(self)@.write_buf.skip(n as int));
        }
    }

    /// Discards the streamer once it is Done and everything it queued has
    /// been written out; the caller closes the file handle then.
    pub fn release_done_streamer(&mut self) -> (released: bool)
        requires
            old(self).wf(),
        ensures
            final(self).wf(),
            released == (old(self)@.streamer matches Some(m) && m.stage is Done && old(self)@.write_buf.len() == 0),
            released ==> final(self)@ == (ConnModel {
                streamer: None::<StreamerModel>,
                ..old(self)@
            }),
            !released ==> final(self)@ == old(self)@,
    {
        let done = match &self.streamer {
            Some(s) => s.done(),
            None => false,
        };
        if done && self.write_buf.is_empty() {
            self.streamer = None;
            true
        } else {
            false
        }
    }
}

} // verus!
