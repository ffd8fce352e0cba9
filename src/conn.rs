//! The connection's decisions: it frames what the client sends, checks what
//! the server sends, and keeps the session state. The bytes themselves are
//! moved by the caller.

use vstd::prelude::*;
use crate::auth::{scramble, scramble_of, client_flags, handshake_response, handshake_response_payload};
use crate::bytes::{append_slice, lenenc_int_at, read_lenenc_int};
use crate::consts::{CLIENT_PROTOCOL_41, COM_QUERY};
use crate::error::MyError;
use crate::framer::{decode_packet, encode_packet, frames_of, frame_count, next_seq, parse_packet};
use crate::framer::{FrameError, MAX_PAYLOAD_LEN};
use crate::opts::{MyOpts, text_or_empty};
use crate::packets::{OkPacket, ErrPacket, EOFPacket, HandshakePacket, Column, Stmt};
use crate::packets::{ok_fields, err_fields, handshake_fields};
use crate::value::{Value, ValueView, views, bin_row, column_kinds, text_row_at};
use crate::value::{null_bitmap, null_flags, param_values, inline_cap};
use crate::bytes::{le_bytes, write_le};
use crate::consts::{COM_STMT_EXECUTE, COM_STMT_SEND_LONG_DATA, MYSQL_TYPE_VAR_STRING, MYSQL_TYPE_LONGLONG};
use crate::consts::{MYSQL_TYPE_DOUBLE, MYSQL_TYPE_DATE, MYSQL_TYPE_TIME};

verus! {

/// Where a connection stands in its exchange with the server.
#[derive(Clone, Copy, Debug, PartialEq, Eq, Structural)]
pub enum ConnState {
    /// Nothing has been exchanged yet.
    Fresh,
    /// The handshake response is sent; the server's verdict is awaited.
    AwaitingAuth,
    /// A new command may start.
    Ready,
    /// A command is sent; its answer is being read.
    AwaitingResponse,
    /// The rows of a text result set are being read.
    InText,
    /// The rows of a binary result set are being read.
    InBinary,
    /// A local file is being uploaded.
    LocalInfile,
    /// The exchange went out of step; the connection must not be used again.
    Broken,
}

/// The state of one connection to a server.
pub struct MyConn {
    pub state: ConnState,
    pub opts: MyOpts,
    pub affected_rows: u64,
    pub last_insert_id: u64,
    pub warnings: u16,
    pub max_allowed_packet: usize,
    pub capability_flags: u32,
    pub connection_id: u32,
    pub status_flags: u16,
    pub seq_id: u8,
    pub character_set: u8,
    pub last_command: u8,
    pub connected: bool,
}

/// Whether an outbound payload of `len` bytes is over the limit: the limit
/// is enforced here unless it equals the largest frame payload, where the
/// server judges.
pub open spec fn too_large(len: nat, max_allowed_packet: nat) -> bool {
    len > max_allowed_packet && max_allowed_packet != MAX_PAYLOAD_LEN
}

/// What the server said in answer to a command.
#[derive(Clone, Debug, PartialEq, Eq)]
pub enum QueryResponse {
    /// The command succeeded and returns no rows.
    Done,
    /// The server asks for the contents of the named local file.
    LocalInfile(Vec<u8>),
    /// A result set follows, with this many columns.
    ResultSet(u64),
}

impl MyConn {
    /// A connection that has not yet exchanged anything with the server.
    pub fn new(opts: MyOpts) -> (r: MyConn)
        ensures
            r == (MyConn {
                state: ConnState::Fresh,
                opts,
                affected_rows: 0,
                last_insert_id: 0,
                warnings: 0,
                max_allowed_packet: MAX_PAYLOAD_LEN,
                capability_flags: 0,
                connection_id: 0,
                status_flags: 0,
                seq_id: 0,
                character_set: 0,
                last_command: 0,
                connected: false,
            }),
    {
        MyConn {
            state: ConnState::Fresh,
            opts,
            affected_rows: 0,
            last_insert_id: 0,
            warnings: 0,
            max_allowed_packet: MAX_PAYLOAD_LEN,
            capability_flags: 0,
            connection_id: 0,
            status_flags: 0,
            seq_id: 0,
            character_set: 0,
            last_command: 0,
            connected: false,
        }
    }

    /// Takes over what the server's greeting announces.
    pub fn handle_handshake(&mut self, hp: &HandshakePacket)
        ensures
            *final(self) == (MyConn {
                capability_flags: hp.capability_flags,
                status_flags: hp.status_flags,
                connection_id: hp.connection_id,
                character_set: hp.character_set,
                ..*old(self)
            }),
    {
        self.capability_flags = hp.capability_flags;
        self.status_flags = hp.status_flags;
        self.connection_id = hp.connection_id;
        self.character_set = hp.character_set;
    }

    /// Takes over what an OK packet reports.
    pub fn handle_ok(&mut self, op: &OkPacket)
        ensures
            *final(self) == (MyConn {
                affected_rows: op.affected_rows,
                last_insert_id: op.last_insert_id,
                status_flags: op.status_flags,
                warnings: op.warnings,
                ..*old(self)
            }),
    {
        self.affected_rows = op.affected_rows;
        self.last_insert_id = op.last_insert_id;
        self.status_flags = op.status_flags;
        self.warnings = op.warnings;
    }

    /// Takes over the status flags of an EOF packet.
    pub fn handle_eof(&mut self, eof: &EOFPacket)
        ensures
            *final(self) == (MyConn { status_flags: eof.status_flags, ..*old(self) }),
    {
        self.status_flags = eof.status_flags;
    }

    /// Reads one logical packet from the front of `wire`: its payload and the
    /// bytes it took, or `None` when `wire` ends before the packet does.
    pub fn read_packet(&mut self, wire: &[u8]) -> (r: Result<Option<(Vec<u8>, usize)>, MyError>)
        ensures
            match parse_packet(wire@, old(self).seq_id) {
                Ok((p, c, s)) => r matches Ok(Some((q, n))) && q@ == p && n == c
                    && *final(self) == (MyConn { seq_id: s, ..*old(self) }),
                Err(FrameError::Incomplete) => r == Ok::<Option<(Vec<u8>, usize)>, MyError>(None) && *final(self) == *old(self),
                Err(FrameError::OutOfSync) => r == Err::<Option<(Vec<u8>, usize)>, _>(MyError::OutOfSync)
                    && *final(self) == (MyConn { state: ConnState::Broken, ..*old(self) }),
            },
    {
        match decode_packet(wire, self.seq_id) {
            Ok((p, c, s)) => {
                self.seq_id = s;
                Ok(Some((p, c)))
            },
            Err(FrameError::Incomplete) => Ok(None),
            Err(FrameError::OutOfSync) => {
                self.state = ConnState::Broken;
                Err(MyError::OutOfSync)
            },
        }
    }

    /// Marks the connection unusable, as after a failure of the transport.
    pub fn mark_broken(&mut self)
        ensures
            *final(self) == (MyConn { state: ConnState::Broken, ..*old(self) }),
    {
        self.state = ConnState::Broken;
    }

    /// The frames that carry `data`, numbered on from the connection's
    /// sequence id.
    pub fn write_packet(&mut self, data: &[u8]) -> (r: Result<Vec<u8>, MyError>)
        ensures
            if too_large(data@.len(), old(self).max_allowed_packet as nat) {
                r == Err::<Vec<u8>, _>(MyError::PacketTooLarge) && *final(self) == *old(self)
            } else {
                r matches Ok(w) && w@ == frames_of(data@, old(self).seq_id) && *final(self) == (
                MyConn {
                    seq_id: next_seq(old(self).seq_id, frame_count(data@.len())),
                    ..*old(self)
                })
            },
    {
        if data.len() > self.max_allowed_packet && self.max_allowed_packet != MAX_PAYLOAD_LEN {
            return Err(MyError::PacketTooLarge);
        }
        let (w, s) = encode_packet(data, self.seq_id);
        self.seq_id = s;
        Ok(w)
    }

    /// Frames a command: the sequence id goes back to zero and the command
    /// byte, then `buf`, are framed.
    fn frame_command(&mut self, cmd: u8, buf: &[u8]) -> (r: Result<Vec<u8>, MyError>)
        ensures
            ({
                let payload = seq![cmd] + buf@;
                if too_large(payload.len(), old(self).max_allowed_packet as nat) {
                    r == Err::<Vec<u8>, _>(MyError::PacketTooLarge) && *final(self) == (MyConn {
                        seq_id: 0,
                        last_command: cmd,
                        ..*old(self)
                    })
                } else {
                    r matches Ok(w) && w@ == frames_of(payload, 0) && *final(self) == (MyConn {
                        seq_id: next_seq(0, frame_count(payload.len())),
                        last_command: cmd,
                        ..*old(self)
                    })
                }
            }),
    {
        self.seq_id = 0;
        self.last_command = cmd;
        let mut payload: Vec<u8> = Vec::new();
        payload.push(cmd);
        append_slice(&mut payload, buf);
        assert(payload@ =~= seq![cmd] + buf@);
        self.write_packet(payload.as_slice())
    }

    /// Starts a command on a ready connection: the sequence id goes back to
    /// zero and the command byte, then `buf`, are framed; the answer is then
    /// awaited.
    pub fn write_command_data(&mut self, cmd: u8, buf: &[u8]) -> (r: Result<Vec<u8>, MyError>)
        ensures
            old(self).state != ConnState::Ready ==> r == Err::<Vec<u8>, _>(MyError::NotReady)
                && *final(self) == *old(self),
            old(self).state == ConnState::Ready ==> ({
                let payload = seq![cmd] + buf@;
                if too_large(payload.len(), old(self).max_allowed_packet as nat) {
                    r == Err::<Vec<u8>, _>(MyError::PacketTooLarge) && *final(self) == (MyConn {
                        seq_id: 0,
                        last_command: cmd,
                        ..*old(self)
                    })
                } else {
                    r matches Ok(w) && w@ == frames_of(payload, 0) && *final(self) == (MyConn {
                        state: ConnState::AwaitingResponse,
                        seq_id: next_seq(0, frame_count(payload.len())),
                        last_command: cmd,
                        ..*old(self)
                    })
                }
            }),
    {
        if self.state != ConnState::Ready {
            return Err(MyError::NotReady);
        }
        let r = self.frame_command(cmd, buf);
        if r.is_ok() {
            self.state = ConnState::AwaitingResponse;
        }
        r
    }

    /// Starts a command that carries no data.
    pub fn write_command(&mut self, cmd: u8) -> (r: Result<Vec<u8>, MyError>)
        ensures
            old(self).state != ConnState::Ready ==> r == Err::<Vec<u8>, _>(MyError::NotReady)
                && *final(self) == *old(self),
            old(self).state == ConnState::Ready ==> ({
                if too_large(1, old(self).max_allowed_packet as nat) {
                    r == Err::<Vec<u8>, _>(MyError::PacketTooLarge) && *final(self) == (MyConn {
                        seq_id: 0,
                        last_command: cmd,
                        ..*old(self)
                    })
                } else {
                    r matches Ok(w) && w@ == frames_of(seq![cmd], 0) && *final(self) == (MyConn {
                        state: ConnState::AwaitingResponse,
                        seq_id: next_seq(0, frame_count(1)),
                        last_command: cmd,
                        ..*old(self)
                    })
                }
            }),
    {
        let empty: [u8; 0] = [];
        let r = self.write_command_data(cmd, &empty);
        assert(seq![cmd] + empty@ =~= seq![cmd]);
        r
    }
}

/// The bytes of an optional string, empty when unset.
pub open spec fn opt_bytes(s: Option<String>) -> Seq<u8> {
    vstd::utf8::encode_utf8(text_or_empty(s))
}

/// `c` after an OK packet with fields `f`.
pub open spec fn after_ok(c: MyConn, f: (u64, u64, u16, u16, Seq<u8>)) -> MyConn {
    MyConn { affected_rows: f.0, last_insert_id: f.1, status_flags: f.2, warnings: f.3, ..c }
}

/// The value of a string of decimal digits.
pub open spec fn digits_value(s: Seq<u8>) -> nat
    decreases s.len(),
{
    if s.len() == 0 {
        0
    } else {
        digits_value(s.drop_last()) * 10 + (s.last() - 48) as nat
    }
}

/// The number that `s` writes in decimal digits, if it is one.
pub open spec fn decimal_of(s: Seq<u8>) -> Option<nat> {
    if s.len() > 0 && forall|i: int| 0 <= i < s.len() ==> 48 <= #[trigger] s[i] <= 57 {
        Some(digits_value(s))
    } else {
        None
    }
}

/// Reads an OK packet into the connection, or says why it cannot.
fn take_ok(conn: &mut MyConn, pld: &[u8]) -> (r: Result<(), MyError>)
    ensures
        match ok_fields(pld@) {
            Some(f) => r is Ok && *final(conn) == after_ok(*old(conn), f),
            None => r == Err::<(), _>(MyError::Protocol) && *final(conn) == *old(conn),
        },
{
    let ok = OkPacket::from_payload(pld)?;
    conn.handle_ok(&ok);
    Ok(())
}

/// The error that an ERR payload stands for.
fn server_error(pld: &[u8]) -> (r: MyError)
    ensures
        match err_fields(pld@) {
            Some(f) => r matches MyError::Server(p) && p.fields() == f,
            None => r == MyError::Protocol,
        },
{
    match ErrPacket::from_payload(pld) {
        Ok(p) => MyError::Server(p),
        Err(e) => e,
    }
}

impl MyConn {
    /// Answers the server's greeting with the handshake response, after
    /// checking that the server speaks protocol version 10 and `PROTOCOL_41`.
    pub fn do_handshake(&mut self, pld: &[u8]) -> (r: Result<Vec<u8>, MyError>)
        ensures
            old(self).state != ConnState::Fresh ==> r == Err::<Vec<u8>, _>(MyError::NotReady)
                && *final(self) == *old(self),
            old(self).state == ConnState::Fresh ==> match handshake_fields(pld@) {
                None => r == Err::<Vec<u8>, _>(MyError::Protocol) && *final(self) == *old(self),
                Some((version, id, seed, caps, charset, status, _)) => if version != 10 || caps
                    & CLIENT_PROTOCOL_41 == 0 {
                    r == Err::<Vec<u8>, _>(MyError::Protocol) && *final(self) == *old(self)
                } else {
                    let greeted = MyConn {
                        capability_flags: caps,
                        status_flags: status,
                        connection_id: id,
                        character_set: charset,
                        ..*old(self)
                    };
                    let db = opt_bytes(old(self).opts.db_name);
                    let payload = handshake_response(
                        client_flags(caps, db.len() > 0),
                        opt_bytes(old(self).opts.user),
                        scramble_of(seed, opt_bytes(old(self).opts.pass)),
                        db,
                    );
                    if too_large(payload.len(), old(self).max_allowed_packet as nat) {
                        r == Err::<Vec<u8>, _>(MyError::PacketTooLarge) && *final(self) == greeted
                    } else {
                        r matches Ok(w) && w@ == frames_of(payload, old(self).seq_id) && *final(self)
                            == (MyConn {
                            state: ConnState::AwaitingAuth,
                            seq_id: next_seq(old(self).seq_id, frame_count(payload.len())),
                            ..greeted
                        })
                    }
                },
            },
    {
        if self.state != ConnState::Fresh {
            return Err(MyError::NotReady);
        }
        let hp = HandshakePacket::from_payload(pld)?;
        if hp.protocol_version != 10 || hp.capability_flags & CLIENT_PROTOCOL_41 == 0 {
            return Err(MyError::Protocol);
        }
        self.handle_handshake(&hp);
        let r = self.do_handshake_response(&hp);
        if r.is_ok() {
            self.state = ConnState::AwaitingAuth;
        }
        r
    }

    /// The handshake response to the greeting `hp`, framed.
    pub fn do_handshake_response(&mut self, hp: &HandshakePacket) -> (r: Result<Vec<u8>, MyError>)
        ensures
            ({
                let db = opt_bytes(old(self).opts.db_name);
                let payload = handshake_response(
                    client_flags(old(self).capability_flags, db.len() > 0),
                    opt_bytes(old(self).opts.user),
                    scramble_of(hp.auth_plugin_data@, opt_bytes(old(self).opts.pass)),
                    db,
                );
                if too_large(payload.len(), old(self).max_allowed_packet as nat) {
                    r == Err::<Vec<u8>, _>(MyError::PacketTooLarge) && *final(self) == *old(self)
                } else {
                    r matches Ok(w) && w@ == frames_of(payload, old(self).seq_id) && *final(self)
                        == (MyConn {
                        seq_id: next_seq(old(self).seq_id, frame_count(payload.len())),
                        ..*old(self)
                    })
                }
            }),
    {
        let pass = self.opts.get_pass();
        let user = self.opts.get_user();
        let db = self.opts.get_db_name();
        let scr = scramble(hp.auth_plugin_data.as_slice(), pass.as_str().as_bytes());
        let payload = handshake_response_payload(
            self.capability_flags,
            user.as_str().as_bytes(),
            scr.as_slice(),
            db.as_str().as_bytes(),
        );
        self.write_packet(payload.as_slice())
    }

    /// Reads the server's verdict on the handshake response: an OK makes the
    /// connection ready, anything else breaks it.
    pub fn handle_auth_result(&mut self, pld: &[u8]) -> (r: Result<(), MyError>)
        ensures
            old(self).state != ConnState::AwaitingAuth ==> r == Err::<(), _>(MyError::NotReady)
                && *final(self) == *old(self),
            old(self).state == ConnState::AwaitingAuth ==> if pld@.len() > 0 && pld@[0] == 0 {
                match ok_fields(pld@) {
                    Some(f) => r is Ok && *final(self) == (MyConn {
                        state: ConnState::Ready,
                        ..after_ok(*old(self), f)
                    }),
                    None => r == Err::<(), _>(MyError::Protocol) && *final(self) == (MyConn {
                        state: ConnState::Broken,
                        ..*old(self)
                    }),
                }
            } else {
                *final(self) == (MyConn { state: ConnState::Broken, ..*old(self) }) && if pld@.len()
                    > 0 && pld@[0] == 0xff {
                    match err_fields(pld@) {
                        Some(f) => r matches Err(MyError::Server(p)) && p.fields() == f,
                        None => r == Err::<(), _>(MyError::Protocol),
                    }
                } else {
                    r == Err::<(), _>(MyError::Protocol)
                }
            },
    {
        if self.state != ConnState::AwaitingAuth {
            return Err(MyError::NotReady);
        }
        let r = if pld.len() > 0 && pld[0] == 0 {
            take_ok(self, pld)
        } else if pld.len() > 0 && pld[0] == 0xff {
            Err(server_error(pld))
        } else {
            Err(MyError::Protocol)
        };
        self.state = if r.is_ok() {
            ConnState::Ready
        } else {
            ConnState::Broken
        };
        r
    }

    /// Completes the connection with the server's `max_allowed_packet`, as the
    /// decimal text that `SELECT @@max_allowed_packet` returned; a missing,
    /// unreadable or zero value fails the connection.
    pub fn finish_connect(&mut self, max_allowed_packet: &[u8]) -> (r: Result<(), MyError>)
        ensures
            match decimal_of(max_allowed_packet@) {
                Some(n) if 0 < n <= usize::MAX => r is Ok && *final(self) == (MyConn {
                    max_allowed_packet: n as usize,
                    connected: true,
                    ..*old(self)
                }),
                _ => r == Err::<(), _>(MyError::Protocol) && *final(self) == *old(self),
            },
    {
        if max_allowed_packet.len() == 0 {
            return Err(MyError::Protocol);
        }
        let mut n: usize = 0;
        let mut i: usize = 0;
        while i < max_allowed_packet.len()
            invariant
                i <= max_allowed_packet@.len(),
                forall|k: int| 0 <= k < i ==> 48 <= #[trigger] max_allowed_packet@[k] <= 57,
                n == digits_value(max_allowed_packet@.take(i as int)),
            decreases max_allowed_packet.len() - i,
        {
            let c = max_allowed_packet[i];
            proof {
                assert(max_allowed_packet@.take(i + 1).drop_last() =~= max_allowed_packet@.take(i as int));
            }
            if c < 48 || c > 57 {
                return Err(MyError::Protocol);
            }
            let d = (c - 48) as usize;
            if n > (usize::MAX - d) / 10 {
                proof {
                    lemma_digits_grow(max_allowed_packet@, (i + 1) as nat);
                    assert(digits_value(max_allowed_packet@.take(i + 1)) == n * 10 + d);
                    assert(n * 10 + d > usize::MAX) by (nonlinear_arith)
                        requires
                            n > (usize::MAX - d) / 10,
                            d <= 9,
                    ;
                }
                return Err(MyError::Protocol);
            }
            n = n * 10 + d;
            i = i + 1;
        }
        assert(max_allowed_packet@.take(i as int) =~= max_allowed_packet@);
        if n == 0 {
            return Err(MyError::Protocol);
        }
        self.max_allowed_packet = n;
        self.connected = true;
        Ok(())
    }
}

/// Digits that follow only make the value larger.
proof fn lemma_digits_grow(s: Seq<u8>, i: nat)
    requires
        i <= s.len(),
    ensures
        digits_value(s) >= digits_value(s.take(i as int)),
    decreases s.len(),
{
    if i < s.len() {
        assert(s.drop_last().take(i as int) =~= s.take(i as int));
        lemma_digits_grow(s.drop_last(), i);
    } else {
        assert(s.take(i as int) =~= s);
    }
}

/// A result set being read: its columns, whether its rows are in the binary
/// form, and whether its end has been read.
pub struct QueryResult {
    pub columns: Vec<Column>,
    pub eof: bool,
    pub is_bin: bool,
}

/// The column definitions that `packets` hold, read as answers to `command`.
pub open spec fn columns_match(columns: Seq<Column>, command: u8, packets: Seq<Vec<u8>>) -> bool {
    &&& columns.len() == packets.len()
    &&& forall|i: int|
        0 <= i < columns.len() ==> crate::packets::column_fields(command, packets[i]@) == Some(
            #[trigger] columns[i].view_fields(),
        )
}

/// Whether every one of `packets` is a column definition.
pub open spec fn all_columns(command: u8, packets: Seq<Vec<u8>>) -> bool {
    forall|i: int| 0 <= i < packets.len() ==> (#[trigger] crate::packets::column_fields(command, packets[i]@)) is Some
}

/// Reads column definitions from `packets[start..end]`.
fn read_columns(command: u8, packets: &[Vec<u8>], start: usize, end: usize) -> (r: Result<Vec<Column>, MyError>)
    requires
        start <= end <= packets.len(),
    ensures
        match r {
            Ok(c) => columns_match(c@, command, packets@.subrange(start as int, end as int)),
            Err(e) => e == MyError::Protocol && !all_columns(
                command,
                packets@.subrange(start as int, end as int),
            ),
        },
{
    let mut out: Vec<Column> = Vec::new();
    let mut i: usize = start;
    while i < end
        invariant
            start <= i <= end <= packets.len(),
            columns_match(out@, command, packets@.subrange(start as int, i as int)),
        decreases end - i,
    {
        match Column::from_payload(command, packets[i].as_slice()) {
            Ok(c) => {
                out.push(c);
                assert(columns_match(out@, command, packets@.subrange(start as int, i + 1)));
            },
            Err(e) => {
                assert(packets@.subrange(start as int, end as int)[i - start] == packets@[i as int]);
                return Err(e);
            },
        }
        i = i + 1;
    }
    Ok(out)
}

/// How many packets follow a prepare response: the parameter definitions and
/// an EOF when there are any, then the column definitions and an EOF when
/// there are any.
pub open spec fn prepare_packet_count(num_params: u16, num_columns: u16) -> nat {
    (num_params + (if num_params > 0 {
        1nat
    } else {
        0
    }) + num_columns + (if num_columns > 0 {
        1nat
    } else {
        0
    })) as nat
}

impl Stmt {
    /// How many packets follow this statement's prepare response.
    pub fn definition_packets(&self) -> (r: usize)
        ensures
            r == prepare_packet_count(self.num_params, self.num_columns),
    {
        let p = self.num_params as usize;
        let c = self.num_columns as usize;
        p + (if p > 0 {
            1
        } else {
            0
        }) + c + (if c > 0 {
            1
        } else {
            0
        })
    }
}

impl MyConn {
    /// Dispatches on the first packet of the answer to a command. An OK or
    /// an ERR ends the exchange; a request for a local file starts an upload;
    /// a column count starts a result set; anything malformed breaks the
    /// connection.
    pub fn read_query_response(&mut self, pld: &[u8]) -> (r: Result<QueryResponse, MyError>)
        ensures
            old(self).state != ConnState::AwaitingResponse ==> r == Err::<QueryResponse, _>(
                MyError::NotReady,
            ) && *final(self) == *old(self),
            old(self).state == ConnState::AwaitingResponse ==> if pld@.len() == 0 {
                r == Err::<QueryResponse, _>(MyError::Protocol) && *final(self) == (MyConn {
                    state: ConnState::Broken,
                    ..*old(self)
                })
            } else if pld@[0] == 0 {
                match ok_fields(pld@) {
                    Some(f) => r == Ok::<_, MyError>(QueryResponse::Done) && *final(self) == (MyConn {
                        state: ConnState::Ready,
                        ..after_ok(*old(self), f)
                    }),
                    None => r == Err::<QueryResponse, _>(MyError::Protocol) && *final(self) == (
                    MyConn { state: ConnState::Broken, ..*old(self) }),
                }
            } else if pld@[0] == 0xff {
                match err_fields(pld@) {
                    Some(f) => (r matches Err(MyError::Server(p)) && p.fields() == f) && *final(self)
                        == (MyConn { state: ConnState::Ready, ..*old(self) }),
                    None => r == Err::<QueryResponse, _>(MyError::Protocol) && *final(self) == (
                    MyConn { state: ConnState::Broken, ..*old(self) }),
                }
            } else if pld@[0] == 0xfb && old(self).last_command == COM_QUERY {
                *final(self) == (MyConn { state: ConnState::LocalInfile, ..*old(self) }) && (r matches Ok(
                    QueryResponse::LocalInfile(name),
                ) && name@ == pld@.skip(1))
            } else {
                match lenenc_int_at(pld@, 0) {
                    Some((n, _)) => r == Ok::<_, MyError>(QueryResponse::ResultSet(n)) && *final(self)
                        == *old(self),
                    None => r == Err::<QueryResponse, _>(MyError::Protocol) && *final(self) == (
                    MyConn { state: ConnState::Broken, ..*old(self) }),
                }
            },
    {
        if self.state != ConnState::AwaitingResponse {
            return Err(MyError::NotReady);
        }
        if pld.len() == 0 {
            self.state = ConnState::Broken;
            return Err(MyError::Protocol);
        }
        if pld[0] == 0 {
            let r = take_ok(self, pld);
            return match r {
                Ok(()) => {
                    self.state = ConnState::Ready;
                    Ok(QueryResponse::Done)
                },
                Err(e) => {
                    self.state = ConnState::Broken;
                    Err(e)
                },
            };
        }
        if pld[0] == 0xff {
            let e = server_error(pld);
            self.state = match e {
                MyError::Server(_) => ConnState::Ready,
                _ => ConnState::Broken,
            };
            return Err(e);
        }
        if pld[0] == 0xfb && self.last_command == COM_QUERY {
            self.state = ConnState::LocalInfile;
            return Ok(QueryResponse::LocalInfile(crate::bytes::copy_range(pld, 1, pld.len())));
        }
        match read_lenenc_int(pld, 0) {
            Some((n, _)) => Ok(QueryResponse::ResultSet(n)),
            None => {
                self.state = ConnState::Broken;
                Err(MyError::Protocol)
            },
        }
    }

    /// Starts a result set from the packets after its header: `column_count`
    /// column definitions and an EOF. Its rows are then read.
    pub fn finish_result_set(&mut self, column_count: u64, packets: &[Vec<u8>], is_bin: bool) -> (r: Result<QueryResult, MyError>)
        ensures
            old(self).state != ConnState::AwaitingResponse ==> (r matches Err(e) && e
                == MyError::NotReady) && *final(self) == *old(self),
            old(self).state == ConnState::AwaitingResponse ==> if packets@.len() != column_count + 1 {
                (r matches Err(e) && e == MyError::Protocol) && *final(self) == (MyConn {
                    state: ConnState::Broken,
                    ..*old(self)
                })
            } else {
                match r {
                    Ok(q) => columns_match(q.columns@, old(self).last_command, packets@.drop_last())
                        && !q.eof && q.is_bin == is_bin && *final(self) == (MyConn {
                        state: if is_bin {
                            ConnState::InBinary
                        } else {
                            ConnState::InText
                        },
                        ..*old(self)
                    }),
                    Err(e) => e == MyError::Protocol && !all_columns(
                        old(self).last_command,
                        packets@.drop_last(),
                    ) && *final(self) == (MyConn { state: ConnState::Broken, ..*old(self) }),
                }
            },
    {
        if self.state != ConnState::AwaitingResponse {
            return Err(MyError::NotReady);
        }
        if packets.len() == 0 || packets.len() as u64 - 1 != column_count {
            self.state = ConnState::Broken;
            return Err(MyError::Protocol);
        }
        assert(packets@.subrange(0, packets.len() - 1) =~= packets@.drop_last());
        match read_columns(self.last_command, packets, 0, packets.len() - 1) {
            Ok(columns) => {
                self.state = if is_bin {
                    ConnState::InBinary
                } else {
                    ConnState::InText
                };
                Ok(QueryResult { columns, eof: false, is_bin })
            },
            Err(e) => {
                self.state = ConnState::Broken;
                Err(e)
            },
        }
    }

    /// Reads the first packet of the answer to a prepare command: an ERR
    /// ends the exchange, a statement header is followed by its definitions.
    pub fn read_prepare_response(&mut self, pld: &[u8]) -> (r: Result<Stmt, MyError>)
        ensures
            old(self).state != ConnState::AwaitingResponse ==> (r matches Err(e) && e
                == MyError::NotReady) && *final(self) == *old(self),
            old(self).state == ConnState::AwaitingResponse ==> if pld@.len() > 0 && pld@[0] == 0xff {
                match err_fields(pld@) {
                    Some(f) => (r matches Err(MyError::Server(p)) && p.fields() == f) && *final(self)
                        == (MyConn { state: ConnState::Ready, ..*old(self) }),
                    None => r == Err::<Stmt, _>(MyError::Protocol) && *final(self) == (MyConn {
                        state: ConnState::Broken,
                        ..*old(self)
                    }),
                }
            } else {
                match crate::packets::stmt_fields(pld@) {
                    Some(f) => (r matches Ok(st) && f == (st.statement_id, st.num_columns, st.num_params, st.warning_count)
                        && st.params@.len() == 0 && st.columns@.len() == 0) && *final(self) == *old(self),
                    None => r == Err::<Stmt, _>(MyError::Protocol) && *final(self) == (MyConn {
                        state: ConnState::Broken,
                        ..*old(self)
                    }),
                }
            },
    {
        if self.state != ConnState::AwaitingResponse {
            return Err(MyError::NotReady);
        }
        if pld.len() > 0 && pld[0] == 0xff {
            let e = server_error(pld);
            self.state = match e {
                MyError::Server(_) => ConnState::Ready,
                _ => ConnState::Broken,
            };
            return Err(e);
        }
        let r = Stmt::from_payload(pld);
        if r.is_err() {
            self.state = ConnState::Broken;
        }
        r
    }

    /// Completes a prepared statement with the packets that follow its
    /// header: the parameter definitions, then the column definitions, each
    /// list closed by an EOF when it is not empty. The connection is then
    /// ready again.
    pub fn finish_prepare(&mut self, stmt: Stmt, packets: &[Vec<u8>]) -> (r: Result<Stmt, MyError>)
        ensures
            old(self).state != ConnState::AwaitingResponse ==> (r matches Err(e) && e
                == MyError::NotReady) && *final(self) == *old(self),
            old(self).state == ConnState::AwaitingResponse ==> *final(self) == (MyConn {
                state: if r is Ok {
                    ConnState::Ready
                } else {
                    ConnState::Broken
                },
                ..*old(self)
            }),
            old(self).state == ConnState::AwaitingResponse && packets@.len() != prepare_packet_count(
                stmt.num_params,
                stmt.num_columns,
            ) ==> (r matches Err(e) && e == MyError::Protocol),
            r matches Ok(st) ==> {
                let p = stmt.num_params as int;
                let c0 = if p > 0 {
                    p + 1
                } else {
                    0
                };
                &&& st.wf()
                &&& st.statement_id == stmt.statement_id
                &&& st.num_params == stmt.num_params
                &&& st.num_columns == stmt.num_columns
                &&& st.warning_count == stmt.warning_count
                &&& columns_match(st.params@, old(self).last_command, packets@.subrange(0, p))
                &&& columns_match(
                    st.columns@,
                    old(self).last_command,
                    packets@.subrange(c0, c0 + stmt.num_columns),
                )
            },
            old(self).state == ConnState::AwaitingResponse && packets@.len() == prepare_packet_count(
                stmt.num_params,
                stmt.num_columns,
            ) && r is Err ==> {
                let p = stmt.num_params as int;
                let c0 = if p > 0 {
                    p + 1
                } else {
                    0
                };
                !all_columns(old(self).last_command, packets@.subrange(0, p)) || !all_columns(
                    old(self).last_command,
                    packets@.subrange(c0, c0 + stmt.num_columns),
                )
            },
    {
        if self.state != ConnState::AwaitingResponse {
            return Err(MyError::NotReady);
        }
        let r = self.definitions(stmt, packets);
        self.state = if r.is_ok() {
            ConnState::Ready
        } else {
            ConnState::Broken
        };
        r
    }

    fn definitions(&self, stmt: Stmt, packets: &[Vec<u8>]) -> (r: Result<Stmt, MyError>)
        ensures
            packets@.len() != prepare_packet_count(stmt.num_params, stmt.num_columns) ==> (r matches Err(e)
                && e == MyError::Protocol),
            r matches Ok(st) ==> {
                let p = stmt.num_params as int;
                let c0 = if p > 0 {
                    p + 1
                } else {
                    0
                };
                &&& st.wf()
                &&& st.statement_id == stmt.statement_id
                &&& st.num_params == stmt.num_params
                &&& st.num_columns == stmt.num_columns
                &&& st.warning_count == stmt.warning_count
                &&& columns_match(st.params@, self.last_command, packets@.subrange(0, p))
                &&& columns_match(st.columns@, self.last_command, packets@.subrange(c0, c0 + stmt.num_columns))
            },
            packets@.len() == prepare_packet_count(stmt.num_params, stmt.num_columns) && r is Err ==> {
                let p = stmt.num_params as int;
                let c0 = if p > 0 {
                    p + 1
                } else {
                    0
                };
                !all_columns(self.last_command, packets@.subrange(0, p)) || !all_columns(
                    self.last_command,
                    packets@.subrange(c0, c0 + stmt.num_columns),
                )
            },
    {
        let n = stmt.definition_packets();
        if packets.len() != n {
            return Err(MyError::Protocol);
        }
        let p = stmt.num_params as usize;
        let c0 = if p > 0 {
            p + 1
        } else {
            0
        };
        let c = stmt.num_columns as usize;
        let params = read_columns(self.last_command, packets, 0, p)?;
        let columns = read_columns(self.last_command, packets, c0, c0 + c)?;
        Ok(
            Stmt {
                params,
                columns,
                statement_id: stmt.statement_id,
                num_columns: stmt.num_columns,
                num_params: stmt.num_params,
                warning_count: stmt.warning_count,
            },
        )
    }
}

/// Whether a payload is the EOF that ends a list: first byte `0xfe` and
/// shorter than nine bytes.
pub open spec fn is_eof_packet(pld: Seq<u8>) -> bool {
    pld.len() > 0 && pld[0] == 0xfe && pld.len() < 9
}

impl QueryResult {
    /// Whether the end of the result set has been read.
    pub fn is_done(&self) -> (r: bool)
        ensures
            r == self.eof,
    {
        self.eof
    }

    /// Takes the next packet of the result set: a row, the end (`None`), or an
    /// error, which also ends it. Nothing is read once the end is reached.
    pub fn next(&mut self, conn: &mut MyConn, pld: &[u8]) -> (r: Option<Result<Vec<Value>, MyError>>)
        ensures
            final(self).columns == old(self).columns,
            final(self).is_bin == old(self).is_bin,
            old(self).eof ==> r is None && *final(self) == *old(self) && *final(conn) == *old(conn),
            !old(self).eof ==> if pld@.len() == 0 {
                r == Some(Err::<Vec<Value>, _>(MyError::Protocol)) && final(self).eof && *final(conn)
                    == (MyConn { state: ConnState::Broken, ..*old(conn) })
            } else if is_eof_packet(pld@) {
                final(self).eof && match crate::packets::eof_fields(pld@) {
                    Some((_, status)) => r is None && *final(conn) == (MyConn {
                        state: ConnState::Ready,
                        status_flags: status,
                        ..*old(conn)
                    }),
                    None => r == Some(Err::<Vec<Value>, _>(MyError::Protocol)) && *final(conn)
                        == (MyConn { state: ConnState::Broken, ..*old(conn) }),
                }
            } else if !old(self).is_bin && pld@[0] == 0xff {
                final(self).eof && match err_fields(pld@) {
                    Some(f) => (r matches Some(Err(MyError::Server(p))) && p.fields() == f)
                        && *final(conn) == (MyConn { state: ConnState::Ready, ..*old(conn) }),
                    None => r == Some(Err::<Vec<Value>, _>(MyError::Protocol)) && *final(conn)
                        == (MyConn { state: ConnState::Broken, ..*old(conn) }),
                }
            } else {
                match (if old(self).is_bin {
                    bin_row(pld@, column_kinds(old(self).columns@))
                } else {
                    text_row_at(pld@, 0)
                }) {
                    Some(vs) => !final(self).eof && (r matches Some(Ok(v)) && views(v@) == vs)
                        && *final(conn) == *old(conn),
                    None => final(self).eof && r == Some(Err::<Vec<Value>, _>(MyError::Protocol))
                        && *final(conn) == (MyConn { state: ConnState::Broken, ..*old(conn) }),
                }
            },
    {
        if self.eof {
            return None;
        }
        if pld.len() == 0 {
            self.eof = true;
            conn.state = ConnState::Broken;
            return Some(Err(MyError::Protocol));
        }
        if pld[0] == 0xfe && pld.len() < 9 {
            self.eof = true;
            return match EOFPacket::from_payload(pld) {
                Ok(p) => {
                    conn.handle_eof(&p);
                    conn.state = ConnState::Ready;
                    None
                },
                Err(e) => {
                    conn.state = ConnState::Broken;
                    Some(Err(e))
                },
            };
        }
        if !self.is_bin && pld[0] == 0xff {
            self.eof = true;
            let e = server_error(pld);
            conn.state = match e {
                MyError::Server(_) => ConnState::Ready,
                _ => ConnState::Broken,
            };
            return Some(Err(e));
        }
        let res = if self.is_bin {
            Value::from_bin_payload(pld, self.columns.as_slice())
        } else {
            Value::from_payload(pld, self.columns.len())
        };
        match res {
            Ok(row) => Some(Ok(row)),
            Err(e) => {
                self.eof = true;
                conn.state = ConnState::Broken;
                Some(Err(e))
            },
        }
    }
}

/// The type descriptor of a parameter: its type byte and the unsigned flag.
/// A `NULL` takes the type of its parameter's definition.
pub open spec fn type_bytes(v: ValueView, param_type: u8) -> Seq<u8> {
    match v {
        ValueView::NULL => seq![param_type, 0u8],
        ValueView::Bytes(_) => seq![MYSQL_TYPE_VAR_STRING, 0u8],
        ValueView::Int(_) => seq![MYSQL_TYPE_LONGLONG, 0u8],
        ValueView::UInt(_) => seq![MYSQL_TYPE_LONGLONG, 128u8],
        ValueView::Float(_) => seq![MYSQL_TYPE_DOUBLE, 0u8],
        ValueView::Date(..) => seq![MYSQL_TYPE_DATE, 0u8],
        ValueView::Time(..) => seq![MYSQL_TYPE_TIME, 0u8],
    }
}

/// The type descriptors of all parameters.
pub open spec fn param_types(values: Seq<ValueView>, params: Seq<Column>) -> Seq<u8>
    decreases values.len(),
{
    if values.len() == 0 {
        Seq::empty()
    } else {
        param_types(values.drop_last(), params) + type_bytes(
            values.last(),
            params[values.len() - 1].column_type,
        )
    }
}

/// What follows the command byte of `COM_STMT_EXECUTE`: the statement id, no
/// flags, one iteration, and with parameters their null bitmap, the
/// new-parameters flag, their types and the inline values.
pub open spec fn execute_body(stmt: Stmt, values: Seq<ValueView>, max_allowed_packet: nat) -> Seq<u8> {
    le_bytes(stmt.statement_id as nat, 4) + seq![0u8] + le_bytes(1, 4) + if stmt.num_params > 0 {
        null_bitmap(null_flags(values), 0) + seq![1u8] + param_types(values, stmt.params@) + param_values(
            values,
            inline_cap(max_allowed_packet, values.len()),
        ).0
    } else {
        Seq::empty()
    }
}

/// One `COM_STMT_SEND_LONG_DATA` payload.
pub open spec fn long_data_payload(stmt_id: u32, id: u16, chunk: Seq<u8>) -> Seq<u8> {
    seq![COM_STMT_SEND_LONG_DATA] + le_bytes(stmt_id as nat, 4) + le_bytes(id as nat, 2) + chunk
}

/// The frames that send `data` for parameter `id` in chunks of `size` bytes,
/// each chunk a command of its own.
pub open spec fn long_data_frames(stmt_id: u32, id: u16, data: Seq<u8>, size: nat) -> Seq<u8>
    decreases data.len(),
{
    if data.len() == 0 || size == 0 {
        Seq::empty()
    } else {
        let n = if data.len() < size {
            data.len() as int
        } else {
            size as int
        };
        frames_of(long_data_payload(stmt_id, id, data.take(n)), 0) + long_data_frames(
            stmt_id,
            id,
            data.skip(n),
            size,
        )
    }
}

/// The long-data frames of the parameters `ids`, in order.
pub open spec fn long_data_wire(stmt_id: u32, values: Seq<ValueView>, ids: Seq<u16>, size: nat) -> Seq<u8>
    decreases ids.len(),
{
    if ids.len() == 0 {
        Seq::empty()
    } else {
        long_data_wire(stmt_id, values, ids.drop_last(), size) + match values[ids.last() as int] {
            ValueView::Bytes(b) => long_data_frames(stmt_id, ids.last(), b, size),
            _ => Seq::empty(),
        }
    }
}

impl MyConn {
    /// Sends `data` for parameter `id` as long data, in chunks of at most
    /// `max_allowed_packet - 7` bytes; returns the frames.
    fn send_long_data_chunks(&mut self, stmt_id: u32, id: u16, data: &[u8]) -> (r: Vec<u8>)
        requires
            old(self).max_allowed_packet > 7,
        ensures
            r@ == long_data_frames(stmt_id, id, data@, (old(self).max_allowed_packet - 7) as nat),
            *final(self) == (MyConn {
                seq_id: final(self).seq_id,
                last_command: final(self).last_command,
                ..*old(self)
            }),
    {
        let size = self.max_allowed_packet - 7;
        let mut out: Vec<u8> = Vec::new();
        let mut pos: usize = 0;
        proof {
            assert(data@.skip(0) =~= data@);
            assert(out@ + long_data_frames(stmt_id, id, data@, size as nat) =~= long_data_frames(stmt_id, id, data@, size as nat));
        }
        while pos < data.len()
            invariant
                pos <= data.len(),
                size == self.max_allowed_packet - 7,
                size > 0,
                *self == (MyConn { seq_id: self.seq_id, last_command: self.last_command, ..*old(self) }),
                out@ + long_data_frames(stmt_id, id, data@.skip(pos as int), size as nat)
                    == long_data_frames(stmt_id, id, data@, size as nat),
            decreases data.len() - pos,
        {
            let n = if data.len() - pos < size {
                data.len() - pos
            } else {
                size
            };
            let mut payload: Vec<u8> = Vec::new();
            write_le(&mut payload, stmt_id as u64, 4);
            write_le(&mut payload, id as u64, 2);
            append_slice(&mut payload, &data[pos..pos + n]);
            proof {
                crate::bytes::lemma_le_bytes_len(stmt_id as nat, 4);
                crate::bytes::lemma_le_bytes_len(id as nat, 2);
                assert(data@.subrange(pos as int, pos + n) =~= data@.skip(pos as int).take(n as int));
                assert(seq![COM_STMT_SEND_LONG_DATA] + payload@ =~= long_data_payload(
                    stmt_id,
                    id,
                    data@.skip(pos as int).take(n as int),
                ));
            }
            let ghost before = out@;
            match self.frame_command(COM_STMT_SEND_LONG_DATA, payload.as_slice()) {
                Ok(w) => {
                    append_slice(&mut out, w.as_slice());
                },
                Err(_) => {
                    assert(false);
                },
            }
            proof {
                assert(data@.skip(pos as int).skip(n as int) =~= data@.skip(pos + n));
                let rest = data@.skip(pos as int);
                assert(rest.len() == data.len() - pos && rest.len() > 0 && size > 0);
                assert(long_data_frames(stmt_id, id, rest, size as nat) == frames_of(
                    long_data_payload(stmt_id, id, rest.take(n as int)),
                    0,
                ) + long_data_frames(stmt_id, id, rest.skip(n as int), size as nat));
                assert(out@ + long_data_frames(stmt_id, id, data@.skip(pos + n), size as nat) =~= before
                    + long_data_frames(stmt_id, id, rest, size as nat));
            }
            pos = pos + n;
        }
        proof {
            assert(out@ + long_data_frames(stmt_id, id, data@.skip(pos as int), size as nat) =~= out@);
        }
        out
    }

    /// Sends the `Bytes` parameters at `ids` as long data; returns the frames.
    pub fn send_long_data(&mut self, stmt: &Stmt, params: &[Value], ids: &[u16]) -> (r: Vec<u8>)
        requires
            old(self).max_allowed_packet > 7,
            forall|i: int| 0 <= i < ids@.len() ==> (#[trigger] ids@[i] as int) < params@.len(),
        ensures
            r@ == long_data_wire(
                stmt.statement_id,
                views(params@),
                ids@,
                (old(self).max_allowed_packet - 7) as nat,
            ),
            *final(self) == (MyConn {
                seq_id: final(self).seq_id,
                last_command: final(self).last_command,
                ..*old(self)
            }),
    {
        let ghost size = (self.max_allowed_packet - 7) as nat;
        let ghost vs = views(params@);
        let mut out: Vec<u8> = Vec::new();
        let mut j: usize = 0;
        proof {
            assert(ids@.take(0) =~= Seq::<u16>::empty());
        }
        while j < ids.len()
            invariant
                j <= ids@.len(),
                size == old(self).max_allowed_packet - 7,
                self.max_allowed_packet == old(self).max_allowed_packet,
                vs == views(params@),
                forall|i: int| 0 <= i < ids@.len() ==> (#[trigger] ids@[i] as int) < params@.len(),
                self.max_allowed_packet > 7,
                *self == (MyConn { seq_id: self.seq_id, last_command: self.last_command, ..*old(self) }),
                out@ == long_data_wire(stmt.statement_id, vs, ids@.take(j as int), size),
            decreases ids.len() - j,
        {
            let id = ids[j];
            proof {
                assert(ids@.take(j + 1).drop_last() =~= ids@.take(j as int));
                assert(ids@.take(j + 1).last() == id);
                assert((ids@[j as int] as int) < params@.len());
            }
            match &params[id as usize] {
                Value::Bytes(x) => {
                    let w = self.send_long_data_chunks(stmt.statement_id, id, x.as_slice());
                    append_slice(&mut out, w.as_slice());
                },
                _ => {
                    assert(out@ =~= out@ + Seq::<u8>::empty());
                },
            }
            j = j + 1;
        }
        assert(ids@.take(ids@.len() as int) =~= ids@);
        out
    }

    /// Executes a prepared statement with `params`: the long-data frames of
    /// the parameters that do not fit, then the frames of the execute command.
    pub fn execute(&mut self, stmt: &Stmt, params: &[Value]) -> (r: Result<Vec<u8>, MyError>)
        requires
            stmt.wf(),
        ensures
            old(self).state != ConnState::Ready ==> r == Err::<Vec<u8>, _>(MyError::NotReady)
                && *final(self) == *old(self),
            old(self).state == ConnState::Ready && params@.len() != stmt.num_params ==> r == Err::<Vec<u8>, _>(
                MyError::ParamCountMismatch { expected: stmt.num_params, supplied: params@.len() as usize },
            ) && *final(self) == *old(self),
            old(self).state == ConnState::Ready && params@.len() == stmt.num_params ==> {
                let vs = views(params@);
                let max = old(self).max_allowed_packet as nat;
                let ids = param_values(vs, inline_cap(max, vs.len())).1;
                let payload = seq![COM_STMT_EXECUTE] + execute_body(*stmt, vs, max);
                if stmt.num_params > 0 && ids.len() > 0 && max <= 7 {
                    r == Err::<Vec<u8>, _>(MyError::PacketTooLarge) && *final(self) == *old(self)
                } else if too_large(payload.len(), max) {
                    r == Err::<Vec<u8>, _>(MyError::PacketTooLarge) && *final(self) == (MyConn {
                        seq_id: 0,
                        last_command: COM_STMT_EXECUTE,
                        ..*old(self)
                    })
                } else {
                    r matches Ok(w) && w@ == (if stmt.num_params > 0 {
                        long_data_wire(stmt.statement_id, vs, ids, (max - 7) as nat)
                    } else {
                        Seq::empty()
                    }) + frames_of(payload, 0) && *final(self) == (MyConn {
                        state: ConnState::AwaitingResponse,
                        seq_id: next_seq(0, frame_count(payload.len())),
                        last_command: COM_STMT_EXECUTE,
                        ..*old(self)
                    })
                }
            },
    {
        if self.state != ConnState::Ready {
            return Err(MyError::NotReady);
        }
        if stmt.num_params as usize != params.len() {
            return Err(MyError::ParamCountMismatch { expected: stmt.num_params, supplied: params.len() });
        }
        let ghost vs = views(params@);
        let ghost max = self.max_allowed_packet as nat;
        let mut body: Vec<u8> = Vec::new();
        write_le(&mut body, stmt.statement_id as u64, 4);
        body.push(0);
        write_le(&mut body, 1, 4);
        let mut wire: Vec<u8> = Vec::new();
        if stmt.num_params > 0 {
            let (bitmap, values, ids) = Value::to_bin_payload(params, self.max_allowed_packet);
            if ids.len() > 0 {
                if self.max_allowed_packet <= 7 {
                    return Err(MyError::PacketTooLarge);
                }
                proof {
                    let cap = inline_cap(max, vs.len());
                    lemma_long_ids_in_range(vs, cap);
                    assert(ids@ == param_values(vs, cap).1);
                    assert forall|i: int| 0 <= i < ids@.len() implies (#[trigger] ids@[i] as int) < params@.len() by {
                        assert(ids@[i] == param_values(vs, cap).1[i]);
                    }
                }
                wire = self.send_long_data(stmt, params, ids.as_slice());
            }
            append_slice(&mut body, bitmap.as_slice());
            body.push(1);
            let ghost before = body@;
            let mut i: usize = 0;
            while i < params.len()
                invariant
                    i <= params@.len() == stmt.params@.len(),
                    vs == views(params@),
                    body@ == before + param_types(vs.take(i as int), stmt.params@),
                decreases params.len() - i,
            {
                let ty: u8 = match &params[i] {
                    Value::NULL => stmt.params[i].column_type,
                    Value::Bytes(_) => MYSQL_TYPE_VAR_STRING,
                    Value::Int(_) => MYSQL_TYPE_LONGLONG,
                    Value::UInt(_) => MYSQL_TYPE_LONGLONG,
                    Value::Float(_) => MYSQL_TYPE_DOUBLE,
                    Value::Date(..) => MYSQL_TYPE_DATE,
                    Value::Time(..) => MYSQL_TYPE_TIME,
                };
                let flag: u8 = match &params[i] {
                    Value::UInt(_) => 128,
                    _ => 0,
                };
                body.push(ty);
                body.push(flag);
                proof {
                    assert(vs.take(i + 1).drop_last() =~= vs.take(i as int));
                    assert(vs.take(i + 1).last() == params@[i as int]@);
                    assert(body@ =~= before + param_types(vs.take(i + 1), stmt.params@));
                }
                i = i + 1;
            }
            assert(vs.take(params.len() as int) =~= vs);
            append_slice(&mut body, values.as_slice());
        }
        assert(body@ =~= execute_body(*stmt, vs, max));
        let frames = self.frame_command(COM_STMT_EXECUTE, body.as_slice())?;
        append_slice(&mut wire, frames.as_slice());
        self.state = ConnState::AwaitingResponse;
        Ok(wire)
    }
}

/// The indexes of the long-data parameters are indexes of parameters.
proof fn lemma_long_ids_in_range(values: Seq<ValueView>, cap: nat)
    requires
        values.len() <= 0xffff,
    ensures
        forall|i: int| 0 <= i < param_values(values, cap).1.len() ==> (#[trigger] param_values(values, cap).1[i] as int) < values.len(),
    decreases values.len(),
{
    if values.len() > 0 {
        lemma_long_ids_in_range(values.drop_last(), cap);
        let prev = param_values(values.drop_last(), cap).1;
        let cur = param_values(values, cap).1;
        assert(((values.len() - 1) as u16) as int == values.len() - 1);
        assert(cur == prev || cur == prev.push((values.len() - 1) as u16));
    }
}

impl MyConn {
    /// The empty packet that ends an upload of a local file.
    pub fn end_local_infile(&mut self) -> (r: Result<Vec<u8>, MyError>)
        ensures
            r matches Ok(w) && w@ == frames_of(Seq::empty(), old(self).seq_id),
            *final(self) == (MyConn { seq_id: next_seq(old(self).seq_id, 1), ..*old(self) }),
    {
        let empty: [u8; 0] = [];
        proof {
            assert(empty@.len() == 0);
            assert(0nat / (MAX_PAYLOAD_LEN as nat) == 0);
        }
        self.write_packet(&empty)
    }

    /// Reads the server's answer after an uploaded local file: an OK is taken
    /// over, an ERR is passed on; either makes the connection ready again.
    pub fn finish_local_infile(&mut self, pld: &[u8]) -> (r: Result<(), MyError>)
        ensures
            old(self).state != ConnState::LocalInfile ==> r == Err::<(), _>(MyError::NotReady)
                && *final(self) == *old(self),
            old(self).state == ConnState::LocalInfile ==> if pld@.len() > 0 && pld@[0] == 0 {
                match ok_fields(pld@) {
                    Some(f) => r is Ok && *final(self) == (MyConn {
                        state: ConnState::Ready,
                        ..after_ok(*old(self), f)
                    }),
                    None => r == Err::<(), _>(MyError::Protocol) && *final(self) == (MyConn {
                        state: ConnState::Broken,
                        ..*old(self)
                    }),
                }
            } else if pld@.len() > 0 && pld@[0] == 0xff {
                match err_fields(pld@) {
                    Some(f) => (r matches Err(MyError::Server(p)) && p.fields() == f) && *final(self)
                        == (MyConn { state: ConnState::Ready, ..*old(self) }),
                    None => r == Err::<(), _>(MyError::Protocol) && *final(self) == (MyConn {
                        state: ConnState::Broken,
                        ..*old(self)
                    }),
                }
            } else {
                r == Err::<(), _>(MyError::Protocol) && *final(self) == (MyConn {
                    state: ConnState::Broken,
                    ..*old(self)
                })
            },
    {
        if self.state != ConnState::LocalInfile {
            return Err(MyError::NotReady);
        }
        if pld.len() > 0 && pld[0] == 0 {
            let r = take_ok(self, pld);
            self.state = if r.is_ok() {
                ConnState::Ready
            } else {
                ConnState::Broken
            };
            r
        } else if pld.len() > 0 && pld[0] == 0xff {
            let e = server_error(pld);
            self.state = match e {
                MyError::Server(_) => ConnState::Ready,
                _ => ConnState::Broken,
            };
            Err(e)
        } else {
            self.state = ConnState::Broken;
            Err(MyError::Protocol)
        }
    }
}

} // verus!
