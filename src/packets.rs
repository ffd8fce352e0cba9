//! Decoders of the server's OK, ERR, EOF, handshake, prepare-response and
//! column-definition packets.

use vstd::prelude::*;
use crate::bytes::{le_value, lenenc_int_at, lenenc_bytes_at, read_lenenc_int, read_lenenc_bytes};
use crate::bytes::{read_u16_le, read_u32_le, copy_range};
use crate::consts::{CLIENT_PLUGIN_AUTH, CLIENT_SECURE_CONNECTION, COM_FIELD_LIST};
use crate::error::MyError;

verus! {

/// The little-endian `u16` at `pos`.
pub open spec fn u16_at(s: Seq<u8>, pos: int) -> u16 {
    le_value(s.subrange(pos, pos + 2)) as u16
}

/// The little-endian `u32` at `pos`.
pub open spec fn u32_at(s: Seq<u8>, pos: int) -> u32 {
    le_value(s.subrange(pos, pos + 4)) as u32
}

fn get_u16(buf: &[u8], pos: usize) -> (r: Result<u16, MyError>)
    ensures
        match r {
            Ok(v) => pos + 2 <= buf.len() && v == u16_at(buf@, pos as int),
            Err(e) => pos + 2 > buf.len() && e == MyError::Protocol,
        },
{
    match read_u16_le(buf, pos) {
        Some(v) => Ok(v),
        None => Err(MyError::Protocol),
    }
}

fn get_u32(buf: &[u8], pos: usize) -> (r: Result<u32, MyError>)
    ensures
        match r {
            Ok(v) => pos + 4 <= buf.len() && v == u32_at(buf@, pos as int),
            Err(e) => pos + 4 > buf.len() && e == MyError::Protocol,
        },
{
    match read_u32_le(buf, pos) {
        Some(v) => Ok(v),
        None => Err(MyError::Protocol),
    }
}

/// The server's answer that a command succeeded.
#[derive(Clone, Debug, PartialEq, Eq)]
pub struct OkPacket {
    pub affected_rows: u64,
    pub last_insert_id: u64,
    pub status_flags: u16,
    pub warnings: u16,
    pub info: Vec<u8>,
}

/// The fields of an OK payload: after the header byte, two length-encoded
/// integers, status flags and warnings, then the info bytes to the end.
pub open spec fn ok_fields(s: Seq<u8>) -> Option<(u64, u64, u16, u16, Seq<u8>)> {
    match lenenc_int_at(s, 1) {
        Some((affected_rows, after_rows)) => match lenenc_int_at(s, after_rows) {
            Some((last_insert_id, after_id)) => if after_id + 4 <= s.len() {
                Some(
                    (
                        affected_rows,
                        last_insert_id,
                        u16_at(s, after_id),
                        u16_at(s, after_id + 2),
                        s.subrange(after_id + 4, s.len() as int),
                    ),
                )
            } else {
                None
            },
            None => None,
        },
        None => None,
    }
}

impl OkPacket {
    /// The packet's fields in the order of `ok_fields`.
    pub open spec fn fields(&self) -> (u64, u64, u16, u16, Seq<u8>) {
        (self.affected_rows, self.last_insert_id, self.status_flags, self.warnings, self.info@)
    }

    /// Decodes an OK payload.
    pub fn from_payload(pld: &[u8]) -> (r: Result<OkPacket, MyError>)
        ensures
            match r {
                Ok(p) => ok_fields(pld@) == Some(p.fields()),
                Err(e) => ok_fields(pld@) is None && e == MyError::Protocol,
            },
    {
        let (affected_rows, after_rows) = match read_lenenc_int(pld, 1) {
            Some(x) => x,
            None => {
                return Err(MyError::Protocol);
            },
        };
        let (last_insert_id, after_id) = match read_lenenc_int(pld, after_rows) {
            Some(x) => x,
            None => {
                return Err(MyError::Protocol);
            },
        };
        let status_flags = get_u16(pld, after_id)?;
        let warnings = get_u16(pld, after_id + 2)?;
        let info = copy_range(pld, after_id + 4, pld.len());
        Ok(OkPacket { affected_rows, last_insert_id, status_flags, warnings, info })
    }
}

/// The server's answer that a command failed.
#[derive(Clone, Debug, PartialEq, Eq)]
pub struct ErrPacket {
    pub sql_state: Vec<u8>,
    pub error_message: Vec<u8>,
    pub error_code: u16,
}

/// The fields of an ERR payload: the code after the header byte, a marker byte,
/// five bytes of SQL state, then the message to the end.
pub open spec fn err_fields(s: Seq<u8>) -> Option<(u16, Seq<u8>, Seq<u8>)> {
    if s.len() >= 9 {
        Some((u16_at(s, 1), s.subrange(4, 9), s.subrange(9, s.len() as int)))
    } else {
        None
    }
}

impl ErrPacket {
    /// The packet's fields in the order of `err_fields`.
    pub open spec fn fields(&self) -> (u16, Seq<u8>, Seq<u8>) {
        (self.error_code, self.sql_state@, self.error_message@)
    }

    /// Decodes an ERR payload.
    pub fn from_payload(pld: &[u8]) -> (r: Result<ErrPacket, MyError>)
        ensures
            match r {
                Ok(p) => err_fields(pld@) == Some(p.fields()),
                Err(e) => err_fields(pld@) is None && e == MyError::Protocol,
            },
    {
        if pld.len() < 9 {
            return Err(MyError::Protocol);
        }
        let error_code = get_u16(pld, 1)?;
        let sql_state = copy_range(pld, 4, 9);
        let error_message = copy_range(pld, 9, pld.len());
        Ok(ErrPacket { sql_state, error_message, error_code })
    }
}

/// The server's marker of the end of a list of columns or rows.
#[derive(Clone, Copy, Debug, PartialEq, Eq)]
pub struct EOFPacket {
    pub warnings: u16,
    pub status_flags: u16,
}

/// The fields of an EOF payload: warnings and status flags after the header byte.
pub open spec fn eof_fields(s: Seq<u8>) -> Option<(u16, u16)> {
    if s.len() >= 5 {
        Some((u16_at(s, 1), u16_at(s, 3)))
    } else {
        None
    }
}

impl EOFPacket {
    /// Decodes an EOF payload.
    pub fn from_payload(pld: &[u8]) -> (r: Result<EOFPacket, MyError>)
        ensures
            match r {
                Ok(p) => eof_fields(pld@) == Some((p.warnings, p.status_flags)),
                Err(e) => eof_fields(pld@) is None && e == MyError::Protocol,
            },
    {
        let warnings = get_u16(pld, 1)?;
        let status_flags = get_u16(pld, 3)?;
        Ok(EOFPacket { warnings, status_flags })
    }
}

/// The position of the first zero byte at or after `i`.
pub open spec fn first_zero(s: Seq<u8>, i: int) -> Option<int>
    decreases s.len() - i,
{
    if i < 0 || i >= s.len() {
        None
    } else if s[i] == 0 {
        Some(i)
    } else {
        first_zero(s, i + 1)
    }
}

/// `s` without its last byte when that byte is zero.
pub open spec fn strip_nul(s: Seq<u8>) -> Seq<u8> {
    if s.len() > 0 && s.last() == 0 {
        s.drop_last()
    } else {
        s
    }
}

/// The server's greeting.
#[derive(Clone, Debug, PartialEq, Eq)]
pub struct HandshakePacket {
    pub auth_plugin_data: Vec<u8>,
    pub auth_plugin_name: Vec<u8>,
    pub connection_id: u32,
    pub capability_flags: u32,
    pub status_flags: u16,
    pub protocol_version: u8,
    pub character_set: u8,
}

/// The length of the second part of the scramble seed, given the length byte
/// that the server sent for the whole seed.
pub open spec fn seed_rest_len(total: int) -> int {
    if total - 8 > 13 {
        total - 8
    } else {
        13
    }
}

/// The fields of a handshake payload: protocol version, connection id, seed,
/// capability flags, character set, status flags and auth plugin name.
///
/// After the version byte comes a zero-terminated server version, the
/// connection id, eight seed bytes, a filler and the low capability flags. The
/// short form ends there. The long form goes on with the character set, status
/// flags, high capability flags, the seed length (with `CLIENT_PLUGIN_AUTH`),
/// ten reserved bytes, the rest of the seed (with `CLIENT_SECURE_CONNECTION`)
/// and the plugin name (with `CLIENT_PLUGIN_AUTH`); a trailing zero of the
/// seed and of the name is dropped.
pub open spec fn handshake_fields(s: Seq<u8>) -> Option<(u8, u32, Seq<u8>, u32, u8, u16, Seq<u8>)> {
    match first_zero(s, 1) {
        None => None,
        Some(z) => if z + 16 > s.len() {
            None
        } else {
            let connection_id = u32_at(s, z + 1);
            let seed = s.subrange(z + 5, z + 13);
            let cap_low = u16_at(s, z + 14);
            if z + 16 == s.len() {
                Some((s[0], connection_id, seed, cap_low as u32, 0u8, 0u16, Seq::empty()))
            } else if z + 32 > s.len() {
                None
            } else {
                let cap = (cap_low as nat + u16_at(s, z + 19) as nat * 0x10000) as u32;
                let plugin = cap & CLIENT_PLUGIN_AUTH != 0;
                let secure = cap & CLIENT_SECURE_CONNECTION != 0;
                let total: int = if plugin {
                    s[z + 21] as int
                } else {
                    0
                };
                let n = seed_rest_len(total);
                if secure && z + 32 + n > s.len() {
                    None
                } else {
                    let full_seed = if secure {
                        strip_nul(seed + s.subrange(z + 32, z + 32 + n))
                    } else {
                        seed
                    };
                    let q = if secure {
                        z + 32 + n
                    } else {
                        z + 32
                    };
                    let name = if plugin {
                        strip_nul(s.subrange(q, s.len() as int))
                    } else {
                        Seq::empty()
                    };
                    Some((s[0], connection_id, full_seed, cap, s[z + 16], u16_at(s, z + 17), name))
                }
            }
        },
    }
}

/// Drops the last byte of `v` when it is zero.
fn pop_nul(v: &mut Vec<u8>)
    ensures
        final(v)@ == strip_nul(old(v)@),
{
    if v.len() > 0 && v[v.len() - 1] == 0 {
        v.pop();
    }
}

impl HandshakePacket {
    /// The packet's fields in the order of `handshake_fields`.
    pub open spec fn fields(&self) -> (u8, u32, Seq<u8>, u32, u8, u16, Seq<u8>) {
        (
            self.protocol_version,
            self.connection_id,
            self.auth_plugin_data@,
            self.capability_flags,
            self.character_set,
            self.status_flags,
            self.auth_plugin_name@,
        )
    }

    /// Decodes the server's greeting.
    pub fn from_payload(pld: &[u8]) -> (r: Result<HandshakePacket, MyError>)
        ensures
            match r {
                Ok(p) => handshake_fields(pld@) == Some(p.fields()),
                Err(e) => handshake_fields(pld@) is None && e == MyError::Protocol,
            },
    {
        let len = pld.len();
        if len == 0 {
            return Err(MyError::Protocol);
        }
        let mut z: usize = 1;
        while z < len && pld[z] != 0
            invariant
                1 <= z <= len == pld@.len(),
                first_zero(pld@, 1) == first_zero(pld@, z as int),
            decreases len - z,
        {
            z = z + 1;
        }
        if z >= len || len - z < 16 {
            return Err(MyError::Protocol);
        }
        let protocol_version = pld[0];
        let connection_id = get_u32(pld, z + 1)?;
        let mut auth_plugin_data = copy_range(pld, z + 5, z + 13);
        let cap_low = get_u16(pld, z + 14)?;
        if len - z == 16 {
            return Ok(
                HandshakePacket {
                    auth_plugin_data,
                    auth_plugin_name: Vec::new(),
                    connection_id,
                    capability_flags: cap_low as u32,
                    status_flags: 0,
                    protocol_version,
                    character_set: 0,
                },
            );
        }
        if len - z < 32 {
            return Err(MyError::Protocol);
        }
        let character_set = pld[z + 16];
        let status_flags = get_u16(pld, z + 17)?;
        let cap_high = get_u16(pld, z + 19)?;
        let capability_flags: u32 = cap_low as u32 + cap_high as u32 * 0x10000;
        let plugin = capability_flags & CLIENT_PLUGIN_AUTH != 0;
        let secure = capability_flags & CLIENT_SECURE_CONNECTION != 0;
        let total: usize = if plugin {
            pld[z + 21] as usize
        } else {
            0
        };
        let n: usize = if total > 21 {
            total - 8
        } else {
            13
        };
        let mut q = z + 32;
        if secure {
            if len - q < n {
                return Err(MyError::Protocol);
            }
            let rest = copy_range(pld, q, q + n);
            crate::bytes::append_slice(&mut auth_plugin_data, rest.as_slice());
            pop_nul(&mut auth_plugin_data);
            q = q + n;
        }
        let mut auth_plugin_name: Vec<u8> = Vec::new();
        if plugin {
            auth_plugin_name = copy_range(pld, q, len);
            pop_nul(&mut auth_plugin_name);
        }
        Ok(
            HandshakePacket {
                auth_plugin_data,
                auth_plugin_name,
                connection_id,
                capability_flags,
                status_flags,
                protocol_version,
                character_set,
            },
        )
    }
}

/// A statement prepared on the server.
#[derive(Clone, Debug, PartialEq, Eq)]
pub struct Stmt {
    pub params: Vec<Column>,
    pub columns: Vec<Column>,
    pub statement_id: u32,
    pub num_columns: u16,
    pub num_params: u16,
    pub warning_count: u16,
}

/// The fields of a prepare response: statement id, column count and parameter
/// count after the header byte, a filler, then the warning count.
pub open spec fn stmt_fields(s: Seq<u8>) -> Option<(u32, u16, u16, u16)> {
    if s.len() >= 12 {
        Some((u32_at(s, 1), u16_at(s, 5), u16_at(s, 7), u16_at(s, 10)))
    } else {
        None
    }
}

impl Stmt {
    /// After `prepare`: one definition for each parameter and each column.
    pub open spec fn wf(&self) -> bool {
        &&& self.params.len() == self.num_params
        &&& self.columns.len() == self.num_columns
    }

    /// Decodes a prepare response's header; the definitions come later.
    pub fn from_payload(pld: &[u8]) -> (r: Result<Stmt, MyError>)
        ensures
            match r {
                Ok(st) => {
                    &&& stmt_fields(pld@) == Some(
                        (st.statement_id, st.num_columns, st.num_params, st.warning_count),
                    )
                    &&& st.params@.len() == 0
                    &&& st.columns@.len() == 0
                },
                Err(e) => stmt_fields(pld@) is None && e == MyError::Protocol,
            },
    {
        if pld.len() < 12 {
            return Err(MyError::Protocol);
        }
        let statement_id = get_u32(pld, 1)?;
        let num_columns = get_u16(pld, 5)?;
        let num_params = get_u16(pld, 7)?;
        let warning_count = get_u16(pld, 10)?;
        Ok(
            Stmt {
                params: Vec::new(),
                columns: Vec::new(),
                statement_id,
                num_columns,
                num_params,
                warning_count,
            },
        )
    }
}

/// The definition of a column or a parameter.
#[derive(Clone, Debug, PartialEq, Eq)]
pub struct Column {
    pub catalog: Vec<u8>,
    pub schema: Vec<u8>,
    pub table: Vec<u8>,
    pub org_table: Vec<u8>,
    pub name: Vec<u8>,
    pub org_name: Vec<u8>,
    pub default_values: Vec<u8>,
    pub column_length: u32,
    pub character_set: u16,
    pub flags: u16,
    pub column_type: u8,
    pub decimals: u8,
}

/// The fields of a column definition, as a column reads them.
pub struct ColumnView {
    pub names: Seq<Seq<u8>>,
    pub default_values: Seq<u8>,
    pub column_length: u32,
    pub character_set: u16,
    pub flags: u16,
    pub column_type: u8,
    pub decimals: u8,
}

/// One more length-encoded name after those that `r` has read.
pub open spec fn then_name(s: Seq<u8>, r: Option<(Seq<Seq<u8>>, int)>) -> Option<(Seq<Seq<u8>>, int)> {
    match r {
        Some((names, p)) => match lenenc_bytes_at(s, p) {
            Some((b, q)) => Some((names.push(b), q)),
            None => None,
        },
        None => None,
    }
}

/// The six length-encoded names at the start of a column definition, and the
/// position after them.
pub open spec fn names_at(s: Seq<u8>) -> Option<(Seq<Seq<u8>>, int)> {
    then_name(
        s,
        then_name(
            s,
            then_name(s, then_name(s, then_name(s, then_name(s, Some((Seq::empty(), 0)))))),
        ),
    )
}

/// Where the fixed fields of a column definition start, given where the
/// length-encoded integer before them starts (its value is not used).
pub open spec fn skip_lenenc(s: Seq<u8>, pos: int) -> int {
    match lenenc_int_at(s, pos) {
        Some((_, p)) => p,
        None => pos + 1,
    }
}

/// The fields of a column definition payload: six names, a length, the
/// character set, column length, type, flags, decimals and two filler bytes;
/// for `COM_FIELD_LIST`, default values as a length-encoded string.
pub open spec fn column_fields(command: u8, s: Seq<u8>) -> Option<ColumnView> {
    match names_at(s) {
        None => None,
        Some((names, p)) => {
            let f = skip_lenenc(s, p);
            if f + 12 > s.len() {
                None
            } else {
                let defaults = if command == COM_FIELD_LIST {
                    lenenc_bytes_at(s, f + 12)
                } else {
                    Some((Seq::empty(), f + 12))
                };
                match defaults {
                    None => None,
                    Some((d, _)) => Some(
                        ColumnView {
                            names,
                            default_values: d,
                            character_set: u16_at(s, f),
                            column_length: u32_at(s, f + 2),
                            column_type: s[f + 6],
                            flags: u16_at(s, f + 7),
                            decimals: s[f + 9],
                        },
                    ),
                }
            }
        },
    }
}

fn get_lenenc_bytes(buf: &[u8], pos: usize) -> (r: Result<(Vec<u8>, usize), MyError>)
    ensures
        match r {
            Ok((b, p)) => lenenc_bytes_at(buf@, pos as int) == Some((b@, p as int)),
            Err(e) => lenenc_bytes_at(buf@, pos as int) is None && e == MyError::Protocol,
        },
{
    match read_lenenc_bytes(buf, pos) {
        Some(x) => Ok(x),
        None => Err(MyError::Protocol),
    }
}

impl Column {
    /// The column's fields as `column_fields` gives them.
    pub open spec fn view_fields(&self) -> ColumnView {
        ColumnView {
            names: seq![
                self.catalog@,
                self.schema@,
                self.table@,
                self.org_table@,
                self.name@,
                self.org_name@,
            ],
            default_values: self.default_values@,
            column_length: self.column_length,
            character_set: self.character_set,
            flags: self.flags,
            column_type: self.column_type,
            decimals: self.decimals,
        }
    }

    /// Decodes a column definition sent in answer to `command`.
    pub fn from_payload(command: u8, pld: &[u8]) -> (r: Result<Column, MyError>)
        ensures
            match r {
                Ok(c) => column_fields(command, pld@) == Some(c.view_fields()),
                Err(e) => column_fields(command, pld@) is None && e == MyError::Protocol,
            },
    {
        let ghost s = pld@;
        let (catalog, end_catalog) = get_lenenc_bytes(pld, 0)?;
        let (schema, end_schema) = get_lenenc_bytes(pld, end_catalog)?;
        let (table, end_table) = get_lenenc_bytes(pld, end_schema)?;
        let (org_table, end_org_table) = get_lenenc_bytes(pld, end_table)?;
        let (name, end_name) = get_lenenc_bytes(pld, end_org_table)?;
        let (org_name, end_names) = get_lenenc_bytes(pld, end_name)?;
        proof {
            assert(names_at(s) == Some(
                (
                    seq![catalog@, schema@, table@, org_table@, name@, org_name@],
                    end_names as int,
                ),
            )) by {
                assert(Seq::<Seq<u8>>::empty().push(catalog@).push(schema@).push(table@).push(
                    org_table@,
                ).push(name@).push(org_name@) =~= seq![
                    catalog@,
                    schema@,
                    table@,
                    org_table@,
                    name@,
                    org_name@,
                ]);
            }
        }
        let f = match read_lenenc_int(pld, end_names) {
            Some((_, p)) => p,
            None => {
                if end_names >= pld.len() {
                    return Err(MyError::Protocol);
                }
                end_names + 1
            },
        };
        if f > pld.len() || pld.len() - f < 12 {
            return Err(MyError::Protocol);
        }
        let character_set = get_u16(pld, f)?;
        let column_length = get_u32(pld, f + 2)?;
        let column_type = pld[f + 6];
        let flags = get_u16(pld, f + 7)?;
        let decimals = pld[f + 9];
        let mut default_values: Vec<u8> = Vec::new();
        if command == COM_FIELD_LIST {
            let (d, _) = get_lenenc_bytes(pld, f + 12)?;
            default_values = d;
        }
        Ok(
            Column {
                catalog,
                schema,
                table,
                org_table,
                name,
                org_name,
                default_values,
                column_length,
                character_set,
                flags,
                column_type,
                decimals,
            },
        )
    }
}

} // verus!
