use mysql_core::auth::scramble;
use mysql_core::conn::{ConnState, MyConn, QueryResponse, QueryResult};
use mysql_core::consts::{COM_QUERY, COM_STMT_PREPARE, MYSQL_TYPE_DATE, MYSQL_TYPE_DOUBLE, MYSQL_TYPE_LONG};
use mysql_core::consts::{MYSQL_TYPE_VAR_STRING, UNSIGNED_FLAG};
use mysql_core::error::MyError;
use mysql_core::framer::{decode_packet, encode_packet};
use mysql_core::local_infile::{LocalInfile, LocalInfileHandler};
use mysql_core::opts::MyOpts;
use mysql_core::value::Value;

fn greeting() -> Vec<u8> {
    let mut p = vec![10u8];
    p.extend_from_slice(b"8.0.0\0");
    p.extend_from_slice(&[7, 0, 0, 0]);
    p.extend_from_slice(&[1, 2, 3, 4, 5, 6, 7, 8]);
    p.push(0);
    p.extend_from_slice(&[0x04, 0xa2]);
    p.push(33);
    p.extend_from_slice(&[2, 0]);
    p.extend_from_slice(&[0x08, 0x00]);
    p.push(21);
    p.extend_from_slice(&[0u8; 10]);
    p.extend_from_slice(&[9, 10, 11, 12, 13, 14, 15, 16, 17, 18, 19, 20, 0]);
    p.extend_from_slice(b"mysql_native_password\0");
    p
}

fn ok_payload(affected: u8) -> Vec<u8> {
    vec![0, affected, 0, 2, 0, 0, 0]
}

fn lenenc(out: &mut Vec<u8>, b: &[u8]) {
    mysql_core::bytes::write_lenenc_bytes(out, b);
}

fn column_def(name: &str, column_type: u8, flags: u16) -> Vec<u8> {
    let mut p = Vec::new();
    for s in ["def", "test", "tbl", "tbl", name, name].iter() {
        lenenc(&mut p, s.as_bytes());
    }
    p.push(0x0c);
    p.extend_from_slice(&[33, 0]);
    p.extend_from_slice(&[0, 1, 0, 0]);
    p.push(column_type);
    p.extend_from_slice(&flags.to_le_bytes());
    p.push(0);
    p.extend_from_slice(&[0, 0]);
    p
}

fn eof() -> Vec<u8> {
    vec![0xfe, 0, 0, 2, 0]
}

/// The server's side: frames `payload` with `seq`, and the connection reads it.
fn receive(conn: &mut MyConn, payload: &[u8], seq: u8) -> Vec<u8> {
    let (wire, _) = encode_packet(payload, seq);
    let (p, used) = conn.read_packet(&wire).unwrap().unwrap();
    assert_eq!(used, wire.len());
    p
}

/// Decodes the packets a client sent, each starting at sequence id 0.
fn sent_commands(mut wire: &[u8]) -> Vec<Vec<u8>> {
    let mut out = Vec::new();
    while !wire.is_empty() {
        let (p, used, _) = decode_packet(wire, 0).unwrap();
        out.push(p);
        wire = &wire[used..];
    }
    out
}

fn connect(opts: MyOpts) -> MyConn {
    let mut conn = MyConn::new(opts);
    let g = receive(&mut conn, &greeting(), 0);
    let response = conn.do_handshake(&g).unwrap();
    assert_eq!(response[3], 1);
    let pld = receive(&mut conn, &ok_payload(0), 2);
    conn.handle_auth_result(&pld).unwrap();
    conn.write_command_data(COM_QUERY, b"SELECT @@max_allowed_packet;").unwrap();
    let rows = select(&mut conn, &[column_def("@@max_allowed_packet", 8, 0)], &[vec![8, b'6', b'7', b'1', b'0', b'8', b'8', b'6', b'4']], false);
    conn.finish_connect(&rows[0][0].bytes_ref().unwrap()).unwrap();
    conn
}

/// Plays a result set: the column count, the definitions, an EOF, the rows
/// and a closing EOF; returns the rows the connection decoded.
fn select(conn: &mut MyConn, columns: &[Vec<u8>], rows: &[Vec<u8>], is_bin: bool) -> Vec<Vec<Value>> {
    let mut seq = 1u8;
    let head = receive(conn, &[columns.len() as u8], seq);
    seq += 1;
    let n = match conn.read_query_response(&head).unwrap() {
        QueryResponse::ResultSet(n) => n,
        _ => panic!("expected a result set"),
    };
    let mut packets = Vec::new();
    for c in columns.iter().chain([eof()].iter()) {
        packets.push(receive(conn, c, seq));
        seq += 1;
    }
    let mut rs: QueryResult = conn.finish_result_set(n, &packets, is_bin).unwrap();
    let mut out = Vec::new();
    for r in rows.iter().chain([eof()].iter()) {
        assert!(!rs.is_done());
        let p = receive(conn, r, seq);
        seq = seq.wrapping_add(((r.len() / 0xffffff) + 1) as u8);
        if let Some(row) = rs.next(conn, &p) {
            out.push(row.unwrap());
        }
    }
    assert!(rs.is_done());
    out
}

fn root() -> MyOpts {
    MyOpts { user: Some("root".to_string()), pass: Some("password".to_string()), ..Default::default() }
}

#[test]
fn test_connect() {
    let conn = connect(root());
    assert!(conn.connected);
    assert_eq!(conn.max_allowed_packet, 67108864);
    assert_eq!(conn.connection_id, 7);
    assert_eq!(conn.character_set, 33);
}

#[test]
fn handshake_response_carries_scramble() {
    let mut conn = MyConn::new(root());
    let g = receive(&mut conn, &greeting(), 0);
    let wire = conn.do_handshake(&g).unwrap();
    let (p, _, _) = decode_packet(&wire, 1).unwrap();
    let seed: Vec<u8> = (1u8..=20).collect();
    assert_eq!(&p[32..37], b"root\0");
    assert_eq!(p[37], 20);
    assert_eq!(&p[38..58], &scramble(&seed, b"password")[..]);
    assert_eq!(p.len(), 58);
}

#[test]
fn test_connect_with_db() {
    let mut conn = MyConn::new(MyOpts { db_name: Some("mysql".to_string()), ..root() });
    let g = receive(&mut conn, &greeting(), 0);
    let wire = conn.do_handshake(&g).unwrap();
    let (p, _, _) = decode_packet(&wire, 1).unwrap();
    assert!(p[0] & 0x08 != 0);
    assert_eq!(&p[p.len() - 6..], b"mysql\0");
    let pld = receive(&mut conn, &ok_payload(0), 2);
    conn.handle_auth_result(&pld).unwrap();
    conn.write_command_data(COM_QUERY, b"SELECT DATABASE()").unwrap();
    let rows = select(&mut conn, &[column_def("DATABASE()", 253, 0)], &[vec![5, b'm', b'y', b's', b'q', b'l']], false);
    assert!(rows[0][0] == Value::Bytes(b"mysql".to_vec()));
}

#[test]
fn handshake_rejects_old_protocol() {
    let mut conn = MyConn::new(root());
    let mut g = greeting();
    g[0] = 9;
    assert_eq!(conn.do_handshake(&g), Err(MyError::Protocol));
    let mut g = greeting();
    g[21] = 0xa0;
    assert_eq!(conn.do_handshake(&g), Err(MyError::Protocol));
}

fn greeted() -> MyConn {
    let mut conn = MyConn::new(root());
    assert_eq!(conn.handle_auth_result(&ok_payload(0)), Err(MyError::NotReady));
    let g = receive(&mut conn, &greeting(), 0);
    conn.do_handshake(&g).unwrap();
    assert_eq!(conn.state, ConnState::AwaitingAuth);
    conn
}

#[test]
fn auth_result_dispatch() {
    let mut conn = greeted();
    let err = [0xffu8, 0x15, 0x04, b'#', b'2', b'8', b'0', b'0', b'0', b'n', b'o'];
    match conn.handle_auth_result(&err) {
        Err(MyError::Server(e)) => {
            assert_eq!(e.error_code, 1045);
            assert_eq!(e.sql_state, b"28000".to_vec());
            assert_eq!(e.error_message, b"no".to_vec());
        },
        _ => panic!("expected a server error"),
    }
    assert_eq!(conn.state, ConnState::Broken);
    assert_eq!(greeted().handle_auth_result(&[0x01]), Err(MyError::Protocol));
    assert_eq!(greeted().handle_auth_result(&[]), Err(MyError::Protocol));
    let mut conn = greeted();
    assert_eq!(conn.handle_auth_result(&ok_payload(0)), Ok(()));
    assert_eq!(conn.state, ConnState::Ready);
}

#[test]
fn commands_wait_for_the_previous_answer() {
    let mut conn = MyConn::new(root());
    assert_eq!(conn.write_command_data(COM_QUERY, b"SELECT 1"), Err(MyError::NotReady));
    let mut conn = connect(root());
    assert_eq!(conn.state, ConnState::Ready);
    conn.write_command_data(COM_QUERY, b"SELECT 1").unwrap();
    assert_eq!(conn.state, ConnState::AwaitingResponse);
    assert_eq!(conn.write_command(0x0e), Err(MyError::NotReady));
    let head = receive(&mut conn, &[1], 1);
    assert_eq!(conn.read_query_response(&head), Ok(QueryResponse::ResultSet(1)));
    let mut rs = conn.finish_result_set(1, &[column_def("1", 8, 0), eof()], false).unwrap();
    assert_eq!(conn.state, ConnState::InText);
    assert_eq!(conn.write_command_data(COM_QUERY, b"SELECT 2"), Err(MyError::NotReady));
    assert!(rs.next(&mut conn, &[1, b'1']).unwrap().is_ok());
    assert_eq!(conn.state, ConnState::InText);
    assert!(rs.next(&mut conn, &eof()).is_none());
    assert_eq!(conn.state, ConnState::Ready);
    assert!(conn.write_command_data(COM_QUERY, b"SELECT 2").is_ok());
}

#[test]
fn max_allowed_packet_must_be_a_positive_number() {
    let mut conn = MyConn::new(root());
    assert_eq!(conn.finish_connect(b""), Err(MyError::Protocol));
    assert_eq!(conn.finish_connect(b"0"), Err(MyError::Protocol));
    assert_eq!(conn.finish_connect(b"12a"), Err(MyError::Protocol));
    assert_eq!(conn.finish_connect(b"99999999999999999999999"), Err(MyError::Protocol));
    assert!(!conn.connected);
    assert_eq!(conn.finish_connect(b"1024"), Ok(()));
    assert_eq!(conn.max_allowed_packet, 1024);
}

#[test]
fn test_query() {
    let mut conn = connect(root());
    for q in ["DROP DATABASE IF EXISTS test", "CREATE DATABASE test", "USE test"].iter() {
        conn.write_command_data(COM_QUERY, q.as_bytes()).unwrap();
        let pld = receive(&mut conn, &ok_payload(0), 1);
        assert_eq!(conn.read_query_response(&pld), Ok(QueryResponse::Done));
    }
    conn.write_command_data(COM_QUERY, b"SELECT * FROM unexisted").unwrap();
    let err = [0xffu8, 0x7a, 0x04, b'#', b'4', b'2', b'S', b'0', b'2'];
    let pld = receive(&mut conn, &err, 1);
    assert!(matches!(conn.read_query_response(&pld), Err(MyError::Server(_))));
    conn.write_command_data(COM_QUERY, b"UPDATE tbl SET a = 'foo';").unwrap();
    let pld = receive(&mut conn, &ok_payload(2), 1);
    assert!(conn.read_query_response(&pld).is_ok());
    assert!(conn.affected_rows == 2);
    conn.write_command_data(COM_QUERY, b"SELECT * FROM tbl WHERE a = 'bar'").unwrap();
    let cols: Vec<Vec<u8>> = ["a", "b", "c", "d", "e"].iter().map(|n| column_def(n, 253, 0)).collect();
    assert!(select(&mut conn, &cols, &[], false).is_empty());
    fn text_row(fields: &[&str]) -> Vec<u8> {
        let mut p = Vec::new();
        for f in fields {
            lenenc(&mut p, f.as_bytes());
        }
        p
    }
    conn.write_command_data(COM_QUERY, b"SELECT * FROM tbl").unwrap();
    let rows = select(
        &mut conn,
        &cols,
        &[text_row(&["foo", "-123", "123", "2014-05-05", "123.123"]), text_row(&["foo", "-321", "321", "2014-06-06", "321.321"])],
        false,
    );
    assert_eq!(rows.len(), 2);
    assert!(rows[0][0] == Value::Bytes(b"foo".to_vec()));
    assert!(rows[0][1] == Value::Bytes(b"-123".to_vec()));
    assert!(rows[0][2] == Value::Bytes(b"123".to_vec()));
    assert!(rows[0][3] == Value::Bytes(b"2014-05-05".to_vec()));
    assert!(rows[0][4] == Value::Bytes(b"123.123".to_vec()));
    assert!(rows[1][1] == Value::Bytes(b"-321".to_vec()));
    assert!(rows[1][3] == Value::Bytes(b"2014-06-06".to_vec()));
    conn.write_command_data(COM_QUERY, b"SELECT REPEAT('A', 20000000)").unwrap();
    let mut big = Vec::new();
    lenenc(&mut big, &vec![65u8; 20000000]);
    let rows = select(&mut conn, &[column_def("r", 251, 0)], &[big], false);
    let val = rows[0][0].bytes_ref().unwrap();
    assert!(val.len() == 20000000);
    assert!(val.iter().all(|y| *y == 65u8));
}

#[test]
fn error_mid_result_set_ends_it() {
    let mut conn = connect(root());
    conn.write_command_data(COM_QUERY, b"SELECT 1").unwrap();
    let mut rs = conn.finish_result_set(0, &[eof()], false).unwrap();
    let err = [0xffu8, 1, 0, b'#', b'H', b'Y', b'0', b'0', b'0', b'x', b'y', b'z'];
    assert!(matches!(rs.next(&mut conn, &err), Some(Err(MyError::Server(_)))));
    assert!(rs.is_done());
    assert_eq!(conn.state, ConnState::Ready);
    assert!(rs.next(&mut conn, &eof()).is_none());
}

#[test]
fn test_prepared_statemenst() {
    let mut conn = connect(root());
    conn.write_command_data(COM_STMT_PREPARE, b"INSERT INTO tbl(a, b, c, d, e) VALUES (?, ?, ?, ?, ?)").unwrap();
    let head = receive(&mut conn, &[0, 1, 0, 0, 0, 0, 0, 5, 0, 0, 0, 0], 1);
    let stmt = conn.read_prepare_response(&head).unwrap();
    assert_eq!(stmt.definition_packets(), 6);
    let mut packets: Vec<Vec<u8>> = (0..5).map(|_| column_def("?", 253, 0)).collect();
    packets.push(eof());
    let stmt = conn.finish_prepare(stmt, &packets).unwrap();
    assert_eq!(stmt.params.len(), 5);
    let params = [Value::Bytes(b"hello".to_vec()), Value::Int(-123), Value::UInt(123), Value::Date(2014, 5, 5, 0, 0, 0, 0), Value::Float(123.123f64.to_bits())];
    let wire = conn.execute(&stmt, &params).unwrap();
    let sent = sent_commands(&wire);
    assert_eq!(sent.len(), 1);
    let p = &sent[0];
    assert_eq!(&p[0..10], &[0x17, 1, 0, 0, 0, 0, 1, 0, 0, 0]);
    assert_eq!(p[10], 0);
    assert_eq!(p[11], 1);
    assert_eq!(&p[12..22], &[253, 0, 8, 0, 8, 128, 10, 0, 5, 0]);
    assert_eq!(&p[22..28], &[5, b'h', b'e', b'l', b'l', b'o']);
    let pld = receive(&mut conn, &ok_payload(1), 1);
    assert!(conn.read_query_response(&pld).is_ok());
    let params = [Value::Bytes(b"world".to_vec()), Value::NULL, Value::NULL, Value::NULL, Value::Float(321.321f64.to_bits())];
    let wire = conn.execute(&stmt, &params).unwrap();
    let p = &sent_commands(&wire)[0];
    assert_eq!(p[10], 0b0000_1110);
    let pld = receive(&mut conn, &ok_payload(1), 1);
    assert!(conn.read_query_response(&pld).is_ok());
    assert_eq!(conn.execute(&stmt, &params[..2]), Err(MyError::ParamCountMismatch { expected: 5, supplied: 2 }));

    conn.write_command_data(COM_STMT_PREPARE, b"SELECT * FROM tbl").unwrap();
    let head = receive(&mut conn, &[0, 2, 0, 0, 0, 5, 0, 0, 0, 0, 0, 0], 1);
    let stmt = conn.read_prepare_response(&head).unwrap();
    let mut packets = vec![
        column_def("a", 252, 0),
        column_def("b", MYSQL_TYPE_LONG, 0),
        column_def("c", MYSQL_TYPE_LONG, UNSIGNED_FLAG),
        column_def("d", MYSQL_TYPE_DATE, 0),
        column_def("e", MYSQL_TYPE_DOUBLE, 0),
    ];
    packets.push(eof());
    let stmt = conn.finish_prepare(stmt, &packets).unwrap();
    assert_eq!(stmt.columns.len(), 5);
    conn.execute(&stmt, &[]).unwrap();
    let mut row0 = vec![0u8, 0];
    lenenc(&mut row0, b"hello");
    row0.extend_from_slice(&(-123i32).to_le_bytes());
    row0.extend_from_slice(&123u32.to_le_bytes());
    row0.extend_from_slice(&[4, 0xde, 0x07, 5, 5]);
    row0.extend_from_slice(&123.123f64.to_bits().to_le_bytes());
    let mut row1 = vec![0u8, 0b0011_1000];
    lenenc(&mut row1, b"world");
    row1.extend_from_slice(&321.321f64.to_bits().to_le_bytes());
    let cols: Vec<Vec<u8>> = packets[..5].to_vec();
    let rows = select(&mut conn, &cols, &[row0, row1], true);
    assert!(rows[0][0] == Value::Bytes(vec![104u8, 101u8, 108u8, 108u8, 111u8]));
    assert!(rows[0][1] == Value::Int(-123i64));
    assert!(rows[0][2] == Value::Int(123i64));
    assert!(rows[0][3] == Value::Date(2014u16, 5u8, 5u8, 0u8, 0u8, 0u8, 0u32));
    assert!(f64::from_bits(rows[0][4].get_float().unwrap()) == 123.123);
    assert!(rows[1][0] == Value::Bytes(vec![119u8, 111u8, 114u8, 108u8, 100u8]));
    assert!(rows[1][1] == Value::NULL);
    assert!(rows[1][2] == Value::NULL);
    assert!(rows[1][3] == Value::NULL);
    assert!(f64::from_bits(rows[1][4].get_float().unwrap()) == 321.321);
}

#[test]
fn test_large_insert() {
    let mut conn = connect(root());
    let query = format!("INSERT INTO tbl(a) VALUES('{}')", "A".repeat(20000000));
    let wire = conn.write_command_data(COM_QUERY, query.as_bytes()).unwrap();
    let (sent, used, next) = decode_packet(&wire, 0).unwrap();
    assert_eq!(used, wire.len());
    assert_eq!(next, 2);
    assert_eq!(conn.seq_id, 2);
    assert_eq!(sent.len(), query.len() + 1);
    assert!(&sent[1..] == query.as_bytes());
    let pld = receive(&mut conn, &ok_payload(1), 2);
    assert!(conn.read_query_response(&pld).is_ok());
    conn.write_command_data(COM_QUERY, b"SELECT * FROM tbl").unwrap();
    let mut big = Vec::new();
    lenenc(&mut big, &vec![65u8; 20000000]);
    let rows = select(&mut conn, &[column_def("a", 251, 0)], &[big], false);
    let v = rows[0][0].clone().unwrap_bytes().unwrap();
    assert!(v.len() == 20000000);
    assert!(v.iter().all(|y| *y == 65u8));
}

#[test]
fn test_large_insert_prepared() {
    let mut conn = connect(root());
    conn.finish_connect(b"16777216").unwrap();
    conn.write_command_data(COM_STMT_PREPARE, b"INSERT INTO tbl(a) values ( ? );").unwrap();
    let head = receive(&mut conn, &[0, 3, 0, 0, 0, 0, 0, 1, 0, 0, 0, 0], 1);
    let stmt = conn.read_prepare_response(&head).unwrap();
    let stmt = conn.finish_prepare(stmt, &[column_def("?", 253, 0), eof()]).unwrap();
    let val = vec![65u8; 20000000];
    let wire = conn.execute(&stmt, &[Value::Bytes(val)]).unwrap();
    let sent = sent_commands(&wire);
    assert_eq!(sent.len(), 3);
    let mut data = Vec::new();
    for p in &sent[..2] {
        assert_eq!(&p[0..7], &[0x18, 3, 0, 0, 0, 0, 0]);
        assert!(p.len() <= 16777216);
        data.extend_from_slice(&p[7..]);
    }
    assert!(data.len() == 20000000 && data.iter().all(|y| *y == 65u8));
    assert_eq!(sent[2], vec![0x17, 3, 0, 0, 0, 0, 1, 0, 0, 0, 0, 1, 253, 0]);
}

#[test]
fn test_local_infile() {
    let mut conn = connect(root());
    conn.write_command_data(COM_QUERY, b"LOAD DATA LOCAL INFILE 'local_infile.txt' INTO TABLE tbl").unwrap();
    let mut req = vec![0xfbu8];
    req.extend_from_slice(b"local_infile.txt");
    let pld = receive(&mut conn, &req, 1);
    let name = match conn.read_query_response(&pld).unwrap() {
        QueryResponse::LocalInfile(name) => name,
        _ => panic!("expected a local infile request"),
    };
    assert_eq!(name, b"local_infile.txt".to_vec());
    let mut handler = LocalInfileHandler::new(|file_name: &[u8], sink: &mut LocalInfile| {
        assert_eq!(file_name, b"local_infile.txt");
        for line in ["AAAAAA\n", "BBBBBB\n", "CCCCCC\n"].iter() {
            let n = sink.write(line.as_bytes());
            assert_eq!(n, line.len());
        }
    });
    let mut sink = LocalInfile::new();
    (handler.handler)(&name, &mut sink);
    sink.flush();
    let mut wire = Vec::new();
    for p in sink.take_packets() {
        wire.extend(conn.write_packet(&p).unwrap());
    }
    wire.extend(conn.end_local_infile().unwrap());
    let (p, used, s) = decode_packet(&wire, 2).unwrap();
    assert!(p == b"AAAAAA\nBBBBBB\nCCCCCC\n".to_vec());
    assert_eq!(decode_packet(&wire[used..], s).unwrap().0, Vec::<u8>::new());
    let pld = receive(&mut conn, &ok_payload(3), 4);
    assert_eq!(conn.finish_local_infile(&pld), Ok(()));
    assert_eq!(conn.affected_rows, 3);
}

#[test]
fn local_infile_buffers_four_kib() {
    let mut sink = LocalInfile::new();
    assert_eq!(sink.write(&vec![1u8; 5000]), 4096);
    assert!(sink.take_packets().is_empty());
    assert_eq!(sink.write(&[2u8; 10]), 10);
    let packets = sink.take_packets();
    assert_eq!(packets.len(), 1);
    assert_eq!(packets[0].len(), 4096);
    sink.flush();
    assert_eq!(sink.take_packets(), vec![vec![2u8; 10]]);
}

#[test]
fn commands_restart_sequence_and_check_sync() {
    let mut conn = connect(root());
    let wire = conn.write_command(0x0e).unwrap();
    assert_eq!(wire, vec![1, 0, 0, 0, 0x0e]);
    assert_eq!(conn.seq_id, 1);
    let (bad, _) = encode_packet(&ok_payload(0), 5);
    assert_eq!(conn.read_packet(&bad), Err(MyError::OutOfSync));
    assert_eq!(conn.read_packet(&bad[..3]), Ok(None));
    assert_eq!(conn.seq_id, 1);
    assert_eq!(conn.state, ConnState::Broken);
    assert_eq!(conn.write_command(0x0e), Err(MyError::NotReady));
}

#[test]
fn packets_over_the_limit_are_refused() {
    let mut conn = connect(root());
    conn.finish_connect(b"16").unwrap();
    assert_eq!(conn.write_packet(&[0u8; 17]), Err(MyError::PacketTooLarge));
    let mut fresh = MyConn::new(root());
    assert!(fresh.write_packet(&vec![0u8; 0xffffff + 1]).is_ok());
    assert!(conn.write_packet(&[0u8; 16]).is_ok());
    assert_eq!(conn.write_command_data(COM_QUERY, b"SELECT 1234567890123"), Err(MyError::PacketTooLarge));
    assert_eq!(conn.seq_id, 0);
}

#[test]
fn param_count_mismatch() {
    let mut conn = connect(root());
    conn.write_command_data(COM_STMT_PREPARE, b"SELECT ?").unwrap();
    let head = receive(&mut conn, &[0, 1, 0, 0, 0, 0, 0, 1, 0, 0, 0, 0], 1);
    let stmt = conn.read_prepare_response(&head).unwrap();
    let stmt = conn.finish_prepare(stmt, &[column_def("?", MYSQL_TYPE_VAR_STRING, 0), eof()]).unwrap();
    assert_eq!(conn.execute(&stmt, &[]), Err(MyError::ParamCountMismatch { expected: 1, supplied: 0 }));
    assert_eq!(conn.finish_prepare(stmt.clone(), &[]), Err(MyError::NotReady));
    conn.write_command_data(COM_STMT_PREPARE, b"SELECT ?").unwrap();
    assert_eq!(conn.finish_prepare(stmt, &[]), Err(MyError::Protocol));
    assert_eq!(conn.state, ConnState::Broken);
}

#[test]
fn affected_rows_follow_the_last_ok() {
    let mut conn = connect(root());
    conn.write_command_data(COM_QUERY, b"UPDATE t SET a = 1").unwrap();
    let pld = receive(&mut conn, &ok_payload(5), 1);
    conn.read_query_response(&pld).unwrap();
    assert_eq!(conn.affected_rows, 5);
    conn.write_command_data(COM_QUERY, b"SELECT a FROM t").unwrap();
    let rows = select(&mut conn, &[column_def("a", 253, 0)], &[vec![1, b'1']], false);
    assert_eq!(rows.len(), 1);
    assert_eq!(conn.affected_rows, 5);
    conn.write_command_data(COM_QUERY, b"DELETE FROM t").unwrap();
    let err = [0xffu8, 1, 0, b'#', b'H', b'Y', b'0', b'0', b'0'];
    let pld = receive(&mut conn, &err, 1);
    assert!(conn.read_query_response(&pld).is_err());
    assert_eq!(conn.affected_rows, 5);
    conn.write_command_data(COM_QUERY, b"DELETE FROM t").unwrap();
    let pld = receive(&mut conn, &ok_payload(2), 1);
    conn.read_query_response(&pld).unwrap();
    assert_eq!(conn.affected_rows, 2);
    assert_eq!(conn.last_insert_id, 0);
}
