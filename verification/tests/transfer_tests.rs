use basic_file_server::Action;
use basic_file_server::Connection;
use basic_file_server::Hasher;

/// Drives the transfer in flight to completion, reading body chunks from
/// `data` as the streamer asks for them, and collects everything queued.
fn drive(conn: &mut Connection, data: &[u8]) -> Vec<u8> {
    let mut collected: Vec<u8> = Vec::new();
    let mut pos: usize = 0;
    loop {
        let req = conn.read_request() as usize;
        let end = (pos + req).min(data.len());
        conn.pump(&data[pos..end]);
        pos = end;
        let out = conn.output().to_vec();
        collected.extend_from_slice(&out);
        conn.mark_written(out.len());
        if conn.release_done_streamer() {
            break;
        }
        if !conn.has_streamer() {
            break;
        }
    }
    collected
}

fn get_file(conn: &mut Connection, name: &[u8], data: &[u8]) -> Vec<u8> {
    let mut line = b"GET ".to_vec();
    line.extend_from_slice(name);
    line.push(b'\n');
    conn.ingest(&line);
    let cmd = conn.extract_command().expect("a full command line");
    match conn.handle_command(&cmd) {
        Action::OpenFile(safe) => assert_eq!(safe, name.to_vec()),
        _ => panic!("GET should ask for a file"),
    }
    conn.attach_streamer(data.len() as u64);
    drive(conn, data)
}

#[test]
fn empty_file_transfer() {
    // FILE 0, a bare newline, and the digest of the empty input.
    let mut conn = Connection::new();
    conn.attach_streamer(0);
    let out = drive(&mut conn, b"");
    assert_eq!(out, b"FILE 0\n\nMD5 d41d8cd98f00b204e9800998ecf8427e\n".to_vec());
    assert!(!conn.has_streamer());
}

#[test]
fn small_file_transfer() {
    let mut conn = Connection::new();
    let out = get_file(&mut conn, b"abc.txt", b"abc");
    assert_eq!(out, b"FILE 3\nabc\nMD5 900150983cd24fb0d6963f7d28e17f72\n".to_vec());
}

#[test]
fn large_file_transfer_is_byte_exact() {
    // 10 MiB, delivered in as many chunks as the streamer asks for.
    let size: usize = 10 * 1024 * 1024;
    let mut data: Vec<u8> = Vec::with_capacity(size);
    for i in 0..size {
        data.push((i % 251) as u8);
    }
    let mut conn = Connection::new();
    let out = get_file(&mut conn, b"big.bin", &data);

    let header = b"FILE 10485760\n";
    assert_eq!(&out[..header.len()], &header[..]);
    let body = &out[header.len()..header.len() + size];
    assert_eq!(body, &data[..]);
    let trailer = &out[header.len() + size..];
    let expected_md5 = format!("\nMD5 {:x}\n", md5::compute(&data));
    assert_eq!(trailer, expected_md5.as_bytes());
}

#[test]
fn transfer_at_the_chunk_boundary() {
    // A file of exactly one chunk: the first step asks for all of it and
    // finishes the transfer in one go.
    let size: usize = 64 * 1024;
    let data: Vec<u8> = (0..size).map(|i| (i % 17) as u8).collect();
    let mut conn = Connection::new();
    conn.attach_streamer(size as u64);
    assert_eq!(conn.read_request(), size as u64);
    let out = drive(&mut conn, &data);
    let mut expected = format!("FILE {}\n", size).into_bytes();
    expected.extend_from_slice(&data);
    expected.extend_from_slice(format!("\nMD5 {:x}\n", md5::compute(&data)).as_bytes());
    assert_eq!(out, expected);
}

#[test]
fn transfer_survives_short_reads() {
    // The transport may hand over fewer bytes than asked; the body is
    // still byte-exact and the digest still matches.
    let data: Vec<u8> = (0..100000u32).map(|i| (i % 7) as u8).collect();
    let mut conn = Connection::new();
    conn.attach_streamer(data.len() as u64);
    let mut collected: Vec<u8> = Vec::new();
    let mut pos: usize = 0;
    loop {
        let req = conn.read_request() as usize;
        let take = req.min(313).min(data.len() - pos);
        conn.pump(&data[pos..pos + take]);
        pos += take;
        let out = conn.output().to_vec();
        collected.extend_from_slice(&out);
        conn.mark_written(out.len());
        if conn.release_done_streamer() {
            break;
        }
    }
    let expected_md5 = format!("{:x}", md5::compute(&data));
    let mut expected = format!("FILE {}\n", data.len()).into_bytes();
    expected.extend_from_slice(&data);
    expected.extend_from_slice(format!("\nMD5 {}\n", expected_md5).as_bytes());
    assert_eq!(collected, expected);
}

#[test]
fn truncated_file_is_forgiven() {
    // A zero-length read while bytes are owed ends the body early: the
    // digest covers what was actually streamed, not the announced size.
    let mut conn = Connection::new();
    conn.attach_streamer(5);
    conn.pump(b"ab");
    conn.pump(b"");
    let out = conn.output().to_vec();
    let expected_md5 = format!("{:x}", md5::compute(b"ab"));
    let expected = format!("FILE 5\nab\nMD5 {}\n", expected_md5).into_bytes();
    assert_eq!(out, expected);
}

#[test]
fn concurrent_transfers_are_independent() {
    // Two connections stream the same file at once, their steps
    // interleaved; each receives a complete, correct transfer.
    let data: Vec<u8> = (0..200000u32).map(|i| (i % 13) as u8).collect();
    let mut a = Connection::new();
    let mut b = Connection::new();
    a.attach_streamer(data.len() as u64);
    b.attach_streamer(data.len() as u64);
    let mut out_a: Vec<u8> = Vec::new();
    let mut out_b: Vec<u8> = Vec::new();
    let mut pos_a: usize = 0;
    let mut pos_b: usize = 0;
    let mut done_a = false;
    let mut done_b = false;
    while !done_a || !done_b {
        if !done_a {
            let req = a.read_request() as usize;
            let take = req.min(4096);
            a.pump(&data[pos_a..pos_a + take]);
            pos_a += take;
            let out = a.output().to_vec();
            out_a.extend_from_slice(&out);
            a.mark_written(out.len());
            done_a = a.release_done_streamer();
        }
        if !done_b {
            let req = b.read_request() as usize;
            let take = req.min(1000);
            b.pump(&data[pos_b..pos_b + take]);
            pos_b += take;
            let out = b.output().to_vec();
            out_b.extend_from_slice(&out);
            b.mark_written(out.len());
            done_b = b.release_done_streamer();
        }
    }
    let expected_md5 = format!("{:x}", md5::compute(&data));
    let mut expected = format!("FILE {}\n", data.len()).into_bytes();
    expected.extend_from_slice(&data);
    expected.extend_from_slice(format!("\nMD5 {}\n", expected_md5).as_bytes());
    assert_eq!(out_a, expected);
    assert_eq!(out_b, expected);
}

#[test]
fn hasher_accumulates_across_chunks() {
    let mut h = Hasher::new();
    h.consume(b"hello ");
    h.consume(b"world");
    let digest = h.finalize();
    let expected = format!("{:x}", md5::compute(b"hello world")).into_bytes();
    assert_eq!(digest, expected);
    // The digest is of the stream, not the input handed back unchanged.
    assert_ne!(digest, b"hello world".to_vec());
}
