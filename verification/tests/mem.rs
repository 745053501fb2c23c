use rmem::{mem_cmp, mem_copy, mem_copy_for, mem_find, mem_move, mem_move_for, mem_set};
use std::cmp::Ordering;

#[test]
fn copy_data() {
    let src: Vec<u8> = vec![1, 2, 3, 4];
    let mut dst: Vec<u8> = vec![0; 4];
    mem_copy(&src, &mut dst, 0, 4);
    assert_eq!(dst, vec![1, 2, 3, 4]);
}

#[test]
fn move_data() {
    let mut elems: Vec<u8> = vec![1, 2, 3, 4, 5, 6, 7, 8];
    mem_move(&mut elems, 0, 2, 4);
    assert_eq!(elems, vec![1, 2, 1, 2, 3, 4, 7, 8]);
}

#[test]
fn init_data_with_zero() {
    let mut elems: Vec<u8> = vec![1, 4, 2, 5];
    mem_set(&mut elems, 0, 0, 4);
    assert_eq!(elems, vec![0; 4]);
}

#[test]
fn cmp_data() {
    let (src, dst): (Vec<u8>, Vec<u8>) = (vec![1, 2, 3, 4], vec![1, 2, 3, 4]);
    let ord = mem_cmp(&src, &dst, 4);
    assert_eq!(ord, Ordering::Equal);

    let (src, dst): (Vec<u8>, Vec<u8>) = (vec![4, 3, 2, 1], vec![1, 2, 3, 4]);
    let ord = mem_cmp(&src, &dst, 4);
    assert_eq!(ord, Ordering::Greater);

    let (src, dst): (Vec<u8>, Vec<u8>) = (vec![1, 1, 2, 2], vec![1, 2, 3, 4]);
    let ord = mem_cmp(&src, &dst, 4);
    assert_eq!(ord, Ordering::Less);
}

#[test]
fn find_byte_from_data() {
    let elems: Vec<u8> = vec![1, 2, 3, 4];
    assert_eq!(mem_find(&elems, 4, 3), Some(2));
    assert_eq!(mem_find(&elems, 4, 5), None);
}

#[test]
fn copy_elems() {
    let src: Vec<u32> = vec![1, 2, 3, 4];
    let mut dst: Vec<u32> = vec![0; 4];
    mem_copy_for(&src, &mut dst, 0, 4);
    assert_eq!(dst, vec![1, 2, 3, 4]);
}

#[test]
fn move_elems() {
    let mut elems: Vec<u32> = vec![1, 2, 3, 4, 5, 6, 7, 8];
    mem_move_for(&mut elems, 0, 2, 4);
    assert_eq!(elems, vec![1, 2, 1, 2, 3, 4, 7, 8]);
}

#[test]
fn mem_ops_on_pkg_buf() {
    // Initialize a buffer
    let mut buf: Vec<u8> = vec![1; 1024];
    let cap = buf.len();
    mem_set(&mut buf, 0, 0, cap);
    let mut len = 0usize;

    // Push the first pkg into buffer
    let pkg = b"PMAGIC\x00\x00From: Tom\nData: Hello, Roy!\n\x04";
    mem_copy(pkg, &mut buf, len, pkg.len());
    len += pkg.len();

    // Push the second pkg into buffer
    let pkg = b"PMAGIC\x00\x00From: Tom\nData: Welcome to Rust world!\n\x04";
    mem_copy(pkg, &mut buf, len, pkg.len());
    len += pkg.len();

    let pkg_magic: &[u8] = b"PMAGIC\x00\x00";
    let pkg_magic_len = pkg_magic.len();
    let pkg_end: u8 = b'\x04';

    // Extract the first pkg data
    let rdata = b"From: Tom\nData: Hello, Roy!\n";
    assert_eq!(mem_cmp(&buf, pkg_magic, pkg_magic_len), Ordering::Equal);
    let plen = mem_find(&buf, len, pkg_end).unwrap() + 1;
    let dlen = plen - pkg_magic_len - 1;
    assert_eq!(dlen, rdata.len());

    let mut data: Vec<u8> = vec![0; dlen];
    mem_copy(&buf[pkg_magic_len..], &mut data, 0, dlen);
    assert_eq!(mem_cmp(&data, rdata, rdata.len()), Ordering::Equal);

    len -= plen;
    mem_move(&mut buf, plen, 0, len);

    // Extract the second pkg data
    let rdata = b"From: Tom\nData: Welcome to Rust world!\n";
    assert_eq!(mem_cmp(&buf, pkg_magic, pkg_magic_len), Ordering::Equal);

    let plen = mem_find(&buf, len, pkg_end).unwrap() + 1;
    let dlen = plen - pkg_magic_len - 1;
    assert_eq!(dlen, rdata.len());

    let mut data: Vec<u8> = vec![0; dlen];
    mem_copy(&buf[pkg_magic_len..], &mut data, 0, dlen);
    assert_eq!(mem_cmp(&data, rdata, rdata.len()), Ordering::Equal);

    len -= plen;
    mem_move(&mut buf, plen, 0, len);

    // Empty buffer
    assert_eq!(len, 0);
}

#[test]
fn mem_ops_on_elem_queue() {
    // Initialize an empty data queue
    let mut queue: Vec<u32> = vec![0; 20];
    let mut len = 0usize;

    // A batch of job data is pushed into queue
    let jdata: Vec<u32> = vec![1, 2, 3, 4, 3, 2, 1];
    mem_copy_for(&jdata, &mut queue, len, jdata.len());
    len += jdata.len();

    // A batch of job data is pushed into queue
    let jdata: Vec<u32> = vec![8, 7, 6, 5, 4, 3, 2, 1];
    mem_copy_for(&jdata, &mut queue, len, jdata.len());
    len += jdata.len();

    // Consume first 5 pieces of data from queue
    let mut cbuf: Vec<u32> = vec![0; 5];
    let clen = cbuf.len();
    mem_copy_for(&queue, &mut cbuf, 0, clen);
    len -= clen;
    mem_move_for(&mut queue, clen, 0, len);
    assert_eq!(cbuf, vec![1, 2, 3, 4, 3]);

    // Consume next 5 pieces of data from queue
    let mut cbuf: Vec<u32> = vec![0; 5];
    let clen = cbuf.len();
    mem_copy_for(&queue, &mut cbuf, 0, clen);
    len -= clen;
    mem_move_for(&mut queue, clen, 0, len);
    assert_eq!(cbuf, vec![2, 1, 8, 7, 6]);

    // Consume last 5 pieces of data from queue
    let mut cbuf: Vec<u32> = vec![0; 5];
    let clen = cbuf.len();
    mem_copy_for(&queue, &mut cbuf, 0, clen);
    len -= clen;
    mem_move_for(&mut queue, clen, 0, len);
    assert_eq!(cbuf, vec![5, 4, 3, 2, 1]);

    // Empty queue
    assert_eq!(len, 0);
}
