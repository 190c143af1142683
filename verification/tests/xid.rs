use xid::identity::IdentityContext;
use xid::xid::Xid;

#[test]
fn test_ord() {
    let mut ctx = IdentityContext::from_values([1, 2, 3], 4, 0);
    let id1 = Xid::new(&mut ctx);
    let id2 = Xid::new(&mut ctx);
    let id3 = Xid::new(&mut ctx);
    assert!(id1 < id2);
    assert!(id2 < id3);
    assert!(id1.to_string() < id2.to_string());
    assert!(id2.to_string() < id3.to_string());
}

#[test]
fn test_encode_decode() {
    let mut ctx = IdentityContext::from_values([7, 8, 9], 77, 100);
    let mut buf: Vec<u8> = vec![0; 20];

    for _ in 0..10 {
        let id1 = Xid::new(&mut ctx);
        id1.encode(&mut buf);
        let mut id2 = Xid::default();
        id2.decode(&buf);
        assert_eq!(id1, id2);
        assert_eq!(id1.to_string(), id2.to_string());
    }
}

#[test]
fn test_from_parts() {
    let cases: [(u32, [u8; 3], u32, u32, [u8; 12]); 3] = [
        (
            1300816219,
            [0x60, 0xf4, 0x86],
            0xe428,
            4271561,
            [0x4d, 0x88, 0xe1, 0x5b, 0x60, 0xf4, 0x86, 0xe4, 0x28, 0x41, 0x2d, 0xc9],
        ),
        (
            0,
            [0x00, 0x00, 0x00],
            0x0000,
            0,
            [0x00, 0x00, 0x00, 0x00, 0x00, 0x00, 0x00, 0x00, 0x00, 0x00, 0x00, 0x00],
        ),
        (
            0,
            [0xaa, 0xbb, 0xcc],
            0xddee,
            1,
            [0x00, 0x00, 0x00, 0x00, 0xaa, 0xbb, 0xcc, 0xdd, 0xee, 0x00, 0x00, 0x01],
        ),
    ];

    for (timestamp, machine, process, counter, raw) in cases {
        let expect_id = Xid::from(raw);
        assert_eq!(expect_id, Xid::from_parts(timestamp, machine, process, counter));
        assert_eq!(timestamp, expect_id.timestamp());
        assert_eq!(machine, expect_id.machine());
        assert_eq!(process, expect_id.process());
        assert_eq!(counter, expect_id.counter());
    }
}

#[test]
fn test_known_encoding() {
    let id = Xid::from([0x4d, 0x88, 0xe1, 0x5b, 0x60, 0xf4, 0x86, 0xe4, 0x28, 0x41, 0x2d, 0xc9]);
    assert_eq!(id.to_string(), "9m4e2mr0ui3e8a215n4g");
    let mut decoded = Xid::default();
    decoded.decode(b"9m4e2mr0ui3e8a215n4g");
    assert_eq!(decoded, id);
}

#[test]
fn test_zero_identifier() {
    let id = Xid::from_parts(0, [0, 0, 0], 0, 0);
    assert_eq!(id, Xid::default());
    assert_eq!(id.to_string(), "00000000000000000000");
    let mut buf: Vec<u8> = vec![0xFF; 20];
    id.encode(&mut buf);
    assert_eq!(buf, vec![b'0'; 20]);
}

#[test]
fn test_max_encoding() {
    let id = Xid::from([0xFF; 12]);
    assert_eq!(id.to_string(), "vvvvvvvvvvvvvvvvvvvg");
    let mut buf: Vec<u8> = vec![0; 20];
    id.encode(&mut buf);
    let mut id2 = Xid::default();
    id2.decode(&buf);
    assert_eq!(id, id2);
}

#[test]
fn test_counter_wraparound() {
    let mut ctx = IdentityContext::from_values([9, 9, 9], 5, 0xFFFFFF);
    let id = Xid::generate(1000, &mut ctx);
    assert_eq!(id.counter(), 0);
    assert_eq!(id.timestamp(), 1000);
    assert_eq!(id.machine(), [9, 9, 9]);
    assert_eq!(id.process(), 5);

    let id2 = Xid::from_parts(1000, [9, 9, 9], 5, 0x1000000);
    assert_eq!(id2.counter(), 0);
    assert_eq!(id2.timestamp(), 1000);
}

#[test]
fn test_distinct_identifiers() {
    let mut ctx = IdentityContext::from_values([1, 1, 1], 1, 0);
    let mut ids: Vec<Xid> = Vec::new();
    for i in 0..100u32 {
        ids.push(Xid::generate(500 + i / 10, &mut ctx));
    }
    for i in 0..ids.len() {
        for j in (i + 1)..ids.len() {
            assert_ne!(ids[i], ids[j]);
        }
    }
}

#[test]
fn test_machine_fingerprint_digest() {
    let ctx = IdentityContext::new(Some(b"test".to_vec()), 42, None);
    assert_eq!(ctx.machine(), [0x09, 0x8f, 0x6b]);
    assert_eq!(ctx.process(), 42);
    assert!(ctx.counter() < 0x1000000);
}

#[test]
fn test_process_fingerprint_checksum() {
    let mut ctx = IdentityContext::new(None, 1, Some(b"123456789".to_vec()));
    assert_eq!(ctx.process(), 0xCBF43926);
    let id = Xid::generate(0, &mut ctx);
    assert_eq!(id.process(), 0x3926);

    let trivial = IdentityContext::new(None, 1, Some(b"x".to_vec()));
    assert_eq!(trivial.process(), 1);
    let ordinary = IdentityContext::new(None, 7, Some(b"123456789".to_vec()));
    assert_eq!(ordinary.process(), 7);
    let missing = IdentityContext::new(None, 1, None);
    assert_eq!(missing.process(), 1);
}

#[test]
fn test_decode_out_of_alphabet() {
    let mut id = Xid::default();
    id.decode(b"!!!!!!!!!!!!!!!!!!!!");
    assert_eq!(id, Xid::from([0xFF; 12]));
}
