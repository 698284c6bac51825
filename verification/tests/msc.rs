//! Mass storage: SCSI data and the bulk-only transport.

use rawusb::msc::scsi::{rw_cdb, Inquiry, Sense, SenseKey};
use rawusb::ErrorKind;

#[test]
fn inquiry() {
    let mut b = [b' '; 36];
    b[0] = 0;
    b[1] = 0x80;
    b[2] = 6;
    b[8..15].copy_from_slice(b"SanDisk");
    b[16..28].copy_from_slice(b"Cruzer Blade");
    b[32..36].copy_from_slice(b"1.00");
    let i = Inquiry::from_bytes(&b).unwrap();
    assert!(i.removable);
    assert_eq!(i.vendor, "SanDisk");
    assert_eq!(i.product, "Cruzer Blade");
    assert_eq!(i.revision, "1.00");
    // Truncated INQUIRY data (some devices send 31 bytes).
    let i = Inquiry::from_bytes(&b[..20]).unwrap();
    assert_eq!(i.product, "Cruz");
    assert_eq!(i.revision, "");
}

#[test]
fn sense() {
    let mut fixed = [0u8; 18];
    fixed[0] = 0xf0;
    fixed[2] = 0x02;
    fixed[12] = 0x3a;
    let s = Sense::from_bytes(&fixed).unwrap();
    assert_eq!(s.key, SenseKey::NotReady);
    assert!(s.medium_not_present());
    assert_eq!(s.error_kind(), ErrorKind::NotFound);
    let s = Sense::from_bytes(&[0x72, 0x06, 0x28, 0x00]).unwrap();
    assert_eq!(s.key, SenseKey::UnitAttention);
    assert_eq!(s.asc, 0x28);
    assert!(Sense::from_bytes(&[0x00, 0, 0]).is_none());
}

#[test]
fn read_write_cdbs() {
    let (c, n) = rw_cdb(false, 0x1234_5678, 8);
    assert_eq!(n, 10);
    assert_eq!(&c[..10], &[0x28, 0, 0x12, 0x34, 0x56, 0x78, 0, 0, 8, 0]);
    // The last addressable block of a 2 TiB disk still fits READ (10).
    assert_eq!(rw_cdb(false, u32::MAX as u64, 1).1, 10);
    let (c, n) = rw_cdb(true, 1 << 32, 1);
    assert_eq!(n, 16);
    assert_eq!(&c[..16], &[0x8a, 0, 0, 0, 0, 1, 0, 0, 0, 0, 0, 0, 0, 1, 0, 0]);
    assert_eq!(rw_cdb(false, 0, 0x10000).1, 16);
}
