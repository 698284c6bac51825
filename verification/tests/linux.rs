//! The Linux backend.

use rawusb::sys::linux::usbfs::{ioctl_number, urb_size, Encoding, Pointers, Request, ISO_PACKET_DESC_SIZE};

#[test]
fn ioctl_numbers_match_the_header() {
    // Values taken from a 64-bit x86 build of <linux/usbdevice_fs.h>.
    let number = |r: Request| ioctl_number(r, Encoding::Common, Pointers::Bits64);
    assert_eq!(urb_size(Pointers::Bits64), 56);
    assert_eq!(number(Request::Control), 0xC0185500);
    assert_eq!(number(Request::Bulk), 0xC0185502);
    assert_eq!(number(Request::SetInterface), 0x80085504);
    assert_eq!(number(Request::SetConfiguration), 0x80045505);
    assert_eq!(number(Request::GetDriver), 0x41045508);
    assert_eq!(number(Request::SubmitUrb), 0x8038550A);
    assert_eq!(number(Request::DiscardUrb), 0x0000550B);
    assert_eq!(number(Request::ReapUrbNdelay), 0x4008550D);
    assert_eq!(number(Request::ClaimInterface), 0x8004550F);
    assert_eq!(number(Request::ReleaseInterface), 0x80045510);
    assert_eq!(number(Request::Ioctl), 0xC0105512);
    assert_eq!(number(Request::Reset), 0x00005514);
    assert_eq!(number(Request::ClearHalt), 0x80045515);
    assert_eq!(number(Request::GetCapabilities), 0x8004551A);
    assert_eq!(number(Request::DisconnectClaim), 0x8108551B);
}

#[test]
fn iso_descs_follow_the_urb() {
    // The flexible array member starts right after the fixed part.
    assert_eq!(urb_size(Pointers::Bits64) % 4, 0);
    assert_eq!(ISO_PACKET_DESC_SIZE, 12);
}
