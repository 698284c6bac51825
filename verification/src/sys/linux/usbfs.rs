//! `linux/usbdevice_fs.h`: the sizes of the structures and the ioctl numbers
//! of the usbfs character devices under `/dev/bus/usb`.

use vstd::prelude::*;

verus! {

/// How a machine encodes ioctl numbers.
#[derive(Debug, Clone, Copy, PartialEq, Eq, Structural)]
pub enum Encoding {
    /// 14 size bits: most machines.
    Common,
    /// 13 size bits: MIPS, PowerPC and SPARC.
    Narrow,
}

/// The size of a pointer.
#[derive(Debug, Clone, Copy, PartialEq, Eq, Structural)]
pub enum Pointers {
    /// 4 bytes.
    Bits32,
    /// 8 bytes.
    Bits64,
}

/// The requests of usbfs.
#[derive(Debug, Clone, Copy, PartialEq, Eq, Structural)]
pub enum Request {
    /// `USBDEVFS_CONTROL`
    Control,
    /// `USBDEVFS_BULK`
    Bulk,
    /// `USBDEVFS_RESETEP`
    ResetEp,
    /// `USBDEVFS_SETINTERFACE`
    SetInterface,
    /// `USBDEVFS_SETCONFIGURATION`
    SetConfiguration,
    /// `USBDEVFS_GETDRIVER`
    GetDriver,
    /// `USBDEVFS_SUBMITURB`
    SubmitUrb,
    /// `USBDEVFS_DISCARDURB`
    DiscardUrb,
    /// `USBDEVFS_REAPURB`
    ReapUrb,
    /// `USBDEVFS_REAPURBNDELAY`
    ReapUrbNdelay,
    /// `USBDEVFS_DISCSIGNAL`
    DiscSignal,
    /// `USBDEVFS_CLAIMINTERFACE`
    ClaimInterface,
    /// `USBDEVFS_RELEASEINTERFACE`
    ReleaseInterface,
    /// `USBDEVFS_CONNECTINFO`
    ConnectInfo,
    /// `USBDEVFS_IOCTL`
    Ioctl,
    /// `USBDEVFS_HUB_PORTINFO`
    HubPortinfo,
    /// `USBDEVFS_RESET`
    Reset,
    /// `USBDEVFS_CLEAR_HALT`
    ClearHalt,
    /// `USBDEVFS_DISCONNECT`
    Disconnect,
    /// `USBDEVFS_CONNECT`
    Connect,
    /// `USBDEVFS_CLAIM_PORT`
    ClaimPort,
    /// `USBDEVFS_RELEASE_PORT`
    ReleasePort,
    /// `USBDEVFS_GET_CAPABILITIES`
    GetCapabilities,
    /// `USBDEVFS_DISCONNECT_CLAIM`
    DisconnectClaim,
    /// `USBDEVFS_ALLOC_STREAMS`
    AllocStreams,
    /// `USBDEVFS_FREE_STREAMS`
    FreeStreams,
    /// `USBDEVFS_DROP_PRIVILEGES`
    DropPrivileges,
    /// `USBDEVFS_GET_SPEED`
    GetSpeed,
}

/// Which way a request's argument goes.
#[derive(Debug, Clone, Copy, PartialEq, Eq, Structural)]
pub enum Transfers {
    /// There is no argument: `_IO`.
    Nothing,
    /// `_IOR`
    Read,
    /// `_IOW`
    Write,
    /// `_IOWR`
    Both,
}

/// The size of `struct usbdevfs_iso_packet_desc`.
pub const ISO_PACKET_DESC_SIZE: u32 = 12;

/// The size of a pointer in bytes.
pub open spec fn pointer_bytes(p: Pointers) -> int {
    match p {
        Pointers::Bits32 => 4,
        Pointers::Bits64 => 8,
    }
}

/// The smallest multiple of the pointer size that is not below `n`: where a
/// pointer stands behind `n` bytes.
pub open spec fn aligned(n: int, p: Pointers) -> int {
    (n + pointer_bytes(p) - 1) / pointer_bytes(p) * pointer_bytes(p)
}

/// The size of `struct usbdevfs_urb` without its packet descriptors: twelve
/// bytes, a pointer, six 32-bit fields and a pointer.
pub open spec fn urb_bytes(p: Pointers) -> int {
    aligned(aligned(12, p) + pointer_bytes(p) + 24, p) + pointer_bytes(p)
}

/// The size of a request's argument.
pub open spec fn argument_bytes(r: Request, p: Pointers) -> int {
    match r {
        Request::Control | Request::Bulk => aligned(12, p) + pointer_bytes(p),
        Request::SetInterface | Request::ConnectInfo | Request::AllocStreams | Request::FreeStreams => 8,
        Request::GetDriver => 260,
        Request::SubmitUrb => urb_bytes(p),
        Request::ReapUrb | Request::ReapUrbNdelay => pointer_bytes(p),
        Request::DiscSignal => aligned(4, p) + pointer_bytes(p),
        Request::Ioctl => aligned(8, p) + pointer_bytes(p),
        Request::HubPortinfo => 128,
        Request::DisconnectClaim => 264,
        Request::ResetEp | Request::SetConfiguration | Request::ClaimInterface | Request::ReleaseInterface
        | Request::ClearHalt | Request::ClaimPort | Request::ReleasePort | Request::GetCapabilities
        | Request::DropPrivileges => 4,
        Request::DiscardUrb | Request::Reset | Request::Disconnect | Request::Connect | Request::GetSpeed => 0,
    }
}

/// A request's number within usbfs.
pub open spec fn request_number(r: Request) -> int {
    match r {
        Request::Control => 0,
        Request::Bulk => 2,
        Request::ResetEp => 3,
        Request::SetInterface => 4,
        Request::SetConfiguration => 5,
        Request::GetDriver => 8,
        Request::SubmitUrb => 10,
        Request::DiscardUrb => 11,
        Request::ReapUrb => 12,
        Request::ReapUrbNdelay => 13,
        Request::DiscSignal => 14,
        Request::ClaimInterface => 15,
        Request::ReleaseInterface => 16,
        Request::ConnectInfo => 17,
        Request::Ioctl => 18,
        Request::HubPortinfo => 19,
        Request::Reset => 20,
        Request::ClearHalt => 21,
        Request::Disconnect => 22,
        Request::Connect => 23,
        Request::ClaimPort => 24,
        Request::ReleasePort => 25,
        Request::GetCapabilities => 26,
        Request::DisconnectClaim => 27,
        Request::AllocStreams => 28,
        Request::FreeStreams => 29,
        Request::DropPrivileges => 30,
        Request::GetSpeed => 31,
    }
}

/// Which way a request's argument goes by the header. usbfs sees it from the
/// kernel's side, the other way round than the rest of the kernel.
pub open spec fn request_transfers(r: Request) -> Transfers {
    match r {
        Request::Control | Request::Bulk | Request::Ioctl => Transfers::Both,
        Request::GetDriver | Request::ReapUrb | Request::ReapUrbNdelay | Request::ConnectInfo
        | Request::DropPrivileges => Transfers::Write,
        Request::DiscardUrb | Request::Reset | Request::Disconnect | Request::Connect | Request::GetSpeed =>
            Transfers::Nothing,
        _ => Transfers::Read,
    }
}

/// The code of a direction.
pub open spec fn direction_code(e: Encoding, t: Transfers) -> int {
    match (e, t) {
        (Encoding::Common, Transfers::Nothing) => 0,
        (Encoding::Common, Transfers::Write) => 1,
        (Encoding::Common, Transfers::Read) => 2,
        (Encoding::Common, Transfers::Both) => 3,
        (Encoding::Narrow, Transfers::Nothing) => 1,
        (Encoding::Narrow, Transfers::Read) => 2,
        (Encoding::Narrow, Transfers::Write) => 4,
        (Encoding::Narrow, Transfers::Both) => 6,
    }
}

/// The value of the lowest direction bit.
pub open spec fn direction_unit(e: Encoding) -> int {
    match e {
        Encoding::Common => 0x4000_0000,
        Encoding::Narrow => 0x2000_0000,
    }
}

/// An ioctl number: the direction above the size, the letter `U` and the
/// request's number.
pub open spec fn ioctl_value(r: Request, e: Encoding, p: Pointers) -> int {
    direction_code(e, request_transfers(r)) * direction_unit(e) + argument_bytes(r, p) * 0x1_0000 + 0x5500
        + request_number(r)
}

/// The size of `struct usbdevfs_urb` without its packet descriptors.
pub fn urb_size(p: Pointers) -> (r: u32)
    ensures
        r == urb_bytes(p),
{
    match p {
        Pointers::Bits32 => 44,
        Pointers::Bits64 => 56,
    }
}

fn argument_size(r: Request, p: Pointers) -> (n: u32)
    ensures
        n == argument_bytes(r, p),
{
    let wide = match p {
        Pointers::Bits32 => false,
        Pointers::Bits64 => true,
    };
    match r {
        Request::Control | Request::Bulk => if wide {
            24
        } else {
            16
        },
        Request::SetInterface | Request::ConnectInfo | Request::AllocStreams | Request::FreeStreams => 8,
        Request::GetDriver => 260,
        Request::SubmitUrb => urb_size(p),
        Request::ReapUrb | Request::ReapUrbNdelay => if wide {
            8
        } else {
            4
        },
        Request::DiscSignal => if wide {
            16
        } else {
            8
        },
        Request::Ioctl => if wide {
            16
        } else {
            12
        },
        Request::HubPortinfo => 128,
        Request::DisconnectClaim => 264,
        Request::ResetEp | Request::SetConfiguration | Request::ClaimInterface | Request::ReleaseInterface
        | Request::ClearHalt | Request::ClaimPort | Request::ReleasePort | Request::GetCapabilities
        | Request::DropPrivileges => 4,
        Request::DiscardUrb | Request::Reset | Request::Disconnect | Request::Connect | Request::GetSpeed => 0,
    }
}

fn number(r: Request) -> (n: u32)
    ensures
        n == request_number(r),
{
    match r {
        Request::Control => 0,
        Request::Bulk => 2,
        Request::ResetEp => 3,
        Request::SetInterface => 4,
        Request::SetConfiguration => 5,
        Request::GetDriver => 8,
        Request::SubmitUrb => 10,
        Request::DiscardUrb => 11,
        Request::ReapUrb => 12,
        Request::ReapUrbNdelay => 13,
        Request::DiscSignal => 14,
        Request::ClaimInterface => 15,
        Request::ReleaseInterface => 16,
        Request::ConnectInfo => 17,
        Request::Ioctl => 18,
        Request::HubPortinfo => 19,
        Request::Reset => 20,
        Request::ClearHalt => 21,
        Request::Disconnect => 22,
        Request::Connect => 23,
        Request::ClaimPort => 24,
        Request::ReleasePort => 25,
        Request::GetCapabilities => 26,
        Request::DisconnectClaim => 27,
        Request::AllocStreams => 28,
        Request::FreeStreams => 29,
        Request::DropPrivileges => 30,
        Request::GetSpeed => 31,
    }
}

fn transfers(r: Request) -> (t: Transfers)
    ensures
        t == request_transfers(r),
{
    match r {
        Request::Control | Request::Bulk | Request::Ioctl => Transfers::Both,
        Request::GetDriver | Request::ReapUrb | Request::ReapUrbNdelay | Request::ConnectInfo
        | Request::DropPrivileges => Transfers::Write,
        Request::DiscardUrb | Request::Reset | Request::Disconnect | Request::Connect | Request::GetSpeed =>
            Transfers::Nothing,
        _ => Transfers::Read,
    }
}

/// The ioctl number of a request.
pub fn ioctl_number(r: Request, e: Encoding, p: Pointers) -> (n: u32)
    ensures
        n == ioctl_value(r, e, p),
{
    let direction: u32 = match (e, transfers(r)) {
        (Encoding::Common, Transfers::Nothing) => 0,
        (Encoding::Common, Transfers::Write) => 0x4000_0000,
        (Encoding::Common, Transfers::Read) => 0x8000_0000,
        (Encoding::Common, Transfers::Both) => 0xc000_0000,
        (Encoding::Narrow, Transfers::Nothing) => 0x2000_0000,
        (Encoding::Narrow, Transfers::Read) => 0x4000_0000,
        (Encoding::Narrow, Transfers::Write) => 0x8000_0000,
        (Encoding::Narrow, Transfers::Both) => 0xc000_0000,
    };
    direction + argument_size(r, p) * 0x1_0000 + 0x5500 + number(r)
}

/// The packet descriptors, which follow the fixed part of a URB immediately,
/// stand where 32-bit fields may.
pub proof fn lemma_iso_descs_follow_the_urb(p: Pointers)
    ensures
        urb_bytes(p) % 4 == 0,
{
}

/// No two requests have the same number.
pub proof fn lemma_requests_differ(a: Request, b: Request)
    requires
        request_number(a) == request_number(b),
    ensures
        a == b,
{
}

/// The numbers of the requests where pointers have 64 bits, in the common
/// encoding.
pub proof fn lemma_request_numbers()
    ensures
        ({
            let n = |r: Request| ioctl_value(r, Encoding::Common, Pointers::Bits64);
            &&& n(Request::Control) == 0xc018_5500int
            &&& n(Request::Bulk) == 0xc018_5502int
            &&& n(Request::SetInterface) == 0x8008_5504int
            &&& n(Request::SetConfiguration) == 0x8004_5505int
            &&& n(Request::GetDriver) == 0x4104_5508int
            &&& n(Request::SubmitUrb) == 0x8038_550aint
            &&& n(Request::DiscardUrb) == 0x550b
            &&& n(Request::ReapUrb) == 0x4008_550cint
            &&& n(Request::ReapUrbNdelay) == 0x4008_550dint
            &&& n(Request::ClaimInterface) == 0x8004_550fint
            &&& n(Request::ReleaseInterface) == 0x8004_5510int
            &&& n(Request::Ioctl) == 0xc010_5512int
            &&& n(Request::Reset) == 0x5514
            &&& n(Request::ClearHalt) == 0x8004_5515int
            &&& n(Request::Disconnect) == 0x5516
            &&& n(Request::Connect) == 0x5517
            &&& n(Request::GetCapabilities) == 0x8004_551aint
            &&& n(Request::DisconnectClaim) == 0x8108_551bint
            &&& n(Request::GetSpeed) == 0x551f
        }),
        ioctl_value(Request::SubmitUrb, Encoding::Common, Pointers::Bits32) == 0x802c_550aint,
        ioctl_value(Request::Control, Encoding::Common, Pointers::Bits32) == 0xc010_5500int,
        ioctl_value(Request::ReapUrbNdelay, Encoding::Common, Pointers::Bits32) == 0x4004_550dint,
{
}

/// In the narrow encoding a request that moves nothing, reads or writes is
/// marked by bit 29, 30 or 31.
pub proof fn lemma_narrow_encoding(r: Request, p: Pointers)
    ensures
        ({
            let v = ioctl_value(r, Encoding::Narrow, p) / 0x2000_0000;
            &&& request_transfers(r) == Transfers::Nothing <==> v == 1
            &&& request_transfers(r) == Transfers::Read <==> v == 2
            &&& request_transfers(r) == Transfers::Write <==> v == 4
            &&& request_transfers(r) == Transfers::Both <==> v == 6
        }),
{
    let a = argument_bytes(r, p);
    assert(0 <= a < 0x1000);
    assert(0 <= a * 0x1_0000 + 0x5500 + request_number(r) < 0x2000_0000);
}

/// The numbers of the other requests, where pointers have 64 bits, in the
/// common encoding.
pub proof fn lemma_more_request_numbers()
    ensures
        ({
            let n = |r: Request| ioctl_value(r, Encoding::Common, Pointers::Bits64);
            &&& n(Request::ResetEp) == 0x8004_5503int
            &&& n(Request::DiscSignal) == 0x8010_550eint
            &&& n(Request::ConnectInfo) == 0x4008_5511int
            &&& n(Request::HubPortinfo) == 0x8080_5513int
            &&& n(Request::ClaimPort) == 0x8004_5518int
            &&& n(Request::ReleasePort) == 0x8004_5519int
            &&& n(Request::AllocStreams) == 0x8008_551cint
            &&& n(Request::FreeStreams) == 0x8008_551dint
            &&& n(Request::DropPrivileges) == 0x4004_551eint
        }),
{
}

/// The encodings differ in nothing but the three bits that say what a request
/// moves.
pub proof fn lemma_encodings_agree(r: Request, p: Pointers)
    ensures
        ioctl_value(r, Encoding::Narrow, p) % 0x2000_0000 == ioctl_value(r, Encoding::Common, p) % 0x4000_0000,
        ({
            let v = ioctl_value(r, Encoding::Common, p) / 0x4000_0000;
            &&& request_transfers(r) == Transfers::Nothing <==> v == 0
            &&& request_transfers(r) == Transfers::Write <==> v == 1
            &&& request_transfers(r) == Transfers::Read <==> v == 2
            &&& request_transfers(r) == Transfers::Both <==> v == 3
        }),
{
    let a = argument_bytes(r, p);
    assert(0 <= a < 0x1000);
    assert(0 <= a * 0x1_0000 + 0x5500 + request_number(r) < 0x2000_0000);
}

/// How large the arguments are.
pub proof fn lemma_argument_sizes(p: Pointers)
    ensures
        pointer_bytes(Pointers::Bits32) == 4,
        pointer_bytes(Pointers::Bits64) == 8,
        urb_bytes(Pointers::Bits32) == 44,
        urb_bytes(Pointers::Bits64) == 56,
        argument_bytes(Request::GetDriver, p) == 260,
        argument_bytes(Request::DisconnectClaim, p) == 264,
        argument_bytes(Request::SetInterface, p) == 8,
        argument_bytes(Request::ReapUrb, p) == pointer_bytes(p),
{
}

} // verus!
