//! Interfaces on macOS: `utun` kernel controls.
//!
//! Each packet crosses such an interface behind four bytes that name its
//! address family.

use crate::bindings::display::{debug_str, quoted, read_utf8, utf8_error};
use crate::net::socket::{read_unsigned, unsigned_value};
use crate::net::split::slice_chars;
use crate::numeral::{decimal, decimal_text, digit_of, lemma_number_of_numeral};
use crate::text::{cat, cat3, chars_of, copy_bytes};
use crate::tun::device::{
    law_a_name_ends_at_the_first_zero, take_until_zero, until_zero, OsFailure, PacketError,
    PacketErrorKind, PacketErrorView, TunError, TunErrorView,
};
use vstd::prelude::*;
use vstd::slice::slice_subrange;
use vstd::utf8::{decode_utf8, valid_utf8};

verus! {

/// The length of what names the address family.
pub const AF_PREFIX_LEN: usize = 4;

/// The longest frame that is read or written: a jumbo packet.
pub const UTUN_SCRATCH: usize = 9_216;

/// What names IPv6.
pub open spec fn af_inet6() -> Seq<u8> {
    seq![0u8, 0, 0, 30]
}

/// Whether a text starts with `utun`.
pub open spec fn has_utun_prefix(name: Seq<char>) -> bool {
    name.len() >= 4 && name.take(4) == "utun"@
}

/// The unit that a name asks for: 0 lets the system choose, and `utunN` is unit
/// N + 1. Where a name asks for none, why.
pub open spec fn requested_unit(name: Seq<char>) -> Result<u32, TunErrorView> {
    if name.len() == 0 {
        Ok(0)
    } else if !has_utun_prefix(name) {
        Err(
            TunErrorView::InvalidName(
                "macOS utun names must start with `utun` (got "@ + quoted(name)
                    + "); pass an empty string to let the kernel auto-assign"@,
            ),
        )
    } else if name.len() == 4 {
        Ok(0)
    } else {
        match unsigned_value(name.subrange(4, name.len() as int), u32::MAX as int) {
            None => Err(
                TunErrorView::InvalidName(
                    "macOS utun suffix must be a non-negative integer (got "@ + quoted(name)
                        + ")"@,
                ),
            ),
            Some(n) => if n == u32::MAX {
                Err(
                    TunErrorView::InvalidName(
                        "macOS utun suffix overflow (got "@ + quoted(name)
                            + "); pick a smaller unit"@,
                    ),
                )
            } else {
                Ok((n + 1) as u32)
            },
        }
    }
}

/// Reads which unit a name asks for.
pub fn parse_requested_unit(name: &str) -> (r: Result<u32, TunError>)
    ensures
        match r {
            Ok(n) => requested_unit(name@) == Ok::<u32, TunErrorView>(n),
            Err(e) => requested_unit(name@) == Err::<u32, TunErrorView>(e@),
        },
{
    proof {
        reveal_strlit("utun");
    }
    let c = chars_of(name);
    let n = c.len();
    if n == 0 {
        return Ok(0);
    }
    if !(n >= 4 && c[0] == 'u' && c[1] == 't' && c[2] == 'u' && c[3] == 'n') {
        proof {
            if has_utun_prefix(name@) {
                let p = name@.take(4);
                assert(p[0] == 'u' && p[1] == 't' && p[2] == 'u' && p[3] == 'n');
            }
        }
        return Err(
            TunError::InvalidName(
                cat3(
                    "macOS utun names must start with `utun` (got ",
                    debug_str(name).as_str(),
                    "); pass an empty string to let the kernel auto-assign",
                ),
            ),
        );
    }
    assert(name@.take(4) =~= "utun"@);
    if n == 4 {
        return Ok(0);
    }
    let suffix = slice_chars(c.as_slice(), 4, n);
    match read_unsigned(suffix.as_slice(), u32::MAX as u64) {
        None => Err(
            TunError::InvalidName(
                cat3(
                    "macOS utun suffix must be a non-negative integer (got ",
                    debug_str(name).as_str(),
                    ")",
                ),
            ),
        ),
        Some(v) => if v == u32::MAX as u64 {
            Err(
                TunError::InvalidName(
                    cat3(
                        "macOS utun suffix overflow (got ",
                        debug_str(name).as_str(),
                        "); pick a smaller unit",
                    ),
                ),
            )
        } else {
            Ok((v + 1) as u32)
        },
    }
}

/// Why the control socket could not be had; `text` is the failure in words.
pub open spec fn socket_fault(failure: OsFailure, text: Seq<char>) -> TunErrorView {
    match failure {
        OsFailure::NotPermitted | OsFailure::AccessDenied => TunErrorView::PermissionDenied(
            "socket(PF_SYSTEM, SOCK_DGRAM, SYSPROTO_CONTROL) failed: "@ + text
                + " — utun open requires sudo on macOS (or the com.apple.private.networkextension entitlement, which we don't have)"@,
        ),
        _ => TunErrorView::Io(text),
    }
}

/// Says why the control socket could not be had.
pub fn open_kctl_socket_error(failure: OsFailure, text: &str) -> (r: TunError)
    ensures
        r@ == socket_fault(failure, text@),
{
    match failure {
        OsFailure::NotPermitted | OsFailure::AccessDenied => TunError::PermissionDenied(
            cat3(
                "socket(PF_SYSTEM, SOCK_DGRAM, SYSPROTO_CONTROL) failed: ",
                text,
                " — utun open requires sudo on macOS (or the com.apple.private.networkextension entitlement, which we don't have)",
            ),
        ),
        _ => TunError::Io(text.to_owned()),
    }
}

/// Says why the control is not known.
pub fn ctl_info_error(text: &str) -> (r: TunError)
    ensures
        r@ == TunErrorView::Io(
            "ioctl(CTLIOCGINFO, com.apple.net.utun_control) failed: "@ + text@
                + " — kernel does not know about the utun control (very old macOS?)"@,
        ),
{
    TunError::Io(
        cat3(
            "ioctl(CTLIOCGINFO, com.apple.net.utun_control) failed: ",
            text,
            " — kernel does not know about the utun control (very old macOS?)",
        ),
    )
}

/// Why the unit could not be had; `text` is the failure in words.
pub open spec fn connect_fault(
    failure: OsFailure,
    text: Seq<char>,
    sc_unit: u32,
    name: Seq<char>,
) -> TunErrorView {
    match failure {
        OsFailure::Busy => TunErrorView::DeviceBusy(
            "connect(sockaddr_ctl, sc_unit="@ + decimal(sc_unit as int)
                + ") returned EBUSY — interface "@ + quoted(name)
                + " is already in use; pick a different name or pass an empty string to let the kernel auto-assign"@,
        ),
        OsFailure::NotPermitted | OsFailure::AccessDenied => TunErrorView::PermissionDenied(
            "connect(sockaddr_ctl) failed: "@ + text + " — utun open requires sudo on macOS"@,
        ),
        _ => TunErrorView::Io(text),
    }
}

/// Says why the unit could not be had.
pub fn connect_sockaddr_ctl_error(failure: OsFailure, text: &str, sc_unit: u32, name: &str) -> (r:
    TunError)
    ensures
        r@ == connect_fault(failure, text@, sc_unit, name@),
{
    match failure {
        OsFailure::Busy => {
            let mut s = cat3(
                "connect(sockaddr_ctl, sc_unit=",
                decimal_text(sc_unit as u64).as_str(),
                ") returned EBUSY — interface ",
            );
            s.append(debug_str(name).as_str());
            s.append(
                " is already in use; pick a different name or pass an empty string to let the kernel auto-assign",
            );
            TunError::DeviceBusy(s)
        },
        OsFailure::NotPermitted | OsFailure::AccessDenied => TunError::PermissionDenied(
            cat3(
                "connect(sockaddr_ctl) failed: ",
                text,
                " — utun open requires sudo on macOS",
            ),
        ),
        _ => TunError::Io(text.to_owned()),
    }
}

/// Says why the name of the interface could not be asked for.
pub fn ifname_error(text: &str) -> (r: TunError)
    ensures
        r@ == TunErrorView::Io(
            "getsockopt(SYSPROTO_CONTROL, UTUN_OPT_IFNAME) failed: "@ + text@,
        ),
{
    TunError::Io(cat("getsockopt(SYSPROTO_CONTROL, UTUN_OPT_IFNAME) failed: ", text))
}

/// The name in a buffer that the system filled, or why it holds none.
pub open spec fn buffer_name(buf: Seq<u8>) -> Result<Seq<char>, TunErrorView> {
    let b = until_zero(buf);
    if b.len() == buf.len() {
        Err(
            TunErrorView::Io(
                "kernel returned an unterminated interface name from UTUN_OPT_IFNAME"@,
            ),
        )
    } else if valid_utf8(b) {
        Ok(decode_utf8(b))
    } else {
        Err(TunErrorView::Io("non-UTF8 interface name: "@ + utf8_error(b)))
    }
}

/// Reads the name from the buffer that the system filled.
pub fn get_assigned_ifname(buf: &[u8]) -> (r: Result<String, TunError>)
    ensures
        match r {
            Ok(s) => buffer_name(buf@) == Ok::<Seq<char>, TunErrorView>(s@),
            Err(e) => buffer_name(buf@) == Err::<Seq<char>, TunErrorView>(e@),
        },
{
    let b = take_until_zero(buf);
    if b.len() == buf.len() {
        return Err(
            TunError::Io(
                "kernel returned an unterminated interface name from UTUN_OPT_IFNAME".to_owned(),
            ),
        );
    }
    match read_utf8(b) {
        Ok(s) => Ok(s),
        Err(e) => Err(TunError::Io(cat("non-UTF8 interface name: ", e.as_str()))),
    }
}

/// How many bytes to read for a buffer: what it has room for and the address
/// family, within bounds.
pub open spec fn read_size(room: int) -> int {
    if room + AF_PREFIX_LEN < UTUN_SCRATCH {
        room + AF_PREFIX_LEN
    } else {
        UTUN_SCRATCH as int
    }
}

/// How many bytes to read for a buffer.
pub fn bytes_to_read(room: usize) -> (r: usize)
    ensures
        r == read_size(room as int),
{
    if room >= UTUN_SCRATCH - AF_PREFIX_LEN {
        UTUN_SCRATCH
    } else {
        room + AF_PREFIX_LEN
    }
}

/// The packet in what was read, or why there is none: it is shorter than the
/// address family, or longer than the buffer, which is the caller's fault.
pub open spec fn unframed(frame: Seq<u8>, room: int) -> Result<Seq<u8>, PacketErrorView> {
    if frame.len() < AF_PREFIX_LEN {
        Err(
            PacketErrorView {
                kind: PacketErrorKind::Other,
                text: "utun read returned "@ + decimal(frame.len() as int)
                    + " bytes, expected at least "@ + decimal(AF_PREFIX_LEN as int)
                    + " (AF header)"@,
            },
        )
    } else if frame.len() - AF_PREFIX_LEN > room {
        Err(
            PacketErrorView {
                kind: PacketErrorKind::InvalidInput,
                text: "buffer too small for utun frame: need "@ + decimal(
                    frame.len() - AF_PREFIX_LEN,
                ) + ", got "@ + decimal(room),
            },
        )
    } else {
        Ok(frame.subrange(AF_PREFIX_LEN as int, frame.len() as int))
    }
}

/// Takes the packet out of what was read.
pub fn read_packet(frame: &[u8], room: usize) -> (r: Result<Vec<u8>, PacketError>)
    ensures
        match r {
            Ok(p) => unframed(frame@, room as int) == Ok::<Seq<u8>, PacketErrorView>(p@),
            Err(e) => unframed(frame@, room as int) == Err::<Seq<u8>, PacketErrorView>(e@),
        },
{
    let n = frame.len();
    if n < AF_PREFIX_LEN {
        let mut s = cat3(
            "utun read returned ",
            decimal_text(n as u64).as_str(),
            " bytes, expected at least ",
        );
        s.append(decimal_text(AF_PREFIX_LEN as u64).as_str());
        s.append(" (AF header)");
        return Err(PacketError { kind: PacketErrorKind::Other, text: s });
    }
    let len: usize = n - AF_PREFIX_LEN;
    if len > room {
        let mut s = cat3(
            "buffer too small for utun frame: need ",
            decimal_text(len as u64).as_str(),
            ", got ",
        );
        s.append(decimal_text(room as u64).as_str());
        return Err(PacketError { kind: PacketErrorKind::InvalidInput, text: s });
    }
    Ok(copy_bytes(slice_subrange(frame, AF_PREFIX_LEN, n)))
}

/// What is to be written for a packet, or why it cannot be: it is empty, or too
/// long, either of which is the caller's fault.
pub open spec fn framed(packet: Seq<u8>) -> Result<Seq<u8>, PacketErrorView> {
    if packet.len() == 0 {
        Err(
            PacketErrorView {
                kind: PacketErrorKind::InvalidInput,
                text: "utun write_packet got empty buffer"@,
            },
        )
    } else if AF_PREFIX_LEN + packet.len() > UTUN_SCRATCH {
        Err(
            PacketErrorView {
                kind: PacketErrorKind::InvalidInput,
                text: "utun write payload too large: "@ + decimal(packet.len() as int)
                    + " bytes exceeds jumbo MTU + header ("@ + decimal(
                    UTUN_SCRATCH - AF_PREFIX_LEN,
                ) + "); split upstream"@,
            },
        )
    } else {
        Ok(af_inet6() + packet)
    }
}

/// Puts the address family before a packet.
pub fn write_packet(packet: &[u8]) -> (r: Result<Vec<u8>, PacketError>)
    ensures
        match r {
            Ok(f) => framed(packet@) == Ok::<Seq<u8>, PacketErrorView>(f@),
            Err(e) => framed(packet@) == Err::<Seq<u8>, PacketErrorView>(e@),
        },
{
    let n = packet.len();
    if n == 0 {
        return Err(
            PacketError {
                kind: PacketErrorKind::InvalidInput,
                text: "utun write_packet got empty buffer".to_owned(),
            },
        );
    }
    if n > UTUN_SCRATCH - AF_PREFIX_LEN {
        let mut s = cat3(
            "utun write payload too large: ",
            decimal_text(n as u64).as_str(),
            " bytes exceeds jumbo MTU + header (",
        );
        s.append(decimal_text((UTUN_SCRATCH - AF_PREFIX_LEN) as u64).as_str());
        s.append("); split upstream");
        return Err(PacketError { kind: PacketErrorKind::InvalidInput, text: s });
    }
    let mut out: Vec<u8> = Vec::new();
    out.push(0);
    out.push(0);
    out.push(0);
    out.push(30);
    out.extend_from_slice(packet);
    assert(out@ =~= af_inet6() + packet@);
    Ok(out)
}

/// How much of a packet was written when that many bytes were written.
pub open spec fn packet_part(n: int) -> int {
    if n < AF_PREFIX_LEN {
        0
    } else {
        n - AF_PREFIX_LEN
    }
}

/// How much of a packet was written when that many bytes were written.
pub fn payload_written(n: usize) -> (r: usize)
    ensures
        r == packet_part(n as int),
{
    if n < AF_PREFIX_LEN {
        0
    } else {
        n - AF_PREFIX_LEN
    }
}

/// The stages of opening an interface.
#[derive(Debug, Clone, Copy, PartialEq, Eq, Structural)]
pub enum MacOsStage {
    /// Read the unit from the name.
    ParseUnit,
    /// Open a control socket.
    OpenSocket,
    /// Look the control up.
    LookUp,
    /// Connect to the unit.
    Connect,
    /// Ask for the name.
    AskName,
    /// Make reads and writes not wait.
    SetNonblocking,
    /// Watch it for packets.
    Watch,
    /// It is open.
    Opened,
    /// It could not be opened.
    Failed,
}

/// What follows a stage: the next one where it went well, otherwise nothing.
pub open spec fn next_macos_stage(stage: MacOsStage, ok: bool) -> MacOsStage {
    if stage == MacOsStage::Opened || stage == MacOsStage::Failed {
        stage
    } else if !ok {
        MacOsStage::Failed
    } else {
        match stage {
            MacOsStage::ParseUnit => MacOsStage::OpenSocket,
            MacOsStage::OpenSocket => MacOsStage::LookUp,
            MacOsStage::LookUp => MacOsStage::Connect,
            MacOsStage::Connect => MacOsStage::AskName,
            MacOsStage::AskName => MacOsStage::SetNonblocking,
            MacOsStage::SetNonblocking => MacOsStage::Watch,
            _ => MacOsStage::Opened,
        }
    }
}

impl MacOsStage {
    /// What follows this stage.
    pub fn next(&self, ok: bool) -> (r: MacOsStage)
        ensures
            r == next_macos_stage(*self, ok),
    {
        if *self == MacOsStage::Opened || *self == MacOsStage::Failed {
            *self
        } else if !ok {
            MacOsStage::Failed
        } else {
            match self {
                MacOsStage::ParseUnit => MacOsStage::OpenSocket,
                MacOsStage::OpenSocket => MacOsStage::LookUp,
                MacOsStage::LookUp => MacOsStage::Connect,
                MacOsStage::Connect => MacOsStage::AskName,
                MacOsStage::AskName => MacOsStage::SetNonblocking,
                MacOsStage::SetNonblocking => MacOsStage::Watch,
                _ => MacOsStage::Opened,
            }
        }
    }
}

/// What is written is, once it is read, the packet that it was written for,
/// and all of it counts as written.
pub proof fn law_utun_frames_round_trip(packet: Seq<u8>, room: int)
    requires
        framed(packet) is Ok,
        packet.len() <= room,
    ensures
        unframed(framed(packet)->Ok_0, room) == Ok::<Seq<u8>, PacketErrorView>(packet),
        (framed(packet)->Ok_0).len() <= UTUN_SCRATCH,
        (framed(packet)->Ok_0).len() <= read_size(room),
{
    let f = framed(packet)->Ok_0;
    assert(f.subrange(AF_PREFIX_LEN as int, f.len() as int) =~= packet);
}

/// A packet that is not written is refused as the caller's fault, and a packet
/// is not written only where it is empty or longer than the longest frame less
/// the address family.
pub proof fn law_refused_writes_are_the_callers_fault(packet: Seq<u8>)
    ensures
        framed(packet) is Err <==> packet.len() == 0 || packet.len() > UTUN_SCRATCH - AF_PREFIX_LEN,
        framed(packet) matches Err(e) ==> e.kind == PacketErrorKind::InvalidInput,
        framed(packet) matches Ok(f) ==> f == af_inet6() + packet,
{
}

/// Different names of the form `utunN` that are accepted ask for different
/// units, and none of them lets the system choose.
pub proof fn law_units_are_distinct(a: Seq<char>, b: Seq<char>)
    requires
        a.len() > 4,
        b.len() > 4,
        requested_unit(a) is Ok,
        requested_unit(b) is Ok,
        requested_unit(a) == requested_unit(b),
    ensures
        unsigned_value(a.subrange(4, a.len() as int), u32::MAX as int) == unsigned_value(
            b.subrange(4, b.len() as int),
            u32::MAX as int,
        ),
        requested_unit(a)->Ok_0 > 0,
{
    crate::numeral::lemma_number_nonneg(a.subrange(4, a.len() as int), 10);
    crate::numeral::lemma_number_nonneg(b.subrange(4, b.len() as int), 10);
    crate::numeral::lemma_number_nonneg(a.subrange(4, a.len() as int).subrange(1, a.len() - 4), 10);
    crate::numeral::lemma_number_nonneg(b.subrange(4, b.len() as int).subrange(1, b.len() - 4), 10);
}

/// Whether stages follow each other as they went: each is what follows the one
/// before it, and none comes after an interface is open.
pub open spec fn is_macos_run(run: Seq<MacOsStage>, oks: Seq<bool>) -> bool {
    &&& run.len() == oks.len() + 1
    &&& run[0] == MacOsStage::ParseUnit
    &&& forall|i: int|
        0 <= i < oks.len() ==> run[i] != MacOsStage::Opened && run[i + 1] == next_macos_stage(
            run[i],
            #[trigger] oks[i],
        )
}

proof fn lemma_failed_for_good(run: Seq<MacOsStage>, oks: Seq<bool>, from: int, to: int)
    requires
        is_macos_run(run, oks),
        0 <= from <= to < run.len(),
        run[from] == MacOsStage::Failed,
    ensures
        run[to] == MacOsStage::Failed,
    decreases to - from,
{
    if from < to {
        lemma_failed_for_good(run, oks, from, to - 1);
        let ok = oks[to - 1];
        assert(run[to] == next_macos_stage(run[to - 1], ok));
    }
}

/// An interface that is opened went through every stage once and in this
/// order: its unit was read from the name, a control socket was opened, the
/// control was looked up, the unit was connected to, its name was asked for,
/// reads and writes were made not to wait, and it is watched. Every stage went
/// well.
pub proof fn law_opened_units_went_through_every_stage(run: Seq<MacOsStage>, oks: Seq<bool>)
    requires
        is_macos_run(run, oks),
        run.last() == MacOsStage::Opened,
    ensures
        run == seq![
            MacOsStage::ParseUnit,
            MacOsStage::OpenSocket,
            MacOsStage::LookUp,
            MacOsStage::Connect,
            MacOsStage::AskName,
            MacOsStage::SetNonblocking,
            MacOsStage::Watch,
            MacOsStage::Opened,
        ],
        oks == seq![true, true, true, true, true, true, true],
{
    let n = run.len() - 1;
    assert forall|i: int| 0 <= i < oks.len() && run[i] != MacOsStage::Failed implies oks[i] by {
        if !oks[i] {
            assert(run[i + 1] == next_macos_stage(run[i], oks[i]));
            lemma_failed_for_good(run, oks, i + 1, n);
        }
    }
    assert(n > 0 && oks[0] && run[1] == MacOsStage::OpenSocket);
    assert(n > 1 && oks[1] && run[2] == MacOsStage::LookUp);
    assert(n > 2 && oks[2] && run[3] == MacOsStage::Connect);
    assert(n > 3 && oks[3] && run[4] == MacOsStage::AskName);
    assert(n > 4 && oks[4] && run[5] == MacOsStage::SetNonblocking);
    assert(n > 5 && oks[5] && run[6] == MacOsStage::Watch);
    assert(n > 6 && oks[6] && run[7] == MacOsStage::Opened);
    if n > 7 {
        let ok = oks[7];
    }
    assert(run =~= seq![
        MacOsStage::ParseUnit,
        MacOsStage::OpenSocket,
        MacOsStage::LookUp,
        MacOsStage::Connect,
        MacOsStage::AskName,
        MacOsStage::SetNonblocking,
        MacOsStage::Watch,
        MacOsStage::Opened,
    ]);
    assert(oks =~= seq![true, true, true, true, true, true, true]);
}

/// Once a stage did not go well the interface could not be opened, and it stays
/// so whatever comes after.
pub proof fn law_a_failed_stage_is_the_end(
    run: Seq<MacOsStage>,
    oks: Seq<bool>,
    at: int,
    later: int,
)
    requires
        is_macos_run(run, oks),
        0 <= at < oks.len(),
        !oks[at],
        at < later < run.len(),
    ensures
        run[later] == MacOsStage::Failed,
{
    assert(run[at + 1] == next_macos_stage(run[at], oks[at]));
    lemma_failed_for_good(run, oks, at + 1, later);
}

/// Seven stages that go well open an interface, so that opening ends.
pub proof fn law_good_stages_open(run: Seq<MacOsStage>, oks: Seq<bool>)
    requires
        is_macos_run(run, oks),
        oks.len() == 7,
        forall|i: int| 0 <= i < 7 ==> #[trigger] oks[i],
    ensures
        run.last() == MacOsStage::Opened,
{
    assert(oks[0] && oks[1] && oks[2] && oks[3] && oks[4] && oks[5] && oks[6]);
    assert(run[1] == MacOsStage::OpenSocket);
    assert(run[2] == MacOsStage::LookUp);
    assert(run[3] == MacOsStage::Connect);
    assert(run[4] == MacOsStage::AskName);
    assert(run[5] == MacOsStage::SetNonblocking);
    assert(run[6] == MacOsStage::Watch);
}

/// The name `utun` followed by a number below the greatest asks for the unit
/// one above that number. An empty name and a bare `utun` let the system
/// choose. No other name is accepted.
pub proof fn law_names_ask_for_units(name: Seq<char>, n: nat)
    requires
        n < u32::MAX,
    ensures
        requested_unit("utun"@ + decimal(n as int)) == Ok::<u32, TunErrorView>((n + 1) as u32),
        requested_unit(Seq::empty()) == Ok::<u32, TunErrorView>(0),
        requested_unit("utun"@) == Ok::<u32, TunErrorView>(0),
        requested_unit(name) is Ok ==> name.len() == 0 || name =~= "utun"@ || (name.len() > 4
            && name[0] == 'u' && name[1] == 't' && name[2] == 'u' && name[3] == 'n'
            && unsigned_value(name.subrange(4, name.len() as int), u32::MAX - 1) is Some),
        name.len() > 4 && name[0] == 'u' && name[1] == 't' && name[2] == 'u' && name[3] == 'n'
            && unsigned_value(name.subrange(4, name.len() as int), u32::MAX - 1) is Some
            ==> requested_unit(name) == Ok::<u32, TunErrorView>(
            (unsigned_value(name.subrange(4, name.len() as int), u32::MAX - 1)->0 + 1) as u32,
        ),
        requested_unit(name) matches Err(e) ==> e is InvalidName,
{
    reveal_strlit("utun");
    let u = "utun"@;
    if name.len() > 4 && name[0] == 'u' && name[1] == 't' && name[2] == 'u' && name[3] == 'n' {
        assert(name.take(4) =~= u);
    }
    let d = decimal(n as int);
    let whole = u + d;
    lemma_number_of_numeral(n, 10);
    assert(whole.take(4) =~= u);
    assert(whole.subrange(4, whole.len() as int) =~= d);
    assert(digit_of(d[0]) < 10);
    assert(d[0] != '+');
    assert(u.take(4) =~= u);
    if requested_unit(name) is Ok && name.len() > 0 {
        let p = name.take(4);
        assert(p[0] == 'u' && p[1] == 't' && p[2] == 'u' && p[3] == 'n');
        if name.len() == 4 {
            assert(name =~= u);
        }
    }
}

/// A packet that fits the buffer is handed over without the four bytes before
/// it. What is shorter than those is a failure, and a packet that does not fit
/// is the caller's fault.
pub proof fn law_what_is_read_is_a_packet(frame: Seq<u8>, room: int)
    requires
        room >= 0,
    ensures
        unframed(frame, room) is Ok <==> 4 <= frame.len() <= room + 4,
        unframed(frame, room) matches Ok(p) ==> p.len() == frame.len() - 4 && forall|i: int|
            0 <= i < p.len() ==> p[i] == frame[i + 4],
        unframed(frame, room) matches Err(e) ==> (e.kind == PacketErrorKind::InvalidInput
            <==> frame.len() >= 4),
        read_size(room) <= 9_216,
        read_size(room) <= room + 4,
        read_size(room) == 9_216 || read_size(room) == room + 4,
{
}

/// A lack of rights is told as one, a unit that is in use as that, and any
/// other failure in the words of the system.
pub proof fn law_missing_rights_are_told(
    failure: OsFailure,
    text: Seq<char>,
    sc_unit: u32,
    name: Seq<char>,
)
    ensures
        socket_fault(failure, text) is PermissionDenied <==> (failure is NotPermitted
            || failure is AccessDenied),
        connect_fault(failure, text, sc_unit, name) is PermissionDenied <==> (
        failure is NotPermitted || failure is AccessDenied),
        connect_fault(failure, text, sc_unit, name) is DeviceBusy <==> failure is Busy,
        !(failure is NotPermitted || failure is AccessDenied) ==> socket_fault(failure, text)
            == TunErrorView::Io(text),
        failure is NotFound || failure is Other ==> connect_fault(failure, text, sc_unit, name)
            == TunErrorView::Io(text),
{
}

/// The name of an interface is what is before the first zero byte, where there
/// is one and that is text.
pub proof fn law_a_name_needs_its_end(buf: Seq<u8>)
    ensures
        buffer_name(buf) is Ok <==> buf.contains(0) && valid_utf8(until_zero(buf)),
        buffer_name(buf) matches Ok(s) ==> s == decode_utf8(until_zero(buf)),
        buffer_name(buf) matches Err(e) ==> e is Io,
{
    law_a_name_ends_at_the_first_zero(buf);
    let n = until_zero(buf).len() as int;
    if n < buf.len() {
        assert(buf[n] == 0);
    } else if buf.contains(0) {
        let i = choose|i: int| 0 <= i < buf.len() && buf[i] == 0;
        assert(buf[i] != 0);
    }
}

/// What is written for a packet are four bytes that name IPv6, and the packet.
pub proof fn law_what_frames_look_like(packet: Seq<u8>)
    requires
        0 < packet.len() <= 9_212,
    ensures
        framed(packet) matches Ok(f) && f.len() == packet.len() + 4 && f[0] == 0 && f[1] == 0 && f[2]
            == 0 && f[3] == 30 && f.skip(4) == packet,
{
    let f = framed(packet)->Ok_0;
    assert(f.skip(4) =~= packet);
}

/// A packet counts as written as far as it was, and whole once its frame was.
pub proof fn law_what_counts_as_written(packet: Seq<u8>, n: int)
    requires
        framed(packet) is Ok,
        0 <= n <= (framed(packet)->Ok_0).len(),
    ensures
        packet_part((framed(packet)->Ok_0).len() as int) == packet.len(),
        0 <= packet_part(n) <= packet.len(),
        n >= 4 ==> packet.take(packet_part(n)) == (framed(packet)->Ok_0).subrange(4, n),
        n < 4 ==> packet_part(n) == 0,
{
    let f = framed(packet)->Ok_0;
    if n >= 4 {
        assert(packet.take(packet_part(n)) =~= f.subrange(4, n));
    }
}

} // verus!
