//! Interfaces on any system.

use crate::net::addr::Ipv6Addr;
use crate::text::cat;
use vstd::prelude::*;

verus! {

/// What an interface should be like.
#[derive(Debug, Clone)]
pub struct TunOptions {
    /// Its name; empty to let the system choose.
    pub name: String,
    /// Its address, with a prefix of 64 bits.
    pub ula: Ipv6Addr,
    /// The longest packet that crosses it.
    pub mtu: u16,
}

/// An interface.
pub trait TunDevice {
    /// The name that the system gave it.
    fn name(&self) -> &str;

    /// Reads a packet into a buffer; says how long it is.
    fn read_packet(&self, buf: &mut Vec<u8>) -> Result<usize, PacketError>;

    /// Writes a packet; says how much of it was written.
    fn write_packet(&self, buf: &Vec<u8>) -> Result<usize, PacketError>;
}

/// The kinds of failure of reading or writing a packet that are told apart.
#[derive(Debug, Clone, Copy, PartialEq, Eq, Structural)]
pub enum PacketErrorKind {
    /// What the caller handed over cannot be used.
    InvalidInput,
    /// Any other.
    Other,
}

/// Why a packet was not read or written.
#[derive(Debug)]
pub struct PacketError {
    /// The kind of failure.
    pub kind: PacketErrorKind,
    /// The failure in words.
    pub text: String,
}

/// What a `PacketError` holds.
#[verifier::ext_equal]
pub struct PacketErrorView {
    pub kind: PacketErrorKind,
    pub text: Seq<char>,
}

impl View for PacketError {
    type V = PacketErrorView;

    open spec fn view(&self) -> PacketErrorView {
        PacketErrorView { kind: self.kind, text: self.text@ }
    }
}

/// Why there is no interface.
#[derive(Debug)]
pub enum TunError {
    /// There is none on this system.
    UnsupportedPlatform,
    /// The system failed, in words.
    Io(String),
    /// The caller may not open one.
    PermissionDenied(String),
    /// It cannot have that name.
    InvalidName(String),
    /// There is one of that name.
    DeviceBusy(String),
}

/// What a `TunError` holds.
#[verifier::ext_equal]
pub enum TunErrorView {
    UnsupportedPlatform,
    Io(Seq<char>),
    PermissionDenied(Seq<char>),
    InvalidName(Seq<char>),
    DeviceBusy(Seq<char>),
}

impl View for TunError {
    type V = TunErrorView;

    open spec fn view(&self) -> TunErrorView {
        match self {
            TunError::UnsupportedPlatform => TunErrorView::UnsupportedPlatform,
            TunError::Io(s) => TunErrorView::Io(s@),
            TunError::PermissionDenied(s) => TunErrorView::PermissionDenied(s@),
            TunError::InvalidName(s) => TunErrorView::InvalidName(s@),
            TunError::DeviceBusy(s) => TunErrorView::DeviceBusy(s@),
        }
    }
}

/// An error in words.
pub open spec fn tun_error_text(e: TunErrorView) -> Seq<char> {
    match e {
        TunErrorView::UnsupportedPlatform => "tun unsupported on this platform"@,
        TunErrorView::Io(s) => "io: "@ + s,
        TunErrorView::PermissionDenied(s) => "permission denied: "@ + s,
        TunErrorView::InvalidName(s) => "invalid name: "@ + s,
        TunErrorView::DeviceBusy(s) => "device busy: "@ + s,
    }
}

impl TunError {
    /// The error in words.
    pub fn to_text(&self) -> (r: String)
        ensures
            r@ == tun_error_text(self@),
    {
        match self {
            TunError::UnsupportedPlatform => "tun unsupported on this platform".to_owned(),
            TunError::Io(s) => cat("io: ", s.as_str()),
            TunError::PermissionDenied(s) => cat("permission denied: ", s.as_str()),
            TunError::InvalidName(s) => cat("invalid name: ", s.as_str()),
            TunError::DeviceBusy(s) => cat("device busy: ", s.as_str()),
        }
    }
}

/// The kinds of failure of a system call that are told apart.
#[derive(Debug, Clone, Copy, PartialEq, Eq, Structural)]
pub enum OsFailure {
    /// `EPERM`
    NotPermitted,
    /// `EACCES`
    AccessDenied,
    /// `ENOENT`
    NotFound,
    /// `EBUSY`
    Busy,
    /// Any other.
    Other,
}

/// The bytes before the first zero byte; all of them where there is none.
pub open spec fn until_zero(s: Seq<u8>) -> Seq<u8>
    decreases s.len(),
{
    if s.len() == 0 || s[0] == 0 {
        Seq::empty()
    } else {
        seq![s[0]] + until_zero(s.subrange(1, s.len() as int))
    }
}

pub(crate) proof fn lemma_until_zero(s: Seq<u8>, n: int)
    requires
        0 <= n <= s.len(),
        forall|i: int| 0 <= i < n ==> s[i] != 0,
        n == s.len() || s[n] == 0,
    ensures
        until_zero(s) == s.take(n),
    decreases s.len(),
{
    if n > 0 {
        let t = s.subrange(1, s.len() as int);
        lemma_until_zero(t, n - 1);
        assert(s.take(n) =~= seq![s[0]] + t.take(n - 1));
    } else {
        assert(s.take(0) =~= Seq::<u8>::empty());
    }
}

/// Takes the bytes before the first zero byte.
pub(crate) fn take_until_zero(s: &[u8]) -> (r: Vec<u8>)
    ensures
        r@ == until_zero(s@),
{
    let mut r: Vec<u8> = Vec::new();
    let mut i: usize = 0;
    while i < s.len() && s[i] != 0
        invariant
            i <= s@.len(),
            r@ == s@.take(i as int),
            forall|k: int| 0 <= k < i ==> s@[k] != 0,
        decreases s@.len() - i,
    {
        assert(s@.take(i + 1) =~= s@.take(i as int).push(s@[i as int]));
        r.push(s[i]);
        i = i + 1;
    }
    proof {
        lemma_until_zero(s@, i as int);
    }
    r
}

/// What is before the first zero byte is a start of the bytes, has no zero byte
/// in it, and is followed by one, or is all there is.
pub proof fn law_a_name_ends_at_the_first_zero(s: Seq<u8>)
    ensures
        ({
            let n = until_zero(s).len() as int;
            &&& n <= s.len()
            &&& until_zero(s) == s.take(n)
            &&& forall|i: int| 0 <= i < n ==> #[trigger] s[i] != 0
            &&& n < s.len() ==> s[n] == 0
        }),
    decreases s.len(),
{
    if s.len() == 0 || s[0] == 0 {
        assert(s.take(0) =~= Seq::<u8>::empty());
    } else {
        let t = s.subrange(1, s.len() as int);
        law_a_name_ends_at_the_first_zero(t);
        let m = until_zero(t).len() as int;
        assert(until_zero(s) =~= s.take(m + 1));
        assert forall|i: int| 0 <= i < m + 1 implies #[trigger] s[i] != 0 by {
            if i > 0 {
                assert(t[i - 1] != 0);
            }
        }
    }
}

/// What errors say: what went wrong, then what it is about, as it was given.
pub proof fn law_what_errors_say(s: Seq<char>)
    ensures
        tun_error_text(TunErrorView::UnsupportedPlatform) == "tun unsupported on this platform"@,
        tun_error_text(TunErrorView::Io(s)) == "io: "@ + s,
        tun_error_text(TunErrorView::PermissionDenied(s)) == "permission denied: "@ + s,
        tun_error_text(TunErrorView::InvalidName(s)) == "invalid name: "@ + s,
        tun_error_text(TunErrorView::DeviceBusy(s)) == "device busy: "@ + s,
{
}

} // verus!
