//! Interfaces on Linux: `/dev/net/tun` and the `ip` command.

use crate::bindings::display::{debug_str, quoted, read_utf8, utf8_error};
use crate::net::addr::{ipv6_text, Ipv6Addr};
use crate::net::split::joined;
use crate::numeral::{decimal, decimal_text};
use crate::text::{cat, cat3, chars_of, strs};
use crate::tun::device::{
    lemma_until_zero, take_until_zero, until_zero, OsFailure, TunError, TunErrorView,
};
use vstd::prelude::*;
use vstd::utf8::{decode_utf8, encode_utf8, valid_utf8};

verus! {

/// The longest name, in bytes.
pub const LINUX_IFNAME_MAX: usize = 15;

/// The length of the field for a name.
pub const IFNAMSIZ: usize = 16;

/// Why an interface cannot have a name: it is too long, or has a character that
/// no name has.
pub open spec fn name_fault(name: Seq<char>) -> Option<Seq<char>> {
    if encode_utf8(name).len() > LINUX_IFNAME_MAX {
        Some(
            "linux interface names must be <= "@ + decimal(LINUX_IFNAME_MAX as int)
                + " bytes (got "@ + decimal(encode_utf8(name).len() as int) + " = "@ + quoted(name)
                + ")"@,
        )
    } else if name.contains('/') || name.contains('\0') {
        Some(
            "linux interface names cannot contain '/' or NUL (got "@ + quoted(name) + ")"@,
        )
    } else {
        None
    }
}

fn has_char(s: &Vec<char>, c: char) -> (r: bool)
    ensures
        r == s@.contains(c),
{
    let mut i: usize = 0;
    while i < s.len()
        invariant
            i <= s@.len(),
            forall|k: int| 0 <= k < i ==> s@[k] != c,
        decreases s@.len() - i,
    {
        if s[i] == c {
            assert(s@[i as int] == c);
            return true;
        }
        i = i + 1;
    }
    false
}

/// Checks that an interface can have a name.
pub fn check_name(name: &str) -> (r: Result<(), TunError>)
    ensures
        match r {
            Ok(_) => name_fault(name@) is None,
            Err(e) => name_fault(name@) is Some && e@ == TunErrorView::InvalidName(
                name_fault(name@)->0,
            ),
        },
{
    let n = name.as_bytes().len();
    if n > LINUX_IFNAME_MAX {
        let mut s = cat3(
            "linux interface names must be <= ",
            decimal_text(LINUX_IFNAME_MAX as u64).as_str(),
            " bytes (got ",
        );
        s.append(decimal_text(n as u64).as_str());
        s.append(" = ");
        s.append(debug_str(name).as_str());
        s.append(")");
        return Err(TunError::InvalidName(s));
    }
    let c = chars_of(name);
    if has_char(&c, '/') || has_char(&c, '\0') {
        return Err(
            TunError::InvalidName(
                cat3(
                    "linux interface names cannot contain '/' or NUL (got ",
                    debug_str(name).as_str(),
                    ")",
                ),
            ),
        );
    }
    Ok(())
}

/// Why `/dev/net/tun` could not be opened; `text` is the failure in words.
pub open spec fn open_fault(failure: OsFailure, text: Seq<char>) -> TunErrorView {
    match failure {
        OsFailure::NotPermitted | OsFailure::AccessDenied => TunErrorView::PermissionDenied(
            "open(/dev/net/tun) failed: "@ + text + " (need CAP_NET_ADMIN or root)"@,
        ),
        OsFailure::NotFound => TunErrorView::Io(
            "/dev/net/tun missing — load the `tun` kernel module (modprobe tun) or run on a kernel built with CONFIG_TUN=y"@,
        ),
        _ => TunErrorView::Io(text),
    }
}

/// Says why `/dev/net/tun` could not be opened.
pub fn open_tun_dev_error(failure: OsFailure, text: &str) -> (r: TunError)
    ensures
        r@ == open_fault(failure, text@),
{
    match failure {
        OsFailure::NotPermitted | OsFailure::AccessDenied => TunError::PermissionDenied(
            cat3("open(/dev/net/tun) failed: ", text, " (need CAP_NET_ADMIN or root)"),
        ),
        OsFailure::NotFound => TunError::Io(
            "/dev/net/tun missing — load the `tun` kernel module (modprobe tun) or run on a kernel built with CONFIG_TUN=y".to_owned(),
        ),
        _ => TunError::Io(text.to_owned()),
    }
}

/// The field for a name: its bytes, as many as fit, and zero bytes behind them.
pub open spec fn name_field(name: Seq<char>) -> Seq<u8> {
    let b = encode_utf8(name);
    Seq::new(
        IFNAMSIZ as nat,
        |i: int|
            if i < b.len() {
                b[i]
            } else {
                0u8
            },
    )
}

/// Fills the field for a name.
pub fn request_field(name: &str) -> (r: Vec<u8>)
    ensures
        r@ == name_field(name@),
{
    let b = name.as_bytes();
    let n = b.len();
    let mut r: Vec<u8> = Vec::new();
    let mut i: usize = 0;
    while i < IFNAMSIZ
        invariant
            i <= IFNAMSIZ,
            n == b@.len(),
            b@ == encode_utf8(name@),
            r@.len() == i,
            forall|k: int| 0 <= k < i ==> r@[k] == name_field(name@)[k],
        decreases IFNAMSIZ - i,
    {
        if i < n {
            r.push(b[i]);
        } else {
            r.push(0);
        }
        i = i + 1;
    }
    assert(r@ =~= name_field(name@));
    r
}

/// Why the interface could not be made; `text` is the failure in words.
pub open spec fn bind_fault(failure: OsFailure, text: Seq<char>, name: Seq<char>) -> TunErrorView {
    match failure {
        OsFailure::NotPermitted => TunErrorView::PermissionDenied(
            "ioctl(TUNSETIFF) failed: "@ + text + " (need CAP_NET_ADMIN or root)"@,
        ),
        OsFailure::Busy => TunErrorView::Io(
            "ioctl(TUNSETIFF) returned EBUSY — an interface named "@ + quoted(name)
                + " already exists. Remove it via `ip link delete "@ + name
                + "` or pick a different name."@,
        ),
        _ => TunErrorView::Io(text),
    }
}

/// Says why the interface could not be made.
pub fn tunsetiff_error(failure: OsFailure, text: &str, name: &str) -> (r: TunError)
    ensures
        r@ == bind_fault(failure, text@, name@),
{
    match failure {
        OsFailure::NotPermitted => TunError::PermissionDenied(
            cat3("ioctl(TUNSETIFF) failed: ", text, " (need CAP_NET_ADMIN or root)"),
        ),
        OsFailure::Busy => {
            let mut s = cat3(
                "ioctl(TUNSETIFF) returned EBUSY — an interface named ",
                debug_str(name).as_str(),
                " already exists. Remove it via `ip link delete ",
            );
            s.append(name);
            s.append("` or pick a different name.");
            TunError::Io(s)
        },
        _ => TunError::Io(text.to_owned()),
    }
}

/// The name in a field that the system filled, or why it holds none.
pub open spec fn field_name(field: Seq<u8>) -> Result<Seq<char>, TunErrorView> {
    let b = until_zero(field);
    if valid_utf8(b) {
        Ok(decode_utf8(b))
    } else {
        Err(TunErrorView::Io("kernel returned non-UTF8 interface name: "@ + utf8_error(b)))
    }
}

/// Reads the name from the field that the system filled.
pub fn assigned_name(field: &[u8]) -> (r: Result<String, TunError>)
    ensures
        match r {
            Ok(s) => field_name(field@) == Ok::<Seq<char>, TunErrorView>(s@),
            Err(e) => field_name(field@) == Err::<Seq<char>, TunErrorView>(e@),
        },
{
    match read_utf8(take_until_zero(field)) {
        Ok(s) => Ok(s),
        Err(e) => Err(
            TunError::Io(cat("kernel returned non-UTF8 interface name: ", e.as_str())),
        ),
    }
}

/// What came of running a command.
#[derive(Debug)]
pub enum CommandRun {
    /// It could not be started, in words.
    NotStarted(String),
    /// It ended: whether well, how in words, and what it complained of.
    Exited { success: bool, status: String, stderr: String },
}

/// What a `CommandRun` holds.
#[verifier::ext_equal]
pub enum RunView {
    NotStarted(Seq<char>),
    Exited { success: bool, status: Seq<char>, stderr: Seq<char> },
}

impl View for CommandRun {
    type V = RunView;

    open spec fn view(&self) -> RunView {
        match self {
            CommandRun::NotStarted(e) => RunView::NotStarted(e@),
            CommandRun::Exited { success, status, stderr } => RunView::Exited {
                success: *success,
                status: status@,
                stderr: stderr@,
            },
        }
    }
}

/// Whether a text stands somewhere in another.
pub open spec fn occurs(s: Seq<char>, part: Seq<char>) -> bool {
    exists|i: int|
        0 <= i && i + part.len() <= s.len() && #[trigger] s.subrange(i, i + part.len()) == part
}

fn occurs_in(s: &str, part: &str) -> (r: bool)
    ensures
        r == occurs(s@, part@),
{
    let c = chars_of(s);
    let p = chars_of(part);
    let n = c.len();
    let m = p.len();
    if m > n {
        assert(!occurs(s@, part@));
        return false;
    }
    let mut i: usize = 0;
    while i <= n - m
        invariant
            m <= n,
            n == c@.len(),
            m == p@.len(),
            c@ == s@,
            p@ == part@,
            i <= n - m + 1,
            forall|k: int|
                0 <= k < i ==> #[trigger] s@.subrange(k, k + part@.len()) != part@,
        decreases n - m + 1 - i,
    {
        let mut j: usize = 0;
        while j < m && c[i + j] == p[j]
            invariant
                j <= m,
                m <= n,
                i <= n - m,
                n == c@.len(),
                m == p@.len(),
                forall|k: int| 0 <= k < j ==> c@[i + k] == p@[k],
            decreases m - j,
        {
            j = j + 1;
        }
        if j == m {
            assert(s@.subrange(i as int, i + part@.len()) =~= part@);
            return true;
        }
        proof {
            if s@.subrange(i as int, i + part@.len()) == part@ {
                assert(s@.subrange(i as int, i + part@.len())[j as int] == part@[j as int]);
            }
        }
        i = i + 1;
    }
    false
}

/// The arguments of `ip` that give an interface its address.
pub open spec fn assign_words(iface: Seq<char>, ula: Ipv6Addr) -> Seq<Seq<char>> {
    seq!["-6"@, "addr"@, "add"@, ipv6_text(ula) + "/64"@, "dev"@, iface]
}

/// The arguments of `ip` that give an interface its address.
pub fn assign_ula_args(iface: &str, ula: Ipv6Addr) -> (r: Vec<String>)
    ensures
        strs(r@) == assign_words(iface@, ula),
{
    let mut r: Vec<String> = Vec::new();
    r.push("-6".to_owned());
    r.push("addr".to_owned());
    r.push("add".to_owned());
    r.push(cat(ula.to_text().as_str(), "/64"));
    r.push("dev".to_owned());
    r.push(iface.to_owned());
    assert(strs(r@) =~= assign_words(iface@, ula));
    r
}

/// The arguments of `ip` that set the longest packet and start an interface.
pub open spec fn bring_up_words(iface: Seq<char>, mtu: u16) -> Seq<Seq<char>> {
    seq!["link"@, "set"@, "dev"@, iface, "mtu"@, decimal(mtu as int), "up"@]
}

/// The arguments of `ip` that set the longest packet and start an interface.
pub fn bring_up_args(iface: &str, mtu: u16) -> (r: Vec<String>)
    ensures
        strs(r@) == bring_up_words(iface@, mtu),
{
    let mut r: Vec<String> = Vec::new();
    r.push("link".to_owned());
    r.push("set".to_owned());
    r.push("dev".to_owned());
    r.push(iface.to_owned());
    r.push("mtu".to_owned());
    r.push(decimal_text(mtu as u64));
    r.push("up".to_owned());
    assert(strs(r@) =~= bring_up_words(iface@, mtu));
    r
}

/// Why an interface did not get its address; that it had it already is no
/// failure.
pub open spec fn assign_fault(iface: Seq<char>, ula: Ipv6Addr, run: RunView) -> Option<Seq<char>> {
    match run {
        RunView::NotStarted(e) => Some("spawn `ip`: "@ + e + " (install iproute2)"@),
        RunView::Exited { success, status, stderr } => if success || occurs(
            stderr,
            "File exists"@,
        ) {
            None
        } else {
            Some(
                "ip -6 addr add "@ + ipv6_text(ula) + "/64 dev "@ + iface + " exited "@ + status
                    + ": "@ + stderr,
            )
        },
    }
}

/// Decides whether an interface got its address.
pub fn assign_ula(iface: &str, ula: Ipv6Addr, run: &CommandRun) -> (r: Result<(), TunError>)
    ensures
        match r {
            Ok(_) => assign_fault(iface@, ula, run@) is None,
            Err(e) => assign_fault(iface@, ula, run@) is Some && e@ == TunErrorView::Io(
                "ip -6 addr add failed for "@ + iface@ + ": "@ + assign_fault(
                    iface@,
                    ula,
                    run@,
                )->0,
            ),
        },
{
    let fault = match run {
        CommandRun::NotStarted(e) => cat3("spawn `ip`: ", e.as_str(), " (install iproute2)"),
        CommandRun::Exited { success, status, stderr } => {
            if *success || occurs_in(stderr.as_str(), "File exists") {
                return Ok(());
            }
            let mut s = cat3("ip -6 addr add ", ula.to_text().as_str(), "/64 dev ");
            s.append(iface);
            s.append(" exited ");
            s.append(status.as_str());
            s.append(": ");
            s.append(stderr.as_str());
            s
        },
    };
    let mut s = cat3("ip -6 addr add failed for ", iface, ": ");
    s.append(fault.as_str());
    Err(TunError::Io(s))
}

/// Why an interface did not start.
pub open spec fn bring_up_fault(iface: Seq<char>, mtu: u16, run: RunView) -> Option<Seq<char>> {
    match run {
        RunView::NotStarted(e) => Some("spawn `ip`: "@ + e + " (install iproute2)"@),
        RunView::Exited { success, status, stderr } => if success {
            None
        } else {
            Some(
                "ip link set dev "@ + iface + " mtu "@ + decimal(mtu as int) + " up exited "@
                    + status + ": "@ + stderr,
            )
        },
    }
}

/// Decides whether an interface started.
pub fn bring_up(iface: &str, mtu: u16, run: &CommandRun) -> (r: Result<(), TunError>)
    ensures
        match r {
            Ok(_) => bring_up_fault(iface@, mtu, run@) is None,
            Err(e) => bring_up_fault(iface@, mtu, run@) is Some && e@ == TunErrorView::Io(
                "ip link set failed for "@ + iface@ + ": "@ + bring_up_fault(iface@, mtu, run@)->0,
            ),
        },
{
    let fault = match run {
        CommandRun::NotStarted(e) => cat3("spawn `ip`: ", e.as_str(), " (install iproute2)"),
        CommandRun::Exited { success, status, stderr } => {
            if *success {
                return Ok(());
            }
            let mut s = cat3("ip link set dev ", iface, " mtu ");
            s.append(decimal_text(mtu as u64).as_str());
            s.append(" up exited ");
            s.append(status.as_str());
            s.append(": ");
            s.append(stderr.as_str());
            s
        },
    };
    let mut s = cat3("ip link set failed for ", iface, ": ");
    s.append(fault.as_str());
    Err(TunError::Io(s))
}

/// The stages of opening an interface.
#[derive(Debug, Clone, Copy, PartialEq, Eq, Structural)]
pub enum LinuxStage {
    /// Check the name.
    CheckName,
    /// Open `/dev/net/tun`.
    OpenDevice,
    /// Make the interface.
    Bind,
    /// Give it its address.
    AssignUla,
    /// Start it.
    BringUp,
    /// Watch it for packets.
    Watch,
    /// It is open.
    Opened,
    /// It could not be opened.
    Failed,
}

/// What follows a stage: the next one where it went well, otherwise nothing.
pub open spec fn next_linux_stage(stage: LinuxStage, ok: bool) -> LinuxStage {
    if stage == LinuxStage::Opened || stage == LinuxStage::Failed {
        stage
    } else if !ok {
        LinuxStage::Failed
    } else {
        match stage {
            LinuxStage::CheckName => LinuxStage::OpenDevice,
            LinuxStage::OpenDevice => LinuxStage::Bind,
            LinuxStage::Bind => LinuxStage::AssignUla,
            LinuxStage::AssignUla => LinuxStage::BringUp,
            LinuxStage::BringUp => LinuxStage::Watch,
            _ => LinuxStage::Opened,
        }
    }
}

impl LinuxStage {
    /// What follows this stage.
    pub fn next(&self, ok: bool) -> (r: LinuxStage)
        ensures
            r == next_linux_stage(*self, ok),
    {
        if *self == LinuxStage::Opened || *self == LinuxStage::Failed {
            *self
        } else if !ok {
            LinuxStage::Failed
        } else {
            match self {
                LinuxStage::CheckName => LinuxStage::OpenDevice,
                LinuxStage::OpenDevice => LinuxStage::Bind,
                LinuxStage::Bind => LinuxStage::AssignUla,
                LinuxStage::AssignUla => LinuxStage::BringUp,
                LinuxStage::BringUp => LinuxStage::Watch,
                _ => LinuxStage::Opened,
            }
        }
    }
}

/// A name that is accepted fits the field with a zero byte behind it, so that
/// the system reads the whole name.
pub proof fn law_accepted_names_fit(name: Seq<char>)
    requires
        name_fault(name) is None,
    ensures
        encode_utf8(name).len() < IFNAMSIZ,
        name_field(name)[IFNAMSIZ - 1] == 0,
        name_field(name).take(encode_utf8(name).len() as int) == encode_utf8(name),
{
    assert(name_field(name).take(encode_utf8(name).len() as int) =~= encode_utf8(name));
}

/// Whether stages follow each other as they went: each is what follows the one
/// before it, and none comes after an interface is open.
pub open spec fn is_linux_run(run: Seq<LinuxStage>, oks: Seq<bool>) -> bool {
    &&& run.len() == oks.len() + 1
    &&& run[0] == LinuxStage::CheckName
    &&& forall|i: int|
        0 <= i < oks.len() ==> run[i] != LinuxStage::Opened && run[i + 1] == next_linux_stage(
            run[i],
            #[trigger] oks[i],
        )
}

proof fn lemma_failed_for_good(run: Seq<LinuxStage>, oks: Seq<bool>, from: int, to: int)
    requires
        is_linux_run(run, oks),
        0 <= from <= to < run.len(),
        run[from] == LinuxStage::Failed,
    ensures
        run[to] == LinuxStage::Failed,
    decreases to - from,
{
    if from < to {
        lemma_failed_for_good(run, oks, from, to - 1);
        let ok = oks[to - 1];
        assert(run[to] == next_linux_stage(run[to - 1], ok));
    }
}

/// An interface that is opened went through every stage once and in this
/// order: its name was checked, the device was opened, the interface was made,
/// it got its address, it was started, and it is watched. Every stage went
/// well.
pub proof fn law_opened_interfaces_went_through_every_stage(
    run: Seq<LinuxStage>,
    oks: Seq<bool>,
)
    requires
        is_linux_run(run, oks),
        run.last() == LinuxStage::Opened,
    ensures
        run == seq![
            LinuxStage::CheckName,
            LinuxStage::OpenDevice,
            LinuxStage::Bind,
            LinuxStage::AssignUla,
            LinuxStage::BringUp,
            LinuxStage::Watch,
            LinuxStage::Opened,
        ],
        oks == seq![true, true, true, true, true, true],
{
    let n = run.len() - 1;
    assert forall|i: int| 0 <= i < oks.len() && run[i] != LinuxStage::Failed implies oks[i] by {
        if !oks[i] {
            assert(run[i + 1] == next_linux_stage(run[i], oks[i]));
            lemma_failed_for_good(run, oks, i + 1, n);
        }
    }
    assert(n > 0 && oks[0] && run[1] == LinuxStage::OpenDevice);
    assert(n > 1 && oks[1] && run[2] == LinuxStage::Bind);
    assert(n > 2 && oks[2] && run[3] == LinuxStage::AssignUla);
    assert(n > 3 && oks[3] && run[4] == LinuxStage::BringUp);
    assert(n > 4 && oks[4] && run[5] == LinuxStage::Watch);
    assert(n > 5 && oks[5] && run[6] == LinuxStage::Opened);
    if n > 6 {
        let ok = oks[6];
    }
    assert(run =~= seq![
        LinuxStage::CheckName,
        LinuxStage::OpenDevice,
        LinuxStage::Bind,
        LinuxStage::AssignUla,
        LinuxStage::BringUp,
        LinuxStage::Watch,
        LinuxStage::Opened,
    ]);
    assert(oks =~= seq![true, true, true, true, true, true]);
}

/// Where the first so many stages went well and the next one did not, the
/// interface could not be opened, and it stays so whatever comes after.
pub proof fn law_a_failed_stage_is_the_end(
    run: Seq<LinuxStage>,
    oks: Seq<bool>,
    at: int,
    later: int,
)
    requires
        is_linux_run(run, oks),
        0 <= at < oks.len(),
        !oks[at],
        at < later < run.len(),
    ensures
        run[later] == LinuxStage::Failed,
{
    assert(run[at + 1] == next_linux_stage(run[at], oks[at]));
    lemma_failed_for_good(run, oks, at + 1, later);
}

/// Six stages that go well open an interface, so that opening ends.
pub proof fn law_good_stages_open(run: Seq<LinuxStage>, oks: Seq<bool>)
    requires
        is_linux_run(run, oks),
        oks.len() == 6,
        forall|i: int| 0 <= i < 6 ==> #[trigger] oks[i],
    ensures
        run.last() == LinuxStage::Opened,
{
    assert(oks[0] && oks[1] && oks[2] && oks[3] && oks[4] && oks[5]);
    assert(run[1] == LinuxStage::OpenDevice);
    assert(run[2] == LinuxStage::Bind);
    assert(run[3] == LinuxStage::AssignUla);
    assert(run[4] == LinuxStage::BringUp);
    assert(run[5] == LinuxStage::Watch);
}

/// An interface has its address where the command that gives it went well, or
/// complained that it has it already; in no other run of the command. It is
/// started only where the command that starts it went well.
pub proof fn law_only_a_known_address_may_fail(
    iface: Seq<char>,
    ula: Ipv6Addr,
    mtu: u16,
    run: RunView,
)
    ensures
        match run {
            RunView::NotStarted(e) => {
                &&& assign_fault(iface, ula, run) is Some
                &&& bring_up_fault(iface, mtu, run) is Some
            },
            RunView::Exited { success, status, stderr } => {
                &&& assign_fault(iface, ula, run) is None <==> (success || exists|i: int, j: int|
                    0 <= i <= j <= stderr.len() && #[trigger] stderr.subrange(i, j)
                        == "File exists"@)
                &&& bring_up_fault(iface, mtu, run) is None <==> success
            },
        },
{
    if let RunView::Exited { success, status, stderr } = run {
        let part = "File exists"@;
        if exists|i: int, j: int|
            0 <= i <= j <= stderr.len() && #[trigger] stderr.subrange(i, j) == part {
            let (i, j) = choose|i: int, j: int|
                0 <= i <= j <= stderr.len() && #[trigger] stderr.subrange(i, j) == part;
            assert(j == i + part.len());
            assert(stderr.subrange(i, i + part.len()) == part);
        }
        if occurs(stderr, part) {
            let i = choose|i: int|
                0 <= i && i + part.len() <= stderr.len() && #[trigger] stderr.subrange(
                    i,
                    i + part.len(),
                ) == part;
            assert(stderr.subrange(i, i + part.len()) == part);
        }
    }
}

/// A name is accepted exactly if it is at most 15 bytes long and has neither a
/// slash nor a zero character.
pub proof fn law_which_names_are_accepted(name: Seq<char>)
    ensures
        name_fault(name) is None <==> encode_utf8(name).len() <= 15 && forall|i: int|
            0 <= i < name.len() ==> #[trigger] name[i] != '/' && name[i] != '\0',
{
    if name.contains('/') {
        let i = choose|i: int| 0 <= i < name.len() && name[i] == '/';
        assert(name[i] == '/');
    }
    if name.contains('\0') {
        let i = choose|i: int| 0 <= i < name.len() && name[i] == '\0';
        assert(name[i] == '\0');
    }
}

/// A name that goes into the field and comes back from the system unchanged is
/// read as it went in.
pub proof fn law_names_round_trip(name: Seq<char>)
    requires
        name_fault(name) is None,
        !encode_utf8(name).contains(0),
    ensures
        until_zero(name_field(name)) == encode_utf8(name),
{
    law_accepted_names_fit(name);
    let b = encode_utf8(name);
    let f = name_field(name);
    lemma_until_zero(f, b.len() as int);
    assert(f.take(b.len() as int) =~= b);
}

/// The whole of the field is 16 bytes, and what the name does not fill is zero.
pub proof fn law_the_field_is_filled_up(name: Seq<char>, i: int)
    requires
        0 <= i < 16,
    ensures
        name_field(name).len() == 16,
        i >= encode_utf8(name).len() ==> name_field(name)[i] == 0,
        i < encode_utf8(name).len() ==> name_field(name)[i] == encode_utf8(name)[i],
{
}

/// Only a lack of rights is told as one: opening the device or making the
/// interface without them, and nothing else.
pub proof fn law_missing_rights_are_told(failure: OsFailure, text: Seq<char>, name: Seq<char>)
    ensures
        open_fault(failure, text) is PermissionDenied <==> (failure is NotPermitted
            || failure is AccessDenied),
        bind_fault(failure, text, name) is PermissionDenied <==> failure is NotPermitted,
        !(failure is NotPermitted || failure is AccessDenied) ==> open_fault(failure, text) is Io,
        !(failure is NotPermitted) ==> bind_fault(failure, text, name) is Io,
        !(failure is NotPermitted || failure is AccessDenied || failure is NotFound)
            ==> open_fault(failure, text) == TunErrorView::Io(text),
        !(failure is NotPermitted || failure is Busy) ==> bind_fault(failure, text, name)
            == TunErrorView::Io(text),
{
}

/// The two commands, with a space between their words.
pub proof fn law_what_the_commands_are(iface: Seq<char>, ula: Ipv6Addr, mtu: u16)
    ensures
        joined(assign_words(iface, ula), ' ') == "-6 addr add "@ + ipv6_text(ula) + "/64 dev "@
            + iface,
        joined(bring_up_words(iface, mtu), ' ') == "link set dev "@ + iface + " mtu "@ + decimal(
            mtu as int,
        ) + " up"@,
{
    reveal_strlit("-6");
    reveal_strlit("addr");
    reveal_strlit("add");
    reveal_strlit("/64");
    reveal_strlit("dev");
    reveal_strlit("-6 addr add ");
    reveal_strlit("/64 dev ");
    reveal_strlit("link");
    reveal_strlit("set");
    reveal_strlit("mtu");
    reveal_strlit("up");
    reveal_strlit("link set dev ");
    reveal_strlit(" mtu ");
    reveal_strlit(" up");
    reveal_with_fuel(joined, 7);
    let a = assign_words(iface, ula);
    assert(a.drop_last() =~= seq!["-6"@, "addr"@, "add"@, ipv6_text(ula) + "/64"@, "dev"@]);
    assert(a.drop_last().drop_last() =~= seq!["-6"@, "addr"@, "add"@, ipv6_text(ula) + "/64"@]);
    assert(a.drop_last().drop_last().drop_last() =~= seq!["-6"@, "addr"@, "add"@]);
    assert(a.drop_last().drop_last().drop_last().drop_last() =~= seq!["-6"@, "addr"@]);
    assert(a.drop_last().drop_last().drop_last().drop_last().drop_last() =~= seq!["-6"@]);
    assert(joined(a, ' ') =~= "-6 addr add "@ + ipv6_text(ula) + "/64 dev "@ + iface);
    let m = decimal(mtu as int);
    let b = bring_up_words(iface, mtu);
    assert(b.drop_last() =~= seq!["link"@, "set"@, "dev"@, iface, "mtu"@, m]);
    assert(b.drop_last().drop_last() =~= seq!["link"@, "set"@, "dev"@, iface, "mtu"@]);
    assert(b.drop_last().drop_last().drop_last() =~= seq!["link"@, "set"@, "dev"@, iface]);
    assert(b.drop_last().drop_last().drop_last().drop_last() =~= seq!["link"@, "set"@, "dev"@]);
    assert(b.drop_last().drop_last().drop_last().drop_last().drop_last() =~= seq![
        "link"@,
        "set"@,
    ]);
    assert(b.drop_last().drop_last().drop_last().drop_last().drop_last().drop_last() =~= seq![
        "link"@,
    ]);
    assert(joined(b, ' ') =~= "link set dev "@ + iface + " mtu "@ + m + " up"@);
}

/// The name that the system filled in is what is before the first zero byte,
/// where that is text; otherwise there is an error of the system.
pub proof fn law_what_the_field_names(field: Seq<u8>)
    ensures
        field_name(field) is Ok <==> valid_utf8(until_zero(field)),
        field_name(field) matches Ok(s) ==> s == decode_utf8(until_zero(field)),
        field_name(field) matches Err(e) ==> e is Io,
{
}

proof fn lemma_occurs(a: Seq<char>, part: Seq<char>, b: Seq<char>)
    ensures
        occurs(a + part + b, part),
{
    let s = a + part + b;
    let i = a.len() as int;
    assert(s.subrange(i, i + part.len()) =~= part);
}

/// What is said of a name that cannot be names it, as it was given.
pub proof fn law_refused_names_are_named(name: Seq<char>)
    requires
        name_fault(name) is Some,
    ensures
        occurs(name_fault(name)->0, quoted(name)),
{
    let q = quoted(name);
    let long = "linux interface names must be <= "@ + decimal(LINUX_IFNAME_MAX as int)
        + " bytes (got "@ + decimal(encode_utf8(name).len() as int) + " = "@;
    lemma_occurs(long, q, ")"@);
    lemma_occurs("linux interface names cannot contain '/' or NUL (got "@, q, ")"@);
}

/// What is said where rights are lacking has what the system said in it, and
/// what is said of a name that is taken has the name in it.
pub proof fn law_failures_have_what_the_system_said(text: Seq<char>, name: Seq<char>)
    ensures
        open_fault(OsFailure::NotPermitted, text) matches TunErrorView::PermissionDenied(t)
            && occurs(t, text),
        bind_fault(OsFailure::NotPermitted, text, name) matches TunErrorView::PermissionDenied(t)
            && occurs(t, text),
        bind_fault(OsFailure::Busy, text, name) matches TunErrorView::Io(t) && occurs(
            t,
            quoted(name),
        ),
{
    lemma_occurs("open(/dev/net/tun) failed: "@, text, " (need CAP_NET_ADMIN or root)"@);
    lemma_occurs("ioctl(TUNSETIFF) failed: "@, text, " (need CAP_NET_ADMIN or root)"@);
    let q = quoted(name);
    let tail = " already exists. Remove it via `ip link delete "@ + name
        + "` or pick a different name."@;
    let head = "ioctl(TUNSETIFF) returned EBUSY — an interface named "@;
    lemma_occurs(head, q, tail);
    assert(head + q + " already exists. Remove it via `ip link delete "@ + name
        + "` or pick a different name."@ =~= head + q + tail);
}

/// What is said of a command that failed has in it how it ended and what it
/// complained of, or why it could not be started.
pub proof fn law_failed_commands_are_told(
    iface: Seq<char>,
    ula: Ipv6Addr,
    mtu: u16,
    status: Seq<char>,
    stderr: Seq<char>,
    text: Seq<char>,
)
    ensures
        ({
            let run = RunView::Exited { success: false, status, stderr };
            &&& assign_fault(iface, ula, run) is Some ==> occurs(
                assign_fault(iface, ula, run)->0,
                status + ": "@ + stderr,
            )
            &&& bring_up_fault(iface, mtu, run) matches Some(t) && occurs(t, status + ": "@ + stderr)
        }),
        assign_fault(iface, ula, RunView::NotStarted(text)) matches Some(t) && occurs(t, text),
        bring_up_fault(iface, mtu, RunView::NotStarted(text)) matches Some(t) && occurs(t, text),
{
    lemma_occurs("spawn `ip`: "@, text, " (install iproute2)"@);
    lemma_ends(
        "ip -6 addr add "@ + ipv6_text(ula) + "/64 dev "@ + iface + " exited "@,
        status,
        stderr,
    );
    lemma_ends(
        "ip link set dev "@ + iface + " mtu "@ + decimal(mtu as int) + " up exited "@,
        status,
        stderr,
    );
}

proof fn lemma_ends(start: Seq<char>, status: Seq<char>, stderr: Seq<char>)
    ensures
        occurs(start + status + ": "@ + stderr, status + ": "@ + stderr),
{
    let ended = status + ": "@ + stderr;
    let whole = start + status + ": "@ + stderr;
    let i = start.len() as int;
    assert(whole.subrange(i, i + ended.len()) =~= ended);
}

} // verus!
