use vstd::prelude::*;
use crate::socket::{Families, Protocol, ProtoFilter, RawSocket};
use crate::process::ProcessInfo;
use crate::terminate::StopSignal;
use netstat2::{AddressFamilyFlags, ProtocolFlags, ProtocolSocketInfo};
use nix::sys::signal::Signal;

verus! {

#[verifier::external_type_specification]
#[verifier::external_body]
pub struct ExSocketInfo(netstat2::SocketInfo);

#[verifier::external_type_specification]
#[verifier::external_body]
pub struct ExNetstatError(netstat2::error::Error);

#[verifier::external_type_specification]
#[verifier::external_body]
pub struct ExSystem(sysinfo::System);

#[verifier::external_type_specification]
#[verifier::external_body]
pub struct ExErrno(nix::errno::Errno);

/// Relies on netstat2::iterate_sockets_info_without_pids: one read of the
/// kernel's socket table over netlink, for the address families and protocols
/// asked for, with every failure returned as an error. Socket owners are not
/// looked up here.
#[verifier::external_body]
pub(crate) fn socket_table(families: Families, filter: ProtoFilter) -> (r: Result<
    Vec<netstat2::SocketInfo>,
    netstat2::error::Error,
>) {
    let families = match families {
        Families::Ipv4 => AddressFamilyFlags::IPV4,
        Families::Ipv6 => AddressFamilyFlags::IPV6,
        Families::Both => AddressFamilyFlags::IPV4 | AddressFamilyFlags::IPV6,
    };
    let protocols = match filter {
        ProtoFilter::Tcp => ProtocolFlags::TCP,
        ProtoFilter::Udp => ProtocolFlags::UDP,
        ProtoFilter::Any => ProtocolFlags::TCP | ProtocolFlags::UDP,
    };
    netstat2::iterate_sockets_info_without_pids(families, protocols)?.collect()
}

/// Relies on the fields of netstat2::SocketInfo (Linux) and on
/// netstat2::TcpState's Display: a TCP entry carries its state, a UDP entry none.
#[verifier::external_body]
pub(crate) fn record_of(si: &netstat2::SocketInfo) -> (r: RawSocket)
    ensures
        (r.protocol == Protocol::Tcp) == (r.state is Some),
{
    match &si.protocol_socket_info {
        ProtocolSocketInfo::Tcp(t) => RawSocket {
            protocol: Protocol::Tcp,
            local_port: t.local_port,
            state: Some(t.state.to_string()),
            inode: si.inode,
        },
        ProtocolSocketInfo::Udp(u) => RawSocket {
            protocol: Protocol::Udp,
            local_port: u.local_port,
            state: None,
            inode: si.inode,
        },
    }
}

/// Relies on the Display of netstat2::error::Error, whose every message
/// starts with fixed, non-empty text.
#[verifier::external_body]
pub(crate) fn enumeration_cause(e: &netstat2::error::Error) -> (r: String)
    ensures
        r@.len() > 0,
{
    e.to_string()
}

/// Relies on sysinfo::System::new_all: one refreshed snapshot of the
/// running processes.
#[verifier::external_body]
pub(crate) fn process_snapshot() -> (r: sysinfo::System) {
    sysinfo::System::new_all()
}

/// Relies on sysinfo::System::process, Process::name and Process::exe: the
/// snapshot's entry for `pid`, if it has one.
#[verifier::external_body]
pub(crate) fn process_info(sys: &sysinfo::System, pid: u32) -> (r: Option<ProcessInfo>)
    ensures
        r matches Some(info) ==> info.pid == pid,
{
    match sys.process(sysinfo::Pid::from_u32(pid)) {
        Some(p) => Some(ProcessInfo {
            pid,
            name: p.name().to_string_lossy().into_owned(),
            executable_path: match p.exe() {
                Some(path) => Some(path.display().to_string()),
                None => None,
            },
        }),
        None => None,
    }
}

/// Relies on nix::sys::signal::kill: asks the kernel to deliver `signal`
/// to the single process `pid` (a positive id names one process).
#[verifier::external_body]
pub(crate) fn send_signal(pid: i32, signal: StopSignal) -> (r: Result<(), nix::errno::Errno>)
    requires
        pid > 0,
{
    let sig = match signal {
        StopSignal::Terminate => Signal::SIGTERM,
        StopSignal::Kill => Signal::SIGKILL,
    };
    nix::sys::signal::kill(nix::unistd::Pid::from_raw(pid), sig)
}

/// Relies on the Display of nix::errno::Errno: the error's name, a colon and
/// its description.
#[verifier::external_body]
pub(crate) fn errno_text(e: nix::errno::Errno) -> (r: String)
    ensures
        r@.len() > 0,
{
    e.to_string()
}

} // verus!
