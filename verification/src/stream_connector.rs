//! Outbound connections: what a connection is to the relay, and the order in
//! which the addresses of a host are tried.
use crate::net::{IoError, IpAddress, SocketAddress};
use vstd::prelude::*;

verus! {

/// An established connection: its two halves, which are driven
/// independently, and its two addresses.
///
/// The relay owns a connection for as long as the stream that it backs is
/// open, and never looks into `reader` or `writer`.
#[derive(Debug, PartialEq, Eq)]
pub struct ConnectionInfo<R, W> {
    pub reader: R,
    pub writer: W,
    pub local_addr: SocketAddress,
    pub peer_addr: SocketAddress,
}

/// What is to be done after an attempt to connect.
#[derive(Debug, PartialEq, Eq)]
pub enum ConnectStep<R, W> {
    /// The attempt succeeded; no other address is tried.
    Connected(ConnectionInfo<R, W>),
    /// The attempt failed; this address is tried next.
    Retry(SocketAddress),
    /// The attempt failed and no address is left. The error is that of the
    /// last attempt.
    Failed(IoError),
}

/// The attempts to reach one host through the addresses that its name
/// resolved to: they are tried in order, the first success ends the
/// attempts, and when none succeeds the last error is the result.
pub struct ConnectOne {
    ip_addrs: Vec<IpAddress>,
    target_hostname: String,
    target_port: u16,
    failed: usize,
    finished: bool,
}

/// `ConnectOne` as a mathematical value.
pub struct ConnectOneView {
    pub ip_addrs: Seq<IpAddress>,
    pub target_hostname: Seq<char>,
    pub target_port: u16,
    /// How many attempts have failed.
    pub failed: nat,
    /// Whether an attempt succeeded or the addresses ran out.
    pub finished: bool,
}

impl ConnectOneView {
    /// The address of the attempt with index `i`.
    pub open spec fn address(self, i: int) -> SocketAddress {
        SocketAddress { ip: self.ip_addrs[i], port: self.target_port }
    }

    /// The address to try now, if the attempts are not over.
    pub open spec fn next_attempt(self) -> Option<SocketAddress> {
        if self.finished {
            None
        } else {
            Some(self.address(self.failed as int))
        }
    }

    /// The attempts after the attempt at `next_attempt()` ended in `result`,
    /// and what is to be done then.
    pub open spec fn after<R, W>(self, result: Result<ConnectionInfo<R, W>, IoError>) -> (
        ConnectOneView,
        ConnectStep<R, W>,
    ) {
        match result {
            Ok(connection) => (
                ConnectOneView { finished: true, ..self },
                ConnectStep::Connected(connection),
            ),
            Err(error) => if self.failed + 1 < self.ip_addrs.len() {
                (
                    ConnectOneView { failed: self.failed + 1, ..self },
                    ConnectStep::Retry(self.address(self.failed as int + 1)),
                )
            } else {
                (
                    ConnectOneView { failed: self.failed + 1, finished: true, ..self },
                    ConnectStep::Failed(error),
                )
            },
        }
    }
}

impl View for ConnectOne {
    type V = ConnectOneView;

    closed spec fn view(&self) -> ConnectOneView {
        ConnectOneView {
            ip_addrs: self.ip_addrs@,
            target_hostname: self.target_hostname@,
            target_port: self.target_port,
            failed: self.failed as nat,
            finished: self.finished,
        }
    }
}

impl ConnectOne {
    /// While an attempt is due, its address is one of the given ones.
    pub closed spec fn wf(&self) -> bool {
        !self.finished ==> self.failed < self.ip_addrs.len()
    }

    /// Starts on the addresses `ip_addrs` of `target_hostname`, none tried
    /// yet. The first attempt goes to the first address.
    pub fn new(ip_addrs: Vec<IpAddress>, target_hostname: String, target_port: u16) -> (attempts:
        ConnectOne)
        requires
            ip_addrs.len() > 0,
        ensures
            attempts.wf(),
            attempts@ == (ConnectOneView {
                ip_addrs: ip_addrs@,
                target_hostname: target_hostname@,
                target_port,
                failed: 0,
                finished: false,
            }),
    {
        ConnectOne { ip_addrs, target_hostname, target_port, failed: 0, finished: false }
    }

    /// The host that the addresses belong to.
    pub fn target_hostname(&self) -> (hostname: &String)
        ensures
            hostname@ == self@.target_hostname,
    {
        &self.target_hostname
    }

    /// The address to try now; none once an attempt has succeeded or the
    /// addresses have run out.
    pub fn next_attempt(&self) -> (address: Option<SocketAddress>)
        requires
            self.wf(),
        ensures
            address == self@.next_attempt(),
    {
        if self.finished {
            None
        } else {
            Some(SocketAddress { ip: self.ip_addrs[self.failed], port: self.target_port })
        }
    }

    /// Takes the result of the attempt at `next_attempt()`. A success ends
    /// the attempts; a failure leads to the next address, or, at the last
    /// address, ends the attempts with that failure.
    pub fn attempt_result<R, W>(&mut self, result: Result<ConnectionInfo<R, W>, IoError>) -> (step:
        ConnectStep<R, W>)
        requires
            old(self).wf(),
            !old(self)@.finished,
        ensures
            final(self).wf(),
            (final(self)@, step) == old(self)@.after(result),
    {
        match result {
            Ok(connection) => {
                self.finished = true;
                ConnectStep::Connected(connection)
            },
            Err(error) => {
                self.failed = self.failed + 1;
                if self.failed < self.ip_addrs.len() {
                    ConnectStep::Retry(
                        SocketAddress { ip: self.ip_addrs[self.failed], port: self.target_port },
                    )
                } else {
                    self.finished = true;
                    ConnectStep::Failed(error)
                }
            },
        }
    }
}

/// One attempt to connect: where to, and how it ended.
pub type Attempt<R, W> = (SocketAddress, Result<ConnectionInfo<R, W>, IoError>);

/// What opens outbound connections.
///
/// A connector may keep a record of its attempts, and may be prepared for
/// a limited number of them only; one that does neither has nothing to say
/// beyond `connect` itself.
pub trait StreamConnector {
    /// The read half of the connections that this connector opens.
    type Reader;

    /// The write half of the connections that this connector opens.
    type Writer;

    /// Whether this connector keeps a record of its attempts.
    open spec fn keeps_record(&self) -> bool {
        false
    }

    /// The attempts made through this connector, in order, if it keeps a
    /// record of them.
    open spec fn attempts(&self) -> Seq<Attempt<Self::Reader, Self::Writer>> {
        Seq::empty()
    }

    /// How many more attempts this connector can take. A connector that
    /// says nothing else can take as many as a list of addresses can hold.
    open spec fn prepared(&self) -> nat {
        usize::MAX as nat
    }

    /// Tries to open one connection to `socket_addr`.
    fn connect(&mut self, socket_addr: SocketAddress) -> (result: Result<
        ConnectionInfo<Self::Reader, Self::Writer>,
        IoError,
    >)
        requires
            old(self).prepared() > 0,
        ensures
            final(self).prepared() >= old(self).prepared() - 1,
            final(self).keeps_record() == old(self).keeps_record(),
            old(self).keeps_record() ==> final(self).attempts() == old(self).attempts().push(
                (socket_addr, result),
            ),
    ;
}

/// `made` are attempts at the addresses `ip_addrs`, from the first on and in
/// their order, on the port `target_port`, of which none but the last
/// succeeded; the last gave `result`, and a failure is the result only when
/// every address was tried.
pub open spec fn tried_in_order<R, W>(
    made: Seq<Attempt<R, W>>,
    ip_addrs: Seq<IpAddress>,
    target_port: u16,
    result: Result<ConnectionInfo<R, W>, IoError>,
) -> bool {
    &&& 1 <= made.len() <= ip_addrs.len()
    &&& forall|i: int|
        0 <= i < made.len() ==> (#[trigger] made[i]).0 == (SocketAddress {
            ip: ip_addrs[i],
            port: target_port,
        })
    &&& forall|i: int| 0 <= i < made.len() - 1 ==> (#[trigger] made[i]).1 is Err
    &&& made.last().1 == result
    &&& result is Err ==> made.len() == ip_addrs.len()
}

/// Connects to the first of `ip_addrs` that can be reached, on
/// `target_port`: the addresses are tried in order, the first success is
/// the result, and when every attempt has failed the result is the error of
/// the last one.
pub fn connect_one<C: StreamConnector>(
    connector: &mut C,
    ip_addrs: Vec<IpAddress>,
    target_hostname: String,
    target_port: u16,
) -> (result: Result<ConnectionInfo<C::Reader, C::Writer>, IoError>)
    requires
        ip_addrs.len() > 0,
        old(connector).prepared() >= ip_addrs.len(),
    ensures
        final(connector).keeps_record() == old(connector).keeps_record(),
        final(connector).prepared() >= old(connector).prepared() - ip_addrs.len(),
        old(connector).keeps_record() ==> {
            &&& old(connector).attempts().is_prefix_of(final(connector).attempts())
            &&& tried_in_order(
                final(connector).attempts().skip(old(connector).attempts().len() as int),
                ip_addrs@,
                target_port,
                result,
            )
        },
{
    let ghost before = connector.attempts();
    let ghost addresses = ip_addrs@;
    let ghost total = ip_addrs@.len();
    let result;
    let mut attempts = ConnectOne::new(ip_addrs, target_hostname, target_port);
    let mut address = SocketAddress { ip: attempts.ip_addrs[0], port: target_port };
    loop
        invariant_except_break
            attempts.wf(),
            !attempts@.finished,
            attempts@.ip_addrs == addresses,
            attempts@.target_port == target_port,
            total == addresses.len(),
            attempts@.failed < total,
            address == attempts@.address(attempts@.failed as int),
            connector.keeps_record() == old(connector).keeps_record(),
            connector.prepared() >= old(connector).prepared() - attempts@.failed,
            old(connector).prepared() >= total,
            before == old(connector).attempts(),
            old(connector).keeps_record() ==> {
                &&& connector.attempts().len() == before.len() + attempts@.failed
                &&& before.is_prefix_of(connector.attempts())
                &&& forall|i: int|
                    0 <= i < attempts@.failed ==> {
                        let made = #[trigger] connector.attempts()[before.len() + i];
                        made.0 == (SocketAddress { ip: addresses[i], port: target_port })
                            && made.1 is Err
                    }
            },
        ensures
            connector.keeps_record() == old(connector).keeps_record(),
            connector.prepared() >= old(connector).prepared() - total,
            old(connector).keeps_record() ==> {
                &&& before.is_prefix_of(connector.attempts())
                &&& tried_in_order(
                    connector.attempts().skip(before.len() as int),
                    addresses,
                    target_port,
                    result,
                )
            },
        decreases total - attempts@.failed,
    {
        let ghost log = connector.attempts();
        let ghost failed = attempts@.failed as int;
        let outcome = connector.connect(address);
        let ghost now = connector.attempts();
        proof {
            if old(connector).keeps_record() {
                assert(now == log.push((address, outcome)));
                assert forall|i: int| 0 <= i < before.len() + failed implies now[i] == log[i] by {}
            }
        }
        match attempts.attempt_result(outcome) {
            ConnectStep::Connected(connection) => {
                result = Ok(connection);
                proof {
                    if old(connector).keeps_record() {
                        let made = now.skip(before.len() as int);
                        assert forall|i: int| 0 <= i < made.len() implies (
                        #[trigger] made[i]).0 == (SocketAddress {
                            ip: addresses[i],
                            port: target_port,
                        }) by {
                            assert(made[i] == now[before.len() + i]);
                        }
                        assert forall|i: int| 0 <= i < made.len() - 1 implies (
                        #[trigger] made[i]).1 is Err by {
                            assert(made[i] == now[before.len() + i]);
                        }
                    }
                }
                break ;
            },
            ConnectStep::Retry(next) => {
                address = next;
            },
            ConnectStep::Failed(error) => {
                result = Err(error);
                proof {
                    if old(connector).keeps_record() {
                        let made = now.skip(before.len() as int);
                        assert forall|i: int| 0 <= i < made.len() implies (
                        #[trigger] made[i]).0 == (SocketAddress {
                            ip: addresses[i],
                            port: target_port,
                        }) by {
                            assert(made[i] == now[before.len() + i]);
                        }
                        assert forall|i: int| 0 <= i < made.len() - 1 implies (
                        #[trigger] made[i]).1 is Err by {
                            assert(made[i] == now[before.len() + i]);
                        }
                    }
                }
                break ;
            },
        }
    }
    result
}

} // verus!
