//! BSD socket types, the socket table, and the IPv4 interface
//! configuration state machine (static address or DHCP).
use vstd::prelude::*;
use std::collections::VecDeque;

verus! {

pub const AF_UNSPEC: u16 = 0;
pub const AF_UNIX: u16 = 1;
pub const AF_INET: u16 = 2;

pub const SOCK_STREAM: u16 = 1;
pub const SOCK_DGRAM: u16 = 2;
pub const SOCK_RAW: u16 = 3;

pub const IPPROTO_IP: u8 = 0;
pub const IPPROTO_TCP: u8 = 6;
pub const IPPROTO_UDP: u8 = 17;

pub const SOL_SOCKET: i32 = 1;
pub const SO_REUSEADDR: i32 = 2;

#[derive(Clone, Copy, Debug)]
pub struct SockAddr {
    pub sa_family: u16,
    pub sa_data: [u8; 14],
}

#[derive(Clone, Copy, Debug)]
pub struct SockAddrIn {
    /// AF_INET
    pub sin_family: u16,
    /// Network byte order.
    pub sin_port: u16,
    pub sin_addr: InAddr,
    pub sin_zero: [u8; 8],
}

#[derive(Clone, Copy, Debug, PartialEq, Eq, Structural)]
pub struct InAddr {
    /// Network byte order (a.b.c.d with `a` most significant).
    pub s_addr: u32,
}

impl InAddr {
    /// The address `a.b.c.d`.
    pub fn new(a: u8, b: u8, c: u8, d: u8) -> (r: Self)
        ensures
            r.s_addr == a as int * 0x100_0000 + b as int * 0x1_0000 + c as int * 0x100 + d as int,
    {
        let v: u32 = (a as u32) * 0x100_0000 + (b as u32) * 0x1_0000 + (c as u32) * 0x100 + d as u32;
        InAddr { s_addr: v }
    }
}

#[derive(Debug, Clone, Copy, PartialEq, Eq, Structural)]
pub enum SocketState {
    Closed,
    Created,
    Bound,
    Listening,
    Connecting,
    Connected,
}

#[derive(Debug)]
pub struct Socket {
    pub id: usize,
    pub domain: u16,
    pub ty: u16,
    pub protocol: u8,
    pub state: SocketState,
    pub local_addr: Option<SockAddrIn>,
    pub peer_addr: Option<SockAddrIn>,
    pub backlog: usize,
    pub accept_queue: VecDeque<usize>,
    pub rx_buf: Vec<u8>,
    pub tx_buf: Vec<u8>,
    /// Owning task slot.
    pub owner: usize,
}

/// A freshly created socket with the given identity.
pub open spec fn fresh_socket(s: Socket, id: usize, domain: u16, ty: u16, protocol: u8, owner: usize) -> bool {
    &&& s.id == id
    &&& s.domain == domain
    &&& s.ty == ty
    &&& s.protocol == protocol
    &&& s.owner == owner
    &&& s.state == SocketState::Created
    &&& s.local_addr is None
    &&& s.peer_addr is None
    &&& s.backlog == 0
    &&& s.accept_queue@.len() == 0
    &&& s.rx_buf@.len() == 0
    &&& s.tx_buf@.len() == 0
}

impl Socket {
    pub fn new(id: usize, domain: u16, ty: u16, protocol: u8, owner: usize) -> (r: Self)
        ensures
            fresh_socket(r, id, domain, ty, protocol, owner),
    {
        Socket {
            id,
            domain,
            ty,
            protocol,
            state: SocketState::Created,
            local_addr: None,
            peer_addr: None,
            backlog: 0,
            accept_queue: VecDeque::new(),
            rx_buf: Vec::new(),
            tx_buf: Vec::new(),
            owner,
        }
    }
}

/// Slot `i` holds the socket `id`.
pub open spec fn holds(s: Seq<Option<Socket>>, i: int, id: usize) -> bool {
    0 <= i < s.len() && s[i] is Some && s[i]->Some_0.id == id
}

/// `i` is the first slot holding `id`.
pub open spec fn first_holder(s: Seq<Option<Socket>>, i: int, id: usize) -> bool {
    holds(s, i, id) && forall|j: int| 0 <= j < i ==> !holds(s, j, id)
}

/// Sockets by id. Id 0 is never handed out.
pub struct SocketTable {
    pub sockets: Vec<Option<Socket>>,
    pub next_id: usize,
}

impl SocketTable {
    pub fn new() -> (r: Self)
        ensures
            r.sockets@.len() == 0,
            r.next_id == 1,
    {
        SocketTable { sockets: Vec::new(), next_id: 1 }
    }

    /// New socket with the next id, in the first free slot (or a new one).
    pub fn alloc_socket(&mut self, domain: u16, ty: u16, protocol: u8, owner: usize) -> (r: Option<usize>)
        ensures
            r == Some(old(self).next_id),
            final(self).next_id == (if old(self).next_id == usize::MAX { 0 } else { old(self).next_id + 1 }),
            exists|i: int| {
                &&& 0 <= i <= old(self).sockets@.len()
                &&& (i < old(self).sockets@.len() ==> old(self).sockets@[i] is None && forall|j: int| 0 <= j < i ==> old(self).sockets@[j] is Some)
                &&& (i == old(self).sockets@.len() ==> forall|j: int| 0 <= j < i ==> old(self).sockets@[j] is Some)
                &&& final(self).sockets@.len() == if i < old(self).sockets@.len() { old(self).sockets@.len() } else { old(self).sockets@.len() + 1 }
                &&& #[trigger] final(self).sockets@[i] is Some
                &&& fresh_socket(final(self).sockets@[i]->Some_0, old(self).next_id, domain, ty, protocol, owner)
                &&& forall|j: int| 0 <= j < old(self).sockets@.len() && j != i ==> final(self).sockets@[j] == old(self).sockets@[j]
            },
    {
        let id = self.next_id;
        self.next_id = self.next_id.wrapping_add(1);
        let mut i: usize = 0;
        while i < self.sockets.len()
            invariant
                self.sockets@ == old(self).sockets@,
                self.next_id == (if old(self).next_id == usize::MAX { 0 } else { old(self).next_id + 1 }),
                id == old(self).next_id,
                0 <= i <= self.sockets@.len(),
                forall|j: int| 0 <= j < i ==> self.sockets@[j] is Some,
            decreases self.sockets@.len() - i,
        {
            if self.sockets[i].is_none() {
                self.sockets.set(i, Some(Socket::new(id, domain, ty, protocol, owner)));
                assert(self.sockets@[i as int] is Some);
                return Some(id);
            }
            i = i + 1;
        }
        self.sockets.push(Some(Socket::new(id, domain, ty, protocol, owner)));
        assert(self.sockets@[i as int] is Some);
        Some(id)
    }

    /// Register a socket under an id chosen elsewhere; slot `id - 1` is used.
    pub fn insert_with_id(&mut self, id: usize, domain: u16, ty: u16, protocol: u8, owner: usize) -> (r: bool)
        requires
            id < usize::MAX,
        ensures
            id == 0 ==> !r && final(self).sockets@ == old(self).sockets@ && final(self).next_id == old(self).next_id,
            id != 0 ==> {
                let idx = id - 1;
                let occupied = idx < old(self).sockets@.len() && old(self).sockets@[idx] is Some;
                &&& r == !occupied
                &&& final(self).sockets@.len() == if old(self).sockets@.len() >= id { old(self).sockets@.len() as int } else { id as int }
                &&& forall|j: int| 0 <= j < old(self).sockets@.len() && j != idx ==> final(self).sockets@[j] == old(self).sockets@[j]
                &&& forall|j: int| old(self).sockets@.len() <= j < final(self).sockets@.len() && j != idx ==> final(self).sockets@[j] is None
                &&& occupied ==> final(self).sockets@[idx] == old(self).sockets@[idx] && final(self).next_id == old(self).next_id
                &&& !occupied ==> final(self).sockets@[idx] is Some && fresh_socket(final(self).sockets@[idx]->Some_0, id, domain, ty, protocol, owner)
                &&& !occupied ==> final(self).next_id == if id >= old(self).next_id { id + 1 } else { old(self).next_id as int }
            },
    {
        if id == 0 {
            return false;
        }
        while self.sockets.len() < id
            invariant
                id > 0,
                old(self).sockets@.len() <= self.sockets@.len(),
                self.sockets@.len() <= if old(self).sockets@.len() >= id { old(self).sockets@.len() as int } else { id as int },
                forall|j: int| 0 <= j < old(self).sockets@.len() ==> self.sockets@[j] == old(self).sockets@[j],
                forall|j: int| old(self).sockets@.len() <= j < self.sockets@.len() ==> self.sockets@[j] is None,
                self.next_id == old(self).next_id,
            decreases id - self.sockets@.len(),
        {
            self.sockets.push(None);
        }
        let idx = id - 1;
        if self.sockets[idx].is_some() {
            return false;
        }
        self.sockets.set(idx, Some(Socket::new(id, domain, ty, protocol, owner)));
        if id >= self.next_id {
            self.next_id = id + 1;
        }
        true
    }

    /// The first socket with this id.
    pub fn get(&self, id: usize) -> (r: Option<&Socket>)
        ensures
            match r {
                Some(s) => exists|i: int| first_holder(self.sockets@, i, id) && *s == self.sockets@[i]->Some_0,
                None => forall|i: int| !holds(self.sockets@, i, id),
            },
    {
        let mut i: usize = 0;
        while i < self.sockets.len()
            invariant
                0 <= i <= self.sockets@.len(),
                forall|j: int| 0 <= j < i ==> !holds(self.sockets@, j, id),
            decreases self.sockets@.len() - i,
        {
            match self.sockets[i].as_ref() {
                Some(s) => {
                    if s.id == id {
                        assert(first_holder(self.sockets@, i as int, id));
                        return Some(s);
                    }
                },
                None => {},
            }
            i = i + 1;
        }
        None
    }

    /// Slot of the first socket with this id, for changing it in place
    /// with [`SocketTable::replace`].
    pub fn get_mut(&self, id: usize) -> (r: Option<usize>)
        ensures
            match r {
                Some(i) => first_holder(self.sockets@, i as int, id),
                None => forall|i: int| !holds(self.sockets@, i, id),
            },
    {
        let mut i: usize = 0;
        while i < self.sockets.len()
            invariant
                0 <= i <= self.sockets@.len(),
                forall|j: int| 0 <= j < i ==> !holds(self.sockets@, j, id),
            decreases self.sockets@.len() - i,
        {
            let hit = match self.sockets[i].as_ref() {
                Some(s) => s.id == id,
                None => false,
            };
            if hit {
                assert(first_holder(self.sockets@, i as int, id));
                return Some(i);
            }
            i = i + 1;
        }
        None
    }

    /// Put `sock` in slot `slot`.
    pub fn replace(&mut self, slot: usize, sock: Socket)
        requires
            slot < old(self).sockets@.len(),
        ensures
            final(self).sockets@ == old(self).sockets@.update(slot as int, Some(sock)),
            final(self).next_id == old(self).next_id,
    {
        self.sockets.set(slot, Some(sock));
    }

    /// Drop the first socket with this id.
    pub fn free(&mut self, id: usize)
        ensures
            final(self).next_id == old(self).next_id,
            (forall|i: int| !holds(old(self).sockets@, i, id)) ==> final(self).sockets@ == old(self).sockets@,
            forall|i: int| first_holder(old(self).sockets@, i, id) ==> final(self).sockets@ == old(self).sockets@.update(i, None),
    {
        let mut i: usize = 0;
        while i < self.sockets.len()
            invariant
                self.sockets@ == old(self).sockets@,
                self.next_id == old(self).next_id,
                0 <= i <= self.sockets@.len(),
                forall|j: int| 0 <= j < i ==> !holds(self.sockets@, j, id),
            decreases self.sockets@.len() - i,
        {
            let hit = match self.sockets[i].as_ref() {
                Some(s) => s.id == id,
                None => false,
            };
            if hit {
                assert(holds(old(self).sockets@, i as int, id));
                self.sockets.set(i, None);
                proof {
                    assert forall|k: int| first_holder(old(self).sockets@, k, id) implies k == i by {
                        if k < i {
                        } else if k > i {
                            assert(holds(old(self).sockets@, i as int, id));
                        }
                    }
                }
                return;
            }
            i = i + 1;
        }
    }
}

/// After `free(id)` the table no longer reports the socket that `get(id)`
/// found first; ids are unique when sockets come from `alloc` without
/// wrapping, so the socket is gone.
pub proof fn law_free_then_get_skips(s: Seq<Option<Socket>>, i: int, id: usize)
    requires
        first_holder(s, i, id),
        forall|a: int, b: int| holds(s, a, id) && holds(s, b, id) ==> a == b,
    ensures
        forall|k: int| !holds(s.update(i, None), k, id),
{
    assert forall|k: int| !holds(s.update(i, None), k, id) by {
        if k != i && 0 <= k < s.len() {
            assert(s.update(i, None)[k] == s[k]);
            if holds(s, k, id) {
                assert(holds(s, i, id));
            }
        }
    }
}

pub const IF_MODE_NONE: u32 = 0;
pub const IF_MODE_STATIC: u32 = 1;
pub const IF_MODE_DHCP: u32 = 2;

pub const IF_STATE_DOWN: u32 = 0;
pub const IF_STATE_CONFIGURING: u32 = 1;
pub const IF_STATE_UP: u32 = 2;

/// Interface configuration as reported to userspace.
#[derive(Clone, Copy)]
pub struct IfConfigUser {
    pub mode: u32,
    pub state: u32,
    pub ip: u32,
    pub prefix: u32,
    pub gateway: u32,
    pub dns: u32,
    pub mac: [u8; 6],
    pub _pad: [u8; 2],
}

/// What the network stack has to be told after a configuration step.
#[derive(Clone, Copy, Debug, PartialEq, Eq, Structural)]
pub enum IfAction {
    /// Nothing changes in the stack.
    Keep,
    /// Drop every IPv4 address and the default IPv4 route.
    ClearIpv4,
    /// Replace the IPv4 address with `ip/prefix` and the default route with
    /// `gateway` (none when 0).
    ApplyIpv4 { ip: u32, prefix: u8, gateway: u32 },
}

/// IPv4 configuration of the single network interface. Addresses are in
/// network byte order as u32 (a.b.c.d with `a` most significant); 0 means
/// "none" for gateway and DNS.
#[derive(Clone, Copy, Debug)]
pub struct IfState {
    pub mode: u32,
    pub state: u32,
    pub ip: u32,
    pub prefix: u8,
    pub gateway: u32,
    pub dns: u32,
    pub dhcp_running: bool,
    pub mac: [u8; 6],
}

impl IfState {
    pub fn new(mac: [u8; 6]) -> (r: Self)
        ensures
            r.mode == IF_MODE_NONE,
            r.state == IF_STATE_DOWN,
            r.ip == 0 && r.prefix == 0 && r.gateway == 0 && r.dns == 0,
            !r.dhcp_running,
            r.mac == mac,
    {
        IfState { mode: IF_MODE_NONE, state: IF_STATE_DOWN, ip: 0, prefix: 0, gateway: 0, dns: 0, dhcp_running: false, mac }
    }

    fn clear_ipv4(&mut self) -> (a: IfAction)
        ensures
            a == IfAction::ClearIpv4,
            final(self).ip == 0 && final(self).prefix == 0 && final(self).gateway == 0 && final(self).dns == 0,
            final(self).state == IF_STATE_DOWN,
            final(self).mode == old(self).mode,
            final(self).dhcp_running == old(self).dhcp_running,
            final(self).mac == old(self).mac,
    {
        self.ip = 0;
        self.prefix = 0;
        self.gateway = 0;
        self.dns = 0;
        self.state = IF_STATE_DOWN;
        IfAction::ClearIpv4
    }

    /// Bring the interface up with `ip/prefix`. Re-applying the live
    /// address, prefix and gateway only refreshes the DNS server.
    fn apply_ipv4(&mut self, ip: u32, prefix: u8, gateway: u32, dns: u32) -> (a: IfAction)
        ensures
            final(self).ip == ip && final(self).prefix == prefix && final(self).gateway == gateway,
            final(self).dns == dns,
            final(self).state == IF_STATE_UP,
            final(self).mode == old(self).mode,
            final(self).dhcp_running == old(self).dhcp_running,
            final(self).mac == old(self).mac,
            (old(self).ip == ip && old(self).prefix == prefix && old(self).gateway == gateway
                && old(self).state == IF_STATE_UP) ==> a == IfAction::Keep,
            !(old(self).ip == ip && old(self).prefix == prefix && old(self).gateway == gateway
                && old(self).state == IF_STATE_UP) ==> a == (IfAction::ApplyIpv4 { ip, prefix, gateway }),
    {
        if self.ip == ip && self.prefix == prefix && self.gateway == gateway && self.state == IF_STATE_UP {
            self.dns = dns;
            return IfAction::Keep;
        }
        self.ip = ip;
        self.prefix = prefix;
        self.gateway = gateway;
        self.dns = dns;
        self.state = IF_STATE_UP;
        IfAction::ApplyIpv4 { ip, prefix, gateway }
    }

    /// `ifconfig static`: stop DHCP and use a fixed address.
    pub fn set_static(&mut self, ip: u32, prefix: u8, gateway: u32) -> (r: Result<IfAction, &'static str>)
        ensures
            prefix > 32 ==> r is Err && *final(self) == *old(self),
            prefix <= 32 ==> {
                &&& r is Ok
                &&& final(self).mode == IF_MODE_STATIC
                &&& !final(self).dhcp_running
                &&& final(self).ip == ip && final(self).prefix == prefix && final(self).gateway == gateway
                &&& final(self).dns == 0
                &&& final(self).state == IF_STATE_UP
            },
    {
        if prefix > 32 {
            return Err("bad prefix");
        }
        self.dhcp_running = false;
        self.mode = IF_MODE_STATIC;
        Ok(self.apply_ipv4(ip, prefix, gateway, 0))
    }

    /// `ifconfig dhcp`: forget the address and (re)start DHCP discovery.
    pub fn start_dhcp(&mut self) -> (a: IfAction)
        ensures
            a == IfAction::ClearIpv4,
            final(self).mode == IF_MODE_DHCP,
            final(self).state == IF_STATE_CONFIGURING,
            final(self).dhcp_running,
            final(self).ip == 0 && final(self).prefix == 0 && final(self).gateway == 0 && final(self).dns == 0,
    {
        let a = self.clear_ipv4();
        self.mode = IF_MODE_DHCP;
        self.state = IF_STATE_CONFIGURING;
        self.dhcp_running = true;
        a
    }

    /// A DHCP lease was granted.
    pub fn dhcp_configured(&mut self, ip: u32, prefix: u8, router: u32, dns: u32) -> (a: IfAction)
        ensures
            final(self).mode == IF_MODE_DHCP,
            final(self).state == IF_STATE_UP,
            final(self).ip == ip && final(self).prefix == prefix && final(self).gateway == router,
            final(self).dns == dns,
    {
        let a = self.apply_ipv4(ip, prefix, router, dns);
        self.mode = IF_MODE_DHCP;
        a
    }

    /// DHCP reported no lease (always on its first poll, or lease loss). A
    /// live address is kept so established TCP connections survive.
    pub fn dhcp_deconfigured(&mut self) -> (a: IfAction)
        ensures
            old(self).state == IF_STATE_UP ==> a == IfAction::Keep && *final(self) == *old(self),
            old(self).state != IF_STATE_UP ==> {
                &&& a == IfAction::ClearIpv4
                &&& final(self).ip == 0 && final(self).gateway == 0
                &&& final(self).mode == old(self).mode
                &&& final(self).state == if old(self).mode == IF_MODE_DHCP { IF_STATE_CONFIGURING } else { IF_STATE_DOWN }
            },
    {
        if self.state != IF_STATE_UP {
            let a = self.clear_ipv4();
            if self.mode == IF_MODE_DHCP {
                self.state = IF_STATE_CONFIGURING;
            }
            return a;
        }
        IfAction::Keep
    }

    pub fn snapshot(&self) -> (r: IfConfigUser)
        ensures
            r.mode == self.mode,
            r.state == self.state,
            r.ip == self.ip,
            r.prefix == self.prefix as u32,
            r.gateway == self.gateway,
            r.dns == self.dns,
            r.mac == self.mac,
    {
        IfConfigUser {
            mode: self.mode,
            state: self.state,
            ip: self.ip,
            prefix: self.prefix as u32,
            gateway: self.gateway,
            dns: self.dns,
            mac: self.mac,
            _pad: [0u8, 0u8],
        }
    }
}

/// Snapshot of the interface, if a NIC was brought up.
pub fn ifconfig_get(stack: &Option<IfState>) -> (r: Option<IfConfigUser>)
    ensures
        (r is Some) == (stack is Some),
        r matches Some(c) ==> c.ip == stack->Some_0.ip && c.mode == stack->Some_0.mode && c.state == stack->Some_0.state,
{
    match stack {
        Some(s) => Some(s.snapshot()),
        None => None,
    }
}

/// Start DHCP on the interface, if a NIC was brought up.
pub fn ifconfig_dhcp(stack: &mut Option<IfState>) -> (r: Result<IfAction, &'static str>)
    ensures
        (r is Ok) == (*old(stack) is Some),
        r is Ok ==> (*final(stack) matches Some(s) && s.mode == IF_MODE_DHCP && s.state == IF_STATE_CONFIGURING),
        r is Err ==> *final(stack) == *old(stack),
{
    match stack {
        Some(s) => Ok(s.start_dhcp()),
        None => Err("no nic"),
    }
}

/// `ifconfig static` on the interface, if a NIC was brought up.
pub fn ifconfig_static(stack: &mut Option<IfState>, ip: u32, prefix: u8, gateway: u32) -> (r: Result<IfAction, &'static str>)
    ensures
        *old(stack) is None ==> r is Err,
        *old(stack) is Some ==> ((r is Ok) == (prefix <= 32)),
        r is Ok ==> (*final(stack) matches Some(s) && s.mode == IF_MODE_STATIC && s.ip == ip && s.prefix == prefix),
{
    match stack {
        Some(s) => s.set_static(ip, prefix, gateway),
        None => Err("no nic"),
    }
}


/// Attempts a TCP connect gets before it times out.
pub const CONNECT_ATTEMPTS: u32 = 200;

/// The local port a connecting socket binds: an ephemeral port chosen by
/// the socket's id.
pub open spec fn spec_connect_port(socket_id: usize) -> int {
    49152 + socket_id % 0x4000
}

pub fn connect_local_port(socket_id: usize) -> (r: u16)
    ensures
        r == spec_connect_port(socket_id),
{
    49152u16 + (socket_id % 0x4000) as u16
}

/// Why a connect failed; the system call answers each with `usize::MAX`.
#[derive(Clone, Copy, Debug, PartialEq, Eq, Structural)]
pub enum ConnectFailure {
    /// No network stack, or no stack handle for the socket.
    NoSocket,
    /// The UDP socket could not be bound.
    BindFailed,
    /// The TCP connect was refused by the stack for another reason than a
    /// missing route.
    ConnectFailed,
    /// The peer closed the connection before it was established.
    Refused,
    /// Every attempt went by without an established connection.
    TimedOut,
}

/// What the stack said to a TCP connect request.
#[derive(Clone, Copy, Debug, PartialEq, Eq, Structural)]
pub enum ConnectReply {
    Issued,
    /// No route to the peer yet (neighbour discovery still running).
    Unaddressable,
    Failed,
}

/// The TCP state read back after the connect was issued.
#[derive(Clone, Copy, Debug, PartialEq, Eq, Structural)]
pub enum TcpPhase {
    Established,
    Closed,
    CloseWait,
    /// Any other state (SYN sent or received): keep waiting.
    Opening,
}

/// Progress of one `connect` call.
#[derive(Clone, Copy, Debug, PartialEq, Eq, Structural)]
pub enum ConnectState {
    /// Nothing asked of the stack yet.
    Start,
    /// A UDP bind to `port` was asked for.
    Binding { port: u16 },
    /// TCP: `attempt` attempts made; `issued` once the stack took the
    /// connect request.
    Tcp { port: u16, attempt: u32, issued: bool },
    /// The call is over: the socket is connected.
    Connected,
    /// The call is over: it failed.
    Failed(ConnectFailure),
}

/// What the caller reports to the connect machine.
#[derive(Clone, Copy, Debug, PartialEq, Eq, Structural)]
pub enum ConnectEvent {
    /// The stack holds socket `id`, of the given kind.
    Socket { id: usize, is_tcp: bool },
    /// No stack, or no handle for the socket.
    NoSocket,
    /// The UDP bind succeeded or not.
    Bound { ok: bool },
    /// The stack's answer to the TCP connect request.
    Connected(ConnectReply),
    /// The TCP state read after the connect was issued.
    Polled(TcpPhase),
}

/// What the caller does next.
#[derive(Clone, Copy, Debug, PartialEq, Eq, Structural)]
pub enum ConnectAction {
    /// Bind the UDP socket to `port` (any address).
    BindUdp { port: u16 },
    /// Poll the stack, then ask it to connect from `port` to the peer.
    Connect { port: u16 },
    /// Sleep until the next tick, poll the stack, read the TCP state.
    Poll,
    /// Record the peer address and mark the socket connected; answer 0.
    MarkConnected,
    /// Answer `usize::MAX`.
    Fail(ConnectFailure),
    /// The event does not belong to this state: nothing to do.
    Ignore,
}

/// After TCP attempt `attempt` (counted from 0) went by without a result:
/// the next attempt, or the time-out once all were spent.
pub open spec fn spec_next_attempt(port: u16, attempt: u32, issued: bool) -> (ConnectState, ConnectAction) {
    if attempt + 1 >= CONNECT_ATTEMPTS {
        (ConnectState::Failed(ConnectFailure::TimedOut), ConnectAction::Fail(ConnectFailure::TimedOut))
    } else if issued {
        (ConnectState::Tcp { port, attempt: (attempt + 1) as u32, issued }, ConnectAction::Poll)
    } else {
        (ConnectState::Tcp { port, attempt: (attempt + 1) as u32, issued }, ConnectAction::Connect { port })
    }
}

fn next_attempt(port: u16, attempt: u32, issued: bool) -> (r: (ConnectState, ConnectAction))
    ensures
        r == spec_next_attempt(port, attempt, issued),
{
    if attempt >= CONNECT_ATTEMPTS - 1 {
        (ConnectState::Failed(ConnectFailure::TimedOut), ConnectAction::Fail(ConnectFailure::TimedOut))
    } else if issued {
        (ConnectState::Tcp { port, attempt: attempt + 1, issued }, ConnectAction::Poll)
    } else {
        (ConnectState::Tcp { port, attempt: attempt + 1, issued }, ConnectAction::Connect { port })
    }
}

/// A TCP state that has made fewer attempts than allowed.
pub open spec fn connect_state_wf(st: ConnectState) -> bool {
    st matches ConnectState::Tcp { attempt, .. } ==> attempt < CONNECT_ATTEMPTS
}

/// One step of `connect`. A UDP socket binds its local port
/// ([`connect_local_port`]) and is connected once bound. A TCP socket asks
/// the stack to connect from that port, again on every attempt while the
/// peer is unaddressable; once the request is taken, each attempt reads the
/// TCP state: established connects, closed or close-wait is refused.
/// After [`CONNECT_ATTEMPTS`] attempts the call times out.
pub fn connect_step(st: ConnectState, ev: ConnectEvent) -> (r: (ConnectState, ConnectAction))
    ensures
        connect_state_wf(st) ==> connect_state_wf(r.0),
        match (st, ev) {
            (ConnectState::Start, ConnectEvent::Socket { id, is_tcp: false }) => r == (
                ConnectState::Binding { port: spec_connect_port(id) as u16 },
                ConnectAction::BindUdp { port: spec_connect_port(id) as u16 },
            ),
            (ConnectState::Start, ConnectEvent::Socket { id, is_tcp: true }) => r == (
                ConnectState::Tcp { port: spec_connect_port(id) as u16, attempt: 0, issued: false },
                ConnectAction::Connect { port: spec_connect_port(id) as u16 },
            ),
            (ConnectState::Start, ConnectEvent::NoSocket) | (ConnectState::Tcp { .. }, ConnectEvent::NoSocket) => r == (
                ConnectState::Failed(ConnectFailure::NoSocket),
                ConnectAction::Fail(ConnectFailure::NoSocket),
            ),
            (ConnectState::Binding { .. }, ConnectEvent::Bound { ok: true }) => r == (
                ConnectState::Connected,
                ConnectAction::MarkConnected,
            ),
            (ConnectState::Binding { .. }, ConnectEvent::Bound { ok: false }) => r == (
                ConnectState::Failed(ConnectFailure::BindFailed),
                ConnectAction::Fail(ConnectFailure::BindFailed),
            ),
            (ConnectState::Tcp { port, attempt, issued: false }, ConnectEvent::Connected(reply)) => match reply {
                ConnectReply::Issued => r == spec_next_attempt(port, attempt, true),
                ConnectReply::Unaddressable => r == spec_next_attempt(port, attempt, false),
                ConnectReply::Failed => r == (
                    ConnectState::Failed(ConnectFailure::ConnectFailed),
                    ConnectAction::Fail(ConnectFailure::ConnectFailed),
                ),
            },
            (ConnectState::Tcp { port, attempt, issued: true }, ConnectEvent::Polled(phase)) => match phase {
                TcpPhase::Established => r == (ConnectState::Connected, ConnectAction::MarkConnected),
                TcpPhase::Closed | TcpPhase::CloseWait => r == (
                    ConnectState::Failed(ConnectFailure::Refused),
                    ConnectAction::Fail(ConnectFailure::Refused),
                ),
                TcpPhase::Opening => r == spec_next_attempt(port, attempt, true),
            },
            _ => r == (st, ConnectAction::Ignore),
        },
{
    match (st, ev) {
        (ConnectState::Start, ConnectEvent::Socket { id, is_tcp }) => {
            let port = connect_local_port(id);
            if is_tcp {
                (ConnectState::Tcp { port, attempt: 0, issued: false }, ConnectAction::Connect { port })
            } else {
                (ConnectState::Binding { port }, ConnectAction::BindUdp { port })
            }
        },
        (ConnectState::Start, ConnectEvent::NoSocket) | (ConnectState::Tcp { .. }, ConnectEvent::NoSocket) => (
            ConnectState::Failed(ConnectFailure::NoSocket),
            ConnectAction::Fail(ConnectFailure::NoSocket),
        ),
        (ConnectState::Binding { .. }, ConnectEvent::Bound { ok }) => {
            if ok {
                (ConnectState::Connected, ConnectAction::MarkConnected)
            } else {
                (ConnectState::Failed(ConnectFailure::BindFailed), ConnectAction::Fail(ConnectFailure::BindFailed))
            }
        },
        (ConnectState::Tcp { port, attempt, issued: false }, ConnectEvent::Connected(reply)) => match reply {
            ConnectReply::Issued => next_attempt(port, attempt, true),
            ConnectReply::Unaddressable => next_attempt(port, attempt, false),
            ConnectReply::Failed => (
                ConnectState::Failed(ConnectFailure::ConnectFailed),
                ConnectAction::Fail(ConnectFailure::ConnectFailed),
            ),
        },
        (ConnectState::Tcp { port, attempt, issued: true }, ConnectEvent::Polled(phase)) => match phase {
            TcpPhase::Established => (ConnectState::Connected, ConnectAction::MarkConnected),
            TcpPhase::Closed | TcpPhase::CloseWait => (
                ConnectState::Failed(ConnectFailure::Refused),
                ConnectAction::Fail(ConnectFailure::Refused),
            ),
            TcpPhase::Opening => next_attempt(port, attempt, true),
        },
        _ => (st, ConnectAction::Ignore),
    }
}

/// The system call's answer: 0 once connected, `usize::MAX` otherwise.
pub fn connect_return(st: ConnectState) -> (r: usize)
    ensures
        r == (if st is Connected { 0 } else { usize::MAX }),
{
    match st {
        ConnectState::Connected => 0,
        _ => usize::MAX,
    }
}

} // verus!
