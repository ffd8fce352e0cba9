//! Connection options and the choice of transport.

use vstd::prelude::*;

verus! {

/// An IP address.
#[derive(Clone, Copy, Debug, PartialEq, Eq)]
pub enum IpAddr {
    V4(u8, u8, u8, u8),
    V6(u16, u16, u16, u16, u16, u16, u16, u16),
}

/// A TCP endpoint: an IP address and a port.
#[derive(Clone, Copy, Debug, PartialEq, Eq)]
pub struct SocketAddr {
    pub ip: IpAddr,
    pub port: u16,
}

/// Where to connect.
#[derive(Clone, Debug, PartialEq, Eq)]
pub enum Endpoint {
    Unix(String),
    Tcp(SocketAddr),
}

/// The options of a connection. An empty user, password or database name
/// counts as unset.
#[derive(Clone, Debug, PartialEq, Eq)]
pub struct MyOpts {
    pub tcp_addr: Option<SocketAddr>,
    pub unix_addr: Option<String>,
    pub user: Option<String>,
    pub pass: Option<String>,
    pub db_name: Option<String>,
    pub prefer_socket: bool,
}

/// The text of an optional string, empty when unset.
pub open spec fn text_or_empty(s: Option<String>) -> Seq<char> {
    match s {
        Some(x) => x@,
        None => Seq::empty(),
    }
}

fn clone_or_empty(s: &Option<String>) -> (r: String)
    ensures
        r@ == text_or_empty(*s),
{
    match s {
        Some(x) => x.clone(),
        None => String::new(),
    }
}

/// Whether `ip` is the loopback address `127.0.0.1` or `::1`.
pub open spec fn is_loopback(ip: IpAddr) -> bool {
    ip == IpAddr::V4(127, 0, 0, 1) || ip == IpAddr::V6(0, 0, 0, 0, 0, 0, 0, 1)
}

/// No socket is set, the socket is preferred, and the TCP address is a
/// loopback one.
pub open spec fn socket_candidate(o: MyOpts) -> bool {
    o.unix_addr is None && o.prefer_socket && match o.tcp_addr {
        Some(a) => is_loopback(a.ip),
        None => false,
    }
}

impl MyOpts {
    /// The user name, empty when unset.
    pub fn get_user(&self) -> (r: String)
        ensures
            r@ == text_or_empty(self.user),
    {
        clone_or_empty(&self.user)
    }

    /// The password, empty when unset.
    pub fn get_pass(&self) -> (r: String)
        ensures
            r@ == text_or_empty(self.pass),
    {
        clone_or_empty(&self.pass)
    }

    /// The database name, empty when unset.
    pub fn get_db_name(&self) -> (r: String)
        ensures
            r@ == text_or_empty(self.db_name),
    {
        clone_or_empty(&self.db_name)
    }

    /// The endpoint to connect to: the UNIX socket when one is set, else the
    /// TCP address, else none.
    pub fn endpoint(&self) -> (r: Option<Endpoint>)
        ensures
            match self.unix_addr {
                Some(p) => r matches Some(Endpoint::Unix(q)) && q@ == p@,
                None => match self.tcp_addr {
                    Some(a) => r == Some(Endpoint::Tcp(a)),
                    None => r is None,
                },
            },
    {
        match &self.unix_addr {
            Some(p) => Some(Endpoint::Unix(p.clone())),
            None => match self.tcp_addr {
                Some(a) => Some(Endpoint::Tcp(a)),
                None => None,
            },
        }
    }

    /// Whether, once connected over TCP, the connection should ask the server
    /// for its local socket and move there: the socket is preferred and the
    /// TCP address is a loopback one.
    pub fn should_try_socket(&self) -> (r: bool)
        ensures
            r == socket_candidate(*self),
    {
        if self.unix_addr.is_some() || !self.prefer_socket {
            return false;
        }
        match self.tcp_addr {
            Some(a) => match a.ip {
                IpAddr::V4(x0, x1, x2, x3) => x0 == 127 && x1 == 0 && x2 == 0 && x3 == 1,
                IpAddr::V6(x0, x1, x2, x3, x4, x5, x6, x7) => x0 == 0 && x1 == 0 && x2 == 0 && x3
                    == 0 && x4 == 0 && x5 == 0 && x6 == 0 && x7 == 1,
            },
            None => false,
        }
    }

    /// These options with the UNIX socket at `path`.
    pub fn with_socket(&self, path: String) -> (r: MyOpts)
        ensures
            r.unix_addr == Some(path),
            r.tcp_addr == self.tcp_addr,
            r.user == self.user,
            r.pass == self.pass,
            r.db_name == self.db_name,
            r.prefer_socket == self.prefer_socket,
    {
        MyOpts {
            tcp_addr: self.tcp_addr,
            unix_addr: Some(path),
            user: self.user.clone(),
            pass: self.pass.clone(),
            db_name: self.db_name.clone(),
            prefer_socket: self.prefer_socket,
        }
    }
}

impl Default for MyOpts {
    /// TCP to `127.0.0.1:3306`, no credentials, socket preferred.
    fn default() -> (r: MyOpts)
        ensures
            r.tcp_addr == Some(SocketAddr { ip: IpAddr::V4(127, 0, 0, 1), port: 3306 }),
            r.unix_addr is None,
            r.user is None,
            r.pass is None,
            r.db_name is None,
            r.prefer_socket,
    {
        MyOpts {
            tcp_addr: Some(SocketAddr { ip: IpAddr::V4(127, 0, 0, 1), port: 3306 }),
            unix_addr: None,
            user: None,
            pass: None,
            db_name: None,
            prefer_socket: true,
        }
    }
}

} // verus!
