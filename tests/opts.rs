use mysql_core::opts::{Endpoint, IpAddr, MyOpts, SocketAddr};

#[test]
fn default_options() {
    let o = MyOpts::default();
    assert_eq!(o.tcp_addr, Some(SocketAddr { ip: IpAddr::V4(127, 0, 0, 1), port: 3306 }));
    assert!(o.unix_addr.is_none() && o.user.is_none() && o.prefer_socket);
    assert_eq!(o.get_user(), "");
    assert_eq!(o.get_pass(), "");
    assert_eq!(o.get_db_name(), "");
}

#[test]
fn endpoint_prefers_unix_socket() {
    let o = MyOpts::default();
    assert_eq!(o.endpoint(), Some(Endpoint::Tcp(SocketAddr { ip: IpAddr::V4(127, 0, 0, 1), port: 3306 })));
    assert!(o.should_try_socket());
    let s = o.with_socket("/run/mysqld/mysqld.sock".to_string());
    assert_eq!(s.endpoint(), Some(Endpoint::Unix("/run/mysqld/mysqld.sock".to_string())));
    assert!(!s.should_try_socket());
    let mut remote = MyOpts::default();
    remote.tcp_addr = Some(SocketAddr { ip: IpAddr::V4(10, 0, 0, 1), port: 3306 });
    assert!(!remote.should_try_socket());
    remote.tcp_addr = Some(SocketAddr { ip: IpAddr::V6(0, 0, 0, 0, 0, 0, 0, 1), port: 3306 });
    assert!(remote.should_try_socket());
    remote.tcp_addr = None;
    assert_eq!(remote.endpoint(), None);
}
