use rengarde::client::settings::{ClientSettings, WebManager as ClientWebManager};
use rengarde::header::header_line;
use rengarde::notice::SettingsNotice;
use rengarde::server::settings::{Server, WebManager};

fn server(client_timeout: Option<u64>, write_timeout: Option<u64>) -> Server {
    Server {
        description: Some(String::from("test server")),
        listen_addr: String::from("0.0.0.0:59401"),
        dst_addr: String::from("127.0.0.1:51820"),
        client_timeout,
        write_timeout,
        web_manager: None,
    }
}

fn client(write_timeout: Option<u64>) -> ClientSettings {
    ClientSettings {
        description: None,
        listen_addr: String::from("127.0.0.1:59401"),
        dst_addr: String::from("example.net:59401"),
        write_timeout,
        excluded_interfaces: vec![String::from("lo")],
        web_manager: Some(ClientWebManager {
            listen_addr: Some(String::from("0.0.0.0:9001")),
            username: None,
            password: None,
        }),
    }
}

#[test]
fn server_defaults_everything() {
    let mut s = server(None, None);
    let notices = s.complete();
    assert_eq!(s.client_timeout, Some(30));
    assert_eq!(s.write_timeout, Some(0));
    assert_eq!(
        notices,
        vec![
            SettingsNotice::ClientTimeoutDefaulted,
            SettingsNotice::WriteTimeoutDefaulted,
            SettingsNotice::WriteTimeoutDisabled
        ]
    );
    assert_eq!(s.listen_addr, "0.0.0.0:59401");
    assert_eq!(s.description.as_deref(), Some("test server"));
}

#[test]
fn server_zero_timeout_is_defaulted() {
    let mut s = server(Some(0), Some(0));
    let notices = s.complete();
    assert_eq!(s.client_timeout, Some(30));
    assert_eq!(s.write_timeout, Some(0));
    assert_eq!(notices, vec![SettingsNotice::ClientTimeoutDefaulted]);
}

#[test]
fn server_write_timeout_is_disabled() {
    let mut s = server(Some(45), Some(5));
    let notices = s.complete();
    assert_eq!(s.client_timeout, Some(45));
    assert_eq!(s.write_timeout, Some(0));
    assert_eq!(notices, vec![SettingsNotice::WriteTimeoutDisabled]);
    assert_eq!(s.client_timeout_secs(), 45);
}

#[test]
fn server_completion_is_idempotent() {
    let mut s = server(None, Some(7));
    let first = s.complete();
    assert_eq!(first.len(), 2);
    let second = s.complete();
    assert!(second.is_empty());
    assert_eq!(s.client_timeout, Some(30));
    assert_eq!(s.write_timeout, Some(0));
}

#[test]
fn server_timeout_seconds_default() {
    assert_eq!(server(None, None).client_timeout_secs(), 30);
    assert_eq!(server(Some(0), None).client_timeout_secs(), 30);
    assert_eq!(server(Some(12), None).client_timeout_secs(), 12);
    let _ = WebManager { listen_addr: None, username: None, password: None };
}

#[test]
fn client_defaults_write_timeout() {
    let mut c = client(None);
    let notices = c.complete();
    assert_eq!(c.write_timeout, Some(0));
    assert_eq!(
        notices,
        vec![SettingsNotice::WriteTimeoutDefaulted, SettingsNotice::WriteTimeoutDisabled]
    );
    assert_eq!(c.excluded_interfaces, vec![String::from("lo")]);
}

#[test]
fn client_write_timeout_cases() {
    let mut c = client(Some(0));
    assert!(c.complete().is_empty());
    assert_eq!(c.write_timeout, Some(0));
    let mut d = client(Some(250));
    assert_eq!(d.complete(), vec![SettingsNotice::WriteTimeoutDisabled]);
    assert_eq!(d.write_timeout, Some(0));
    assert!(d.complete().is_empty());
}

#[test]
fn header_with_revision() {
    assert_eq!(
        header_line("server", "0.1.0", Some("abc123")),
        "rengarde-server ver. 0.1.0 rev. abc123"
    );
}

#[test]
fn header_without_revision() {
    assert_eq!(header_line("client", "1.2.3", None), "rengarde-client ver. 1.2.3 rev. UNKNOWN");
}
