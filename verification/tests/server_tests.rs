use line_relay::config::{Config, ConfigError, Entry};
use line_relay::server::{Action, Input, Phase, Server, Stop};

fn text(s: &str) -> Input {
    Input::ConfigText(s.to_string())
}

#[test]
fn server_starts_by_awaiting_its_configuration() {
    let s = Server::new();
    assert_eq!(s.phase(), Phase::Starting);
    assert!(!s.is_listening());
}

#[test]
fn configured_port_is_the_port_bound() {
    let mut s = Server::new();
    assert_eq!(s.step(text("central_ip_port = 4000")), Action::Bind("0.0.0.0:4000".to_string()));
    assert_eq!(s.phase(), Phase::Binding(Config { central_ip_port: 4000 }));
    assert!(!s.is_listening());
    assert_eq!(s.step(Input::Bound), Action::Accept);
    assert_eq!(s.phase(), Phase::Listening(Config { central_ip_port: 4000 }));
    assert!(s.is_listening());
}

#[test]
fn each_accepted_connection_is_served_and_the_next_awaited() {
    let mut s = Server::new();
    s.step(text("central_ip_port = 4000"));
    s.step(Input::Bound);
    for _ in 0..1000 {
        assert_eq!(s.step(Input::Accepted), Action::Serve);
        assert!(s.is_listening());
    }
}

#[test]
fn missing_field_prevents_listening() {
    let mut s = Server::new();
    assert_eq!(s.step(text("other = 1")), Action::Exit(Stop::Config(ConfigError::MissingPort)));
    assert_eq!(s.phase(), Phase::Stopped(Stop::Config(ConfigError::MissingPort)));
    assert_eq!(s.step(Input::Bound), Action::Ignore);
    assert_eq!(s.step(Input::Accepted), Action::Ignore);
    assert_eq!(s.step(text("central_ip_port = 4000")), Action::Ignore);
    assert!(!s.is_listening());
    assert_eq!(s.phase(), Phase::Stopped(Stop::Config(ConfigError::MissingPort)));
}

#[test]
fn invalid_syntax_prevents_listening() {
    let mut s = Server::new();
    assert_eq!(s.step(text("central_ip_port = = 1")), Action::Exit(Stop::Config(ConfigError::Syntax)));
    assert_eq!(s.step(Input::Bound), Action::Ignore);
    assert!(!s.is_listening());
}

#[test]
fn mistyped_field_prevents_listening() {
    let mut s = Server::new();
    assert_eq!(
        s.step(text("central_ip_port = \"4000\"")),
        Action::Exit(Stop::Config(ConfigError::PortNotInteger(Entry::String)))
    );
    assert_eq!(s.step(Input::Bound), Action::Ignore);
    assert!(!s.is_listening());
}

#[test]
fn unreadable_configuration_prevents_listening() {
    let mut s = Server::new();
    assert_eq!(s.step(Input::ConfigUnreadable), Action::Exit(Stop::Config(ConfigError::Unreadable)));
    assert_eq!(s.step(Input::Bound), Action::Ignore);
    assert!(!s.is_listening());
}

#[test]
fn failed_bind_stops_the_server() {
    let mut s = Server::new();
    s.step(text("central_ip_port = 80"));
    assert_eq!(s.step(Input::BindFailed), Action::Exit(Stop::BindFailed));
    assert_eq!(s.phase(), Phase::Stopped(Stop::BindFailed));
    assert_eq!(s.step(Input::Bound), Action::Ignore);
    assert!(!s.is_listening());
}

#[test]
fn failed_accept_stops_the_server() {
    let mut s = Server::new();
    s.step(text("central_ip_port = 4000"));
    s.step(Input::Bound);
    assert_eq!(s.step(Input::Accepted), Action::Serve);
    assert_eq!(s.step(Input::AcceptFailed), Action::Exit(Stop::AcceptFailed));
    assert_eq!(s.phase(), Phase::Stopped(Stop::AcceptFailed));
    assert_eq!(s.step(Input::Accepted), Action::Ignore);
    assert!(!s.is_listening());
}

#[test]
fn reports_out_of_turn_are_ignored() {
    let mut s = Server::new();
    for input in [Input::Bound, Input::BindFailed, Input::Accepted, Input::AcceptFailed] {
        assert_eq!(s.step(input), Action::Ignore);
        assert_eq!(s.phase(), Phase::Starting);
    }
    s.step(text("central_ip_port = 4000"));
    for input in [Input::Accepted, Input::AcceptFailed, Input::ConfigUnreadable, text("x = 1")] {
        assert_eq!(s.step(input), Action::Ignore);
        assert_eq!(s.phase(), Phase::Binding(Config { central_ip_port: 4000 }));
    }
    s.step(Input::Bound);
    for input in [Input::Bound, Input::BindFailed, Input::ConfigUnreadable, text("x = 1")] {
        assert_eq!(s.step(input), Action::Ignore);
        assert!(s.is_listening());
    }
}

#[test]
fn stop_reasons_have_messages() {
    assert_eq!(Stop::BindFailed.message(), "cannot bind the listening socket");
    assert_eq!(Stop::AcceptFailed.message(), "cannot accept a connection");
    assert_eq!(Stop::Config(ConfigError::Syntax).message(), ConfigError::Syntax.message());
}
