use line_relay::config::{load_config, Config, ConfigError, Entry};

#[test]
fn port_is_read_from_the_document() {
    assert_eq!(load_config("central_ip_port = 4000"), Ok(Config { central_ip_port: 4000 }));
    assert_eq!(load_config("central_ip_port = 4000\n"), Ok(Config { central_ip_port: 4000 }));
    assert_eq!(load_config("central_ip_port=8080"), Ok(Config { central_ip_port: 8080 }));
}

#[test]
fn other_keys_are_ignored() {
    let text = "name = \"relay\"\ncentral_ip_port = 4000\n\n[extra]\ncentral_ip_port = 1\n";
    assert_eq!(load_config(text), Ok(Config { central_ip_port: 4000 }));
}

#[test]
fn port_limits() {
    assert_eq!(load_config("central_ip_port = 0"), Ok(Config { central_ip_port: 0 }));
    assert_eq!(
        load_config("central_ip_port = 4294967295"),
        Ok(Config { central_ip_port: 4294967295 })
    );
    assert_eq!(
        load_config("central_ip_port = 4294967296"),
        Err(ConfigError::PortOutOfRange(4294967296))
    );
    assert_eq!(load_config("central_ip_port = -1"), Err(ConfigError::PortOutOfRange(-1)));
}

#[test]
fn port_in_other_notations() {
    assert_eq!(load_config("central_ip_port = 0x0fa0"), Ok(Config { central_ip_port: 4000 }));
    assert_eq!(load_config("central_ip_port = 4_000"), Ok(Config { central_ip_port: 4000 }));
    assert_eq!(load_config("central_ip_port = +4000"), Ok(Config { central_ip_port: 4000 }));
}

#[test]
fn missing_port_is_an_error() {
    assert_eq!(load_config(""), Err(ConfigError::MissingPort));
    assert_eq!(load_config("port = 4000"), Err(ConfigError::MissingPort));
    assert_eq!(load_config("[central_ip_port_section]\nx = 1"), Err(ConfigError::MissingPort));
    assert_eq!(load_config("Central_Ip_Port = 4000"), Err(ConfigError::MissingPort));
}

#[test]
fn invalid_syntax_is_an_error() {
    assert_eq!(load_config("central_ip_port = "), Err(ConfigError::Syntax));
    assert_eq!(load_config("central_ip_port 4000"), Err(ConfigError::Syntax));
    assert_eq!(load_config("= 4000"), Err(ConfigError::Syntax));
    assert_eq!(load_config("central_ip_port = 4000 4001"), Err(ConfigError::Syntax));
    assert_eq!(
        load_config("central_ip_port = 4000\ncentral_ip_port = 4001"),
        Err(ConfigError::Syntax)
    );
    assert_eq!(
        load_config("central_ip_port = 99999999999999999999999"),
        Err(ConfigError::Syntax)
    );
}

#[test]
fn mistyped_port_is_an_error() {
    assert_eq!(
        load_config("central_ip_port = \"4000\""),
        Err(ConfigError::PortNotInteger(Entry::String))
    );
    assert_eq!(
        load_config("central_ip_port = 4000.0"),
        Err(ConfigError::PortNotInteger(Entry::Float))
    );
    assert_eq!(
        load_config("central_ip_port = true"),
        Err(ConfigError::PortNotInteger(Entry::Boolean))
    );
    assert_eq!(
        load_config("central_ip_port = 1979-05-27"),
        Err(ConfigError::PortNotInteger(Entry::Datetime))
    );
    assert_eq!(
        load_config("central_ip_port = [4000]"),
        Err(ConfigError::PortNotInteger(Entry::Array))
    );
    assert_eq!(
        load_config("[central_ip_port]\nvalue = 4000"),
        Err(ConfigError::PortNotInteger(Entry::Table))
    );
}

#[test]
fn entry_decides_the_configuration() {
    assert_eq!(Config::from_entry(Some(Entry::Integer(4000))), Ok(Config { central_ip_port: 4000 }));
    assert_eq!(Config::from_entry(Some(Entry::Integer(0))), Ok(Config { central_ip_port: 0 }));
    assert_eq!(
        Config::from_entry(Some(Entry::Integer(4294967295))),
        Ok(Config { central_ip_port: u32::MAX })
    );
    assert_eq!(
        Config::from_entry(Some(Entry::Integer(4294967296))),
        Err(ConfigError::PortOutOfRange(4294967296))
    );
    assert_eq!(
        Config::from_entry(Some(Entry::Integer(i64::MIN))),
        Err(ConfigError::PortOutOfRange(i64::MIN))
    );
    assert_eq!(Config::from_entry(None), Err(ConfigError::MissingPort));
    assert_eq!(
        Config::from_entry(Some(Entry::Float)),
        Err(ConfigError::PortNotInteger(Entry::Float))
    );
}

#[test]
fn bind_address_is_all_interfaces_and_the_port() {
    assert_eq!(Config { central_ip_port: 4000 }.bind_address(), "0.0.0.0:4000");
    assert_eq!(Config { central_ip_port: 0 }.bind_address(), "0.0.0.0:0");
    assert_eq!(Config { central_ip_port: 7 }.bind_address(), "0.0.0.0:7");
    assert_eq!(Config { central_ip_port: 10 }.bind_address(), "0.0.0.0:10");
    assert_eq!(Config { central_ip_port: 65535 }.bind_address(), "0.0.0.0:65535");
    assert_eq!(Config { central_ip_port: 1002003 }.bind_address(), "0.0.0.0:1002003");
    assert_eq!(Config { central_ip_port: u32::MAX }.bind_address(), "0.0.0.0:4294967295");
}

#[test]
fn bind_address_agrees_with_std_formatting() {
    for port in [1u32, 9, 19, 99, 100, 101, 999, 1000, 40000, 123456789, 4294967290] {
        assert_eq!(Config { central_ip_port: port }.bind_address(), format!("0.0.0.0:{}", port));
    }
}

#[test]
fn errors_have_messages() {
    assert_eq!(ConfigError::Unreadable.message(), "cannot read the configuration file");
    assert_eq!(ConfigError::Syntax.message(), "the configuration is not valid TOML");
    assert_eq!(ConfigError::MissingPort.message(), "missing field `central_ip_port`");
    assert_eq!(
        ConfigError::PortNotInteger(Entry::String).message(),
        "invalid type for `central_ip_port`: expected an integer"
    );
    assert_eq!(
        ConfigError::PortOutOfRange(-1).message(),
        "invalid value for `central_ip_port`: expected an unsigned 32-bit integer"
    );
}
