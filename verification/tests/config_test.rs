use can_receiver::config::{
    baud_rate_from_lowercase, format_can_baud_rate, get_default_device_port, parse_can_baud_rate, CanBaudRate,
    Config, ConfigError, TargetOs,
};

#[test]
fn default_device_ports() {
    assert_eq!(get_default_device_port(TargetOs::Linux), "/dev/ttyUSB0");
    assert_eq!(get_default_device_port(TargetOs::Windows), "COM4");
    assert_eq!(get_default_device_port(TargetOs::MacOs), "/dev/cu.wchusbserial110");
    assert_eq!(get_default_device_port(TargetOs::Other), "/dev/ttyUSB0");
}

#[test]
fn baud_rate_names() {
    assert_eq!(parse_can_baud_rate("500k").unwrap(), CanBaudRate::R500kBd);
    assert_eq!(parse_can_baud_rate("500K").unwrap(), CanBaudRate::R500kBd);
    assert_eq!(parse_can_baud_rate("125000").unwrap(), CanBaudRate::R125kBd);
    assert_eq!(parse_can_baud_rate("1M").unwrap(), CanBaudRate::R1000kBd);
    assert_eq!(parse_can_baud_rate("1000000").unwrap(), CanBaudRate::R1000kBd);
    assert_eq!(baud_rate_from_lowercase("5k"), Some(CanBaudRate::R5kBd));
    assert_eq!(baud_rate_from_lowercase("5K"), None);
    match parse_can_baud_rate("300k") {
        Err(ConfigError::UnknownBaudRate { value }) => assert_eq!(value, "300k"),
        other => panic!("unexpected {:?}", other),
    }
}

#[test]
fn baud_rate_round_trip() {
    let all = [
        CanBaudRate::R5kBd, CanBaudRate::R10kBd, CanBaudRate::R20kBd, CanBaudRate::R50kBd,
        CanBaudRate::R100kBd, CanBaudRate::R125kBd, CanBaudRate::R200kBd, CanBaudRate::R250kBd,
        CanBaudRate::R400kBd, CanBaudRate::R500kBd, CanBaudRate::R800kBd, CanBaudRate::R1000kBd,
    ];
    for rate in all {
        assert_eq!(parse_can_baud_rate(format_can_baud_rate(rate)).unwrap(), rate);
        assert_eq!(parse_can_baud_rate(&format_can_baud_rate(rate).to_uppercase()).unwrap(), rate);
    }
    assert_eq!(format_can_baud_rate(CanBaudRate::R1000kBd), "1000k");
}

#[test]
fn config_text_is_read() {
    let text = "# comment\n\n  device_port = /dev/ttyACM1  \ncan_baud_rate=250K\nsave_logs=false\r\nlog_level=debug\nno equals sign\n";
    let loaded = Config::load_from_text(text, TargetOs::Linux).unwrap();
    assert_eq!(loaded.config.device_port, "/dev/ttyACM1");
    assert_eq!(loaded.config.can_baud_rate, CanBaudRate::R250kBd);
    assert!(!loaded.config.save_logs);
    assert!(loaded.config.broadcast_raw_frames);
    assert_eq!(loaded.unknown_keys, vec!["log_level".to_string()]);
}

#[test]
fn config_defaults_and_errors() {
    let loaded = Config::load_from_text("", TargetOs::Windows).unwrap();
    assert_eq!(loaded.config.device_port, "COM4");
    assert_eq!(loaded.config.can_baud_rate, CanBaudRate::R500kBd);
    assert!(loaded.config.save_logs);
    assert!(loaded.config.broadcast_raw_frames);
    assert!(matches!(
        Config::load_from_text("can_baud_rate=fast\ndevice_port=x\n", TargetOs::Linux),
        Err(ConfigError::UnknownBaudRate { .. })
    ));
}

#[test]
fn config_file_round_trip() {
    let config = Config {
        device_port: "/dev/ttyUSB3".to_string(),
        can_baud_rate: CanBaudRate::R1000kBd,
        save_logs: true,
        broadcast_raw_frames: true,
    };
    let text = config.file_content();
    assert!(text.contains("device_port=/dev/ttyUSB3\n"));
    assert!(text.contains("can_baud_rate=1000k\n"));
    let loaded = Config::load_from_text(&text, TargetOs::Windows).unwrap();
    assert_eq!(loaded.config.device_port, "/dev/ttyUSB3");
    assert_eq!(loaded.config.can_baud_rate, CanBaudRate::R1000kBd);
    assert!(loaded.unknown_keys.is_empty());
}

#[test]
fn config_flags_are_read() {
    let loaded = Config::load_from_text("broadcast_raw_frames = false\nsave_logs=true\n", TargetOs::Linux).unwrap();
    assert!(loaded.config.save_logs);
    assert!(!loaded.config.broadcast_raw_frames);
    match Config::load_from_text("save_logs=yes\n", TargetOs::Linux) {
        Err(ConfigError::InvalidFlag { key, value }) => {
            assert_eq!(key, "save_logs");
            assert_eq!(value, "yes");
        }
        other => panic!("unexpected {:?}", other),
    }
    assert!(matches!(
        Config::load_from_text("broadcast_raw_frames=TRUE\n", TargetOs::Linux),
        Err(ConfigError::InvalidFlag { .. })
    ));
}

#[test]
fn default_config_for_each_os() {
    let config = Config::default_for(TargetOs::MacOs);
    assert_eq!(config.device_port, "/dev/cu.wchusbserial110");
    assert_eq!(config.can_baud_rate, CanBaudRate::R500kBd);
    assert!(config.save_logs);
    assert!(config.broadcast_raw_frames);
}
