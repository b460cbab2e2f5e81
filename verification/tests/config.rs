use remote_viewer_host::config::{agent_token_text, new_config, parse_init, InitError};
use remote_viewer_host::paths::{directory, log_path, screenshot_key_path};
use remote_viewer_host::{config_path, password_hash_path};

fn components(p: remote_viewer_host::paths::HostPath) -> Vec<String> {
    p.components
}

#[test]
fn paths_under_program_data() {
    assert_eq!(components(config_path(None)), vec!["C:\\ProgramData", "RVHost", "config.json"]);
    assert_eq!(
        components(password_hash_path(Some("D:\\Data".to_string()))),
        vec!["D:\\Data", "RVHost", "password.hash"]
    );
    assert_eq!(components(directory(None)), vec!["C:\\ProgramData", "RVHost", "screenshots"]);
    assert_eq!(components(screenshot_key_path(None))[2], "screenshots.key");
    assert_eq!(components(log_path(None))[2], "host.log");
}

#[test]
fn init_file_is_parsed() {
    let r = parse_init("  Office PC \r\n 5901\r\nsecret-pass\r\r\n").unwrap();
    assert_eq!(r.device_name, "Office PC");
    assert_eq!(r.port, 5901);
    assert_eq!(r.password, "secret-pass");
    let r = parse_init("name\n+80\n  spaced password  ").unwrap();
    assert_eq!(r.port, 80);
    assert_eq!(r.password, "  spaced password  ");
}

#[test]
fn init_file_errors() {
    assert_eq!(parse_init("").err(), Some(InitError::MissingName));
    assert_eq!(parse_init("name").err(), Some(InitError::MissingPort));
    assert_eq!(parse_init("name\n").err(), Some(InitError::MissingPort));
    assert_eq!(parse_init("name\nport\npassword1").err(), Some(InitError::InvalidPort));
    assert_eq!(parse_init("name\n65536\npassword1").err(), Some(InitError::InvalidPort));
    assert_eq!(parse_init("name\n5901").err(), Some(InitError::MissingPassword));
    assert_eq!(parse_init(" \n5901\npassword1").err(), Some(InitError::InvalidSettings));
    assert_eq!(parse_init("name\n0\npassword1").err(), Some(InitError::InvalidSettings));
    assert_eq!(parse_init("name\n45901\npassword1").err(), Some(InitError::InvalidSettings));
    assert_eq!(parse_init("name\n5901\nshort").err(), Some(InitError::InvalidSettings));
    let long_password = "p".repeat(257);
    assert_eq!(
        parse_init(&format!("name\n5901\n{long_password}")).err(),
        Some(InitError::InvalidSettings)
    );
    assert!(parse_init(&format!("name\n5901\n{}", "p".repeat(256))).is_ok());
    // 64 bytes is the limit, counted in UTF-8
    assert!(parse_init(&format!("{}\n5901\npassword1", "n".repeat(64))).is_ok());
    assert_eq!(
        parse_init(&format!("{}\n5901\npassword1", "é".repeat(33))).err(),
        Some(InitError::InvalidSettings)
    );
    assert!(parse_init(&format!("{}\n5901\npassword1", "é".repeat(32))).is_ok());
    // a password of 4 characters but 8 bytes
    assert!(parse_init("name\n5901\néééé").is_ok());
    // Unicode whitespace is trimmed from the name
    assert_eq!(parse_init("\u{3000}pc\u{a0}\n1\npassword1").unwrap().device_name, "pc");
}

#[test]
fn token_and_config() {
    let mut token = [0u8; 32];
    token[0] = 0xAB;
    token[31] = 0x0F;
    let text = agent_token_text(&token);
    assert_eq!(text.len(), 64);
    assert!(text.starts_with("ab00"));
    assert!(text.ends_with("000f"));
    let c = new_config("pc".to_string(), 5901, text.clone());
    assert_eq!(c.device_name, "pc");
    assert_eq!(c.port, 5901);
    assert_eq!(c.jpeg_quality, 70);
    assert_eq!(c.max_fps, 30);
    assert_eq!(c.agent_token, text);
    assert_eq!(c.ipc_port, 45901);
}
