use ubx_capture::commands::configure_port_command;
use ubx_capture::commands::enable_nav_pvt_command;
use ubx_capture::commands::poll_version_command;
use ubx_capture::commands::PortId;
use ubx_capture::config::serial_config;
use ubx_capture::config::ConfigError;
use ubx_capture::config::DataBits;
use ubx_capture::config::Parity;
use ubx_capture::config::SerialConfig;
use ubx_capture::config::StopBits;
use ubx_capture::parser::FrameParser;

#[test]
fn supported_values_resolve() {
    let cfg = serial_config(9600, 8, 1, Parity::Off).unwrap();
    assert_eq!(cfg.baud, 9600);
    assert_eq!(cfg.data_bits, DataBits::Eight);
    assert_eq!(cfg.stop_bits, StopBits::One);
    assert_eq!(cfg.parity, Parity::Off);

    let cfg = serial_config(115200, 7, 2, Parity::Even).unwrap();
    assert_eq!(cfg.data_bits, DataBits::Seven);
    assert_eq!(cfg.stop_bits, StopBits::Two);
    assert_eq!(cfg.parity, Parity::Even);
}

#[test]
fn unsupported_data_bits_are_rejected() {
    assert_eq!(serial_config(9600, 5, 1, Parity::Off), Err(ConfigError::UnsupportedDataBits));
    assert_eq!(serial_config(9600, 9, 1, Parity::Off), Err(ConfigError::UnsupportedDataBits));
    // Data bits are checked before stop bits.
    assert_eq!(serial_config(9600, 6, 3, Parity::Off), Err(ConfigError::UnsupportedDataBits));
}

#[test]
fn unsupported_stop_bits_are_rejected() {
    assert_eq!(serial_config(9600, 8, 0, Parity::Odd), Err(ConfigError::UnsupportedStopBits));
    assert_eq!(serial_config(9600, 8, 3, Parity::Odd), Err(ConfigError::UnsupportedStopBits));
}

fn decode_sole_frame(bytes: &[u8]) -> (u8, u8, Vec<u8>) {
    let mut parser = FrameParser::new();
    let results = parser.consume_and_drain(bytes);
    assert_eq!(results.len(), 1);
    match &results[0] {
        Ok(f) => (f.class, f.id, f.payload.clone()),
        Err(e) => panic!("command bytes must decode as one frame, got {:?}", e),
    }
}

#[test]
fn port_configuration_command_is_one_frame_naming_its_target() {
    let cfg = SerialConfig {
        baud: 9600,
        data_bits: DataBits::Eight,
        stop_bits: StopBits::One,
        parity: Parity::Off,
    };
    let (bytes, target) = configure_port_command(PortId::Usb, &cfg);
    assert_eq!(bytes.len(), 28);
    let (class, id, payload) = decode_sole_frame(&bytes);
    assert_eq!((class, id), (target.class, target.id));
    assert_eq!((class, id), (0x06, 0x00));
    assert_eq!(payload.len(), 20);
    // The baud rate sits little endian at payload bytes 8..12.
    assert_eq!(&payload[8..12], &9600u32.to_le_bytes());
}

#[test]
fn message_rate_command_is_one_frame_naming_its_target() {
    let (bytes, target) = enable_nav_pvt_command([0, 1, 1, 1, 0, 0]);
    assert_eq!(bytes.len(), 16);
    let (class, id, payload) = decode_sole_frame(&bytes);
    assert_eq!((class, id), (target.class, target.id));
    assert_eq!((class, id), (0x06, 0x01));
    assert_eq!(payload.len(), 8);
    // The six per-port rates follow the named (class, id) pair.
    assert_eq!(&payload[2..8], &[0, 1, 1, 1, 0, 0]);
}

#[test]
fn version_poll_is_one_empty_frame() {
    let bytes = poll_version_command();
    assert_eq!(bytes.len(), 8);
    let (class, id, payload) = decode_sole_frame(&bytes);
    assert_eq!((class, id), (0x0a, 0x04));
    assert_eq!(payload.len(), 0);
}
