//! Configuration commands sent to the device.  The external protocol
//! library encodes each command; what the library guarantees here is
//! that every encoded command is exactly one well-formed frame of the
//! command's (class, id) pair, and that the acknowledgment target the
//! caller must wait for names that same pair.

use vstd::prelude::*;

use crate::ack::AckTarget;
use crate::config::DataBits;
use crate::config::Parity;
use crate::config::SerialConfig;
use crate::config::StopBits;
use crate::frame::sole_frame;

use ublox::cfg_prt::CfgPrtUartBuilder;
use ublox::cfg_prt::DataBits as UartDataBits;
use ublox::cfg_prt::InProtoMask;
use ublox::cfg_prt::OutProtoMask;
use ublox::cfg_prt::Parity as UartParity;
use ublox::cfg_prt::StopBits as UartStopBits;
use ublox::cfg_prt::UartMode;
use ublox::cfg_prt::UartPortId;

verus! {

/// Message class of port-configuration commands.
pub const CFG_PRT_CLASS: u8 = 0x06;
/// Message id of UART/USB port-configuration commands.
pub const CFG_PRT_ID: u8 = 0x00;
/// Message class of message-rate configuration commands.
pub const CFG_MSG_CLASS: u8 = 0x06;
/// Message id of all-ports message-rate configuration commands.
pub const CFG_MSG_ID: u8 = 0x01;

/// Which device port a configuration command addresses.
#[derive(Clone, Copy, Debug, PartialEq, Eq, Structural)]
pub enum PortId {
    Usb,
    Uart1,
    Uart2,
}

/// What the external protocol library encodes a port configuration to:
/// a function of the addressed port and the requested parameters alone.
/// This names the result of `cfg_prt::CfgPrtUartBuilder::into_packet_bytes`.
pub uninterp spec fn cfg_prt_frame(port: PortId, cfg: SerialConfig) -> Seq<u8>;

/// What the external protocol library encodes a message-rate table to:
/// a function of the six per-port rates alone.  This names the result
/// of `cfg_msg::CfgMsgAllPortsBuilder::set_rate_for` for the
/// navigation-solution message, turned into packet bytes.
pub uninterp spec fn cfg_msg_frame(rates: Seq<u8>) -> Seq<u8>;

/// Relies on ublox's `cfg_prt::CfgPrtUartBuilder::into_packet_bytes`:
/// it emits one complete frame — sync marker, class 0x06, id 0x00, the
/// fixed 20-byte port-configuration payload, and a valid Fletcher
/// checksum — computed from the port and parameters alone.
#[verifier::external_body]
fn encode_cfg_prt_uart(port: PortId, cfg: &SerialConfig) -> (r: Vec<u8>)
    ensures
        r@ == cfg_prt_frame(port, *cfg),
        sole_frame(r@, CFG_PRT_CLASS, CFG_PRT_ID),
        r@.len() == 28,
{
    let portid = match port {
        PortId::Usb => UartPortId::Usb,
        PortId::Uart1 => UartPortId::Uart1,
        PortId::Uart2 => UartPortId::Uart2,
    };
    let mode = UartMode::new(
        match cfg.data_bits { DataBits::Seven => UartDataBits::Seven, DataBits::Eight => UartDataBits::Eight },
        match cfg.parity { Parity::Even => UartParity::Even, Parity::Odd => UartParity::Odd, Parity::Off => UartParity::None },
        match cfg.stop_bits { StopBits::One => UartStopBits::One, StopBits::Two => UartStopBits::Two },
    );
    CfgPrtUartBuilder { portid, reserved0: 0, tx_ready: 0, mode, baud_rate: cfg.baud, in_proto_mask: InProtoMask::UBLOX, out_proto_mask: OutProtoMask::UBLOX, flags: 0, reserved5: 0 }.into_packet_bytes().to_vec()
}

/// Relies on ublox's `cfg_msg::CfgMsgAllPortsBuilder::into_packet_bytes`
/// with the navigation-solution message selected: it emits one complete
/// frame — sync marker, class 0x06, id 0x01, the fixed 8-byte rate
/// table, and a valid Fletcher checksum — computed from the rates alone.
#[verifier::external_body]
fn encode_cfg_msg_nav_pvt(rates: [u8; 6]) -> (r: Vec<u8>)
    ensures
        r@ == cfg_msg_frame(rates@),
        sole_frame(r@, CFG_MSG_CLASS, CFG_MSG_ID),
        r@.len() == 16,
{
    ublox::cfg_msg::CfgMsgAllPortsBuilder::set_rate_for::<ublox::nav_pvt::proto23::NavPvt>(rates)
        .into_packet_bytes()
        .to_vec()
}

/// Relies on ublox's `UbxPacketRequest::into_packet_bytes` for the
/// receiver/software-version message: it emits one complete frame with
/// that message's (class, id) pair, an empty payload, and a valid
/// Fletcher checksum.
#[verifier::external_body]
fn encode_poll_mon_ver() -> (r: Vec<u8>)
    ensures
        sole_frame(r@, 0x0a, 0x04),
        r@.len() == 8,
{
    ublox::UbxPacketRequest::request_for::<ublox::mon_ver::MonVer>().into_packet_bytes().to_vec()
}

/// The port-configuration command for `port` with parameters `cfg`,
/// paired with the acknowledgment target a caller must wait for: the
/// bytes are the encoding of exactly this port and these parameters,
/// and exactly one well-formed frame whose (class, id) the target
/// names.
pub fn configure_port_command(port: PortId, cfg: &SerialConfig) -> (r: (Vec<u8>, AckTarget))
    ensures
        r.0@ == cfg_prt_frame(port, *cfg),
        sole_frame(r.0@, r.1.class, r.1.id),
        r.1 == (AckTarget { class: CFG_PRT_CLASS, id: CFG_PRT_ID }),
{
    let bytes = encode_cfg_prt_uart(port, cfg);
    (bytes, AckTarget { class: CFG_PRT_CLASS, id: CFG_PRT_ID })
}

/// The command enabling the navigation-solution message at the given
/// per-port rates, paired with its acknowledgment target: the bytes are
/// the encoding of exactly these rates.
pub fn enable_nav_pvt_command(rates: [u8; 6]) -> (r: (Vec<u8>, AckTarget))
    ensures
        r.0@ == cfg_msg_frame(rates@),
        sole_frame(r.0@, r.1.class, r.1.id),
        r.1 == (AckTarget { class: CFG_MSG_CLASS, id: CFG_MSG_ID }),
{
    let bytes = encode_cfg_msg_nav_pvt(rates);
    (bytes, AckTarget { class: CFG_MSG_CLASS, id: CFG_MSG_ID })
}

/// The one-shot poll request for the receiver's version message: one
/// well-formed frame; no acknowledgment follows a poll.
pub fn poll_version_command() -> (r: Vec<u8>)
    ensures
        sole_frame(r@, 0x0a, 0x04),
{
    encode_poll_mon_ver()
}

} // verus!
