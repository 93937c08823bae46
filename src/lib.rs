//! Core of a serial-line field-device protocol: the MODBUS checksum, the frame
//! codec, the function/register vocabulary and the registry of configured
//! devices.

pub mod checksum;
pub mod device;
pub mod frame;
pub mod function;

pub use checksum::checksum;
pub use device::{create_device, CreateDeviceError, Device, DeviceRegistry, DeviceType, NoStateError};
pub use frame::{decode, encode, encode_command, encode_request, register_payload, DecodeError, Frame};
pub use function::{Command, Function, FunctionType, Register};
