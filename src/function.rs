use vstd::prelude::*;

verus! {

/// An addressable data slot on a device.
#[derive(Clone, Copy, Debug, PartialEq, Eq, Structural)]
pub struct Register {
    pub address: u16,
    /// Length in bytes of the register's payload.
    pub length: u16,
}

/// The closed set of operations a device understands.
#[derive(Clone, Copy, Debug, PartialEq, Eq, Structural)]
pub enum Command {
    ReadHoldingRegister,
    ReadInputRegister,
    WriteSingleRegister,
    Diagnostics,
    WriteMultipleRegisters,
}

/// The one-byte function code of each operation.
pub open spec fn command_code(c: Command) -> u8 {
    match c {
        Command::ReadHoldingRegister => 0x03,
        Command::ReadInputRegister => 0x04,
        Command::WriteSingleRegister => 0x06,
        Command::Diagnostics => 0x08,
        Command::WriteMultipleRegisters => 0x10,
    }
}

impl Command {
    pub fn code(&self) -> (r: u8)
        ensures
            r == command_code(*self),
    {
        match self {
            Command::ReadHoldingRegister => 0x03,
            Command::ReadInputRegister => 0x04,
            Command::WriteSingleRegister => 0x06,
            Command::Diagnostics => 0x08,
            Command::WriteMultipleRegisters => 0x10,
        }
    }
}

/// The kinds of request that are built against a single register.
#[derive(Clone, Copy, Debug, PartialEq, Eq, Structural)]
pub enum FunctionType {
    ReadHoldingRegister,
    ReadInputRegister,
    WriteHoldingRegister,
}

/// The operation that each request kind performs on the wire.
pub open spec fn function_command(t: FunctionType) -> Command {
    match t {
        FunctionType::ReadHoldingRegister => Command::ReadHoldingRegister,
        FunctionType::ReadInputRegister => Command::ReadInputRegister,
        FunctionType::WriteHoldingRegister => Command::WriteSingleRegister,
    }
}

impl FunctionType {
    pub fn command(&self) -> (r: Command)
        ensures
            r == function_command(*self),
    {
        match self {
            FunctionType::ReadHoldingRegister => Command::ReadHoldingRegister,
            FunctionType::ReadInputRegister => Command::ReadInputRegister,
            FunctionType::WriteHoldingRegister => Command::WriteSingleRegister,
        }
    }
}

/// A typed request: an operation and the register it addresses.
#[derive(Clone, Copy, Debug, PartialEq, Eq, Structural)]
pub struct Function {
    pub register: Register,
    pub function_type: FunctionType,
}

impl Function {
    /// The function-code byte of this request.
    pub fn code(&self) -> (r: u8)
        ensures
            r == command_code(function_command(self.function_type)),
    {
        self.function_type.command().code()
    }
}

} // verus!
